//! Sets of rules.

use crate::best_path::select::RotondaPaMap;
use crate::flowspec::layout::{lengths_fit, nlri_len, pa_len, BLOB_VERSION, ENTRY_HEADER};
use crate::text::{decimal, decimal_text, join3};
use crate::wire::{
    be16, be16_round_trip, be32, be32_round_trip, copy_between, octets_count_by_their_place, put, put_be16,
    put_be32, read_be16, read_be32, same_octets,
};
use vstd::prelude::*;

verus! {

broadcast use lengths_fit;

/// How a stored rule fared in validation.
#[derive(Clone, Copy, Debug, PartialEq, Eq, Structural)]
pub enum FlowSpecValidity {
    /// Not yet validated.
    NotValidated,
    /// Passed the originator and more-specifics checks.
    Valid,
    /// Failed validation; stored all the same.
    Invalid,
    /// Cannot be validated for want of a usable destination prefix.
    Unvalidatable,
}

/// The validity in the two low bits of the flags.
pub open spec fn validity_in(flags: u8) -> FlowSpecValidity {
    if flags % 4 == 1 {
        FlowSpecValidity::Valid
    } else if flags % 4 == 2 {
        FlowSpecValidity::Invalid
    } else if flags % 4 == 3 {
        FlowSpecValidity::Unvalidatable
    } else {
        FlowSpecValidity::NotValidated
    }
}

impl FlowSpecValidity {
    /// The bits that stand for the validity.
    pub open spec fn bits(self) -> u8 {
        match self {
            FlowSpecValidity::NotValidated => 0,
            FlowSpecValidity::Valid => 1,
            FlowSpecValidity::Invalid => 2,
            FlowSpecValidity::Unvalidatable => 3,
        }
    }

    pub open spec fn name(self) -> Seq<char> {
        match self {
            FlowSpecValidity::NotValidated => "not-validated"@,
            FlowSpecValidity::Valid => "valid"@,
            FlowSpecValidity::Invalid => "invalid"@,
            FlowSpecValidity::Unvalidatable => "unvalidatable"@,
        }
    }

    /// Reads the validity out of the flags.
    pub fn from_flags(flags: u8) -> (r: FlowSpecValidity)
        ensures
            r == validity_in(flags),
    {
        match flags % 4 {
            1 => FlowSpecValidity::Valid,
            2 => FlowSpecValidity::Invalid,
            3 => FlowSpecValidity::Unvalidatable,
            _ => FlowSpecValidity::NotValidated,
        }
    }

    /// The bits that stand for the validity.
    pub fn to_flags(self) -> (r: u8)
        ensures
            r == self.bits(),
    {
        match self {
            FlowSpecValidity::NotValidated => 0,
            FlowSpecValidity::Valid => 1,
            FlowSpecValidity::Invalid => 2,
            FlowSpecValidity::Unvalidatable => 3,
        }
    }

    pub fn as_str(&self) -> (r: &'static str)
        ensures
            r@ == self.name(),
    {
        match self {
            FlowSpecValidity::NotValidated => "not-validated",
            FlowSpecValidity::Valid => "valid",
            FlowSpecValidity::Invalid => "invalid",
            FlowSpecValidity::Unvalidatable => "unvalidatable",
        }
    }
}

/// Reading the flags undoes writing them.
pub proof fn validity_round_trip(validity: FlowSpecValidity)
    ensures
        validity_in(validity.bits()) == validity,
{
}

/// One rule of a [`FlowSpecRuleSet`].
#[derive(Debug)]
pub struct FlowSpecRule {
    pub validity: FlowSpecValidity,
    /// The NLRI, which identifies the rule.
    pub nlri: Vec<u8>,
    pub pamap: RotondaPaMap,
}

/// What a [`FlowSpecRule`] holds.
pub ghost struct RuleView {
    pub validity: FlowSpecValidity,
    pub nlri: Seq<u8>,
    pub pamap: Seq<u8>,
}

impl View for FlowSpecRule {
    type V = RuleView;

    open spec fn view(&self) -> RuleView {
        RuleView { validity: self.validity, nlri: self.nlri@, pamap: self.pamap@ }
    }
}

/// One row of a query: a rule, the peer that announced it, and the prefix
/// that it is stored under.
#[derive(Debug)]
pub struct FlowSpecQueryRow {
    pub key_prefix: String,
    pub ingress_id: u32,
    pub rule: FlowSpecRule,
}

/// Length of the entry at the start of `body`.
pub open spec fn entry_len(body: Seq<u8>) -> int {
    ENTRY_HEADER + nlri_len(body) + pa_len(body)
}

/// The lengths in an entry are in its header.
proof fn lengths_agree(a: Seq<u8>, b: Seq<u8>)
    requires
        a.subrange(1, 3) == b.subrange(1, 3),
        a.subrange(3, 7) == b.subrange(3, 7),
    ensures
        nlri_len(a) == nlri_len(b),
        pa_len(a) == pa_len(b),
        entry_len(a) == entry_len(b),
{
    reveal(nlri_len);
    reveal(pa_len);
}

/// Whether `body` starts with a whole entry.
pub open spec fn starts_with_entry(body: Seq<u8>) -> bool {
    body.len() >= ENTRY_HEADER && body.len() >= entry_len(body)
}

/// The rule in the entry at the start of `body`.
pub open spec fn first_rule(body: Seq<u8>) -> RuleView {
    let pa_start = ENTRY_HEADER + nlri_len(body);
    RuleView {
        validity: validity_in(body[0]),
        nlri: body.subrange(ENTRY_HEADER as int, pa_start),
        pamap: body.subrange(pa_start, entry_len(body)),
    }
}

/// The rules in a run of entries, up to the first that is not whole.
pub open spec fn rules_in(body: Seq<u8>) -> Seq<RuleView>
    decreases body.len(),
{
    if starts_with_entry(body) {
        seq![first_rule(body)] + rules_in(body.skip(entry_len(body)))
    } else {
        seq![]
    }
}

/// The run of entries of a blob.
pub open spec fn body_of(raw: Seq<u8>) -> Seq<u8> {
    if raw.len() > 0 && raw[0] == BLOB_VERSION {
        raw.skip(1)
    } else {
        seq![]
    }
}

/// The entry for a rule.
pub open spec fn entry_for(rule: RuleView) -> Seq<u8> {
    seq![rule.validity.bits()] + be16(rule.nlri.len() as int) + be32(rule.pamap.len() as int)
        + rule.nlri + rule.pamap
}

/// Whether the lengths of a rule fit the layout.
pub open spec fn fits_entry(rule: RuleView) -> bool {
    rule.nlri.len() <= u16::MAX && rule.pamap.len() <= u32::MAX
}

/// Reading an entry undoes writing it, whatever comes behind.
pub proof fn entry_round_trip(rule: RuleView, rest: Seq<u8>)
    requires
        fits_entry(rule),
    ensures
        starts_with_entry(entry_for(rule) + rest),
        entry_len(entry_for(rule) + rest) == entry_for(rule).len(),
        first_rule(entry_for(rule) + rest) == rule,
        (entry_for(rule) + rest).skip(entry_len(entry_for(rule) + rest)) == rest,
{
    reveal(nlri_len);
    reveal(pa_len);
    let body = entry_for(rule) + rest;
    be16_round_trip(rule.nlri.len() as int);
    be32_round_trip(rule.pamap.len() as int);
    assert(body.subrange(1, 3) =~= be16(rule.nlri.len() as int));
    assert(body.subrange(3, 7) =~= be32(rule.pamap.len() as int));
    let pa_start: int = 7 + rule.nlri.len() as int;
    assert(body.subrange(7, pa_start) =~= rule.nlri);
    assert(body.subrange(pa_start, pa_start + rule.pamap.len()) =~= rule.pamap);
    assert(body.skip(entry_for(rule).len() as int) =~= rest);
    validity_round_trip(rule.validity);
}

/// The entries for some rules.
pub open spec fn entries_for(rules: Seq<RuleView>) -> Seq<u8>
    decreases rules.len(),
{
    if rules.len() == 0 {
        seq![]
    } else {
        entry_for(rules[0]) + entries_for(rules.drop_first())
    }
}

/// Reading entries undoes writing them.
pub proof fn entries_round_trip(rules: Seq<RuleView>)
    requires
        forall|i: int| 0 <= i < rules.len() ==> fits_entry(#[trigger] rules[i]),
    ensures
        rules_in(entries_for(rules)) == rules,
    decreases rules.len(),
{
    if rules.len() == 0 {
        assert(rules_in(entries_for(rules)) =~= rules);
    } else {
        let rest = rules.drop_first();
        assert forall|i: int| 0 <= i < rest.len() implies fits_entry(#[trigger] rest[i]) by {
            assert(rest[i] == rules[i + 1]);
        }
        entries_round_trip(rest);
        let tail = entries_for(rest);
        entry_round_trip(rules[0], tail);
        let all = entries_for(rules);
        assert(all == entry_for(rules[0]) + tail);
        assert(rules_in(all) == seq![rules[0]] + rules_in(tail));
        assert(rules =~= seq![rules[0]] + rest);
    }
}

/// Where in `body`, from `pos` on, the first rule with an NLRI has its entry.
pub open spec fn find_entry(body: Seq<u8>, pos: int, nlri: Seq<u8>) -> Option<int>
    decreases body.len() - pos,
{
    let rest = body.skip(pos);
    if 0 <= pos <= body.len() && starts_with_entry(rest) {
        if first_rule(rest).nlri == nlri {
            Some(pos)
        } else {
            find_entry(body, pos + entry_len(rest), nlri)
        }
    } else {
        None
    }
}

/// The rules without the first that has an NLRI.
pub open spec fn without_rule(rules: Seq<RuleView>, nlri: Seq<u8>) -> Seq<RuleView>
    decreases rules.len(),
{
    if rules.len() == 0 {
        rules
    } else if rules[0].nlri == nlri {
        rules.drop_first()
    } else {
        seq![rules[0]] + without_rule(rules.drop_first(), nlri)
    }
}

/// Whether some rule has an NLRI.
pub open spec fn has_rule(rules: Seq<RuleView>, nlri: Seq<u8>) -> bool {
    exists|i: int| 0 <= i < rules.len() && (#[trigger] rules[i]).nlri == nlri
}

/// The blob without the entry of the first rule that has an NLRI. A blob that
/// is left with nothing but its version is empty.
pub open spec fn raw_without(raw: Seq<u8>, nlri: Seq<u8>) -> Seq<u8> {
    match find_entry(body_of(raw), 0, nlri) {
        Some(pos) => {
            let len = entry_len(body_of(raw).skip(pos));
            let left = raw.take(1 + pos) + raw.skip(1 + pos + len);
            if left.len() == 1 {
                seq![]
            } else {
                left
            }
        },
        None => raw,
    }
}

/// Whether a run of entries holds nothing but whole entries.
pub open spec fn whole(body: Seq<u8>) -> bool
    decreases body.len(),
{
    body.len() == 0 || (starts_with_entry(body) && whole(body.skip(entry_len(body))))
}

/// Whether a blob is laid out as it should be: empty, or the version and whole
/// entries.
pub open spec fn well_formed(raw: Seq<u8>) -> bool {
    raw.len() == 0 || (raw[0] == BLOB_VERSION && whole(raw.skip(1)))
}

proof fn first_has_rule(first: RuleView, rest: Seq<RuleView>, nlri: Seq<u8>)
    ensures
        has_rule(seq![first] + rest, nlri) <==> first.nlri == nlri || has_rule(rest, nlri),
{
    let all = seq![first] + rest;
    if first.nlri == nlri {
        assert(all[0].nlri == nlri);
    }
    if has_rule(rest, nlri) {
        let i = choose|i: int| 0 <= i < rest.len() && (#[trigger] rest[i]).nlri == nlri;
        assert(all[i + 1].nlri == nlri);
    }
    if has_rule(all, nlri) {
        let i = choose|i: int| 0 <= i < all.len() && (#[trigger] all[i]).nlri == nlri;
        if i > 0 {
            assert(rest[i - 1].nlri == nlri);
        }
    }
}

proof fn find_finds(body: Seq<u8>, pos: int, nlri: Seq<u8>)
    requires
        0 <= pos <= body.len(),
    ensures
        find_entry(body, pos, nlri) is Some <==> has_rule(rules_in(body.skip(pos)), nlri),
        find_entry(body, pos, nlri) is Some ==> {
            let at = find_entry(body, pos, nlri)->0;
            &&& pos <= at <= body.len()
            &&& starts_with_entry(body.skip(at))
        },
    decreases body.len() - pos,
{
    let rest = body.skip(pos);
    if starts_with_entry(rest) {
        let next = pos + entry_len(rest);
        find_finds(body, next, nlri);
        assert(rest.skip(entry_len(rest)) =~= body.skip(next));
        first_has_rule(first_rule(rest), rules_in(body.skip(next)), nlri);
    }
}

proof fn removal_removes(body: Seq<u8>, pos: int, nlri: Seq<u8>)
    requires
        0 <= pos <= body.len(),
        find_entry(body, pos, nlri) is Some,
    ensures
        ({
            let at = find_entry(body, pos, nlri)->0;
            let left = body.take(at) + body.skip(at + entry_len(body.skip(at)));
            &&& rules_in(left.skip(pos)) == without_rule(rules_in(body.skip(pos)), nlri)
            &&& whole(body.skip(pos)) ==> whole(left.skip(pos))
        }),
    decreases body.len() - pos,
{
    find_finds(body, pos, nlri);
    let at = find_entry(body, pos, nlri)->0;
    let left = body.take(at) + body.skip(at + entry_len(body.skip(at)));
    let rest = body.skip(pos);
    let after = pos + entry_len(rest);
    assert(rest.skip(entry_len(rest)) =~= body.skip(after));
    let rules = rules_in(rest);
    assert(rules.drop_first() =~= rules_in(body.skip(after)));
    if first_rule(rest).nlri == nlri {
        assert(left.skip(pos) =~= body.skip(after));
    } else {
        find_finds(body, after, nlri);
        removal_removes(body, after, nlri);
        let short = left.skip(pos);
        assert(short.subrange(1, 3) =~= rest.subrange(1, 3));
        assert(short.subrange(3, 7) =~= rest.subrange(3, 7));
        lengths_agree(short, rest);
        assert(short[0] == rest[0]);
        let pa_start = ENTRY_HEADER + nlri_len(rest);
        assert(short.subrange(ENTRY_HEADER as int, pa_start) =~= rest.subrange(
            ENTRY_HEADER as int,
            pa_start,
        ));
        assert(short.subrange(pa_start, entry_len(rest)) =~= rest.subrange(
            pa_start,
            entry_len(rest),
        ));
        assert(short.skip(entry_len(short)) =~= left.skip(after));
        assert(first_rule(short) == first_rule(rest));
    }
}

/// Removing an entry takes the first rule with that NLRI away and leaves the
/// other rules as they are.
pub proof fn removal_takes_one_rule(raw: Seq<u8>, nlri: Seq<u8>)
    ensures
        rules_in(body_of(raw_without(raw, nlri))) == without_rule(rules_in(body_of(raw)), nlri),
        well_formed(raw) ==> well_formed(raw_without(raw, nlri)),
{
    let body = body_of(raw);
    find_finds(body, 0, nlri);
    assert(body.skip(0) =~= body);
    match find_entry(body, 0, nlri) {
        Some(at) => {
            removal_removes(body, 0, nlri);
            let len = entry_len(body.skip(at));
            let left = raw.take(1 + at) + raw.skip(1 + at + len);
            assert(raw.len() > 0 && raw[0] == BLOB_VERSION);
            assert(left.skip(1) =~= body.take(at) + body.skip(at + len));
            let short = body.take(at) + body.skip(at + len);
            assert(short.skip(0) =~= short);
        },
        None => {
            without_absent(rules_in(body), nlri);
        },
    }
}

proof fn without_absent(rules: Seq<RuleView>, nlri: Seq<u8>)
    requires
        !has_rule(rules, nlri),
    ensures
        without_rule(rules, nlri) == rules,
    decreases rules.len(),
{
    if rules.len() > 0 {
        let rest = rules.drop_first();
        assert(rules[0].nlri != nlri);
        assert forall|i: int| 0 <= i < rest.len() implies (#[trigger] rest[i]).nlri != nlri by {
            assert(rest[i] == rules[i + 1]);
        }
        without_absent(rest, nlri);
        assert(rules =~= seq![rules[0]] + rest);
    }
}

proof fn entry_appends(body: Seq<u8>, rule: RuleView)
    requires
        whole(body),
        fits_entry(rule),
    ensures
        rules_in(body + entry_for(rule)) == rules_in(body).push(rule),
        whole(body + entry_for(rule)),
    decreases body.len(),
{
    let all = body + entry_for(rule);
    if body.len() == 0 {
        let none = Seq::<u8>::empty();
        entry_round_trip(rule, none);
        assert(all =~= entry_for(rule) + none);
        assert(rules_in(none) =~= Seq::<RuleView>::empty());
        assert(rules_in(body) =~= Seq::<RuleView>::empty());
        assert(rules_in(all) == seq![rule] + rules_in(none));
        assert(whole(none));
        assert(whole(all));
        assert(rules_in(all) =~= rules_in(body).push(rule));
    } else {
        let rest = body.skip(entry_len(body));
        entry_appends(rest, rule);
        assert(all.subrange(1, 3) =~= body.subrange(1, 3));
        assert(all.subrange(3, 7) =~= body.subrange(3, 7));
        lengths_agree(all, body);
        let pa_start = ENTRY_HEADER + nlri_len(body);
        assert(all.subrange(ENTRY_HEADER as int, pa_start) =~= body.subrange(
            ENTRY_HEADER as int,
            pa_start,
        ));
        assert(all.subrange(pa_start, entry_len(body)) =~= body.subrange(
            pa_start,
            entry_len(body),
        ));
        assert(entry_len(all) == entry_len(body));
        assert(first_rule(all) == first_rule(body));
        assert(all.skip(entry_len(all)) =~= rest + entry_for(rule));
        assert(whole(rest + entry_for(rule)));
        assert(whole(all));
        assert(rules_in(all) == seq![first_rule(body)] + rules_in(rest).push(rule));
        assert(rules_in(body) == seq![first_rule(body)] + rules_in(rest));
        assert(rules_in(all) =~= rules_in(body).push(rule));
    }
}

/// The blob with the entry for a rule behind the others.
pub open spec fn raw_with(raw: Seq<u8>, rule: RuleView) -> Seq<u8> {
    (if raw.len() == 0 {
        seq![BLOB_VERSION]
    } else {
        raw
    }) + entry_for(rule)
}

/// Adding an entry to a well-formed blob puts its rule behind the others.
pub proof fn addition_adds_one_rule(raw: Seq<u8>, rule: RuleView)
    requires
        well_formed(raw),
        fits_entry(rule),
    ensures
        well_formed(raw_with(raw, rule)),
        rules_in(body_of(raw_with(raw, rule))) == rules_in(body_of(raw)).push(rule),
{
    let head = if raw.len() == 0 {
        seq![BLOB_VERSION]
    } else {
        raw
    };
    entry_appends(head.skip(1), rule);
    assert(raw_with(raw, rule).skip(1) =~= head.skip(1) + entry_for(rule));
    if raw.len() == 0 {
        assert(head.skip(1) =~= body_of(raw));
    }
}

/// An entry behind others that have another NLRI is the one that is found.
proof fn last_entry_is_found(body: Seq<u8>, pos: int, rule: RuleView)
    requires
        0 <= pos <= body.len(),
        whole(body.skip(pos)),
        fits_entry(rule),
        !has_rule(rules_in(body.skip(pos)), rule.nlri),
    ensures
        find_entry(body + entry_for(rule), pos, rule.nlri) == Some(body.len() as int),
    decreases body.len() - pos,
{
    let all = body + entry_for(rule);
    let rest = body.skip(pos);
    let longer = all.skip(pos);
    if rest.len() == 0 {
        entry_round_trip(rule, Seq::empty());
        assert(longer =~= entry_for(rule) + Seq::<u8>::empty());
    } else {
        assert(longer =~= rest + entry_for(rule));
        assert(longer.subrange(1, 3) =~= rest.subrange(1, 3));
        assert(longer.subrange(3, 7) =~= rest.subrange(3, 7));
        lengths_agree(longer, rest);
        let pa_start = ENTRY_HEADER + nlri_len(rest);
        assert(longer.subrange(ENTRY_HEADER as int, pa_start) =~= rest.subrange(
            ENTRY_HEADER as int,
            pa_start,
        ));
        let next = pos + entry_len(rest);
        assert(rest.skip(entry_len(rest)) =~= body.skip(next));
        first_has_rule(first_rule(rest), rules_in(body.skip(next)), rule.nlri);
        last_entry_is_found(body, next, rule);
    }
}

/// A blob that is put together by adding and removing rules is never a bare
/// version: once its last rule has gone it is empty.
pub proof fn blob_without_rules_is_empty(raw: Seq<u8>, nlri: Seq<u8>, rule: RuleView)
    requires
        well_formed(raw),
        raw.len() != 1,
    ensures
        raw_with(raw, rule).len() > 1,
        raw_without(raw, nlri).len() != 1,
        rules_in(body_of(raw)).len() == 0 <==> raw.len() == 0,
        rules_in(body_of(raw_without(raw, nlri))).len() == 0 <==> raw_without(raw, nlri).len() == 0,
{
    removal_takes_one_rule(raw, nlri);
    let left = raw_without(raw, nlri);
    assert(left.len() > 0 ==> body_of(left) =~= left.skip(1));
    assert(raw.len() > 0 ==> body_of(raw) =~= raw.skip(1));
}

/// Taking out a rule that was just added gives back the blob that was there,
/// octet for octet, as long as none of its rules has the same NLRI.
pub proof fn removal_restores_the_blob(raw: Seq<u8>, rule: RuleView)
    requires
        well_formed(raw),
        raw.len() != 1,
        fits_entry(rule),
        !has_rule(rules_in(body_of(raw)), rule.nlri),
    ensures
        raw_with(raw_without(raw, rule.nlri), rule) == raw_with(raw, rule),
        has_rule(rules_in(body_of(raw_with(raw, rule))), rule.nlri),
        raw_without(raw_with(raw, rule), rule.nlri) == raw,
{
    removal_undoes_addition(raw, rule);
    let head = if raw.len() == 0 {
        seq![BLOB_VERSION]
    } else {
        raw
    };
    let body = head.skip(1);
    let all = raw_with(raw, rule);
    assert(body_of(raw) =~= body);
    assert(body_of(all) =~= body + entry_for(rule));
    assert(body.skip(0) =~= body);
    find_finds(body, 0, rule.nlri);
    last_entry_is_found(body, 0, rule);
    let at = body.len() as int;
    entry_round_trip(rule, Seq::empty());
    assert(body_of(all).skip(at) =~= entry_for(rule) + Seq::<u8>::empty());
    let len = entry_len(body_of(all).skip(at));
    assert(all.take(1 + at) + all.skip(1 + at + len) =~= head);
    assert(raw.len() == 0 ==> raw =~= seq![]);
}

/// Taking out a rule that was just added gives back the rules that were there,
/// as long as none of them has the same NLRI.
pub proof fn removal_undoes_addition(raw: Seq<u8>, rule: RuleView)
    requires
        well_formed(raw),
        fits_entry(rule),
        !has_rule(rules_in(body_of(raw)), rule.nlri),
    ensures
        rules_in(body_of(raw_without(raw_with(raw, rule), rule.nlri))) == rules_in(body_of(raw)),
        has_rule(rules_in(body_of(raw_with(raw, rule))), rule.nlri),
{
    addition_adds_one_rule(raw, rule);
    removal_takes_one_rule(raw_with(raw, rule), rule.nlri);
    let rules = rules_in(body_of(raw));
    assert(rules.push(rule)[rules.len() as int].nlri == rule.nlri);
    without_last(rules, rule);
}

proof fn without_last(rules: Seq<RuleView>, rule: RuleView)
    requires
        !has_rule(rules, rule.nlri),
    ensures
        without_rule(rules.push(rule), rule.nlri) == rules,
    decreases rules.len(),
{
    let all = rules.push(rule);
    if rules.len() == 0 {
        assert(all.drop_first() =~= rules);
    } else {
        let rest = rules.drop_first();
        assert(rules[0].nlri != rule.nlri);
        assert forall|i: int| 0 <= i < rest.len() implies (#[trigger] rest[i]).nlri
            != rule.nlri by {
            assert(rest[i] == rules[i + 1]);
        }
        without_last(rest, rule);
        assert(all.drop_first() =~= rest.push(rule));
        assert(rules =~= seq![rules[0]] + rest);
    }
}

/// All rules of one peer for one destination prefix, as one octet string.
#[derive(Debug)]
pub struct FlowSpecRuleSet {
    raw: Vec<u8>,
}

impl View for FlowSpecRuleSet {
    type V = Seq<u8>;

    closed spec fn view(&self) -> Seq<u8> {
        self.raw@
    }
}

impl Default for FlowSpecRuleSet {
    fn default() -> (r: FlowSpecRuleSet)
        ensures
            r@ == Seq::<u8>::empty(),
    {
        FlowSpecRuleSet { raw: Vec::new() }
    }
}

/// Goes through the rules of a [`FlowSpecRuleSet`].
pub struct FlowSpecRuleIter<'a> {
    body: &'a [u8],
    pos: usize,
}

impl<'a> FlowSpecRuleIter<'a> {
    #[verifier::type_invariant]
    spec fn in_bounds(self) -> bool {
        self.pos <= self.body@.len()
    }

    /// The entries that are still to come.
    pub closed spec fn rest(self) -> Seq<u8> {
        self.body@.skip(self.pos as int)
    }

    /// The next rule. There is none at the end, nor at an entry that is not
    /// whole.
    pub fn next(&mut self) -> (r: Option<FlowSpecRule>)
        ensures
            match r {
                Some(rule) => starts_with_entry(old(self).rest()) && rule@ == first_rule(
                    old(self).rest(),
                ) && final(self).rest() == old(self).rest().skip(entry_len(old(self).rest())),
                None => !starts_with_entry(old(self).rest()) && final(self).rest() == old(
                    self,
                ).rest(),
            },
    {
        proof {
            use_type_invariant(&*self);
        }
        let body = self.body;
        let pos: usize = self.pos;
        let ghost rest = self.rest();
        if body.len() - pos < ENTRY_HEADER {
            return None;
        }
        let flags: u8 = body[pos];
        let nlri_len: usize = read_be16(body, pos + 1) as usize;
        let pa_len: usize = read_be32(body, pos + 3) as usize;
        proof {
            assert(body@.subrange(pos + 1, pos + 3) =~= rest.subrange(1, 3));
            assert(body@.subrange(pos + 3, pos + 7) =~= rest.subrange(3, 7));
            reveal(crate::flowspec::layout::nlri_len);
            reveal(crate::flowspec::layout::pa_len);
        }
        let left: usize = body.len() - pos - ENTRY_HEADER;
        if nlri_len > left || pa_len > left - nlri_len {
            return None;
        }
        let nlri_start: usize = pos + ENTRY_HEADER;
        let pa_start: usize = nlri_start + nlri_len;
        let end: usize = pa_start + pa_len;
        let rule = FlowSpecRule {
            validity: FlowSpecValidity::from_flags(flags),
            nlri: copy_between(body, nlri_start, pa_start),
            pamap: RotondaPaMap::from_raw(copy_between(body, pa_start, end)),
        };
        proof {
            assert(rule.nlri@ =~= first_rule(rest).nlri);
            assert(rule.pamap@ =~= first_rule(rest).pamap);
            assert(body@.skip(end as int) =~= rest.skip(entry_len(rest)));
        }
        self.pos = end;
        Some(rule)
    }
}

/// What a list of rules holds.
pub open spec fn rule_views(rules: Seq<FlowSpecRule>) -> Seq<RuleView> {
    rules.map_values(|rule: FlowSpecRule| rule@)
}

impl FlowSpecRuleSet {
    /// The rules that the set holds.
    pub open spec fn rules(self) -> Seq<RuleView> {
        rules_in(body_of(self@))
    }

    /// A set from its octets, which need not be laid out as they should be.
    pub fn from_raw(raw: Vec<u8>) -> (r: FlowSpecRuleSet)
        ensures
            r@ == raw@,
    {
        FlowSpecRuleSet { raw }
    }

    /// The octets of the set.
    pub fn as_ref(&self) -> (r: &[u8])
        ensures
            r@ == self@,
    {
        self.raw.as_slice()
    }

    /// Goes through the rules up to the first entry that is not whole.
    pub fn iter(&self) -> (r: FlowSpecRuleIter<'_>)
        ensures
            r.rest() == body_of(self@),
    {
        let raw = self.raw.as_slice();
        let len: usize = raw.len();
        let body = if len > 0 && raw[0] == BLOB_VERSION {
            vstd::slice::slice_subrange(raw, 1, len)
        } else {
            vstd::slice::slice_subrange(raw, 0, 0)
        };
        assert(body@ =~= body_of(self@));
        assert(body@.skip(0) =~= body@);
        FlowSpecRuleIter { body, pos: 0 }
    }

    /// The rules up to the first entry that is not whole.
    pub fn to_vec(&self) -> (r: Vec<FlowSpecRule>)
        ensures
            rule_views(r@) == self.rules(),
    {
        let mut out: Vec<FlowSpecRule> = Vec::new();
        let mut iter = self.iter();
        assert(rule_views(out@) + rules_in(iter.rest()) =~= self.rules());
        loop
            invariant
                rule_views(out@) + rules_in(iter.rest()) == self.rules(),
            decreases iter.rest().len(),
        {
            let ghost before = iter.rest();
            let ghost listed = out@;
            match iter.next() {
                Some(rule) => {
                    out.push(rule);
                    proof {
                        assert(rule_views(out@) =~= rule_views(listed).push(rule@));
                        assert(rule_views(out@) + rules_in(iter.rest()) =~= rule_views(listed)
                            + rules_in(before));
                    }
                },
                None => {
                    assert(rule_views(out@) =~= self.rules());
                    return out;
                },
            }
        }
    }

    /// Adds a rule, replacing the one with the same NLRI. Says whether there
    /// was one. The rule goes behind the others.
    pub fn upsert(&mut self, nlri: &[u8], pamap: &RotondaPaMap, validity: FlowSpecValidity) -> (r:
        bool)
        requires
            nlri@.len() <= u16::MAX,
            pamap@.len() <= u32::MAX,
        ensures
            r == has_rule(old(self).rules(), nlri@),
            final(self)@ == raw_with(
                raw_without(old(self)@, nlri@),
                (RuleView { validity, nlri: nlri@, pamap: pamap@ }),
            ),
            well_formed(old(self)@) ==> well_formed(final(self)@) && final(self).rules()
                == without_rule(old(self).rules(), nlri@).push(
                (RuleView { validity, nlri: nlri@, pamap: pamap@ }),
            ),
    {
        let ghost rule = RuleView { validity, nlri: nlri@, pamap: pamap@ };
        let replaced = self.remove(nlri);
        let ghost kept = self.raw@;
        if self.raw.len() == 0 {
            self.raw.push(BLOB_VERSION);
        }
        let pa = pamap.raw();
        self.raw.push(validity.to_flags());
        put_be16(&mut self.raw, nlri.len() as u16);
        put_be32(&mut self.raw, pa.len() as u32);
        put(&mut self.raw, nlri);
        put(&mut self.raw, pa);
        proof {
            assert(self.raw@ =~= raw_with(kept, rule));
            removal_takes_one_rule(old(self)@, nlri@);
            if well_formed(old(self)@) {
                addition_adds_one_rule(kept, rule);
            }
        }
        replaced
    }

    /// Removes the rule with an NLRI. Says whether there was one.
    pub fn remove(&mut self, nlri: &[u8]) -> (r: bool)
        ensures
            r == has_rule(old(self).rules(), nlri@),
            !r ==> final(self)@ == old(self)@,
            final(self)@ == raw_without(old(self)@, nlri@),
            final(self).rules() == without_rule(old(self).rules(), nlri@),
            well_formed(old(self)@) ==> well_formed(final(self)@),
    {
        let ghost raw = self.raw@;
        let ghost body = body_of(raw);
        proof {
            removal_takes_one_rule(raw, nlri@);
            find_finds(body, 0, nlri@);
            assert(body.skip(0) =~= body);
        }
        if self.raw.len() == 0 || self.raw[0] != BLOB_VERSION {
            return false;
        }
        let len: usize = self.raw.len();
        let mut at: usize = 1;
        while len - at >= ENTRY_HEADER
            invariant
                self.raw@ == raw,
                len == raw.len(),
                1 <= at <= len,
                raw[0] == BLOB_VERSION,
                body == body_of(raw),
                find_entry(body, 0, nlri@) == find_entry(body, at - 1, nlri@),
                find_entry(body, 0, nlri@) is Some <==> has_rule(rules_in(body), nlri@),
                rules_in(body_of(raw_without(raw, nlri@))) == without_rule(rules_in(body), nlri@),
                well_formed(raw) ==> well_formed(raw_without(raw, nlri@)),
                old(self)@ == raw,
            decreases len - at,
        {
            let nlri_len: usize = read_be16(&self.raw, at + 1) as usize;
            let pa_len: usize = read_be32(&self.raw, at + 3) as usize;
            let ghost rest = body.skip(at - 1);
            proof {
                assert(raw.subrange(at + 1, at + 3) =~= rest.subrange(1, 3));
                assert(raw.subrange(at + 3, at + 7) =~= rest.subrange(3, 7));
                assert(nlri_len == crate::flowspec::layout::nlri_len(rest)) by {
                    reveal(crate::flowspec::layout::nlri_len);
                }
                assert(pa_len == crate::flowspec::layout::pa_len(rest)) by {
                    reveal(crate::flowspec::layout::pa_len);
                }
            }
            let left: usize = len - at - ENTRY_HEADER;
            if nlri_len > left || pa_len > left - nlri_len {
                return false;
            }
            let nlri_start: usize = at + ENTRY_HEADER;
            let end: usize = nlri_start + nlri_len + pa_len;
            let stored = vstd::slice::slice_subrange(
                self.raw.as_slice(),
                nlri_start,
                nlri_start + nlri_len,
            );
            assert(stored@ =~= first_rule(rest).nlri);
            if same_octets(stored, nlri) {
                let mut tail = self.raw.split_off(end);
                self.raw.truncate(at);
                self.raw.append(&mut tail);
                assert(self.raw@ =~= raw.take(at as int) + raw.skip(end as int));
                if self.raw.len() == 1 {
                    self.raw.clear();
                    assert(self.raw@ =~= Seq::<u8>::empty());
                }
                return true;
            }
            at = end;
        }
        false
    }

    /// The number of rules up to the first entry that is not whole.
    pub fn rule_count(&self) -> (r: usize)
        ensures
            r == self.rules().len(),
    {
        let rules = self.to_vec();
        assert(rule_views(rules@).len() == rules@.len());
        rules.len()
    }

    /// Whether there is no octet of an entry.
    pub fn is_empty(&self) -> (r: bool)
        ensures
            r == (self@.len() <= 1),
    {
        self.raw.len() <= 1
    }

    /// The number of octets.
    pub fn byte_size(&self) -> (r: usize)
        ensures
            r == self@.len(),
    {
        self.raw.len()
    }

    /// A short description.
    pub fn to_text(&self) -> (r: String)
        ensures
            r@ == "FlowSpecRuleSet("@ + decimal_text(self.rules().len()) + " rules)"@,
    {
        let count = decimal(self.rule_count() as u64);
        join3("FlowSpecRuleSet(", &count, " rules)")
    }
}

/// The validity stands in the two lowest bits: zero says that it was not
/// checked, one that the rule is valid, two that it is not, three that it cannot
/// be told. Other bits do not matter.
pub proof fn validity_is_in_two_bits(flags: u8)
    ensures
        validity_in(flags) == validity_in((flags % 4) as u8),
        validity_in(flags).bits() == flags % 4,
        validity_in(0) == FlowSpecValidity::NotValidated,
        validity_in(1) == FlowSpecValidity::Valid,
        validity_in(2) == FlowSpecValidity::Invalid,
        validity_in(3) == FlowSpecValidity::Unvalidatable,
{
}

/// Where the parts of an entry stand: the validity in the first octet, the
/// length of the NLRI in the next two, that of the attributes in the next four,
/// then the NLRI and the attributes.
pub proof fn entries_are_laid_out(rule: RuleView)
    requires
        fits_entry(rule),
    ensures
        ({
            let entry = entry_for(rule);
            let n = rule.nlri.len() as int;
            &&& entry.len() == 7 + rule.nlri.len() + rule.pamap.len()
            &&& entry[0] == rule.validity.bits()
            &&& entry[1] * 256 + entry[2] == n
            &&& entry[3] * 0x100_0000 + entry[4] * 0x1_0000 + entry[5] * 0x100 + entry[6]
                == rule.pamap.len()
            &&& entry.subrange(7, 7 + n) == rule.nlri
            &&& entry.skip(7 + n) == rule.pamap
        }),
{
    let entry = entry_for(rule);
    let n = rule.nlri.len() as int;
    let m = rule.pamap.len() as int;
    be16_round_trip(n);
    be32_round_trip(m);
    let a = be16(n);
    let b = be32(m);
    octets_count_by_their_place(a[0], a[1], 0, 0);
    octets_count_by_their_place(b[0], b[1], b[2], b[3]);
    assert(a =~= seq![a[0], a[1]]);
    assert(b =~= seq![b[0], b[1], b[2], b[3]]);
    assert(entry[1] == a[0] && entry[2] == a[1]);
    assert(entry[3] == b[0] && entry[4] == b[1] && entry[5] == b[2] && entry[6] == b[3]);
    assert(entry.subrange(7, 7 + n) =~= rule.nlri);
    assert(entry.skip(7 + n) =~= rule.pamap);
}

/// Taking a rule out leaves every rule with another NLRI where it was among the
/// others, and takes at most one.
pub proof fn other_rules_stay(rules: Seq<RuleView>, nlri: Seq<u8>)
    ensures
        has_rule(rules, nlri) ==> without_rule(rules, nlri).len() == rules.len() - 1,
        !has_rule(rules, nlri) ==> without_rule(rules, nlri) == rules,
        without_rule(rules, nlri).filter(|rule: RuleView| rule.nlri != nlri) == rules.filter(
            |rule: RuleView| rule.nlri != nlri,
        ),
    decreases rules.len(),
{
    let other = |rule: RuleView| rule.nlri != nlri;
    reveal(Seq::filter);
    if rules.len() > 0 {
        let rest = rules.drop_first();
        other_rules_stay(rest, nlri);
        first_has_rule(rules[0], rest, nlri);
        assert(rules =~= seq![rules[0]] + rest);
        Seq::filter_distributes_over_add(seq![rules[0]], rest, other);
        Seq::filter_distributes_over_add(seq![rules[0]], without_rule(rest, nlri), other);
        assert(seq![rules[0]].drop_last() =~= seq![]);
        assert(seq![rules[0]].drop_last().filter(other) =~= seq![]);
        assert(seq![rules[0]].last() == rules[0]);
        if rules[0].nlri == nlri {
            assert(seq![rules[0]].filter(other) =~= seq![]);
            assert(rules.filter(other) =~= rest.filter(other));
        } else {
            assert(!has_rule(rest, nlri) ==> without_rule(rules, nlri) =~= rules);
        }
    }
}

/// Each validity has its own name.
pub proof fn validities_have_their_names(validity: FlowSpecValidity)
    ensures
        validity is NotValidated ==> validity.name() == "not-validated"@,
        validity is Valid ==> validity.name() == "valid"@,
        validity is Invalid ==> validity.name() == "invalid"@,
        validity is Unvalidatable ==> validity.name() == "unvalidatable"@,
{
}

} // verus!
