//! Commands and the words that they are typed in.

use crate::cli::prompt::Candidate;
use crate::cli::tree::{Argument, ArgumentView, Flag};
use crate::text::{
    chars_of, find_char, matches_at, number_in, parse_number, position_of, same, starts_with,
    string_between,
};
use vstd::prelude::*;

verus! {

/// A word of a command: one that is typed as it is, if not in full, or a value
/// of some kind.
#[derive(Debug)]
pub enum Word {
    Keyword(String),
    Prefix,
    Ip,
    Id,
    Asn,
    Community,
}

/// What a [`Word`] holds.
pub ghost enum WordView {
    Keyword(Seq<char>),
    Prefix,
    Ip,
    Id,
    Asn,
    Community,
}

impl View for Word {
    type V = WordView;

    open spec fn view(&self) -> WordView {
        match self {
            Word::Keyword(keyword) => WordView::Keyword(keyword@),
            Word::Prefix => WordView::Prefix,
            Word::Ip => WordView::Ip,
            Word::Id => WordView::Id,
            Word::Asn => WordView::Asn,
            Word::Community => WordView::Community,
        }
    }
}

/// What was typed for a word, and the address or prefix that it is, if it is
/// one.
#[derive(Debug)]
pub struct Typed {
    pub text: String,
    pub ip: Option<String>,
    pub prefix: Option<(String, u8)>,
}

/// What a [`Typed`] holds.
pub ghost struct TypedView {
    pub text: Seq<char>,
    pub ip: Option<Seq<char>>,
    pub prefix: Option<(Seq<char>, u8)>,
}

impl View for Typed {
    type V = TypedView;

    open spec fn view(&self) -> TypedView {
        TypedView {
            text: self.text@,
            ip: match self.ip {
                Some(ip) => Some(ip@),
                None => None,
            },
            prefix: match self.prefix {
                Some((addr, len)) => Some((addr@, len)),
                None => None,
            },
        }
    }
}

/// The address of a prefix, and how many bits of it count, as far as that can
/// be said without reading the address.
pub open spec fn prefix_parts(text: Seq<char>) -> Option<(Seq<char>, u8)> {
    let at = position_of(text, '/');
    if at < text.len() {
        match number_in(text.skip(at + 1), 128) {
            Some(len) => Some((text.take(at), len as u8)),
            None => None,
        }
    } else {
        None
    }
}

/// The address of a prefix, and how many bits of it count.
pub fn split_prefix(text: &str) -> (r: Option<(String, u8)>)
    ensures
        match r {
            Some((addr, len)) => prefix_parts(text@) == Some((addr@, len)),
            None => prefix_parts(text@) is None,
        },
{
    let chars = chars_of(text);
    let at = find_char(&chars, 0, '/');
    assert(chars@.skip(0) =~= text@);
    if at >= chars.len() {
        return None;
    }
    let addr = string_between(&chars, 0, at);
    let len = string_between(&chars, at + 1, chars.len());
    assert(addr@ =~= text@.take(at as int));
    assert(len@ =~= text@.skip(at + 1));
    match parse_number(len.as_str(), 128) {
        Some(len) => Some((addr, len as u8)),
        None => None,
    }
}

/// Whether so many bits of an address can count.
pub fn prefix_fits(is_ipv4: bool, len: u8) -> (r: bool)
    ensures
        r == (len <= (if is_ipv4 {
            32int
        } else {
            128
        })),
{
    if is_ipv4 {
        len <= 32
    } else {
        len <= 128
    }
}

/// What a command does.
#[derive(Clone, Copy, Debug, PartialEq, Eq, Structural)]
pub enum Command {
    Exit,
    Version,
    Status,
    RunningConfig,
    Filters,
    Summary,
    Neighbors,
    Routes,
    Routers,
    Router,
    Ingresses,
}

/// A command: its words, what it does, the flags that it sets, and what it is
/// for.
#[derive(Debug)]
pub struct Entry {
    pub words: Vec<Word>,
    pub command: Command,
    pub flags: Vec<Flag>,
    pub help: String,
}

/// What an [`Entry`] holds.
pub ghost struct EntryView {
    pub words: Seq<WordView>,
    pub command: Command,
    pub flags: Seq<Flag>,
    pub help: Seq<char>,
}

impl View for Entry {
    type V = EntryView;

    open spec fn view(&self) -> EntryView {
        EntryView {
            words: word_list(self.words@),
            command: self.command,
            flags: self.flags@,
            help: self.help@,
        }
    }
}

/// What some commands hold.
pub open spec fn entry_views(entries: Seq<Entry>) -> Seq<EntryView> {
    entries.map_values(|entry: Entry| entry@)
}

/// What the words of a command are.
pub open spec fn word_list(words: Seq<Word>) -> Seq<WordView> {
    words.map_values(|word: Word| word@)
}

/// What was typed.
pub open spec fn typed_list(typed: Seq<Typed>) -> Seq<TypedView> {
    typed.map_values(|t: Typed| t@)
}

/// What a typed word gives for a word of a command: nothing, or the value that
/// it is; `None` if it does not fit.
pub open spec fn fits(word: WordView, typed: TypedView) -> Option<Option<ArgumentView>> {
    match word {
        WordView::Keyword(keyword) => if starts_with(keyword, typed.text) {
            Some(None)
        } else {
            None
        },
        WordView::Prefix => match typed.prefix {
            Some((addr, len)) => Some(Some(ArgumentView::Prefix(addr, len))),
            None => None,
        },
        WordView::Ip => match typed.ip {
            Some(addr) => Some(Some(ArgumentView::Ip(addr))),
            None => None,
        },
        WordView::Id => match number_in(typed.text, u32::MAX as nat) {
            Some(n) => Some(Some(ArgumentView::IngressId(n as u32))),
            None => None,
        },
        WordView::Asn => match number_in(typed.text, u32::MAX as nat) {
            Some(n) => Some(Some(ArgumentView::Asn(n as u32))),
            None => None,
        },
        WordView::Community => Some(Some(ArgumentView::Community(typed.text))),
    }
}

/// The values among what was typed, if it begins a command.
pub open spec fn captured(words: Seq<WordView>, typed: Seq<TypedView>) -> Option<Seq<ArgumentView>>
    decreases typed.len(),
{
    if typed.len() == 0 {
        Some(seq![])
    } else if typed.len() > words.len() {
        None
    } else {
        match (captured(words, typed.drop_last()), fits(words[typed.len() - 1], typed.last())) {
            (Some(values), Some(Some(value))) => Some(values.push(value)),
            (Some(values), Some(None)) => Some(values),
            _ => None,
        }
    }
}

/// Whether a word of a command was typed in full.
pub open spec fn in_full(words: Seq<WordView>, typed: Seq<TypedView>, i: int) -> bool {
    words[i] == WordView::Keyword(typed[i].text)
}

/// The words of the commands.
pub open spec fn grammar(entries: Seq<Entry>) -> Seq<Seq<WordView>> {
    entries.map_values(|entry: Entry| word_list(entry.words@))
}

/// The first `n` commands that what was typed begins, by their places.
pub open spec fn begun(all: Seq<Seq<WordView>>, typed: Seq<TypedView>, n: nat) -> Seq<int>
    decreases n,
{
    if n == 0 {
        seq![]
    } else {
        let rest = begun(all, typed, (n - 1) as nat);
        if captured(all[n - 1], typed) is Some {
            rest.push(n - 1)
        } else {
            rest
        }
    }
}

/// Those of some commands whose word at a place was typed in full.
pub open spec fn those_in_full(
    all: Seq<Seq<WordView>>,
    typed: Seq<TypedView>,
    list: Seq<int>,
    i: int,
) -> Seq<int>
    decreases list.len(),
{
    if list.len() == 0 {
        seq![]
    } else {
        let rest = those_in_full(all, typed, list.drop_last(), i);
        if in_full(all[list.last()], typed, i) {
            rest.push(list.last())
        } else {
            rest
        }
    }
}

/// Of the commands that were begun, those that are meant by the first `n`
/// words: where a word is typed in full for some, the others are not meant.
pub open spec fn meant(
    all: Seq<Seq<WordView>>,
    typed: Seq<TypedView>,
    n: nat,
) -> Seq<int>
    decreases n,
{
    if n == 0 {
        begun(all, typed, all.len())
    } else {
        let list = meant(all, typed, (n - 1) as nat);
        let exact = those_in_full(all, typed, list, n - 1);
        if exact.len() > 0 {
            exact
        } else {
            list
        }
    }
}

/// Those of some commands that were typed as a whole.
pub open spec fn those_whole(all: Seq<Seq<WordView>>, list: Seq<int>, len: nat) -> Seq<int>
    decreases list.len(),
{
    if list.len() == 0 {
        seq![]
    } else {
        let rest = those_whole(all, list.drop_last(), len);
        if all[list.last()].len() == len {
            rest.push(list.last())
        } else {
            rest
        }
    }
}

/// Why what was typed is no command.
#[derive(Clone, Copy, Debug, PartialEq, Eq, Structural)]
pub enum Unresolved {
    /// No command begins so.
    Invalid,
    /// Commands begin so, but none is that short.
    Incomplete,
    /// More than one command may be meant.
    Ambiguous,
}

/// The command that was typed, by its place.
pub open spec fn resolved(all: Seq<Seq<WordView>>, typed: Seq<TypedView>) -> Result<int, Unresolved> {
    let list = meant(all, typed, typed.len());
    let whole = those_whole(all, list, typed.len());
    if whole.len() == 1 {
        Ok(whole[0])
    } else if whole.len() > 1 {
        Err(Unresolved::Ambiguous)
    } else if list.len() == 0 {
        Err(Unresolved::Invalid)
    } else {
        Err(Unresolved::Incomplete)
    }
}

proof fn begun_are_begun(all: Seq<Seq<WordView>>, typed: Seq<TypedView>, n: nat)
    requires
        n <= all.len(),
    ensures
        forall|k: int|
            0 <= k < begun(all, typed, n).len() ==> 0 <= (#[trigger] begun(all, typed, n)[k]) < n
                && captured(all[begun(all, typed, n)[k]], typed) is Some,
    decreases n,
{
    if n > 0 {
        begun_are_begun(all, typed, (n - 1) as nat);
    }
}

proof fn those_are_of(all: Seq<Seq<WordView>>, typed: Seq<TypedView>, list: Seq<int>, i: int)
    ensures
        forall|k: int|
            0 <= k < those_in_full(all, typed, list, i).len() ==> list.contains(
                #[trigger] those_in_full(all, typed, list, i)[k],
            ),
    decreases list.len(),
{
    if list.len() > 0 {
        let rest = list.drop_last();
        those_are_of(all, typed, rest, i);
        assert forall|k: int| 0 <= k < those_in_full(all, typed, list, i).len() implies list.contains(
            #[trigger] those_in_full(all, typed, list, i)[k],
        ) by {
            let some = those_in_full(all, typed, rest, i);
            if k < some.len() {
                assert(rest.contains(some[k]));
                let j = choose|j: int| 0 <= j < rest.len() && rest[j] == some[k];
                assert(list[j] == some[k]);
            } else {
                assert(list[list.len() - 1] == list.last());
            }
        }
    }
}

proof fn whole_are_of(all: Seq<Seq<WordView>>, list: Seq<int>, len: nat)
    ensures
        forall|k: int|
            0 <= k < those_whole(all, list, len).len() ==> list.contains(
                #[trigger] those_whole(all, list, len)[k],
            ) && all[those_whole(all, list, len)[k]].len() == len,
    decreases list.len(),
{
    if list.len() > 0 {
        let rest = list.drop_last();
        whole_are_of(all, rest, len);
        assert forall|k: int| 0 <= k < those_whole(all, list, len).len() implies list.contains(
            #[trigger] those_whole(all, list, len)[k],
        ) && all[those_whole(all, list, len)[k]].len() == len by {
            let some = those_whole(all, rest, len);
            if k < some.len() {
                assert(rest.contains(some[k]));
                let j = choose|j: int| 0 <= j < rest.len() && rest[j] == some[k];
                assert(list[j] == some[k]);
            } else {
                assert(list[list.len() - 1] == list.last());
            }
        }
    }
}

/// Every command that is meant begins with what was typed.
pub proof fn meant_are_begun(all: Seq<Seq<WordView>>, typed: Seq<TypedView>, n: nat)
    ensures
        forall|k: int|
            0 <= k < meant(all, typed, n).len() ==> 0 <= (#[trigger] meant(all, typed, n)[k])
                < all.len() && captured(all[meant(all, typed, n)[k]], typed) is Some,
    decreases n,
{
    begun_are_begun(all, typed, all.len());
    if n > 0 {
        meant_are_begun(all, typed, (n - 1) as nat);
        let list = meant(all, typed, (n - 1) as nat);
        those_are_of(all, typed, list, n - 1);
        let exact = those_in_full(all, typed, list, n - 1);
        assert forall|k: int| 0 <= k < meant(all, typed, n).len() implies 0 <= (#[trigger] meant(
            all,
            typed,
            n,
        )[k]) < all.len() && captured(all[meant(all, typed, n)[k]], typed) is Some by {
            if exact.len() > 0 {
                assert(list.contains(exact[k]));
                let j = choose|j: int| 0 <= j < list.len() && list[j] == exact[k];
                assert(list[j] == meant(all, typed, n)[k]);
            }
        }
    }
}

/// A command that is found has as many words as were typed, and each of them
/// fits.
pub proof fn found_command_fits(all: Seq<Seq<WordView>>, typed: Seq<TypedView>)
    ensures
        resolved(all, typed) matches Ok(k) ==> 0 <= k < all.len() && all[k].len() == typed.len()
            && captured(all[k], typed) is Some,
{
    let list = meant(all, typed, typed.len());
    meant_are_begun(all, typed, typed.len());
    whole_are_of(all, list, typed.len());
    let whole = those_whole(all, list, typed.len());
    if whole.len() == 1 {
        assert(list.contains(whole[0]));
        let j = choose|j: int| 0 <= j < list.len() && list[j] == whole[0];
        assert(meant(all, typed, typed.len())[j] == whole[0]);
    }
}

/// What a typed word gives for a word of a command.
fn fit(word: &Word, typed: &Typed) -> (r: Option<Option<Argument>>)
    ensures
        match (fits(word@, typed@), r) {
            (Some(Some(value)), Some(Some(argument))) => argument@ == value,
            (Some(None), Some(None)) => true,
            (None, None) => true,
            _ => false,
        },
{
    match word {
        Word::Keyword(keyword) => {
            if matches_at(&chars_of(keyword.as_str()), &chars_of(typed.text.as_str()), 0) {
                Some(None)
            } else {
                None
            }
        },
        Word::Prefix => match &typed.prefix {
            Some(prefix) => Some(Some(Argument::Prefix(prefix.0.as_str().to_owned(), prefix.1))),
            None => None,
        },
        Word::Ip => match &typed.ip {
            Some(addr) => Some(Some(Argument::Ip(addr.as_str().to_owned()))),
            None => None,
        },
        Word::Id => match parse_number(typed.text.as_str(), u32::MAX as u64) {
            Some(n) => Some(Some(Argument::IngressId(n as u32))),
            None => None,
        },
        Word::Asn => match parse_number(typed.text.as_str(), u32::MAX as u64) {
            Some(n) => Some(Some(Argument::Asn(n as u32))),
            None => None,
        },
        Word::Community => Some(Some(Argument::Community(typed.text.as_str().to_owned()))),
    }
}

/// What some values hold.
pub open spec fn argument_views(arguments: Seq<Argument>) -> Seq<ArgumentView> {
    arguments.map_values(|v: Argument| v@)
}

/// Whether values that may be missing are as told.
pub open spec fn same_values(values: Option<Seq<ArgumentView>>, arguments: Option<Vec<Argument>>) -> bool {
    match (values, arguments) {
        (Some(values), Some(arguments)) => argument_views(arguments@) == values,
        (None, None) => true,
        _ => false,
    }
}

/// A word that does not fit spoils what is typed behind it.
proof fn misfit_spoils(words: Seq<WordView>, typed: Seq<TypedView>, n: int)
    requires
        0 <= n <= typed.len(),
        captured(words, typed.take(n)) is None,
    ensures
        captured(words, typed) is None,
    decreases typed.len(),
{
    if n == typed.len() {
        assert(typed.take(n) =~= typed);
    } else {
        assert(typed.drop_last().take(n) =~= typed.take(n));
        misfit_spoils(words, typed.drop_last(), n);
    }
}

/// The values among what was typed, if it begins a command.
fn capture(words: &[Word], typed: &[Typed]) -> (r: Option<Vec<Argument>>)
    ensures
        same_values(captured(word_list(words@), typed_list(typed@)), r),
{
    let ghost all = word_list(words@);
    let ghost told = typed_list(typed@);
    let mut values: Vec<Argument> = Vec::new();
    if typed.len() > words.len() {
        return None;
    }
    let mut i: usize = 0;
    assert(argument_views(values@) =~= seq![]);
    assert(told.take(0) =~= seq![]);
    while i < typed.len()
        invariant
            i <= typed@.len() <= words@.len(),
            all == word_list(words@),
            told == typed_list(typed@),
            captured(all, told.take(i as int)) == Some(argument_views(values@)),
        decreases typed.len() - i,
    {
        let ghost before = values@;
        proof {
            let upto = told.take(i + 1);
            assert(upto.drop_last() =~= told.take(i as int));
            assert(upto.last() == typed@[i as int]@);
            assert(all[i as int] == words@[i as int]@);
        }
        match fit(&words[i], &typed[i]) {
            Some(Some(value)) => {
                values.push(value);
                assert(argument_views(values@) =~= argument_views(before).push(value@));
            },
            Some(None) => {},
            None => {
                proof {
                    misfit_spoils(all, told, i + 1);
                }
                return None;
            },
        }
        i += 1;
    }
    assert(told.take(i as int) =~= told);
    Some(values)
}

/// Places as numbers.
pub open spec fn places(list: Seq<usize>) -> Seq<int> {
    list.map_values(|n: usize| n as int)
}

/// The commands that are meant by what was typed, by their places.
#[verifier::loop_isolation(false)]
fn find_meant(entries: &[Entry], typed: &[Typed]) -> (r: Vec<usize>)
    ensures
        places(r@) == meant(grammar(entries@), typed_list(typed@), typed@.len()),
        forall|k: int| 0 <= k < r@.len() ==> (#[trigger] r@[k]) < entries@.len(),
        forall|k: int|
            0 <= k < r@.len() ==> captured(
                grammar(entries@)[(#[trigger] r@[k]) as int],
                typed_list(typed@),
            ) is Some,
{
    let ghost all = grammar(entries@);
    let ghost told = typed_list(typed@);
    let mut list: Vec<usize> = Vec::new();
    let mut n: usize = 0;
    assert(places(list@) =~= seq![]);
    while n < entries.len()
        invariant
            n <= entries@.len(),
            places(list@) == begun(all, told, n as nat),
        decreases entries.len() - n,
    {
        let ghost before = list@;
        assert(all[n as int] == word_list(entries@[n as int].words@));
        if capture(&entries[n].words, typed).is_some() {
            list.push(n);
            assert(places(list@) =~= places(before).push(n as int));
        }
        n += 1;
    }
    let mut i: usize = 0;
    while i < typed.len()
        invariant
            i <= typed@.len(),
            places(list@) == meant(all, told, i as nat),
        decreases typed.len() - i,
    {
        let ghost current = places(list@);
        proof {
            meant_are_begun(all, told, i as nat);
        }
        let mut exact: Vec<usize> = Vec::new();
        let mut k: usize = 0;
        assert(places(exact@) =~= seq![]);
        assert(current.take(0) =~= seq![]);
        while k < list.len()
            invariant
                k <= list@.len(),
                current == places(list@),
                places(exact@) == those_in_full(all, told, current.take(k as int), i as int),
            decreases list.len() - k,
        {
            let ghost before = exact@;
            let place = list[k];
            proof {
                assert(current.take(k + 1).drop_last() =~= current.take(k as int));
                assert(current.take(k + 1).last() == place as int);
                assert(meant(all, told, i as nat)[k as int] == place as int);
                assert(all[place as int] == word_list(entries@[place as int].words@));
                captured_is_short(all[place as int], told);
                assert(all[place as int][i as int] == entries@[place as int].words@[i as int]@);
                assert(told[i as int] == typed@[i as int]@);
            }
            let full = match &entries[place].words[i] {
                Word::Keyword(keyword) => same(keyword.as_str(), typed[i].text.as_str()),
                _ => false,
            };
            if full {
                exact.push(place);
                assert(places(exact@) =~= places(before).push(place as int));
            }
            k += 1;
        }
        assert(current.take(k as int) =~= current);
        if exact.len() > 0 {
            list = exact;
        }
        i += 1;
    }
    proof {
        meant_are_begun(all, told, typed@.len());
        assert forall|k: int| 0 <= k < list@.len() implies (#[trigger] list@[k]) < entries@.len()
            && captured(all[list@[k] as int], told) is Some by {
            assert(places(list@)[k] == list@[k] as int);
            assert(meant(all, told, typed@.len())[k] == list@[k] as int);
        }
    }
    list
}

/// No more words were typed than a command that they begin has.
proof fn captured_is_short(words: Seq<WordView>, typed: Seq<TypedView>)
    requires
        captured(words, typed) is Some,
    ensures
        typed.len() <= words.len(),
{
}

/// A command that was found: its place, and the values that it was given.
#[derive(Debug)]
pub struct Found {
    pub place: usize,
    pub args: Vec<Argument>,
}

/// Finds the command that was typed. Words may be typed in short, as long as
/// only one command is meant; a word that is typed in full means itself.
pub fn resolve(entries: &[Entry], typed: &[Typed]) -> (r: Result<Found, Unresolved>)
    ensures
        match resolved(grammar(entries@), typed_list(typed@)) {
            Ok(place) => r is Ok && r->Ok_0.place == place && r->Ok_0.place < entries@.len()
                && captured(grammar(entries@)[place], typed_list(typed@)) == Some(
                argument_views(r->Ok_0.args@),
            ),
            Err(error) => r == Err::<Found, Unresolved>(error),
        },
{
    let ghost all = grammar(entries@);
    let ghost told = typed_list(typed@);
    let list = find_meant(entries, typed);
    let ghost current = places(list@);
    let mut whole: Vec<usize> = Vec::new();
    let mut k: usize = 0;
    assert(places(whole@) =~= seq![]);
    assert(current.take(0) =~= seq![]);
    while k < list.len()
        invariant
            k <= list@.len(),
            all == grammar(entries@),
            current == places(list@),
            forall|j: int| 0 <= j < list@.len() ==> (#[trigger] list@[j]) < entries@.len(),
            forall|j: int| 0 <= j < whole@.len() ==> (#[trigger] whole@[j]) < entries@.len(),
            places(whole@) == those_whole(all, current.take(k as int), typed@.len()),
        decreases list.len() - k,
    {
        let ghost before = whole@;
        let place = list[k];
        proof {
            assert(current.take(k + 1).drop_last() =~= current.take(k as int));
            assert(current.take(k + 1).last() == place as int);
            assert(all[place as int] == word_list(entries@[place as int].words@));
        }
        if entries[place].words.len() == typed.len() {
            whole.push(place);
            assert(places(whole@) =~= places(before).push(place as int));
        }
        k += 1;
    }
    proof {
        assert(current.take(k as int) =~= current);
        found_command_fits(all, told);
    }
    if whole.len() > 1 {
        return Err(Unresolved::Ambiguous);
    }
    if whole.len() == 1 {
        let place = whole[0];
        assert(places(whole@)[0] == place as int);
        assert(all[place as int] == word_list(entries@[place as int].words@));
        match capture(&entries[place].words, typed) {
            Some(args) => {
                return Ok(Found { place, args });
            },
            None => {},
        }
    }
    if list.len() == 0 {
        Err(Unresolved::Invalid)
    } else {
        Err(Unresolved::Incomplete)
    }
}

/// What is shown for a word of a command.
pub open spec fn word_text(word: WordView) -> Seq<char> {
    match word {
        WordView::Keyword(keyword) => keyword,
        WordView::Prefix => "<prefix>"@,
        WordView::Ip => "<ip>"@,
        WordView::Id => "<id>"@,
        WordView::Asn => "<asn>"@,
        WordView::Community => "<community>"@,
    }
}

/// What a candidate holds: what is typed for it, what is shown, and what it is
/// for.
pub ghost struct CandidateView {
    pub insert: Seq<char>,
    pub display: Seq<char>,
    pub help: Seq<char>,
}

/// What some candidates hold.
pub open spec fn candidate_views(candidates: Seq<Candidate>) -> Seq<CandidateView> {
    candidates.map_values(
        |c: Candidate|
            CandidateView { insert: c.insert@, display: c.display@, help: c.help@ },
    )
}

/// Whether a candidate is among some, by what is shown.
pub open spec fn is_shown(candidates: Seq<CandidateView>, display: Seq<char>) -> bool {
    exists|i: int| 0 <= i < candidates.len() && (#[trigger] candidates[i]).display == display
}

/// What may follow by some of the commands: their next words, each once, as far
/// as they go on with what was typed of it.
pub open spec fn following(
    entries: Seq<EntryView>,
    list: Seq<int>,
    len: nat,
    last: Seq<char>,
) -> Seq<CandidateView>
    decreases list.len(),
{
    if list.len() == 0 {
        seq![]
    } else {
        let rest = following(entries, list.drop_last(), len, last);
        let entry = entries[list.last()];
        if len >= entry.words.len() {
            rest
        } else {
            let word = entry.words[len as int];
            let is_keyword = word is Keyword;
            if (is_keyword && !starts_with(word_text(word), last)) || is_shown(
                rest,
                word_text(word),
            ) {
                rest
            } else {
                rest.push(
                    CandidateView {
                        insert: if is_keyword {
                            word_text(word)
                        } else {
                            seq![]
                        },
                        display: word_text(word),
                        help: entry.help,
                    },
                )
            }
        }
    }
}

fn shown_text(word: &Word) -> (r: String)
    ensures
        r@ == word_text(word@),
{
    match word {
        Word::Keyword(keyword) => keyword.as_str().to_owned(),
        Word::Prefix => "<prefix>".to_owned(),
        Word::Ip => "<ip>".to_owned(),
        Word::Id => "<id>".to_owned(),
        Word::Asn => "<asn>".to_owned(),
        Word::Community => "<community>".to_owned(),
    }
}

fn already_shown(candidates: &[Candidate], display: &str) -> (r: bool)
    ensures
        r == is_shown(candidate_views(candidates@), display@),
{
    let ghost views = candidate_views(candidates@);
    let mut i: usize = 0;
    while i < candidates.len()
        invariant
            i <= candidates@.len(),
            views == candidate_views(candidates@),
            forall|k: int| 0 <= k < i ==> (#[trigger] views[k]).display != display@,
        decreases candidates.len() - i,
    {
        assert(views[i as int].display == candidates@[i as int].display@);
        if same(candidates[i].display.as_str(), display) {
            return true;
        }
        i += 1;
    }
    false
}

/// What may follow the words that were typed, given what was typed of the next.
pub fn candidates(entries: &[Entry], typed: &[Typed], last: &str) -> (r: Vec<Candidate>)
    ensures
        candidate_views(r@) == following(
            entry_views(entries@),
            meant(grammar(entries@), typed_list(typed@), typed@.len()),
            typed@.len(),
            last@,
        ),
{
    let list = find_meant(entries, typed);
    let ghost current = places(list@);
    let mut out: Vec<Candidate> = Vec::new();
    let mut k: usize = 0;
    assert(candidate_views(out@) =~= seq![]);
    assert(current.take(0) =~= seq![]);
    while k < list.len()
        invariant
            k <= list@.len(),
            current == places(list@),
            forall|j: int| 0 <= j < list@.len() ==> (#[trigger] list@[j]) < entries@.len(),
            candidate_views(out@) == following(
                entry_views(entries@),
                current.take(k as int),
                typed@.len(),
                last@,
            ),
        decreases list.len() - k,
    {
        let ghost before = out@;
        let entry = &entries[list[k]];
        proof {
            assert(current.take(k + 1).drop_last() =~= current.take(k as int));
            assert(current.take(k + 1).last() == list@[k as int] as int);
            assert(entry_views(entries@)[list@[k as int] as int] == entry@);
        }
        if typed.len() < entry.words.len() {
            let word = &entry.words[typed.len()];
            assert(word_list(entry.words@)[typed@.len() as int] == word@);
            let display = shown_text(word);
            let is_keyword = match word {
                Word::Keyword(_) => true,
                _ => false,
            };
            let goes_on = !is_keyword || matches_at(
                &chars_of(display.as_str()),
                &chars_of(last),
                0,
            );
            if goes_on && !already_shown(&out, display.as_str()) {
                let insert = if is_keyword {
                    display.as_str().to_owned()
                } else {
                    String::new()
                };
                let help = entry.help.as_str().to_owned();
                let ghost shown = CandidateView {
                    insert: insert@,
                    display: display@,
                    help: help@,
                };
                out.push(Candidate { insert, display, help });
                assert(candidate_views(out@) =~= candidate_views(before).push(shown));
                assert(!is_keyword ==> insert@ =~= seq![]);
            }
        }
        k += 1;
    }
    assert(current.take(k as int) =~= current);
    out
}

/// A prefix is an address, a slash and a number of bits up to 128.
pub proof fn prefixes_have_a_slash(addr: Seq<char>, bits: Seq<char>)
    requires
        forall|i: int| 0 <= i < addr.len() ==> #[trigger] addr[i] != '/',
    ensures
        number_in(bits, 128) is Some ==> prefix_parts(addr + seq!['/'] + bits) == Some(
            (addr, number_in(bits, 128)->0 as u8),
        ),
        number_in(bits, 128) is None ==> prefix_parts(addr + seq!['/'] + bits) is None,
{
    let text = addr + seq!['/'] + bits;
    crate::text::position_is_behind_the_front(addr, '/', bits);
    assert(text.take(addr.len() as int) =~= addr);
    assert(text.skip(addr.len() as int + 1) =~= bits);
}

/// A keyword fits its own start and gives no value. A value fits its own kind:
/// an address an address, a prefix a prefix, a number an ingress or an AS number,
/// and any word a community.
pub proof fn words_fit_their_kind(keyword: Seq<char>, typed: TypedView)
    ensures
        fits(WordView::Keyword(keyword), typed) is Some <==> typed.text.is_prefix_of(keyword),
        fits(WordView::Keyword(keyword), typed) is Some ==> fits(
            WordView::Keyword(keyword),
            typed,
        )->0 is None,
        fits(WordView::Prefix, typed) is Some <==> typed.prefix is Some,
        typed.prefix is Some ==> fits(WordView::Prefix, typed)->0 == Some(
            ArgumentView::Prefix((typed.prefix->0).0, (typed.prefix->0).1),
        ),
        fits(WordView::Ip, typed) is Some <==> typed.ip is Some,
        typed.ip is Some ==> fits(WordView::Ip, typed)->0 == Some(ArgumentView::Ip(typed.ip->0)),
        fits(WordView::Id, typed) is Some <==> number_in(typed.text, u32::MAX as nat) is Some,
        fits(WordView::Id, typed) is Some ==> fits(WordView::Id, typed)->0 == Some(
            ArgumentView::IngressId(number_in(typed.text, u32::MAX as nat)->0 as u32),
        ),
        fits(WordView::Asn, typed) is Some <==> number_in(typed.text, u32::MAX as nat) is Some,
        fits(WordView::Asn, typed) is Some ==> fits(WordView::Asn, typed)->0 == Some(
            ArgumentView::Asn(number_in(typed.text, u32::MAX as nat)->0 as u32),
        ),
        fits(WordView::Community, typed) == Some(Some(ArgumentView::Community(typed.text))),
{
    if typed.text.len() <= keyword.len() {
        assert(keyword.subrange(0, 0 + typed.text.len() as int) =~= keyword.take(typed.text.len() as int));
    }
    if typed.text.is_prefix_of(keyword) {
        assert(keyword.subrange(0, typed.text.len() as int) =~= typed.text);
    }
}

/// What was typed begins exactly the commands whose words it fits one by one.
pub proof fn begun_commands_fit(all: Seq<Seq<WordView>>, typed: Seq<TypedView>, n: nat, k: int)
    requires
        0 <= k < n <= all.len(),
    ensures
        begun(all, typed, n).contains(k) <==> captured(all[k], typed) is Some,
    decreases n,
{
    let list = begun(all, typed, n);
    let rest = begun(all, typed, (n - 1) as nat);
    if k < n - 1 {
        begun_commands_fit(all, typed, (n - 1) as nat, k);
        if rest.contains(k) {
            let i = choose|i: int| 0 <= i < rest.len() && rest[i] == k;
            assert(list[i] == k);
        }
        if list.contains(k) {
            let i = choose|i: int| 0 <= i < list.len() && list[i] == k;
            assert(rest[i] == k);
        }
    } else {
        begun_are_below(all, typed, (n - 1) as nat);
        if captured(all[k], typed) is Some {
            assert(list[list.len() - 1] == k);
        } else if list.contains(k) {
            let i = choose|i: int| 0 <= i < list.len() && list[i] == k;
            assert(rest[i] < n - 1);
        }
    }
}

proof fn begun_are_below(all: Seq<Seq<WordView>>, typed: Seq<TypedView>, n: nat)
    ensures
        forall|i: int| 0 <= i < begun(all, typed, n).len() ==> (#[trigger] begun(all, typed, n)[i])
            < n,
    decreases n,
{
    if n > 0 {
        begun_are_below(all, typed, (n - 1) as nat);
        let list = begun(all, typed, n);
        let rest = begun(all, typed, (n - 1) as nat);
        assert forall|i: int| 0 <= i < list.len() implies (#[trigger] list[i]) < n by {
            if i < rest.len() {
                assert(list[i] == rest[i]);
            }
        }
    }
}

/// What was typed is told as invalid exactly if it begins no command at all.
pub proof fn only_what_begins_nothing_is_invalid(all: Seq<Seq<WordView>>, typed: Seq<TypedView>)
    ensures
        resolved(all, typed) == Err::<int, Unresolved>(Unresolved::Invalid) <==> begun(
            all,
            typed,
            all.len(),
        ).len() == 0,
{
    some_are_meant(all, typed, typed.len());
    let list = meant(all, typed, typed.len());
    whole_are_no_more(all, list, typed.len());
}

proof fn some_are_meant(all: Seq<Seq<WordView>>, typed: Seq<TypedView>, n: nat)
    ensures
        meant(all, typed, n).len() == 0 <==> begun(all, typed, all.len()).len() == 0,
    decreases n,
{
    if n > 0 {
        some_are_meant(all, typed, (n - 1) as nat);
        let list = meant(all, typed, (n - 1) as nat);
        exact_are_no_more(all, typed, list, n - 1);
    }
}

proof fn exact_are_no_more(
    all: Seq<Seq<WordView>>,
    typed: Seq<TypedView>,
    list: Seq<int>,
    i: int,
)
    ensures
        those_in_full(all, typed, list, i).len() <= list.len(),
    decreases list.len(),
{
    if list.len() > 0 {
        exact_are_no_more(all, typed, list.drop_last(), i);
    }
}

proof fn whole_are_no_more(all: Seq<Seq<WordView>>, list: Seq<int>, len: nat)
    ensures
        those_whole(all, list, len).len() <= list.len(),
    decreases list.len(),
{
    if list.len() > 0 {
        whole_are_no_more(all, list.drop_last(), len);
    }
}

} // verus!
