//! Output filters: which lines of an answer are shown.

use crate::cli::lex::{Pipe, PipeOp};
use crate::text::{
    contains, decimal, decimal_text, from_utf8_lossy, lossy_text, lowercase, occurs_in,
    to_lowercase,
};
use crate::wire::put;
use vstd::prelude::*;
use vstd::string::StringExecFns;
use vstd::utf8::encode_utf8;

verus! {

/// The octet that ends a line.
pub const NEWLINE: u8 = 10;

/// Lets some of the lines through that are written to it. Matching looks for
/// the pattern anywhere in a line and ignores case.
#[derive(Debug)]
pub struct LineFilter {
    pub op: PipeOp,
    pub pattern_lower: String,
    /// The start of a line that has not ended yet.
    pub buf: Vec<u8>,
    /// Whether `begin` lets everything through from here on.
    pub begun: bool,
    pub count: u64,
    /// What was let through and not taken away yet.
    pub passed: Vec<u8>,
}

/// What a [`LineFilter`] holds.
pub ghost struct FilterView {
    pub op: PipeOp,
    pub pattern: Seq<char>,
    pub buf: Seq<u8>,
    pub begun: bool,
    pub count: int,
    pub passed: Seq<u8>,
}

impl View for LineFilter {
    type V = FilterView;

    open spec fn view(&self) -> FilterView {
        FilterView {
            op: self.op,
            pattern: self.pattern_lower@,
            buf: self.buf@,
            begun: self.begun,
            count: self.count as int,
            passed: self.passed@,
        }
    }
}

/// Whether a line matches.
pub open spec fn hits(pattern: Seq<char>, line: Seq<u8>) -> bool {
    occurs_in(lowercase(lossy_text(line)), pattern)
}

/// Whether a line is let through.
pub open spec fn passes(f: FilterView, line: Seq<u8>) -> bool {
    match f.op {
        PipeOp::Include => hits(f.pattern, line),
        PipeOp::Exclude => !hits(f.pattern, line),
        PipeOp::Begin => f.begun || hits(f.pattern, line),
        PipeOp::Count => false,
    }
}

/// The filter after a line.
pub open spec fn with_line(f: FilterView, line: Seq<u8>) -> FilterView {
    FilterView {
        begun: f.begun || (f.op == PipeOp::Begin && hits(f.pattern, line)),
        count: if f.op == PipeOp::Count {
            f.count + 1
        } else {
            f.count
        },
        passed: if passes(f, line) {
            f.passed + line + seq![NEWLINE]
        } else {
            f.passed
        },
        ..f
    }
}

/// The filter after an octet.
pub open spec fn with_octet(f: FilterView, octet: u8) -> FilterView {
    if octet == NEWLINE {
        FilterView { buf: seq![], ..with_line(f, f.buf) }
    } else {
        FilterView { buf: f.buf.push(octet), ..f }
    }
}

/// The filter after some octets.
pub open spec fn with_octets(f: FilterView, octets: Seq<u8>) -> FilterView
    decreases octets.len(),
{
    if octets.len() == 0 {
        f
    } else {
        with_octet(with_octets(f, octets.drop_last()), octets.last())
    }
}

/// What has been let through in the end: a last line without an end counts as
/// a line, and `count` gives the number of lines.
pub open spec fn in_the_end(f: FilterView) -> Seq<u8> {
    let last = if f.buf.len() > 0 {
        with_line(f, f.buf)
    } else {
        f
    };
    if f.op == PipeOp::Count {
        last.passed + encode_utf8(
            "Number of lines which match: "@ + decimal_text(last.count as nat),
        ) + seq![NEWLINE]
    } else {
        last.passed
    }
}

/// It does not matter how what is written is cut into pieces.
pub proof fn pieces_do_not_matter(f: FilterView, a: Seq<u8>, b: Seq<u8>)
    ensures
        with_octets(with_octets(f, a), b) == with_octets(f, a + b),
    decreases b.len(),
{
    if b.len() == 0 {
        assert(a + b =~= a);
    } else {
        pieces_do_not_matter(f, a, b.drop_last());
        assert((a + b).drop_last() =~= a + b.drop_last());
        assert((a + b).last() == b.last());
    }
}

proof fn count_grows(f: FilterView, octets: Seq<u8>)
    ensures
        f.count <= with_octets(f, octets).count <= f.count + octets.len(),
    decreases octets.len(),
{
    if octets.len() > 0 {
        count_grows(f, octets.drop_last());
    }
}

/// What was let through is never taken back.
pub proof fn passed_lines_stay(f: FilterView, octets: Seq<u8>)
    ensures
        f.passed.is_prefix_of(with_octets(f, octets).passed),
    decreases octets.len(),
{
    let after = with_octets(f, octets).passed;
    if octets.len() > 0 {
        passed_lines_stay(f, octets.drop_last());
        let before = with_octets(f, octets.drop_last()).passed;
        assert(before =~= after.take(before.len() as int));
        assert(f.passed =~= after.take(f.passed.len() as int)) by {
            assert(f.passed =~= before.take(f.passed.len() as int));
        }
    } else {
        assert(f.passed =~= after.take(f.passed.len() as int));
    }
}

/// A filter to which nothing was written.
pub open spec fn fresh_filter(op: PipeOp, pattern: Seq<char>) -> FilterView {
    FilterView {
        op,
        pattern: lowercase(pattern),
        buf: seq![],
        begun: false,
        count: 0,
        passed: seq![],
    }
}

/// The filter after some writes.
pub open spec fn with_writes(f: FilterView, writes: Seq<Seq<u8>>) -> FilterView
    decreases writes.len(),
{
    if writes.len() == 0 {
        f
    } else {
        with_octets(with_writes(f, writes.drop_last()), writes.last())
    }
}

/// All that is written by some writes.
pub open spec fn all_written(writes: Seq<Seq<u8>>) -> Seq<u8>
    decreases writes.len(),
{
    if writes.len() == 0 {
        seq![]
    } else {
        all_written(writes.drop_last()) + writes.last()
    }
}

/// The lines in some octets that have their end, without it, and what stands
/// behind the last end.
pub open spec fn ended_and_rest(octets: Seq<u8>) -> (Seq<Seq<u8>>, Seq<u8>)
    decreases octets.len(),
{
    if octets.len() == 0 {
        (seq![], seq![])
    } else {
        let (lines, rest) = ended_and_rest(octets.drop_last());
        if octets.last() == NEWLINE {
            (lines.push(rest), seq![])
        } else {
            (lines, rest.push(octets.last()))
        }
    }
}

/// The lines in some octets. What stands behind the last end of a line is a
/// line if it is not empty.
pub open spec fn lines_in(octets: Seq<u8>) -> Seq<Seq<u8>> {
    let (lines, rest) = ended_and_rest(octets);
    if rest.len() > 0 {
        lines.push(rest)
    } else {
        lines
    }
}

/// Lines with their ends.
pub open spec fn with_ends(lines: Seq<Seq<u8>>) -> Seq<u8>
    decreases lines.len(),
{
    if lines.len() == 0 {
        seq![]
    } else {
        with_ends(lines.drop_last()) + lines.last() + seq![NEWLINE]
    }
}

/// Where the first line that matches stands; behind the last line if none
/// does.
pub open spec fn first_hit(pattern: Seq<char>, lines: Seq<Seq<u8>>) -> int
    decreases lines.len(),
{
    if lines.len() == 0 {
        0
    } else {
        let before = first_hit(pattern, lines.drop_last());
        if before < lines.len() - 1 || hits(pattern, lines.last()) {
            before
        } else {
            lines.len() as int
        }
    }
}

/// The lines that a filter lets through: those that match, those that do not,
/// or all from the first match on.
pub open spec fn kept_lines(op: PipeOp, pattern: Seq<char>, lines: Seq<Seq<u8>>) -> Seq<Seq<u8>> {
    match op {
        PipeOp::Include => lines.filter(|line: Seq<u8>| hits(pattern, line)),
        PipeOp::Exclude => lines.filter(|line: Seq<u8>| !hits(pattern, line)),
        PipeOp::Begin => lines.skip(first_hit(pattern, lines)),
        PipeOp::Count => seq![],
    }
}

/// The first match is what its name says.
pub proof fn first_hit_is_first(pattern: Seq<char>, lines: Seq<Seq<u8>>)
    ensures
        0 <= first_hit(pattern, lines) <= lines.len(),
        first_hit(pattern, lines) < lines.len() ==> hits(
            pattern,
            lines[first_hit(pattern, lines)],
        ),
        forall|i: int| 0 <= i < first_hit(pattern, lines) ==> !hits(pattern, #[trigger] lines[i]),
    decreases lines.len(),
{
    if lines.len() > 0 {
        let before = lines.drop_last();
        first_hit_is_first(pattern, before);
        assert forall|i: int| 0 <= i < first_hit(pattern, lines) implies !hits(
            pattern,
            #[trigger] lines[i],
        ) by {
            if i < before.len() {
                assert(before[i] == lines[i]);
            }
        }
    }
}

/// The filter after some lines.
pub open spec fn after_lines(op: PipeOp, pattern: Seq<char>, lines: Seq<Seq<u8>>, rest: Seq<u8>) -> FilterView {
    FilterView {
        buf: rest,
        begun: op == PipeOp::Begin && first_hit(lowercase(pattern), lines) < lines.len(),
        count: if op == PipeOp::Count {
            lines.len() as int
        } else {
            0
        },
        passed: with_ends(kept_lines(op, lowercase(pattern), lines)),
        ..fresh_filter(op, pattern)
    }
}

proof fn line_is_kept(op: PipeOp, pattern: Seq<char>, lines: Seq<Seq<u8>>, rest: Seq<u8>, line: Seq<u8>)
    ensures
        with_line(after_lines(op, pattern, lines, rest), line) == after_lines(
            op,
            pattern,
            lines.push(line),
            rest,
        ),
{
    reveal(Seq::filter);
    let lower = lowercase(pattern);
    let more = lines.push(line);
    assert(more.drop_last() =~= lines);
    first_hit_is_first(lower, lines);
    let f = after_lines(op, pattern, lines, rest);
    let kept = kept_lines(op, lower, lines);
    let after = kept_lines(op, lower, more);
    if passes(f, line) {
        assert(after =~= kept.push(line));
        assert(after.drop_last() =~= kept);
        assert(with_ends(after) == with_ends(kept) + line + seq![NEWLINE]);
    } else {
        assert(after =~= kept);
    }
}

proof fn octets_are_lines(op: PipeOp, pattern: Seq<char>, octets: Seq<u8>)
    ensures
        with_octets(fresh_filter(op, pattern), octets) == after_lines(
            op,
            pattern,
            ended_and_rest(octets).0,
            ended_and_rest(octets).1,
        ),
    decreases octets.len(),
{
    reveal(Seq::filter);
    if octets.len() == 0 {
        let lines = Seq::<Seq<u8>>::empty();
        assert(kept_lines(op, lowercase(pattern), lines) =~= lines);
    } else {
        let before = octets.drop_last();
        let (lines, rest) = ended_and_rest(before);
        octets_are_lines(op, pattern, before);
        if octets.last() == NEWLINE {
            line_is_kept(op, pattern, lines, rest, rest);
        }
    }
}

proof fn writes_are_octets(f: FilterView, writes: Seq<Seq<u8>>)
    ensures
        with_writes(f, writes) == with_octets(f, all_written(writes)),
    decreases writes.len(),
{
    if writes.len() > 0 {
        writes_are_octets(f, writes.drop_last());
        pieces_do_not_matter(f, all_written(writes.drop_last()), writes.last());
    }
}

/// What a filter lets through in the end is a matter of all that was written,
/// however it was cut into pieces: of its lines those that the filter keeps, in
/// order and each with its end, or the number of lines.
pub proof fn lines_are_filtered(op: PipeOp, pattern: Seq<char>, writes: Seq<Seq<u8>>)
    ensures
        ({
            let lines = lines_in(all_written(writes));
            in_the_end(with_writes(fresh_filter(op, pattern), writes)) == if op == PipeOp::Count {
                encode_utf8("Number of lines which match: "@ + decimal_text(lines.len()))
                    + seq![NEWLINE]
            } else {
                with_ends(kept_lines(op, lowercase(pattern), lines))
            }
        }),
{
    let octets = all_written(writes);
    let (lines, rest) = ended_and_rest(octets);
    writes_are_octets(fresh_filter(op, pattern), writes);
    octets_are_lines(op, pattern, octets);
    if rest.len() > 0 {
        line_is_kept(op, pattern, lines, rest, rest);
    }
    let f = with_writes(fresh_filter(op, pattern), writes);
    if op == PipeOp::Count {
        let none = Seq::<Seq<u8>>::empty();
        assert(with_ends(none) =~= seq![]);
        let told = encode_utf8(
            "Number of lines which match: "@ + decimal_text(lines_in(octets).len()),
        );
        assert(Seq::<u8>::empty() + told + seq![NEWLINE] =~= told + seq![NEWLINE]);
    }
}

impl LineFilter {
    /// A filter to which nothing was written.
    pub fn new(pipe: &Pipe) -> (r: LineFilter)
        ensures
            r@ == fresh_filter(pipe.op, pipe.pattern@),
    {
        let r = LineFilter {
            op: pipe.op,
            pattern_lower: to_lowercase(pipe.pattern.as_str()),
            buf: Vec::new(),
            begun: false,
            count: 0,
            passed: Vec::new(),
        };
        assert(r@.buf =~= seq![]);
        assert(r@.passed =~= seq![]);
        r
    }

    /// Whether a line is let through.
    fn keep(&mut self, line: &[u8]) -> (r: bool)
        requires
            old(self).count < u64::MAX,
        ensures
            r == passes(old(self)@, line@),
            final(self)@ == (FilterView {
                passed: old(self)@.passed,
                ..with_line(old(self)@, line@)
            }),
    {
        let lower = to_lowercase(from_utf8_lossy(line).as_str());
        let hit = contains(lower.as_str(), self.pattern_lower.as_str());
        match self.op {
            PipeOp::Include => hit,
            PipeOp::Exclude => !hit,
            PipeOp::Begin => {
                if !self.begun && hit {
                    self.begun = true;
                }
                self.begun
            },
            PipeOp::Count => {
                self.count = self.count + 1;
                false
            },
        }
    }

    /// Takes in a line.
    fn emit_line(&mut self, line: &[u8])
        requires
            old(self).count < u64::MAX,
        ensures
            final(self)@ == with_line(old(self)@, line@),
    {
        if self.keep(line) {
            put(&mut self.passed, line);
            self.passed.push(NEWLINE);
            assert(self@.passed =~= old(self)@.passed + line@ + seq![NEWLINE]);
        }
    }

    /// Takes in what is written.
    pub fn write(&mut self, data: &[u8])
        requires
            old(self).count + data@.len() <= u64::MAX,
        ensures
            final(self)@ == with_octets(old(self)@, data@),
    {
        let ghost before = self@;
        let mut i: usize = 0;
        assert(data@.take(0) =~= seq![]);
        while i < data.len()
            invariant
                i <= data@.len(),
                self@ == with_octets(before, data@.take(i as int)),
                before.count + data@.len() <= u64::MAX,
            decreases data.len() - i,
        {
            let octet: u8 = data[i];
            let ghost at = self@;
            proof {
                count_grows(before, data@.take(i as int));
                assert(data@.take(i + 1).drop_last() =~= data@.take(i as int));
            }
            if octet == NEWLINE {
                let mut line: Vec<u8> = Vec::new();
                line.append(&mut self.buf);
                assert(line@ =~= at.buf);
                assert(self@ == (FilterView { buf: seq![], ..at }));
                self.emit_line(&line);
                assert(self@ == with_octet(at, octet));
            } else {
                self.buf.push(octet);
            }
            i += 1;
        }
        assert(data@.take(i as int) =~= data@);
    }

    /// Takes away what was let through so far.
    pub fn take_passed(&mut self) -> (r: Vec<u8>)
        ensures
            r@ == old(self)@.passed,
            final(self)@ == (FilterView { passed: seq![], ..old(self)@ }),
    {
        let mut out: Vec<u8> = Vec::new();
        out.append(&mut self.passed);
        assert(out@ =~= old(self)@.passed);
        assert(self@.passed =~= seq![]);
        out
    }

    /// Ends the output: what was let through and not taken away yet.
    pub fn finish(self) -> (r: Vec<u8>)
        requires
            self.count < u64::MAX,
        ensures
            r@ == in_the_end(self@),
    {
        let mut f = self;
        let ghost before = f@;
        if f.buf.len() > 0 {
            let mut line: Vec<u8> = Vec::new();
            line.append(&mut f.buf);
            assert(line@ =~= before.buf);
            assert(f@ == (FilterView { buf: seq![], ..before }));
            f.emit_line(&line);
            assert(f@.passed == with_line(before, before.buf).passed);
        }
        let LineFilter { op, count, passed, .. } = f;
        let mut passed = passed;
        if op == PipeOp::Count {
            let mut line = "Number of lines which match: ".to_owned();
            line.append(decimal(count).as_str());
            put(&mut passed, line.as_str().as_bytes());
            passed.push(NEWLINE);
            assert(passed@ =~= in_the_end(before));
        }
        passed
    }
}

/// What a filter lets through: the lines that match, those that do not, all from
/// the first match on, or none and their number in place of them. No line is let
/// through by both of the first two.
pub proof fn filters_let_lines_through(f: FilterView, line: Seq<u8>)
    ensures
        f.op is Include ==> (passes(f, line) <==> occurs_in(
            lowercase(lossy_text(line)),
            f.pattern,
        )),
        f.op is Exclude ==> (passes(f, line) <==> !occurs_in(
            lowercase(lossy_text(line)),
            f.pattern,
        )),
        f.op is Begin && f.begun ==> passes(f, line),
        f.op is Begin && !f.begun ==> (passes(f, line) <==> with_line(f, line).begun),
        f.op is Begin && f.begun ==> with_line(f, line).begun,
        f.op is Count ==> !passes(f, line) && with_line(f, line).count == f.count + 1,
        f.op !is Count ==> with_line(f, line).count == f.count,
        passes(f, line) ==> with_line(f, line).passed == f.passed + line + seq![10u8],
        !passes(f, line) ==> with_line(f, line).passed == f.passed,
{
}

} // verus!
