//! Lines in a stream of octets.

use crate::wire::octet_views;
use vstd::prelude::*;

verus! {

/// A line without the carriage return at its end.
pub open spec fn without_return(line: Seq<u8>) -> Seq<u8> {
    if line.len() > 0 && line.last() == 13 {
        line.drop_last()
    } else {
        line
    }
}

/// What some octets are behind the start of a line: the lines that end in
/// them, each without its end, and the start of the next.
pub open spec fn cut(start: Seq<u8>, data: Seq<u8>) -> (Seq<Seq<u8>>, Seq<u8>)
    decreases data.len(),
{
    if data.len() == 0 {
        (seq![], start)
    } else {
        let (lines, rest) = cut(start, data.drop_last());
        if data.last() == 10 {
            (lines.push(without_return(rest)), seq![])
        } else {
            (lines, rest.push(data.last()))
        }
    }
}

/// In how many pieces octets come does not matter for the lines in them.
pub proof fn lines_do_not_depend_on_pieces(start: Seq<u8>, a: Seq<u8>, b: Seq<u8>)
    ensures
        cut(start, a + b).0 == cut(start, a).0 + cut(cut(start, a).1, b).0,
        cut(start, a + b).1 == cut(cut(start, a).1, b).1,
    decreases b.len(),
{
    let (lines, rest) = cut(start, a);
    if b.len() == 0 {
        assert(a + b =~= a);
        assert(lines + cut(rest, b).0 =~= lines);
    } else {
        lines_do_not_depend_on_pieces(start, a, b.drop_last());
        assert((a + b).drop_last() =~= a + b.drop_last());
        assert((a + b).last() == b.last());
        let (more, _) = cut(rest, b.drop_last());
        if b.last() == 10 {
            let line = without_return(cut(rest, b.drop_last()).1);
            assert((lines + more).push(line) =~= lines + more.push(line));
        }
    }
}

/// The start of a line that has not ended yet.
#[derive(Debug)]
pub struct LineReader {
    pub start: Vec<u8>,
}

impl LineReader {
    /// The start of a stream.
    pub fn new() -> (r: LineReader)
        ensures
            r.start@ == Seq::<u8>::empty(),
    {
        LineReader { start: Vec::new() }
    }

    /// Takes in octets, and gives the lines that end in them.
    pub fn feed(&mut self, data: &[u8]) -> (r: Vec<Vec<u8>>)
        ensures
            octet_views(r@) == cut(old(self).start@, data@).0,
            final(self).start@ == cut(old(self).start@, data@).1,
    {
        let mut lines: Vec<Vec<u8>> = Vec::new();
        let mut line: Vec<u8> = Vec::new();
        line.append(&mut self.start);
        assert(line@ =~= old(self).start@);
        assert(octet_views(lines@) =~= seq![]);
        let mut i: usize = 0;
        while i < data.len()
            invariant
                i <= data@.len(),
                octet_views(lines@) == cut(old(self).start@, data@.take(i as int)).0,
                line@ == cut(old(self).start@, data@.take(i as int)).1,
            decreases data.len() - i,
        {
            let octet: u8 = data[i];
            let ghost before = lines@;
            let ghost rest = line@;
            proof {
                assert(data@.take(i + 1).drop_last() =~= data@.take(i as int));
                assert(data@.take(i + 1).last() == octet);
            }
            if octet == 10 {
                let n: usize = line.len();
                if n > 0 && line[n - 1] == 13 {
                    line.pop();
                }
                assert(line@ =~= without_return(rest));
                lines.push(line);
                line = Vec::new();
                assert(octet_views(lines@) =~= octet_views(before).push(without_return(rest)));
                assert(line@ =~= seq![]);
            } else {
                line.push(octet);
            }
            i += 1;
        }
        assert(data@.take(i as int) =~= data@);
        self.start = line;
        lines
    }

    /// Ends the stream: what stands behind the last end of a line is a line, if
    /// it is not empty.
    pub fn finish(self) -> (r: Option<Vec<u8>>)
        ensures
            r == (if self.start@.len() > 0 {
                Some(self.start)
            } else {
                None
            }),
    {
        if self.start.len() > 0 {
            Some(self.start)
        } else {
            None
        }
    }
}

} // verus!
