//! Words of a command line, and the output filter behind a command.

use crate::text::{
    chars_of, find_char, matches_at, position_of, starts_with, string_between, utf8_len,
    utf8_len_grows, utf8_len_is_length, width_of, word_views, words_fit, words_from, words_in, Word,
};
use vstd::prelude::*;
use vstd::string::{StrSliceExecFns, StringExecFns};

verus! {

/// A word and where it starts in the line, in octets.
#[derive(Debug)]
pub struct Token {
    pub text: String,
    pub offset: usize,
}

/// What a [`Token`] holds.
pub ghost struct TokenView {
    pub text: Seq<char>,
    pub offset: nat,
}

impl View for Token {
    type V = TokenView;

    open spec fn view(&self) -> TokenView {
        TokenView { text: self.text@, offset: self.offset as nat }
    }
}

/// The token for a word of a line.
pub open spec fn token_at(line: Seq<char>, word: (int, int)) -> TokenView {
    TokenView { text: line.subrange(word.0, word.1), offset: utf8_len(line.take(word.0)) }
}

/// The tokens of a line.
pub open spec fn tokens_of(line: Seq<char>) -> Seq<TokenView> {
    words_from(line, 0).map_values(|word: (int, int)| token_at(line, word))
}

/// What some tokens hold.
pub open spec fn token_views(tokens: Seq<Token>) -> Seq<TokenView> {
    tokens.map_values(|token: Token| token@)
}

/// Splits a command into words.
pub fn tokenize(line: &str) -> (r: Vec<Token>)
    ensures
        token_views(r@) == tokens_of(line@),
{
    let chars = chars_of(line);
    let words = words_in(&chars, 0);
    let octets: usize = line.as_bytes().len();
    proof {
        utf8_len_is_length(line@);
    }
    let mut tokens: Vec<Token> = Vec::new();
    let mut at: usize = 0;
    let mut offset: usize = 0;
    let mut i: usize = 0;
    assert(chars@.take(0) =~= seq![]);
    proof {
        words_are_in_order(chars@, 0);
    }
    while i < words.len()
        invariant
            i <= words@.len(),
            chars@ == line@,
            octets == utf8_len(line@),
            word_views(words@) == words_from(line@, 0),
            words_fit(words@, chars@.len() as int),
            words_ordered(words_from(line@, 0)),
            at <= chars@.len(),
            offset == utf8_len(line@.take(at as int)),
            i < words@.len() ==> at <= words@[i as int].start,
            tokens@.len() == i,
            forall|k: int| 0 <= k < i ==> (#[trigger] tokens@[k])@ == token_at(line@, words_from(line@, 0)[k]),
        decreases words.len() - i,
    {
        let word = words[i];
        while at < word.start
            invariant
                chars@ == line@,
                octets == utf8_len(line@),
                at <= word.start <= chars@.len(),
                offset == utf8_len(line@.take(at as int)),
            decreases word.start - at,
        {
            proof {
                assert(line@.take(at + 1).drop_last() =~= line@.take(at as int));
                utf8_len_grows(line@, at + 1);
            }
            offset = offset + width_of(chars[at]);
            at += 1;
        }
        assert(word_views(words@)[i as int] == (word.start as int, word.end as int));
        tokens.push(Token { text: string_between(&chars, word.start, word.end), offset });
        proof {
            if i + 1 < words@.len() {
                assert(word_views(words@)[i + 1] == (
                    words@[i + 1].start as int,
                    words@[i + 1].end as int,
                ));
            }
        }
        i += 1;
    }
    proof {
        assert(word_views(words@).len() == words@.len());
        assert(token_views(tokens@) =~= tokens_of(line@));
    }
    tokens
}

/// Whether words come one behind the other.
pub open spec fn words_ordered(words: Seq<(int, int)>) -> bool {
    forall|i: int| 0 <= i && i + 1 < words.len() ==> (#[trigger] words[i]).1 <= words[i + 1].0
        && words[i].0 < words[i].1
}

proof fn words_are_in_order(s: Seq<char>, i: int)
    requires
        0 <= i <= s.len(),
    ensures
        words_ordered(words_from(s, i)),
        words_from(s, i).len() > 0 ==> words_from(s, i)[0].0 >= i,
    decreases s.len() - i,
{
    if i < s.len() {
        if crate::text::is_white(s[i]) {
            words_are_in_order(s, i + 1);
        } else {
            let end = crate::text::word_end(s, i);
            crate::text::word_end_is_in_range(s, i);
            words_are_in_order(s, end);
            let rest = words_from(s, end);
            let all = words_from(s, i);
            assert(all =~= seq![(i, end)] + rest);
            assert forall|k: int| 0 <= k && k + 1 < all.len() implies (#[trigger] all[k]).1 <= all[k
                + 1].0 && all[k].0 < all[k].1 by {
                if k > 0 {
                    assert(all[k] == rest[k - 1]);
                    assert(all[k + 1] == rest[k]);
                }
            }
        }
    }
}

/// What an output filter does with lines.
#[derive(Clone, Copy, Debug, PartialEq, Eq, Structural)]
pub enum PipeOp {
    Include,
    Exclude,
    Begin,
    Count,
}

/// An output filter, as in `show status | include bgp`.
#[derive(Debug)]
pub struct Pipe {
    pub op: PipeOp,
    pub pattern: String,
}

/// What a [`Pipe`] holds.
pub ghost struct PipeView {
    pub op: PipeOp,
    pub pattern: Seq<char>,
}

impl View for Pipe {
    type V = PipeView;

    open spec fn view(&self) -> PipeView {
        PipeView { op: self.op, pattern: self.pattern@ }
    }
}

/// The filter that a word stands for: the first whose name starts with it.
pub open spec fn op_named(word: Seq<char>) -> Option<PipeOp> {
    if word.len() == 0 {
        None
    } else if starts_with("include"@, word) {
        Some(PipeOp::Include)
    } else if starts_with("exclude"@, word) {
        Some(PipeOp::Exclude)
    } else if starts_with("begin"@, word) {
        Some(PipeOp::Begin)
    } else if starts_with("count"@, word) {
        Some(PipeOp::Count)
    } else {
        None
    }
}

impl PipeOp {
    /// Reads a filter from a word, which may be short for it.
    pub fn parse(word: &str) -> (r: Option<PipeOp>)
        ensures
            r == op_named(word@),
    {
        let chars = chars_of(word);
        if chars.len() == 0 {
            return None;
        }
        if matches_at(&chars_of("include"), &chars, 0) {
            Some(PipeOp::Include)
        } else if matches_at(&chars_of("exclude"), &chars, 0) {
            Some(PipeOp::Exclude)
        } else if matches_at(&chars_of("begin"), &chars, 0) {
            Some(PipeOp::Begin)
        } else if matches_at(&chars_of("count"), &chars, 0) {
            Some(PipeOp::Count)
        } else {
            None
        }
    }
}

/// Words put together again with single spaces between them.
pub open spec fn joined(line: Seq<char>, words: Seq<(int, int)>) -> Seq<char>
    decreases words.len(),
{
    if words.len() == 0 {
        seq![]
    } else if words.len() == 1 {
        line.subrange(words[0].0, words[0].1)
    } else {
        joined(line, words.drop_last()) + " "@ + line.subrange(words.last().0, words.last().1)
    }
}

/// The output filter behind a command, if there is a proper one: a bar, the
/// name of a filter, and a pattern, which only `count` can do without.
pub open spec fn pipe_in(line: Seq<char>) -> Option<PipeView> {
    let bar = position_of(line, '|');
    let words = words_from(line, bar + 1);
    if bar >= line.len() || words.len() == 0 {
        None
    } else {
        let pattern = joined(line, words.drop_first());
        match op_named(line.subrange(words[0].0, words[0].1)) {
            Some(op) => if pattern.len() == 0 && op != PipeOp::Count {
                None
            } else {
                Some(PipeView { op, pattern })
            },
            None => None,
        }
    }
}

/// The command of a line: what stands before a proper output filter, or all of
/// it.
pub open spec fn command_in(line: Seq<char>) -> Seq<char> {
    if pipe_in(line) is Some {
        line.take(position_of(line, '|'))
    } else {
        line
    }
}

fn join_words(chars: &[char], words: &[Word], from: usize) -> (r: String)
    requires
        from <= words@.len(),
        words_fit(words@, chars@.len() as int),
    ensures
        r@ == joined(chars@, word_views(words@).skip(from as int)),
{
    let ghost all = word_views(words@).skip(from as int);
    let mut out = String::new();
    let mut i: usize = from;
    assert(all.take(0) =~= seq![]);
    while i < words.len()
        invariant
            from <= i <= words@.len(),
            words_fit(words@, chars@.len() as int),
            all == word_views(words@).skip(from as int),
            out@ == joined(chars@, all.take(i - from)),
        decreases words.len() - i,
    {
        let word = words[i];
        let text = string_between(chars, word.start, word.end);
        let ghost k = i - from;
        let ghost before = out@;
        if i > from {
            out.append(" ");
        }
        out.append(text.as_str());
        proof {
            assert(all[k] == (word.start as int, word.end as int));
            assert(all.take(k + 1).drop_last() =~= all.take(k));
            assert(all.take(k + 1).last() == all[k]);
            if k == 0 {
                assert(before =~= seq![]);
                assert(out@ =~= text@);
                assert(all.take(1)[0] == all[0]);
            }
        }
        i += 1;
    }
    assert(all.take(i - from) =~= all);
    out
}

/// Takes the output filter off a line. A bar with nothing proper behind it
/// stays in the command, where it will not be understood: better than leaving
/// it out without a word.
pub fn split_pipe(line: &str) -> (r: (&str, Option<Pipe>))
    ensures
        r.0@ == command_in(line@),
        r.1 is Some <==> pipe_in(line@) is Some,
        r.1 is Some ==> pipe_in(line@) == Some(r.1->0@),
{
    let chars = chars_of(line);
    assert(chars@.skip(0) =~= chars@);
    let bar: usize = find_char(&chars, 0, '|');
    if bar == chars.len() {
        return (line, None);
    }
    let words = words_in(&chars, bar + 1);
    assert(word_views(words@).len() == words@.len());
    if words.len() == 0 {
        return (line, None);
    }
    let first = words[0];
    assert(word_views(words@)[0] == (first.start as int, first.end as int));
    let name = string_between(&chars, first.start, first.end);
    match PipeOp::parse(name.as_str()) {
        None => (line, None),
        Some(op) => {
            let pattern = join_words(&chars, &words, 1);
            assert(word_views(words@).drop_first() =~= word_views(words@).skip(1));
            if pattern.as_str().is_empty() && op != PipeOp::Count {
                return (line, None);
            }
            let command = line.substring_char(0, bar);
            assert(command@ =~= line@.take(bar as int));
            (command, Some(Pipe { op, pattern }))
        },
    }
}

/// A word stands for the first of include, exclude, begin and count that it is
/// the start of; their whole names stand for themselves.
pub proof fn filters_have_their_names()
    ensures
        op_named("include"@) == Some(PipeOp::Include),
        op_named("exclude"@) == Some(PipeOp::Exclude),
        op_named("begin"@) == Some(PipeOp::Begin),
        op_named("count"@) == Some(PipeOp::Count),
        op_named(Seq::empty()) is None,
{
    reveal_strlit("include");
    reveal_strlit("exclude");
    reveal_strlit("begin");
    reveal_strlit("count");
    let (i, e, b, c) = ("include"@, "exclude"@, "begin"@, "count"@);
    assert(i[0] == 'i' && e[0] == 'e' && b[0] == 'b' && c[0] == 'c');
    assert(i.len() == 7 && e.len() == 7 && b.len() == 5 && c.len() == 5);
    assert(i.subrange(0, 7) =~= i);
    assert(e.subrange(0, 7) =~= e);
    assert(b.subrange(0, 5) =~= b);
    assert(c.subrange(0, 5) =~= c);
    assert(i.subrange(0, 7)[0] == 'i');
    assert(i.subrange(0, 5)[0] == 'i');
    assert(e.subrange(0, 5)[0] == 'e');
    assert(b.subrange(0, 5)[0] == 'b');
}

/// A filter stands behind a bar, and only counting goes without a pattern. The
/// command is what stands in front of the bar, and the whole line if there is no
/// filter.
pub proof fn filters_stand_behind_a_bar(line: Seq<char>)
    ensures
        pipe_in(line) is Some ==> line.contains('|') && (pipe_in(line)->0.op == PipeOp::Count
            || pipe_in(line)->0.pattern.len() > 0),
        pipe_in(line) is Some ==> command_in(line).len() < line.len() && line[command_in(
            line,
        ).len() as int] == '|' && command_in(line).is_prefix_of(line) && !command_in(
            line,
        ).contains('|'),
        pipe_in(line) is None ==> command_in(line) == line,
{
    if pipe_in(line) is Some {
        let at = position_of(line, '|');
        let fore = line.take(at);
        crate::text::position_is_where_it_first_stands(line, '|');
        assert(line.contains(line[at]));
        if fore.contains('|') {
            let k = choose|k: int| 0 <= k < fore.len() && fore[k] == '|';
            assert(line[k] == '|');
        }
    }
}

/// The tokens of a line are its words, each with the octets in front of it.
pub proof fn tokens_are_words(line: Seq<char>, i: int)
    requires
        0 <= i < tokens_of(line).len(),
    ensures
        tokens_of(line).len() == words_from(line, 0).len(),
        tokens_of(line)[i].text == line.subrange(
            words_from(line, 0)[i].0,
            words_from(line, 0)[i].1,
        ),
        tokens_of(line)[i].offset == utf8_len(line.take(words_from(line, 0)[i].0)),
{
}

} // verus!
