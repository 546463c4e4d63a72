//! Strings as sequences of characters.

use vstd::prelude::*;
use vstd::string::StringExecFns;

verus! {

/// `String::push` puts one character behind the others.
pub assume_specification[ String::push ](s: &mut String, c: char)
    ensures
        final(s)@ == old(s)@.push(c),
;

/// Whether two strings hold the same characters.
pub fn same(a: &str, b: &str) -> (r: bool)
    ensures
        r == (a@ == b@),
{
    a.to_owned() == b.to_owned()
}

/// The characters of a string.
pub fn chars_of(s: &str) -> (r: Vec<char>)
    ensures
        r@ == s@,
{
    let mut out: Vec<char> = Vec::new();
    for c in iter: s.chars()
        invariant
            out@ == iter.seq().take(iter.index()),
    {
        out.push(c);
        assert(out@ =~= iter.seq().take(iter.index() + 1));
    }
    assert(out@ =~= s@);
    out
}

/// The string that some characters make up.
pub fn string_of(chars: &[char]) -> (r: String)
    ensures
        r@ == chars@,
{
    let mut out = String::new();
    let mut i: usize = 0;
    while i < chars.len()
        invariant
            i <= chars.len(),
            out@ == chars@.take(i as int),
        decreases chars.len() - i,
    {
        out.push(chars[i]);
        i += 1;
        assert(chars@.take(i as int) =~= chars@.take(i - 1).push(chars@[i - 1]));
    }
    assert(chars@.take(i as int) =~= chars@);
    out
}

/// The string that some characters from `from` up to `to` make up.
pub fn string_between(chars: &[char], from: usize, to: usize) -> (r: String)
    requires
        from <= to <= chars@.len(),
    ensures
        r@ == chars@.subrange(from as int, to as int),
{
    let mut out = String::new();
    let mut i: usize = from;
    while i < to
        invariant
            from <= i <= to <= chars@.len(),
            out@ == chars@.subrange(from as int, i as int),
        decreases to - i,
    {
        out.push(chars[i]);
        i += 1;
        assert(chars@.subrange(from as int, i as int) =~= chars@.subrange(
            from as int,
            i - 1,
        ).push(chars@[i - 1]));
    }
    out
}

/// Two strings joined.
pub fn join(a: &str, b: &str) -> (r: String)
    ensures
        r@ == a@ + b@,
{
    let mut out = a.to_owned();
    out.append(b);
    out
}

/// Three strings joined.
pub fn join3(a: &str, b: &str, c: &str) -> (r: String)
    ensures
        r@ == a@ + b@ + c@,
{
    let mut out = a.to_owned();
    out.append(b);
    out.append(c);
    out
}

/// The character for a digit below ten.
pub open spec fn digit_char(d: int) -> char {
    ('0' as int + d) as char
}

/// The decimal representation of a number.
pub open spec fn decimal_text(n: nat) -> Seq<char>
    decreases n,
{
    if n < 10 {
        seq![digit_char(n as int)]
    } else {
        decimal_text(n / 10).push(digit_char(n as int % 10))
    }
}

/// The digit for a number below ten.
pub fn digit(d: u8) -> (r: char)
    requires
        d < 10,
    ensures
        r == digit_char(d as int),
{
    (48u8 + d) as char
}

/// The decimal representation of a number.
pub fn decimal(n: u64) -> (r: String)
    ensures
        r@ == decimal_text(n as nat),
    decreases n,
{
    if n < 10 {
        let mut out = String::new();
        out.push(digit(n as u8));
        assert(out@ =~= decimal_text(n as nat));
        out
    } else {
        let mut out = decimal(n / 10);
        out.push(digit((n % 10) as u8));
        out
    }
}

/// Whether a character is a decimal digit.
pub open spec fn is_digit(c: char) -> bool {
    '0' <= c <= '9'
}

/// Whether every character is a decimal digit.
pub open spec fn all_digits(s: Seq<char>) -> bool {
    forall|i: int| 0 <= i < s.len() ==> is_digit(#[trigger] s[i])
}

/// The number that a string of decimal digits stands for.
pub open spec fn digits_value(s: Seq<char>) -> nat
    decreases s.len(),
{
    if s.len() == 0 {
        0
    } else {
        digits_value(s.drop_last()) * 10 + (s.last() as nat - '0' as nat) as nat
    }
}

/// A string without a plus sign in front.
pub open spec fn unsigned_part(s: Seq<char>) -> Seq<char> {
    if s.len() > 0 && s[0] == '+' {
        s.skip(1)
    } else {
        s
    }
}

/// The number that a string stands for, if it is one or more decimal digits,
/// possibly behind a plus sign, and the number is no larger than `max`.
pub open spec fn number_in(s: Seq<char>, max: nat) -> Option<nat> {
    let digits = unsigned_part(s);
    if digits.len() > 0 && all_digits(digits) && digits_value(digits) <= max {
        Some(digits_value(digits))
    } else {
        None
    }
}

proof fn digits_value_prefix(s: Seq<char>, n: int)
    requires
        0 <= n <= s.len(),
    ensures
        digits_value(s.take(n)) <= digits_value(s),
    decreases s.len(),
{
    if n < s.len() {
        digits_value_prefix(s.drop_last(), n);
        assert(s.drop_last().take(n) =~= s.take(n));
    } else {
        assert(s.take(n) =~= s);
    }
}

/// Reads a number.
pub fn parse_number(s: &str, max: u64) -> (r: Option<u64>)
    ensures
        r is Some <==> number_in(s@, max as nat) is Some,
        r is Some ==> number_in(s@, max as nat) == Some(r->0 as nat),
{
    let chars = chars_of(s);
    parse_digits(&chars, max)
}

/// Reads a number from its characters.
pub fn parse_digits(chars: &[char], max: u64) -> (r: Option<u64>)
    ensures
        r is Some <==> number_in(chars@, max as nat) is Some,
        r is Some ==> number_in(chars@, max as nat) == Some(r->0 as nat),
{
    let start: usize = if chars.len() > 0 && chars[0] == '+' {
        1
    } else {
        0
    };
    let ghost digits = unsigned_part(chars@);
    assert(digits =~= chars@.skip(start as int));
    if start == chars.len() {
        return None;
    }
    let mut value: u64 = 0;
    let mut i: usize = start;
    while i < chars.len()
        invariant
            start <= i <= chars.len(),
            digits == chars@.skip(start as int),
            digits == unsigned_part(chars@),
            all_digits(digits.take(i - start)),
            value == digits_value(digits.take(i - start)),
            value <= max,
        decreases chars.len() - i,
    {
        let c: char = chars[i];
        let ghost k = i - start;
        assert(digits[k] == c);
        if c < '0' || c > '9' {
            assert(!is_digit(digits[k]));
            return None;
        }
        let d: u64 = (c as u32 - 48) as u64;
        proof {
            assert(digits.take(k + 1).drop_last() =~= digits.take(k));
            assert(digits_value(digits.take(k + 1)) == value * 10 + d);
            digits_value_prefix(digits, k + 1);
        }
        if value > max / 10 || d > max - value * 10 {
            return None;
        }
        value = value * 10 + d;
        i += 1;
    }
    assert(digits.take(i - start) =~= digits);
    Some(value)
}

/// Whether `part` occurs in `s` at position `at`.
pub open spec fn occurs_at(s: Seq<char>, part: Seq<char>, at: int) -> bool {
    0 <= at && at + part.len() <= s.len() && s.subrange(at, at + part.len()) == part
}

/// Whether `part` occurs in `s`.
pub open spec fn occurs_in(s: Seq<char>, part: Seq<char>) -> bool {
    exists|at: int| occurs_at(s, part, at)
}

/// Whether `part` occurs in `s` at position `at`.
pub fn matches_at(s: &[char], part: &[char], at: usize) -> (r: bool)
    ensures
        r == occurs_at(s@, part@, at as int),
{
    if at > s.len() || part.len() > s.len() - at {
        return false;
    }
    let mut i: usize = 0;
    while i < part.len()
        invariant
            i <= part.len(),
            at + part.len() <= s.len(),
            forall|k: int| 0 <= k < i ==> s@[at + k] == #[trigger] part@[k],
        decreases part.len() - i,
    {
        if s[at + i] != part[i] {
            assert(s@.subrange(at as int, at + part@.len())[i as int] != part@[i as int]);
            return false;
        }
        i += 1;
    }
    assert(s@.subrange(at as int, at + part@.len()) =~= part@);
    true
}

/// Whether `part` occurs in `s`.
pub fn contains(s: &str, part: &str) -> (r: bool)
    ensures
        r == occurs_in(s@, part@),
{
    let chars = chars_of(s);
    let wanted = chars_of(part);
    contains_chars(&chars, &wanted)
}

/// Whether `part` occurs in `s`.
pub fn contains_chars(s: &[char], part: &[char]) -> (r: bool)
    ensures
        r == occurs_in(s@, part@),
{
    let mut at: usize = 0;
    while at < s.len()
        invariant
            at <= s.len(),
            forall|k: int| 0 <= k < at ==> !occurs_at(s@, part@, k),
        decreases s.len() - at,
    {
        if matches_at(s, part, at) {
            return true;
        }
        at += 1;
    }
    matches_at(s, part, at)
}

/// What some strings hold.
pub open spec fn string_views(strings: Seq<String>) -> Seq<Seq<char>> {
    strings.map_values(|s: String| s@)
}

/// Whether a character is white space.
pub open spec fn is_white(c: char) -> bool {
    let n = c as u32;
    ||| 0x9 <= n <= 0xd
    ||| n == 0x20
    ||| n == 0x85
    ||| n == 0xa0
    ||| n == 0x1680
    ||| 0x2000 <= n <= 0x200a
    ||| n == 0x2028
    ||| n == 0x2029
    ||| n == 0x202f
    ||| n == 0x205f
    ||| n == 0x3000
}

/// Whether a character is white space.
pub fn white(c: char) -> (r: bool)
    ensures
        r == is_white(c),
{
    let n: u32 = c as u32;
    (0x9 <= n && n <= 0xd) || n == 0x20 || n == 0x85 || n == 0xa0 || n == 0x1680 || (0x2000 <= n
        && n <= 0x200a) || n == 0x2028 || n == 0x2029 || n == 0x202f || n == 0x205f || n == 0x3000
}

/// A text without the white space at its start.
pub open spec fn trimmed_start(s: Seq<char>) -> Seq<char>
    decreases s.len(),
{
    if s.len() > 0 && is_white(s[0]) {
        trimmed_start(s.drop_first())
    } else {
        s
    }
}

/// A text without the white space at its end.
pub open spec fn trimmed_end(s: Seq<char>) -> Seq<char>
    decreases s.len(),
{
    if s.len() > 0 && is_white(s.last()) {
        trimmed_end(s.drop_last())
    } else {
        s
    }
}

/// A text without the white space at its start and end.
pub open spec fn trimmed(s: Seq<char>) -> Seq<char> {
    trimmed_end(trimmed_start(s))
}

/// Where a text starts behind its leading white space.
pub fn start_of(chars: &[char]) -> (r: usize)
    ensures
        r <= chars@.len(),
        trimmed_start(chars@) == chars@.skip(r as int),
{
    let mut i: usize = 0;
    assert(chars@.skip(0) =~= chars@);
    while i < chars.len() && white(chars[i])
        invariant
            i <= chars@.len(),
            trimmed_start(chars@) == trimmed_start(chars@.skip(i as int)),
        decreases chars.len() - i,
    {
        assert(chars@.skip(i as int).drop_first() =~= chars@.skip(i + 1));
        i += 1;
    }
    i
}

/// Where a text ends before its trailing white space.
pub fn end_of(chars: &[char]) -> (r: usize)
    ensures
        r <= chars@.len(),
        trimmed_end(chars@) == chars@.take(r as int),
{
    let mut i: usize = chars.len();
    assert(chars@.take(i as int) =~= chars@);
    while i > 0 && white(chars[i - 1])
        invariant
            i <= chars@.len(),
            trimmed_end(chars@) == trimmed_end(chars@.take(i as int)),
        decreases i,
    {
        assert(chars@.take(i as int).drop_last() =~= chars@.take(i - 1));
        i -= 1;
    }
    i
}

/// Characters without the white space at their start and end.
pub fn trim_chars(chars: &[char]) -> (r: Vec<char>)
    ensures
        r@ == trimmed(chars@),
{
    let start: usize = start_of(chars);
    let rest = vstd::slice::slice_subrange(chars, start, chars.len());
    assert(rest@ =~= chars@.skip(start as int));
    let end: usize = end_of(rest);
    let r = vstd::slice::slice_to_vec(vstd::slice::slice_subrange(rest, 0, end));
    assert(r@ =~= rest@.take(end as int));
    r
}

/// A text without the white space at its start and end.
pub fn trim(s: &str) -> (r: String)
    ensures
        r@ == trimmed(s@),
{
    let chars = chars_of(s);
    string_of(&trim_chars(&chars))
}

/// The first position of a character, or the length if it does not occur.
pub open spec fn position_of(s: Seq<char>, c: char) -> int
    decreases s.len(),
{
    if s.len() == 0 || s[0] == c {
        0
    } else {
        1 + position_of(s.drop_first(), c)
    }
}

/// The first position of a character from `from` on.
pub fn find_char(chars: &[char], from: usize, c: char) -> (r: usize)
    requires
        from <= chars@.len(),
    ensures
        from <= r <= chars@.len(),
        r == from + position_of(chars@.skip(from as int), c),
        r < chars@.len() ==> chars@[r as int] == c,
        forall|k: int| from <= k < r ==> #[trigger] chars@[k] != c,
{
    let mut i: usize = from;
    while i < chars.len() && chars[i] != c
        invariant
            from <= i <= chars@.len(),
            from + position_of(chars@.skip(from as int), c) == i + position_of(
                chars@.skip(i as int),
                c,
            ),
            forall|k: int| from <= k < i ==> #[trigger] chars@[k] != c,
        decreases chars.len() - i,
    {
        assert(chars@.skip(i as int).drop_first() =~= chars@.skip(i + 1));
        i += 1;
    }
    i
}

/// The last position of a character, if it occurs.
pub open spec fn last_position_of(s: Seq<char>, c: char) -> Option<int>
    decreases s.len(),
{
    if s.len() == 0 {
        None
    } else if s.last() == c {
        Some(s.len() - 1)
    } else {
        last_position_of(s.drop_last(), c)
    }
}

/// The last position of a character.
pub fn find_last(chars: &[char], c: char) -> (r: Option<usize>)
    ensures
        r is Some <==> last_position_of(chars@, c) is Some,
        r is Some ==> last_position_of(chars@, c) == Some(r->0 as int) && r->0 < chars@.len(),
{
    let mut n: usize = chars.len();
    assert(chars@.take(n as int) =~= chars@);
    while n > 0
        invariant
            n <= chars@.len(),
            last_position_of(chars@, c) == last_position_of(chars@.take(n as int), c),
        decreases n,
    {
        let ghost upto = chars@.take(n as int);
        n -= 1;
        assert(upto.drop_last() =~= chars@.take(n as int));
        if chars[n] == c {
            return Some(n);
        }
    }
    None
}

proof fn position_is_in_range(s: Seq<char>, c: char)
    ensures
        0 <= position_of(s, c) <= s.len(),
    decreases s.len(),
{
    if s.len() > 0 && s[0] != c {
        position_is_in_range(s.drop_first(), c);
    }
}

/// The pieces of a text between the places where a character occurs.
pub open spec fn pieces(s: Seq<char>, c: char) -> Seq<Seq<char>>
    decreases s.len(),
    via pieces_end
{
    let at = position_of(s, c);
    if at < s.len() {
        seq![s.take(at)] + pieces(s.skip(at + 1), c)
    } else {
        seq![s]
    }
}

#[via_fn]
proof fn pieces_end(s: Seq<char>, c: char) {
    position_is_in_range(s, c);
}

/// The pieces of a text between the places where a character occurs.
pub fn split_on(chars: &[char], c: char) -> (r: Vec<String>)
    ensures
        string_views(r@) == pieces(chars@, c),
        r@.len() > 0,
{
    let mut out: Vec<String> = Vec::new();
    let mut from: usize = 0;
    assert(chars@.skip(0) =~= chars@);
    assert(string_views(out@) + pieces(chars@, c) =~= pieces(chars@, c));
    loop
        invariant
            from <= chars@.len(),
            pieces(chars@, c) == string_views(out@) + pieces(chars@.skip(from as int), c),
        decreases chars@.len() - from,
    {
        let ghost rest = chars@.skip(from as int);
        let ghost listed = out@;
        let at: usize = find_char(chars, from, c);
        let piece = string_between(chars, from, at);
        assert(piece@ =~= rest.take(at - from));
        out.push(piece);
        assert(string_views(out@) =~= string_views(listed).push(piece@));
        if at == chars.len() {
            assert(piece@ =~= rest);
            assert(string_views(out@) =~= string_views(listed) + pieces(rest, c));
            return out;
        }
        assert(rest.skip(at - from + 1) =~= chars@.skip(at + 1));
        assert(string_views(listed) + pieces(rest, c) =~= string_views(out@) + pieces(
            chars@.skip(at + 1),
            c,
        ));
        from = at + 1;
    }
}

/// The octets that a character takes in UTF-8.
pub open spec fn char_width(c: char) -> nat {
    let n = c as u32;
    if n < 0x80 {
        1
    } else if n < 0x800 {
        2
    } else if n < 0x1_0000 {
        3
    } else {
        4
    }
}

/// The octets that a text takes in UTF-8.
pub open spec fn utf8_len(s: Seq<char>) -> nat
    decreases s.len(),
{
    if s.len() == 0 {
        0
    } else {
        utf8_len(s.drop_last()) + char_width(s.last())
    }
}

/// The octets that a character takes in UTF-8.
pub fn width_of(c: char) -> (r: usize)
    ensures
        r == char_width(c),
        1 <= r <= 4,
{
    let n: u32 = c as u32;
    if n < 0x80 {
        1
    } else if n < 0x800 {
        2
    } else if n < 0x1_0000 {
        3
    } else {
        4
    }
}

proof fn utf8_len_of_rest(s: Seq<char>)
    requires
        s.len() > 0,
    ensures
        utf8_len(s) == char_width(s[0]) + utf8_len(s.drop_first()),
    decreases s.len(),
{
    if s.len() > 1 {
        utf8_len_of_rest(s.drop_last());
        assert(s.drop_last().drop_first() =~= s.drop_first().drop_last());
        assert(s.drop_first().last() == s.last());
    } else {
        assert(s.drop_last() =~= Seq::<char>::empty());
        assert(s.drop_first() =~= Seq::<char>::empty());
        assert(utf8_len(s.drop_last()) == 0);
        assert(utf8_len(s.drop_first()) == 0);
    }
}

/// `utf8_len` is the length of the text in UTF-8.
pub proof fn utf8_len_is_length(s: Seq<char>)
    ensures
        utf8_len(s) == vstd::utf8::encode_utf8(s).len(),
    decreases s.len(),
{
    if s.len() > 0 {
        utf8_len_of_rest(s);
        utf8_len_is_length(s.drop_first());
        vstd::utf8::encode_utf8_first_scalar(s);
        vstd::utf8::char_is_scalar(s[0]);
    }
}

/// A text takes no fewer octets than a part of it from its start.
pub proof fn utf8_len_grows(s: Seq<char>, n: int)
    requires
        0 <= n <= s.len(),
    ensures
        utf8_len(s.take(n)) <= utf8_len(s),
    decreases s.len(),
{
    if n < s.len() {
        utf8_len_grows(s.drop_last(), n);
        assert(s.drop_last().take(n) =~= s.take(n));
    } else {
        assert(s.take(n) =~= s);
    }
}

/// Where the word that starts at `i` ends.
pub open spec fn word_end(s: Seq<char>, i: int) -> int
    decreases s.len() - i,
{
    if i < 0 || i >= s.len() || is_white(s[i]) {
        i
    } else {
        word_end(s, i + 1)
    }
}

/// The end of a word is not before its start, nor behind the text.
pub proof fn word_end_is_in_range(s: Seq<char>, i: int)
    requires
        0 <= i <= s.len(),
    ensures
        i <= word_end(s, i) <= s.len(),
        i < s.len() && !is_white(s[i]) ==> i < word_end(s, i),
    decreases s.len() - i,
{
    if i < s.len() && !is_white(s[i]) {
        word_end_is_in_range(s, i + 1);
    }
}

/// The words of a text from `i` on, each by its start and its end: runs of
/// characters that are not white space.
pub open spec fn words_from(s: Seq<char>, i: int) -> Seq<(int, int)>
    decreases s.len() - i,
    via words_end
{
    if i < 0 || i >= s.len() {
        seq![]
    } else if is_white(s[i]) {
        words_from(s, i + 1)
    } else {
        seq![(i, word_end(s, i))] + words_from(s, word_end(s, i))
    }
}

#[via_fn]
proof fn words_end(s: Seq<char>, i: int) {
    if 0 <= i < s.len() {
        word_end_is_in_range(s, i);
    }
}

/// A word, by its start and its end.
#[derive(Clone, Copy, Debug, PartialEq, Eq, Structural)]
pub struct Word {
    pub start: usize,
    pub end: usize,
}

/// The starts and ends of some words.
pub open spec fn word_views(words: Seq<Word>) -> Seq<(int, int)> {
    words.map_values(|w: Word| (w.start as int, w.end as int))
}

/// Whether words are in a text.
pub open spec fn words_fit(words: Seq<Word>, len: int) -> bool {
    forall|i: int|
        0 <= i < words.len() ==> (#[trigger] words[i]).start < words[i].end && words[i].end <= len
}

/// The words of a text from `from` on.
pub fn words_in(chars: &[char], from: usize) -> (r: Vec<Word>)
    requires
        from <= chars@.len(),
    ensures
        word_views(r@) == words_from(chars@, from as int),
        words_fit(r@, chars@.len() as int),
{
    let mut out: Vec<Word> = Vec::new();
    let mut i: usize = from;
    assert(word_views(out@) + words_from(chars@, from as int) =~= words_from(chars@, from as int));
    while i < chars.len()
        invariant
            i <= chars@.len(),
            words_fit(out@, chars@.len() as int),
            words_from(chars@, from as int) == word_views(out@) + words_from(chars@, i as int),
        decreases chars.len() - i,
    {
        if white(chars[i]) {
            i += 1;
            continue;
        }
        let start: usize = i;
        let mut end: usize = i;
        while end < chars.len() && !white(chars[end])
            invariant
                start <= end <= chars@.len(),
                word_end(chars@, start as int) == word_end(chars@, end as int),
            decreases chars.len() - end,
        {
            end += 1;
        }
        proof {
            word_end_is_in_range(chars@, start as int);
        }
        let ghost listed = out@;
        out.push(Word { start, end });
        proof {
            assert(word_views(out@) =~= word_views(listed).push((start as int, end as int)));
            assert(word_views(listed) + words_from(chars@, start as int) =~= word_views(out@)
                + words_from(chars@, end as int));
        }
        i = end;
    }
    assert(word_views(out@) =~= words_from(chars@, from as int));
    out
}

/// Whether a text starts with another.
pub open spec fn starts_with(s: Seq<char>, part: Seq<char>) -> bool {
    occurs_at(s, part, 0)
}

/// `String::from_utf8` gives the text that octets in UTF-8 stand for.
#[verifier::external_body]
pub(crate) fn from_utf8(octets: Vec<u8>) -> (r: Option<String>)
    ensures
        r is Some <==> vstd::utf8::valid_utf8(octets@),
        r is Some ==> r->0@ == vstd::utf8::decode_utf8(octets@),
{
    String::from_utf8(octets).ok()
}

/// The text that octets stand for if what is not UTF-8 is replaced.
pub uninterp spec fn lossy_text(octets: Seq<u8>) -> Seq<char>;

/// `String::from_utf8_lossy` gives the text that octets stand for, with
/// replacement characters for what is not UTF-8.
#[verifier::external_body]
pub(crate) fn from_utf8_lossy(octets: &[u8]) -> (r: String)
    ensures
        r@ == lossy_text(octets@),
        vstd::utf8::valid_utf8(octets@) ==> r@ == vstd::utf8::decode_utf8(octets@),
{
    String::from_utf8_lossy(octets).to_string()
}

/// A text in quotation marks, with escapes where they are needed.
pub uninterp spec fn quoted(text: Seq<char>) -> Seq<char>;

/// The `Debug` impl of `str` puts a text in quotation marks, with escapes where
/// they are needed.
#[verifier::external_body]
pub(crate) fn quote(text: &str) -> (r: String)
    ensures
        r@ == quoted(text@),
{
    format!("{:?}", text)
}

/// A text in lower case.
pub uninterp spec fn lowercase(text: Seq<char>) -> Seq<char>;

/// `str::to_lowercase` gives a text in lower case.
#[verifier::external_body]
pub(crate) fn to_lowercase(text: &str) -> (r: String)
    ensures
        r@ == lowercase(text@),
{
    text.to_lowercase()
}

/// An ASCII letter in lower case, any other character as it is.
pub open spec fn ascii_lower(c: char) -> char {
    if 'A' <= c <= 'Z' {
        (c as u32 + 32) as char
    } else {
        c
    }
}

/// Whether two texts are the same but for the case of ASCII letters.
pub open spec fn same_but_case(a: Seq<char>, b: Seq<char>) -> bool {
    a.len() == b.len() && forall|i: int|
        0 <= i < a.len() ==> ascii_lower(#[trigger] a[i]) == ascii_lower(b[i])
}

fn lower_ascii(c: char) -> (r: char)
    ensures
        r == ascii_lower(c),
{
    if 'A' <= c && c <= 'Z' {
        ((c as u32 - 65) as u8 + 97) as char
    } else {
        c
    }
}

/// Whether two texts are the same but for the case of ASCII letters.
pub fn same_ignoring_case(a: &[char], b: &[char]) -> (r: bool)
    ensures
        r == same_but_case(a@, b@),
{
    if a.len() != b.len() {
        return false;
    }
    let mut i: usize = 0;
    while i < a.len()
        invariant
            i <= a@.len(),
            a@.len() == b@.len(),
            forall|k: int| 0 <= k < i ==> ascii_lower(#[trigger] a@[k]) == ascii_lower(b@[k]),
        decreases a.len() - i,
    {
        if lower_ascii(a[i]) != lower_ascii(b[i]) {
            return false;
        }
        i += 1;
    }
    true
}

/// The value of a hexadecimal digit.
pub open spec fn hex_digit(c: char) -> Option<nat> {
    if '0' <= c <= '9' {
        Some((c as nat - '0' as nat) as nat)
    } else if 'a' <= c <= 'f' {
        Some((c as nat - 'a' as nat + 10) as nat)
    } else if 'A' <= c <= 'F' {
        Some((c as nat - 'A' as nat + 10) as nat)
    } else {
        None
    }
}

/// Whether every character is a hexadecimal digit.
pub open spec fn all_hex(s: Seq<char>) -> bool {
    forall|i: int| 0 <= i < s.len() ==> hex_digit(#[trigger] s[i]) is Some
}

/// The number that a string of hexadecimal digits stands for.
pub open spec fn hex_value(s: Seq<char>) -> nat
    decreases s.len(),
{
    if s.len() == 0 {
        0
    } else {
        hex_value(s.drop_last()) * 16 + hex_digit(s.last())->0
    }
}

/// The number that a string stands for, if it is one or more hexadecimal
/// digits, possibly behind a plus sign, and the number is no larger than
/// `max`.
pub open spec fn hex_number_in(s: Seq<char>, max: nat) -> Option<nat> {
    let digits = unsigned_part(s);
    if digits.len() > 0 && all_hex(digits) && hex_value(digits) <= max {
        Some(hex_value(digits))
    } else {
        None
    }
}

proof fn hex_value_prefix(s: Seq<char>, n: int)
    requires
        0 <= n <= s.len(),
        all_hex(s),
    ensures
        hex_value(s.take(n)) <= hex_value(s),
    decreases s.len(),
{
    if n < s.len() {
        assert forall|i: int| 0 <= i < s.drop_last().len() implies hex_digit(
            #[trigger] s.drop_last()[i],
        ) is Some by {
            assert(s.drop_last()[i] == s[i]);
        }
        hex_value_prefix(s.drop_last(), n);
        assert(s.drop_last().take(n) =~= s.take(n));
    } else {
        assert(s.take(n) =~= s);
    }
}

fn hex_digit_value(c: char) -> (r: Option<u64>)
    ensures
        r is Some <==> hex_digit(c) is Some,
        r is Some ==> r->0 == hex_digit(c)->0 && r->0 < 16,
{
    if '0' <= c && c <= '9' {
        Some((c as u32 - 48) as u64)
    } else if 'a' <= c && c <= 'f' {
        Some((c as u32 - 87) as u64)
    } else if 'A' <= c && c <= 'F' {
        Some((c as u32 - 55) as u64)
    } else {
        None
    }
}

/// Reads a hexadecimal number from its characters.
pub fn parse_hex(chars: &[char], max: u64) -> (r: Option<u64>)
    ensures
        r is Some <==> hex_number_in(chars@, max as nat) is Some,
        r is Some ==> hex_number_in(chars@, max as nat) == Some(r->0 as nat),
{
    let start: usize = if chars.len() > 0 && chars[0] == '+' {
        1
    } else {
        0
    };
    let ghost digits = unsigned_part(chars@);
    assert(digits =~= chars@.skip(start as int));
    if start == chars.len() {
        return None;
    }
    let mut value: u64 = 0;
    let mut i: usize = start;
    while i < chars.len()
        invariant
            start <= i <= chars.len(),
            digits == chars@.skip(start as int),
            digits == unsigned_part(chars@),
            all_hex(digits.take(i - start)),
            value == hex_value(digits.take(i - start)),
            value <= max,
        decreases chars.len() - i,
    {
        let ghost k = i - start;
        assert(digits[k] == chars@[i as int]);
        let d: u64 = match hex_digit_value(chars[i]) {
            Some(d) => d,
            None => {
                assert(hex_digit(digits[k]) is None);
                return None;
            },
        };
        proof {
            assert(digits.take(k + 1).drop_last() =~= digits.take(k));
            assert(hex_value(digits.take(k + 1)) == value * 16 + d);
            if all_hex(digits) {
                hex_value_prefix(digits, k + 1);
            }
        }
        if value > max / 16 || d > max - value * 16 {
            return None;
        }
        value = value * 16 + d;
        i += 1;
    }
    assert(digits.take(i - start) =~= digits);
    Some(value)
}

/// Texts put together with something between them.
pub open spec fn joined_with(parts: Seq<Seq<char>>, between: Seq<char>) -> Seq<char>
    decreases parts.len(),
{
    if parts.len() == 0 {
        seq![]
    } else if parts.len() == 1 {
        parts[0]
    } else {
        joined_with(parts.drop_last(), between) + between + parts.last()
    }
}

/// Texts put together with something between them.
pub fn join_all(parts: &[String], between: &str) -> (r: String)
    ensures
        r@ == joined_with(string_views(parts@), between@),
{
    let ghost all = string_views(parts@);
    let mut out = String::new();
    let mut i: usize = 0;
    assert(all.take(0) =~= seq![]);
    assert(out@ =~= joined_with(all.take(0), between@));
    while i < parts.len()
        invariant
            i <= parts@.len(),
            all == string_views(parts@),
            out@ == joined_with(all.take(i as int), between@),
        decreases parts.len() - i,
    {
        let ghost before = out@;
        if i > 0 {
            out.append(between);
        }
        out.append(parts[i].as_str());
        proof {
            assert(all[i as int] == parts@[i as int]@);
            assert(all.take(i + 1).drop_last() =~= all.take(i as int));
            assert(all.take(i + 1).last() == all[i as int]);
            if i == 0 {
                assert(before =~= seq![]);
                assert(all.take(1)[0] == all[0]);
                assert(out@ =~= all[0]);
            }
        }
        i += 1;
    }
    assert(all.take(i as int) =~= all);
    out
}

/// Adds a text to a list.
pub fn add_text(list: &mut Vec<String>, text: String)
    ensures
        string_views(final(list)@) == string_views(old(list)@).push(text@),
{
    list.push(text);
    assert(string_views(list@) =~= string_views(old(list)@).push(text@));
}

/// A text without copies of another at its start.
pub open spec fn without_leading(s: Seq<char>, part: Seq<char>) -> Seq<char>
    decreases s.len(),
{
    if part.len() > 0 && starts_with(s, part) {
        without_leading(s.skip(part.len() as int), part)
    } else {
        s
    }
}

/// A text without copies of another at its start.
pub fn strip_leading(s: &str, part: &str) -> (r: String)
    ensures
        r@ == without_leading(s@, part@),
{
    let chars = chars_of(s);
    let wanted = chars_of(part);
    let len: usize = chars.len();
    let mut at: usize = 0;
    assert(chars@.skip(0) =~= chars@);
    while wanted.len() > 0 && matches_at(&chars, &wanted, at)
        invariant
            at <= len,
            len == chars@.len(),
            wanted@ == part@,
            without_leading(chars@, part@) == without_leading(chars@.skip(at as int), part@),
        decreases chars@.len() - at,
    {
        proof {
            let rest = chars@.skip(at as int);
            assert(rest.subrange(0, part@.len() as int) =~= chars@.subrange(
                at as int,
                at + part@.len(),
            ));
            assert(rest.skip(part@.len() as int) =~= chars@.skip(at + part@.len()));
        }
        at = at + wanted.len();
    }
    proof {
        let rest = chars@.skip(at as int);
        if wanted@.len() > 0 && starts_with(rest, part@) {
            assert(rest.subrange(0, part@.len() as int) =~= chars@.subrange(
                at as int,
                at + part@.len(),
            ));
            assert(occurs_at(chars@, part@, at as int));
        }
        assert(chars@.subrange(at as int, chars@.len() as int) =~= rest);
    }
    string_between(&chars, at, chars.len())
}

/// The decimal representation of a number is made of digits, has no zero in
/// front unless it is zero itself, and reads back as the number.
pub proof fn decimals_read_back(n: nat, max: nat)
    ensures
        decimal_text(n).len() > 0,
        forall|i: int|
            0 <= i < decimal_text(n).len() ==> 48 <= #[trigger] decimal_text(n)[i] as int <= 57,
        n > 0 ==> decimal_text(n)[0] != '0',
        n < 10 ==> decimal_text(n) == seq![(48 + n) as char],
        digits_value(decimal_text(n)) == n,
        number_in(decimal_text(n), max) == (if n <= max {
            Some(n)
        } else {
            None
        }),
    decreases n,
{
    let text = decimal_text(n);
    if n < 10 {
        assert(text.drop_last() =~= seq![]);
        assert(digits_value(text.drop_last()) == 0);
    } else {
        decimals_read_back(n / 10, max);
        assert(text.drop_last() =~= decimal_text(n / 10));
        assert(text[0] == decimal_text(n / 10)[0]);
        assert forall|i: int| 0 <= i < text.len() implies 48 <= #[trigger] text[i] as int <= 57 by {
            if i < text.len() - 1 {
                assert(text[i] == decimal_text(n / 10)[i]);
            }
        }
    }
    assert forall|i: int| 0 <= i < text.len() implies is_digit(#[trigger] text[i]) by {
        assert(48 <= text[i] as int <= 57);
    }
    assert(all_digits(text));
    assert(text[0] as int != 43);
    assert(unsigned_part(text) == text);
}

/// The value of each further digit counts behind ten times those before it.
pub proof fn digits_count_by_their_place(s: Seq<char>, d: char)
    requires
        is_digit(d),
    ensures
        digits_value(s.push(d)) == 10 * digits_value(s) + (d as int - 48),
        is_digit(d) <==> 48 <= d as int <= 57,
        digits_value(Seq::<char>::empty()) == 0,
{
    assert(s.push(d).drop_last() =~= s);
}

/// The hexadecimal digits are those of ten and the six letters behind them, in
/// either case, and each counts behind sixteen times those before it.
pub proof fn hex_digits_count_by_their_place(s: Seq<char>, c: char)
    ensures
        hex_digit(c) is Some <==> 48 <= c as int <= 57 || 65 <= c as int <= 70 || 97 <= c as int
            <= 102,
        48 <= c as int <= 57 ==> hex_digit(c)->0 == c as int - 48,
        65 <= c as int <= 70 ==> hex_digit(c)->0 == c as int - 55,
        97 <= c as int <= 102 ==> hex_digit(c)->0 == c as int - 87,
        hex_digit(c) is Some ==> hex_value(s.push(c)) == 16 * hex_value(s) + hex_digit(c)->0,
{
    assert(s.push(c).drop_last() =~= s);
}

/// Upper case ASCII letters have their lower case ones 32 behind them; all else
/// is in lower case already.
pub proof fn letters_have_lower_case(c: char)
    ensures
        65 <= c as int <= 90 ==> ascii_lower(c) as int == c as int + 32,
        !(65 <= c as int <= 90) ==> ascii_lower(c) == c,
        ascii_lower(ascii_lower(c)) == ascii_lower(c),
{
}

proof fn trimming_start_takes_white(s: Seq<char>) -> (n: int)
    ensures
        0 <= n <= s.len(),
        trimmed_start(s) == s.skip(n),
        forall|i: int| 0 <= i < n ==> is_white(#[trigger] s[i]),
        n < s.len() ==> !is_white(s[n]),
    decreases s.len(),
{
    if s.len() > 0 && is_white(s[0]) {
        let rest = s.drop_first();
        let n = trimming_start_takes_white(rest);
        assert(rest.skip(n) =~= s.skip(n + 1));
        assert forall|i: int| 0 <= i < n + 1 implies is_white(#[trigger] s[i]) by {
            if i > 0 {
                assert(rest[i - 1] == s[i]);
            }
        }
        n + 1
    } else {
        assert(s.skip(0) =~= s);
        0
    }
}

proof fn trimming_end_takes_white(s: Seq<char>) -> (n: int)
    ensures
        0 <= n <= s.len(),
        trimmed_end(s) == s.take(n),
        forall|i: int| n <= i < s.len() ==> is_white(#[trigger] s[i]),
        n > 0 ==> !is_white(s[n - 1]),
    decreases s.len(),
{
    if s.len() > 0 && is_white(s.last()) {
        let rest = s.drop_last();
        let n = trimming_end_takes_white(rest);
        assert(rest.take(n) =~= s.take(n));
        assert forall|i: int| n <= i < s.len() implies is_white(#[trigger] s[i]) by {
            if i < rest.len() {
                assert(rest[i] == s[i]);
            }
        }
        n
    } else {
        assert(s.take(s.len() as int) =~= s);
        s.len() as int
    }
}

/// Trimming a text takes white space from both ends and nothing else, and leaves
/// none at either.
pub proof fn trimming_takes_white_space(s: Seq<char>) -> (ends: (int, int))
    ensures
        0 <= ends.0 <= ends.1 <= s.len(),
        trimmed(s) == s.subrange(ends.0, ends.1),
        forall|i: int| 0 <= i < ends.0 || ends.1 <= i < s.len() ==> is_white(#[trigger] s[i]),
        ends.0 < ends.1 ==> !is_white(s[ends.0]) && !is_white(s[ends.1 - 1]),
{
    let a = trimming_start_takes_white(s);
    let rest = s.skip(a);
    let b = trimming_end_takes_white(rest);
    assert(rest.take(b) =~= s.subrange(a, a + b));
    assert forall|i: int| 0 <= i < a || a + b <= i < s.len() implies is_white(#[trigger] s[i]) by {
        if i >= a {
            assert(rest[i - a] == s[i]);
        }
    }
    if b > 0 {
        assert(rest[b - 1] == s[a + b - 1]);
    }
    (a, a + b)
}

/// The first position of a character holds it, and none in front of it does.
pub proof fn position_is_where_it_first_stands(s: Seq<char>, c: char)
    ensures
        0 <= position_of(s, c) <= s.len(),
        position_of(s, c) < s.len() ==> s[position_of(s, c)] == c,
        forall|i: int| 0 <= i < position_of(s, c) ==> #[trigger] s[i] != c,
    decreases s.len(),
{
    if s.len() > 0 && s[0] != c {
        let rest = s.drop_first();
        position_is_where_it_first_stands(rest, c);
        assert forall|i: int| 0 <= i < position_of(s, c) implies #[trigger] s[i] != c by {
            if i > 0 {
                assert(rest[i - 1] == s[i]);
            }
        }
    }
}

proof fn joining_goes_on(first: Seq<char>, parts: Seq<Seq<char>>, between: Seq<char>)
    requires
        parts.len() > 0,
    ensures
        joined_with(seq![first] + parts, between) == first + between + joined_with(parts, between),
    decreases parts.len(),
{
    let all = seq![first] + parts;
    if parts.len() == 1 {
        assert(all.drop_last() =~= seq![first]);
        assert(joined_with(all.drop_last(), between) == first);
    } else {
        joining_goes_on(first, parts.drop_last(), between);
        assert(all.drop_last() =~= seq![first] + parts.drop_last());
        assert(all.last() == parts.last());
        assert(joined_with(all, between) =~= first + between + joined_with(parts, between));
    }
}

/// The pieces of a text between the places where a character occurs hold that
/// character nowhere, and joined with it they are the text again.
pub proof fn pieces_make_up_the_text(s: Seq<char>, c: char)
    ensures
        pieces(s, c).len() > 0,
        joined_with(pieces(s, c), seq![c]) == s,
        forall|k: int, i: int|
            0 <= k < pieces(s, c).len() && 0 <= i < pieces(s, c)[k].len() ==> #[trigger] pieces(
                s,
                c,
            )[k][i] != c,
    decreases s.len(),
{
    position_is_where_it_first_stands(s, c);
    let at = position_of(s, c);
    let all = pieces(s, c);
    if at < s.len() {
        let rest = s.skip(at + 1);
        let more = pieces(rest, c);
        pieces_make_up_the_text(rest, c);
        joining_goes_on(s.take(at), more, seq![c]);
        assert(s =~= s.take(at) + seq![c] + rest);
        assert forall|k: int, i: int|
            0 <= k < all.len() && 0 <= i < all[k].len() implies #[trigger] all[k][i] != c by {
            if k > 0 {
                assert(all[k] == more[k - 1]);
                assert(more[k - 1][i] != c);
            } else {
                assert(all[k] == s.take(at));
            }
        }
    } else {
        assert(all =~= seq![s]);
    }
}

/// The words of a text are runs without white space, with white space or the end
/// of the text behind them.
pub proof fn words_have_no_white_space(s: Seq<char>, i: int, k: int)
    requires
        0 <= i <= s.len(),
        0 <= k < words_from(s, i).len(),
    ensures
        i <= words_from(s, i)[k].0 < words_from(s, i)[k].1 <= s.len(),
        words_from(s, i)[k].1 == s.len() || is_white(s[words_from(s, i)[k].1]),
        forall|j: int|
            words_from(s, i)[k].0 <= j < words_from(s, i)[k].1 ==> !is_white(#[trigger] s[j]),
    decreases s.len() - i,
{
    if is_white(s[i]) {
        words_have_no_white_space(s, i + 1, k);
    } else {
        word_end_is_in_range(s, i);
        word_ends_at_white_space(s, i);
        if k > 0 {
            words_have_no_white_space(s, word_end(s, i), k - 1);
            assert(words_from(s, i)[k] == words_from(s, word_end(s, i))[k - 1]);
        }
    }
}

/// No character of a text that is not white space is left out of its words.
pub proof fn words_hold_all_but_white_space(s: Seq<char>, i: int, j: int) -> (k: int)
    requires
        0 <= i <= j < s.len(),
        !is_white(s[j]),
    ensures
        0 <= k < words_from(s, i).len(),
        words_from(s, i)[k].0 <= j < words_from(s, i)[k].1,
    decreases s.len() - i,
{
    if is_white(s[i]) {
        words_hold_all_but_white_space(s, i + 1, j)
    } else {
        word_end_is_in_range(s, i);
        let end = word_end(s, i);
        if j < end {
            0
        } else {
            let k = words_hold_all_but_white_space(s, end, j);
            assert(words_from(s, i)[k + 1] == words_from(s, end)[k]);
            k + 1
        }
    }
}

proof fn word_ends_at_white_space(s: Seq<char>, i: int)
    requires
        0 <= i <= s.len(),
    ensures
        word_end(s, i) >= s.len() || is_white(s[word_end(s, i)]),
        forall|j: int| i <= j < word_end(s, i) ==> !is_white(#[trigger] s[j]),
    decreases s.len() - i,
{
    if i < s.len() && !is_white(s[i]) {
        word_ends_at_white_space(s, i + 1);
    }
}

/// The first position of a character is where it first stands.
pub proof fn position_is_behind_the_front(fore: Seq<char>, c: char, rest: Seq<char>)
    requires
        forall|i: int| 0 <= i < fore.len() ==> #[trigger] fore[i] != c,
    ensures
        position_of(fore + seq![c] + rest, c) == fore.len(),
{
    let all = fore + seq![c] + rest;
    position_is_where_it_first_stands(all, c);
    assert(all[fore.len() as int] == c);
    if position_of(all, c) < fore.len() {
        assert(all[position_of(all, c)] == fore[position_of(all, c)]);
    }
}

} // verus!
