//! What the command line and the prompt make of what is typed.

use crate::cli::error::{CliError, ErrorView, EXIT_OK, EXIT_USAGE};
use crate::cli::session::DEFAULT_TIMEOUT;
use crate::text::{
    chars_of, find_char, is_white, join, join3, join_all, joined_with, number_in, parse_number,
    string_views, trim, trimmed, utf8_len, utf8_len_grows, utf8_len_is_length, white, width_of,
};
use vstd::prelude::*;
use vstd::string::StrSliceExecFns;

verus! {

/// The lines to run without asking for more: commands given one by one, or one
/// command in words.
pub open spec fn lines_given(executes: Seq<Seq<char>>, trailing: Seq<Seq<char>>) -> Option<
    Seq<Seq<char>>,
> {
    if executes.len() > 0 {
        Some(executes)
    } else if trailing.len() > 0 {
        Some(seq![joined_with(trailing, " "@)])
    } else {
        None
    }
}

/// The lines to run without asking for more, if any are given.
pub fn lines_to_run(executes: Vec<String>, trailing: &[String]) -> (r: Option<Vec<String>>)
    ensures
        match r {
            Some(lines) => lines_given(string_views(executes@), string_views(trailing@)) == Some(
                string_views(lines@),
            ),
            None => lines_given(string_views(executes@), string_views(trailing@)) is None,
        },
{
    if executes.len() > 0 {
        return Some(executes);
    }
    if trailing.len() > 0 {
        let mut lines: Vec<String> = Vec::new();
        lines.push(join_all(trailing, " "));
        assert(string_views(lines@) =~= seq![joined_with(string_views(trailing@), " "@)]);
        return Some(lines);
    }
    None
}

/// How long to wait for an answer, in seconds, by what was given.
pub fn timeout_of(given: Option<&str>) -> (r: u64)
    ensures
        match given {
            Some(text) => match number_in(text@, u64::MAX as nat) {
                Some(n) => r == n,
                None => r == DEFAULT_TIMEOUT,
            },
            None => r == DEFAULT_TIMEOUT,
        },
{
    match given {
        Some(text) => match parse_number(text, u64::MAX) {
            Some(n) => n,
            None => DEFAULT_TIMEOUT,
        },
        None => DEFAULT_TIMEOUT,
    }
}

/// The exit code after a line of a script, by the code before it and by the
/// error that it gave.
pub fn code_after_line(code: i32, error: Option<&CliError>) -> (r: i32)
    ensures
        r == (match error {
            Some(error) => error@.code(),
            None => code,
        }),
{
    match error {
        Some(error) => error.exit_code(),
        None => code,
    }
}

/// The exit code after a line at the prompt. An error that is not shown leaves
/// it as it was.
pub fn code_after_prompt(code: i32, error: Option<&CliError>) -> (r: i32)
    ensures
        r == (match error {
            Some(error) => if error@ == ErrorView::BrokenPipe {
                code
            } else {
                error@.code()
            },
            None => code,
        }),
{
    match error {
        Some(error) => if error.is_silent() {
            code
        } else {
            error.exit_code()
        },
        None => code,
    }
}

/// Whether a question mark asks for help behind what is typed. Behind a pipe it
/// is a character like any other.
pub fn asks_for_help(left: &str) -> (r: bool)
    ensures
        r == !left@.contains('|'),
{
    let chars = chars_of(left);
    let at = find_char(&chars, 0, '|');
    if at < chars.len() {
        assert(left@[at as int] == '|');
        return false;
    }
    true
}

/// The octet at which the last word of a text starts: the one behind the last
/// white space.
pub open spec fn word_start(s: Seq<char>) -> nat
    decreases s.len(),
{
    if s.len() == 0 {
        0
    } else if is_white(s.last()) {
        utf8_len(s)
    } else {
        word_start(s.drop_last())
    }
}

/// The octet at which the word that is being typed starts.
pub fn completion_start(upto: &str) -> (r: usize)
    ensures
        r == word_start(upto@),
{
    let chars = chars_of(upto);
    let octets = upto.as_bytes().len();
    proof {
        utf8_len_is_length(upto@);
    }
    let mut start: usize = 0;
    let mut at: usize = 0;
    let mut i: usize = 0;
    assert(chars@.take(0) =~= seq![]);
    while i < chars.len()
        invariant
            i <= chars@.len(),
            chars@ == upto@,
            octets == utf8_len(upto@),
            at == utf8_len(chars@.take(i as int)),
            start == word_start(chars@.take(i as int)),
            start <= at,
        decreases chars.len() - i,
    {
        let c = chars[i];
        proof {
            assert(chars@.take(i + 1).drop_last() =~= chars@.take(i as int));
            assert(chars@.take(i + 1).last() == c);
            utf8_len_grows(upto@, i + 1);
        }
        at += width_of(c);
        if white(c) {
            start = at;
        }
        i += 1;
    }
    assert(chars@.take(i as int) =~= upto@);
    start
}

/// Something that may follow what is typed.
#[derive(Debug)]
pub struct Candidate {
    /// What is to be typed; empty if a value is to be typed.
    pub insert: String,
    pub display: String,
    pub help: String,
}

/// What is offered at the prompt: what is shown, and what is typed for it.
#[derive(Debug)]
pub struct Pair {
    pub display: String,
    pub replacement: String,
}

/// What some offers hold.
pub open spec fn pair_views(pairs: Seq<Pair>) -> Seq<(Seq<char>, Seq<char>)> {
    pairs.map_values(|pair: Pair| (pair.display@, pair.replacement@))
}

/// The offers for some candidates. For a value there is nothing to type.
pub open spec fn offers(candidates: Seq<Candidate>) -> Seq<(Seq<char>, Seq<char>)>
    decreases candidates.len(),
{
    if candidates.len() == 0 {
        seq![]
    } else {
        let rest = offers(candidates.drop_last());
        let last = candidates.last();
        if last.insert@.len() == 0 {
            rest
        } else {
            rest.push((last.display@ + "  "@ + last.help@, last.insert@ + " "@))
        }
    }
}

/// The offers for some candidates.
pub fn completions(candidates: &[Candidate]) -> (r: Vec<Pair>)
    ensures
        pair_views(r@) == offers(candidates@),
{
    let mut out: Vec<Pair> = Vec::new();
    let mut i: usize = 0;
    assert(pair_views(out@) =~= seq![]);
    while i < candidates.len()
        invariant
            i <= candidates@.len(),
            pair_views(out@) == offers(candidates@.take(i as int)),
        decreases candidates.len() - i,
    {
        let candidate = &candidates[i];
        let ghost before = out@;
        proof {
            assert(candidates@.take(i + 1).drop_last() =~= candidates@.take(i as int));
            assert(candidates@.take(i + 1).last() == *candidate);
        }
        if candidate.insert.as_str().unicode_len() > 0 {
            let pair = Pair {
                display: join3(candidate.display.as_str(), "  ", candidate.help.as_str()),
                replacement: join(candidate.insert.as_str(), " "),
            };
            out.push(pair);
            assert(pair_views(out@) =~= pair_views(before).push(
                (pair.display@, pair.replacement@),
            ));
        }
        i += 1;
    }
    assert(candidates@.take(i as int) =~= candidates@);
    out
}

/// The state of the prompt: what stands on the line before and behind the
/// cursor when a line is asked for, and the exit code so far.
#[derive(Debug)]
pub struct Prompt {
    pub before: String,
    pub after: String,
    pub code: i32,
}

/// What a [`Prompt`] holds.
pub ghost struct PromptView {
    pub before: Seq<char>,
    pub after: Seq<char>,
    pub code: i32,
}

impl View for Prompt {
    type V = PromptView;

    open spec fn view(&self) -> PromptView {
        PromptView { before: self.before@, after: self.after@, code: self.code }
    }
}

/// What happened at the prompt.
#[derive(Debug)]
pub enum PromptEvent {
    /// The key that asks for help was pressed, with this much of the line
    /// before and behind the cursor.
    Help(String, String),
    /// A line was typed.
    Line(String),
    /// A command was run. It gave an error or none, and was the last or not.
    Ran(Option<CliError>, bool),
    /// The line was given up.
    Interrupted,
    EndOfInput,
    /// No line could be read.
    Failed,
}

/// What a [`PromptEvent`] holds.
pub ghost enum PromptEventView {
    Help(Seq<char>, Seq<char>),
    Line(Seq<char>),
    Ran(Option<ErrorView>, bool),
    Interrupted,
    EndOfInput,
    Failed,
}

impl View for PromptEvent {
    type V = PromptEventView;

    open spec fn view(&self) -> PromptEventView {
        match self {
            PromptEvent::Help(left, right) => PromptEventView::Help(left@, right@),
            PromptEvent::Line(line) => PromptEventView::Line(line@),
            PromptEvent::Ran(error, last) => PromptEventView::Ran(
                match error {
                    Some(error) => Some(error@),
                    None => None,
                },
                *last,
            ),
            PromptEvent::Interrupted => PromptEventView::Interrupted,
            PromptEvent::EndOfInput => PromptEventView::EndOfInput,
            PromptEvent::Failed => PromptEventView::Failed,
        }
    }
}

/// What is to be done next at the prompt.
#[derive(Debug)]
pub enum PromptAction {
    /// Ask for a line.
    Read,
    /// Show what may follow a text, and ask for a line.
    ShowHelp(String),
    /// Note a command in the history, and run it.
    Run(String),
    /// Leave with an exit code.
    End(i32),
}

/// What a [`PromptAction`] holds.
pub ghost enum PromptActionView {
    Read,
    ShowHelp(Seq<char>),
    Run(Seq<char>),
    End(i32),
}

impl View for PromptAction {
    type V = PromptActionView;

    open spec fn view(&self) -> PromptActionView {
        match self {
            PromptAction::Read => PromptActionView::Read,
            PromptAction::ShowHelp(stem) => PromptActionView::ShowHelp(stem@),
            PromptAction::Run(command) => PromptActionView::Run(command@),
            PromptAction::End(code) => PromptActionView::End(*code),
        }
    }
}

/// A prompt with nothing on the line.
pub open spec fn cleared(code: i32) -> PromptView {
    PromptView { before: seq![], after: seq![], code }
}

/// What is done next at the prompt. Help leaves the line as it is; any other
/// line is gone once it was typed or given up. The end of the input ends with
/// the code so far, a failure to read with one of its own.
pub open spec fn prompt_next(state: PromptView, event: PromptEventView) -> (
    PromptView,
    PromptActionView,
) {
    match event {
        PromptEventView::Help(left, right) => (
            PromptView { before: left, after: right, code: state.code },
            PromptActionView::ShowHelp(left),
        ),
        PromptEventView::Line(line) => (
            cleared(state.code),
            if trimmed(line).len() == 0 {
                PromptActionView::Read
            } else {
                PromptActionView::Run(trimmed(line))
            },
        ),
        PromptEventView::Ran(error, last) => {
            let code = match error {
                Some(error) => if error == ErrorView::BrokenPipe {
                    state.code
                } else {
                    error.code()
                },
                None => state.code,
            };
            (
                PromptView { code, ..state },
                if last {
                    PromptActionView::End(code)
                } else {
                    PromptActionView::Read
                },
            )
        },
        PromptEventView::Interrupted => (cleared(state.code), PromptActionView::Read),
        PromptEventView::EndOfInput => (state, PromptActionView::End(state.code)),
        PromptEventView::Failed => (
            PromptView { code: EXIT_USAGE, ..state },
            PromptActionView::End(EXIT_USAGE),
        ),
    }
}

impl Prompt {
    /// A prompt at which nothing was typed.
    pub fn new() -> (r: Prompt)
        ensures
            r@ == cleared(EXIT_OK),
    {
        Prompt::empty(EXIT_OK)
    }

    fn empty(code: i32) -> (r: Prompt)
        ensures
            r@ == cleared(code),
    {
        let r = Prompt { before: String::new(), after: String::new(), code };
        assert(r@.before =~= seq![]);
        assert(r@.after =~= seq![]);
        r
    }
}

/// What is done next at the prompt.
pub fn prompt_step(state: Prompt, event: PromptEvent) -> (r: (Prompt, PromptAction))
    ensures
        (r.0@, r.1@) == prompt_next(state@, event@),
{
    match event {
        PromptEvent::Help(left, right) => {
            let stem = left.as_str().to_owned();
            (
                Prompt { before: left, after: right, code: state.code },
                PromptAction::ShowHelp(stem),
            )
        },
        PromptEvent::Line(line) => {
            let command = trim(line.as_str());
            let action = if command.as_str().is_empty() {
                PromptAction::Read
            } else {
                PromptAction::Run(command)
            };
            (Prompt::empty(state.code), action)
        },
        PromptEvent::Ran(error, last) => {
            let code = code_after_prompt(state.code, error.as_ref());
            let action = if last {
                PromptAction::End(code)
            } else {
                PromptAction::Read
            };
            (Prompt { before: state.before, after: state.after, code }, action)
        },
        PromptEvent::Interrupted => (Prompt::empty(state.code), PromptAction::Read),
        PromptEvent::EndOfInput => {
            let code = state.code;
            (state, PromptAction::End(code))
        },
        PromptEvent::Failed => (
            Prompt { before: state.before, after: state.after, code: EXIT_USAGE },
            PromptAction::End(EXIT_USAGE),
        ),
    }
}

/// Lines that are given one by one count ahead of words behind the command,
/// which make one line. Without either there is nothing to run.
pub proof fn given_lines_count(executes: Seq<Seq<char>>, trailing: Seq<Seq<char>>)
    ensures
        executes.len() > 0 ==> lines_given(executes, trailing) == Some(executes),
        executes.len() == 0 && trailing.len() > 0 ==> lines_given(executes, trailing) is Some
            && lines_given(executes, trailing)->0.len() == 1 && lines_given(executes, trailing)->0[0]
            == joined_with(trailing, " "@),
        lines_given(executes, trailing) is None <==> executes.len() == 0 && trailing.len() == 0,
{
}

/// At the prompt help leaves what was typed, a line that is not empty is run
/// without the white space around it, and the code in the end is that of the
/// last command that failed, but for one whose output nobody read.
pub proof fn prompts_go_on(state: PromptView, event: PromptEventView)
    ensures
        ({
            let (after, action) = prompt_next(state, event);
            &&& event matches PromptEventView::Help(left, right) ==> after.before == left
                && after.after == right && after.code == state.code && action
                == PromptActionView::ShowHelp(left)
            &&& event matches PromptEventView::Line(line) ==> after.code == state.code
                && after.before.len() == 0 && after.after.len() == 0 && (trimmed(line).len() > 0
                ==> action == PromptActionView::Run(trimmed(line))) && (trimmed(line).len() == 0
                ==> action == PromptActionView::Read)
            &&& event matches PromptEventView::Ran(None, last) ==> after == state
            &&& event matches PromptEventView::Ran(Some(ErrorView::BrokenPipe), last) ==> after
                == state
            &&& event matches PromptEventView::Ran(Some(error), last) ==> (error
                != ErrorView::BrokenPipe ==> after.code == error.code())
            &&& event matches PromptEventView::Ran(error, last) ==> (action
                is End <==> last) && (action is Read <==> !last)
            &&& event is Interrupted ==> after.code == state.code && after.before.len() == 0
                && action is Read
            &&& event is EndOfInput ==> action == PromptActionView::End(state.code)
            &&& event is Failed ==> action == PromptActionView::End(1)
        }),
{
}

/// One more candidate is offered behind the others, with a space behind it, but
/// not a value, for which there is nothing to type.
pub proof fn candidates_are_offered(candidates: Seq<Candidate>, more: Candidate)
    ensures
        more.insert@.len() > 0 ==> offers(candidates.push(more)) == offers(candidates).push(
            (more.display@ + "  "@ + more.help@, more.insert@ + " "@),
        ),
        more.insert@.len() == 0 ==> offers(candidates.push(more)) == offers(candidates),
        offers(Seq::empty()).len() == 0,
{
    assert(candidates.push(more).drop_last() =~= candidates);
}

} // verus!
