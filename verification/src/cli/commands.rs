//! The commands that there are.

use crate::cli::error::{CliError, ErrorView};
use crate::cli::grammar::{
    argument_views, candidate_views, candidates, captured, entry_views, following, grammar, meant,
    resolve, resolved, typed_list, word_list, CandidateView, Command, Entry, EntryView, Typed,
    TypedView, Unresolved, Word, WordView,
};
use crate::cli::prompt::Candidate;
use crate::cli::table::{filling, put_filling};
use crate::cli::tree::{Captures, CapturesView, Flag, PeerSource};
use crate::text::{
    chars_of, is_white, join, join_all, joined_with, pieces, same, split_on, string_views, trim,
    trimmed, white,
};
use vstd::prelude::*;
use vstd::string::{StrSliceExecFns, StringExecFns};

verus! {

/// The word of a command that a text stands for.
pub open spec fn word_of(text: Seq<char>) -> WordView {
    if text == "<prefix>"@ {
        WordView::Prefix
    } else if text == "<ip>"@ {
        WordView::Ip
    } else if text == "<id>"@ {
        WordView::Id
    } else if text == "<asn>"@ {
        WordView::Asn
    } else if text == "<community>"@ {
        WordView::Community
    } else {
        WordView::Keyword(text)
    }
}

/// The words of a command that a text, with a space between them, stands for.
pub open spec fn words_of(text: Seq<char>) -> Seq<WordView> {
    pieces(text, ' ').map_values(|piece: Seq<char>| word_of(piece))
}

fn words(text: &str) -> (r: Vec<Word>)
    ensures
        word_list(r@) == words_of(text@),
{
    let parts = split_on(&chars_of(text), ' ');
    let ghost texts = string_views(parts@);
    let mut out: Vec<Word> = Vec::new();
    for part in iter: parts
        invariant
            texts == string_views(iter.seq()),
            word_list(out@) =~= texts.take(iter.index() as int).map_values(
                |piece: Seq<char>| word_of(piece),
            ),
    {
        let ghost before = out@;
        let word = if same(part.as_str(), "<prefix>") {
            Word::Prefix
        } else if same(part.as_str(), "<ip>") {
            Word::Ip
        } else if same(part.as_str(), "<id>") {
            Word::Id
        } else if same(part.as_str(), "<asn>") {
            Word::Asn
        } else if same(part.as_str(), "<community>") {
            Word::Community
        } else {
            Word::Keyword(part)
        };
        proof {
            assert(texts[iter.index() as int] == part@);
            assert(word@ == word_of(part@));
        }
        out.push(word);
        assert(word_list(out@) =~= word_list(before).push(word@));
    }
    assert(texts.take(texts.len() as int) =~= texts);
    out
}

/// Commands with one more.
pub open spec fn with_command(
    table: Seq<EntryView>,
    text: Seq<char>,
    command: Command,
    flags: Seq<Flag>,
    help: Seq<char>,
) -> Seq<EntryView> {
    table.push(EntryView { words: words_of(text), command, flags, help })
}

fn add_command(table: &mut Vec<Entry>, text: &str, command: Command, flags: Vec<Flag>, help: &str)
    ensures
        entry_views(final(table)@) == with_command(
            entry_views(old(table)@),
            text@,
            command,
            flags@,
            help@,
        ),
{
    let entry = Entry { words: words(text), command, flags, help: help.to_owned() };
    table.push(entry);
    assert(entry_views(table@) =~= entry_views(old(table)@).push(entry@));
}

/// Flags with one more, if there is one.
pub open spec fn with_flag(flags: Seq<Flag>, flag: Option<Flag>) -> Seq<Flag> {
    match flag {
        Some(flag) => flags.push(flag),
        None => flags,
    }
}

/// The flags of a command: its family, what it is about, and its source.
pub open spec fn flags_of(v6: bool, about: Option<Flag>, source: Option<PeerSource>) -> Seq<Flag> {
    let family = with_flag(
        seq![],
        if v6 {
            Some(Flag::Ipv6)
        } else {
            None
        },
    );
    with_flag(
        with_flag(family, about),
        match source {
            Some(source) => Some(Flag::Source(source)),
            None => None,
        },
    )
}

fn flags(v6: bool, about: Option<Flag>, source: Option<PeerSource>) -> (r: Vec<Flag>)
    ensures
        r@ == flags_of(v6, about, source),
{
    let mut out: Vec<Flag> = Vec::new();
    assert(out@ =~= seq![]);
    if v6 {
        out.push(Flag::Ipv6);
    }
    if let Some(flag) = about {
        out.push(flag);
    }
    if let Some(source) = source {
        out.push(Flag::Source(source));
    }
    out
}

/// Commands with one for routes and the ways to narrow it.
pub open spec fn with_routes(
    table: Seq<EntryView>,
    text: Seq<char>,
    v6: bool,
    about: Option<Flag>,
    help: Seq<char>,
) -> Seq<EntryView> {
    let plain = flags_of(v6, about, None);
    let bgp = flags_of(v6, about, Some(PeerSource::Bgp));
    let bmp = flags_of(v6, about, Some(PeerSource::Bmp));
    let mrt = flags_of(v6, about, Some(PeerSource::Mrt));
    let table = with_command(table, text, Command::Routes, plain, help);
    let table = with_command(table, text + " source bgp"@, Command::Routes, bgp, help);
    let table = with_command(table, text + " source bmp"@, Command::Routes, bmp, help);
    let table = with_command(table, text + " source mrt"@, Command::Routes, mrt, help);
    let table = with_command(table, text + " ingress <id>"@, Command::Routes, plain, help);
    let table = with_command(table, text + " origin-as <asn>"@, Command::Routes, plain, help);
    with_command(table, text + " community <community>"@, Command::Routes, plain, help)
}

fn add_routes(table: &mut Vec<Entry>, text: &str, v6: bool, about: Option<Flag>, help: &str)
    ensures
        entry_views(final(table)@) == with_routes(
            entry_views(old(table)@),
            text@,
            v6,
            about,
            help@,
        ),
{
    add_command(table, text, Command::Routes, flags(v6, about, None), help);
    add_command(
        table,
        join(text, " source bgp").as_str(),
        Command::Routes,
        flags(v6, about, Some(PeerSource::Bgp)),
        help,
    );
    add_command(
        table,
        join(text, " source bmp").as_str(),
        Command::Routes,
        flags(v6, about, Some(PeerSource::Bmp)),
        help,
    );
    add_command(
        table,
        join(text, " source mrt").as_str(),
        Command::Routes,
        flags(v6, about, Some(PeerSource::Mrt)),
        help,
    );
    add_command(
        table,
        join(text, " ingress <id>").as_str(),
        Command::Routes,
        flags(v6, about, None),
        help,
    );
    add_command(
        table,
        join(text, " origin-as <asn>").as_str(),
        Command::Routes,
        flags(v6, about, None),
        help,
    );
    add_command(
        table,
        join(text, " community <community>").as_str(),
        Command::Routes,
        flags(v6, about, None),
        help,
    );
}

/// Commands with those for neighbors of a family.
pub open spec fn with_neighbors(table: Seq<EntryView>, base: Seq<char>, v6: bool) -> Seq<EntryView> {
    let plain = flags_of(v6, None, None);
    let bgp = flags_of(v6, None, Some(PeerSource::Bgp));
    let bmp = flags_of(v6, None, Some(PeerSource::Bmp));
    let table = with_command(
        table,
        base + " summary"@,
        Command::Summary,
        plain,
        "Neighbors in short"@,
    );
    let table = with_command(
        table,
        base + " summary source bgp"@,
        Command::Summary,
        bgp,
        "Own neighbors in short"@,
    );
    let table = with_command(
        table,
        base + " summary source bmp"@,
        Command::Summary,
        bmp,
        "Monitored neighbors in short"@,
    );
    let table = with_command(
        table,
        base + " neighbors"@,
        Command::Neighbors,
        plain,
        "All neighbors"@,
    );
    let table = with_command(
        table,
        base + " neighbors <ip>"@,
        Command::Neighbors,
        plain,
        "One neighbor"@,
    );
    with_command(
        table,
        base + " neighbors <ip> routes"@,
        Command::Routes,
        plain,
        "The routes of a neighbor"@,
    )
}

fn add_neighbors(table: &mut Vec<Entry>, base: &str, v6: bool)
    ensures
        entry_views(final(table)@) == with_neighbors(entry_views(old(table)@), base@, v6),
{
    add_command(
        table,
        join(base, " summary").as_str(),
        Command::Summary,
        flags(v6, None, None),
        "Neighbors in short",
    );
    add_command(
        table,
        join(base, " summary source bgp").as_str(),
        Command::Summary,
        flags(v6, None, Some(PeerSource::Bgp)),
        "Own neighbors in short",
    );
    add_command(
        table,
        join(base, " summary source bmp").as_str(),
        Command::Summary,
        flags(v6, None, Some(PeerSource::Bmp)),
        "Monitored neighbors in short",
    );
    add_command(
        table,
        join(base, " neighbors").as_str(),
        Command::Neighbors,
        flags(v6, None, None),
        "All neighbors",
    );
    add_command(
        table,
        join(base, " neighbors <ip>").as_str(),
        Command::Neighbors,
        flags(v6, None, None),
        "One neighbor",
    );
    add_command(
        table,
        join(base, " neighbors <ip> routes").as_str(),
        Command::Routes,
        flags(v6, None, None),
        "The routes of a neighbor",
    );
}

/// Commands with those for a family.
pub open spec fn with_family(table: Seq<EntryView>, base: Seq<char>, v6: bool) -> Seq<EntryView> {
    let best = Some(Flag::Best);
    let filters = Some(Flag::FlowSpec);
    let table = with_neighbors(table, base, v6);
    let table = with_routes(table, base, v6, None, "The whole table"@);
    let table = with_routes(table, base + " <prefix>"@, v6, None, "The routes of a prefix"@);
    let table = with_routes(table, base + " <prefix> best"@, v6, best, "The best path of a prefix"@);
    let table = with_routes(table, base + " best <ip>"@, v6, best, "The best path for an address"@);
    let table = with_routes(table, base + " flowspec"@, v6, filters, "Traffic filters"@);
    with_routes(
        table,
        base + " flowspec <prefix>"@,
        v6,
        filters,
        "The traffic filters of a prefix"@,
    )
}

fn add_family(table: &mut Vec<Entry>, base: &str, v6: bool)
    ensures
        entry_views(final(table)@) == with_family(entry_views(old(table)@), base@, v6),
{
    add_neighbors(table, base, v6);
    add_routes(table, base, v6, None, "The whole table");
    add_routes(table, join(base, " <prefix>").as_str(), v6, None, "The routes of a prefix");
    add_routes(
        table,
        join(base, " <prefix> best").as_str(),
        v6,
        Some(Flag::Best),
        "The best path of a prefix",
    );
    add_routes(
        table,
        join(base, " best <ip>").as_str(),
        v6,
        Some(Flag::Best),
        "The best path for an address",
    );
    add_routes(
        table,
        join(base, " flowspec").as_str(),
        v6,
        Some(Flag::FlowSpec),
        "Traffic filters",
    );
    add_routes(
        table,
        join(base, " flowspec <prefix>").as_str(),
        v6,
        Some(Flag::FlowSpec),
        "The traffic filters of a prefix",
    );
}

/// All commands.
pub open spec fn command_table() -> Seq<EntryView> {
    let none = Seq::<Flag>::empty();
    let table = with_command(seq![], "exit"@, Command::Exit, none, "Leave the prompt"@);
    let table = with_command(table, "quit"@, Command::Exit, none, "Leave the prompt"@);
    let table = with_command(table, "show version"@, Command::Version, none, "Versions"@);
    let table = with_command(
        table,
        "show status"@,
        Command::Status,
        none,
        "The state of the daemon"@,
    );
    let table = with_command(
        table,
        "show running-config"@,
        Command::RunningConfig,
        none,
        "The configuration"@,
    );
    let table = with_command(table, "show filters"@, Command::Filters, none, "The filter script"@);
    let table = with_command(
        table,
        "show bmp routers"@,
        Command::Routers,
        none,
        "Monitored routers"@,
    );
    let table = with_command(
        table,
        "show bmp router <id>"@,
        Command::Router,
        none,
        "One monitored router"@,
    );
    let table = with_command(table, "show ingresses"@, Command::Ingresses, none, "All ingresses"@);
    let table = with_family(table, "show ip bgp"@, false);
    with_family(table, "show ipv6 bgp"@, true)
}

/// All commands.
pub fn all_commands() -> (r: Vec<Entry>)
    ensures
        entry_views(r@) == command_table(),
{
    let mut table: Vec<Entry> = Vec::new();
    assert(entry_views(table@) =~= seq![]);
    assert(flags_of(false, None, None) =~= Seq::<Flag>::empty());
    add_command(&mut table, "exit", Command::Exit, flags(false, None, None), "Leave the prompt");
    add_command(&mut table, "quit", Command::Exit, flags(false, None, None), "Leave the prompt");
    add_command(&mut table, "show version", Command::Version, flags(false, None, None), "Versions");
    add_command(
        &mut table,
        "show status",
        Command::Status,
        flags(false, None, None),
        "The state of the daemon",
    );
    add_command(
        &mut table,
        "show running-config",
        Command::RunningConfig,
        flags(false, None, None),
        "The configuration",
    );
    add_command(&mut table, "show filters", Command::Filters, flags(false, None, None), "The filter script");
    add_command(
        &mut table,
        "show bmp routers",
        Command::Routers,
        flags(false, None, None),
        "Monitored routers",
    );
    add_command(
        &mut table,
        "show bmp router <id>",
        Command::Router,
        flags(false, None, None),
        "One monitored router",
    );
    add_command(
        &mut table,
        "show ingresses",
        Command::Ingresses,
        flags(false, None, None),
        "All ingresses",
    );
    add_family(&mut table, "show ip bgp", false);
    add_family(&mut table, "show ipv6 bgp", true);
    table
}

/// The words of all commands.
pub open spec fn command_words() -> Seq<Seq<WordView>> {
    command_table().map_values(|entry: EntryView| entry.words)
}

/// The error that what was typed is no command.
pub open spec fn unresolved_text(error: Unresolved, line: Seq<char>) -> Seq<char> {
    match error {
        Unresolved::Invalid => "% Invalid input: "@ + trimmed(line),
        Unresolved::Incomplete => "% Incomplete command."@,
        Unresolved::Ambiguous => "% Ambiguous command."@,
    }
}

/// The command on a line and what it was given, or the error that there is
/// none.
pub open spec fn command_on_line(line: Seq<char>, typed: Seq<TypedView>) -> Result<
    (Command, CapturesView),
    ErrorView,
> {
    match resolved(command_words(), typed) {
        Ok(place) => Ok(
            (
                command_table()[place].command,
                CapturesView {
                    args: captured(command_words()[place], typed)->0,
                    flags: command_table()[place].flags,
                },
            ),
        ),
        Err(error) => Err(ErrorView::Usage(unresolved_text(error, line))),
    }
}

/// Finds the command on a line, given the words that were typed.
pub fn find_command(line: &str, typed: &[Typed]) -> (r: Result<(Command, Captures), CliError>)
    ensures
        match command_on_line(line@, typed_list(typed@)) {
            Ok((command, captures)) => r is Ok && r->Ok_0.0 == command && r->Ok_0.1@ == captures,
            Err(error) => r is Err && r->Err_0@ == error,
        },
{
    let entries = all_commands();
    proof {
        grammar_is_table(entries@);
    }
    match resolve(&entries, typed) {
        Ok(found) => {
            let entry = &entries[found.place];
            proof {
                assert(entry_views(entries@)[found.place as int] == entry@);
            }
            let mut list: Vec<Flag> = Vec::new();
            let mut i: usize = 0;
            while i < entry.flags.len()
                invariant
                    i <= entry.flags@.len(),
                    list@ =~= entry.flags@.take(i as int),
                decreases entry.flags.len() - i,
            {
                list.push(entry.flags[i]);
                i += 1;
            }
            let captures = Captures { args: found.args, flags: list };
            proof {
                assert(captures@.args =~= argument_views(found.args@));
                assert(captures@.flags =~= entry.flags@);
            }
            Ok((entry.command, captures))
        },
        Err(Unresolved::Invalid) => {
            let text = join("% Invalid input: ", trim(line).as_str());
            Err(CliError::usage(text.as_str()))
        },
        Err(Unresolved::Incomplete) => Err(CliError::usage("% Incomplete command.")),
        Err(Unresolved::Ambiguous) => Err(CliError::usage("% Ambiguous command.")),
    }
}

proof fn grammar_is_table(entries: Seq<Entry>)
    requires
        entry_views(entries) == command_table(),
    ensures
        grammar(entries) == command_words(),
{
    assert forall|i: int| 0 <= i < entries.len() implies #[trigger] grammar(entries)[i]
        == command_words()[i] by {
        assert(entry_views(entries)[i] == entries[i]@);
    }
    assert(grammar(entries) =~= command_words());
}

/// A command for the best path carries its flag into the routes command,
/// however it is narrowed.
pub proof fn best_commands_keep_their_flag(v6: bool, source: Option<PeerSource>)
    ensures
        flags_of(v6, Some(Flag::Best), source).contains(Flag::Best),
{
    let family = with_flag(
        seq![],
        if v6 {
            Some(Flag::Ipv6)
        } else {
            None
        },
    );
    let all = flags_of(v6, Some(Flag::Best), source);
    assert(all[family.len() as int] == Flag::Best);
}

/// The width of what is shown for a word in a list of what may follow.
pub const HELP_WIDTH: usize = 16;

/// A line of a list of what may follow.
pub open spec fn help_line(candidate: CandidateView) -> Seq<char> {
    "  "@ + candidate.display + filling(candidate.display, HELP_WIDTH as nat) + " "@
        + candidate.help
}

/// A list of what may follow, one candidate on a line.
pub open spec fn help_lines(candidates: Seq<CandidateView>) -> Seq<Seq<char>> {
    candidates.map_values(|candidate: CandidateView| help_line(candidate))
}

/// Lists what may follow.
pub fn help_text(candidates: &[Candidate]) -> (r: String)
    ensures
        r@ == joined_with(help_lines(candidate_views(candidates@)), "\n"@),
{
    let ghost views = candidate_views(candidates@);
    let mut lines: Vec<String> = Vec::new();
    let mut i: usize = 0;
    while i < candidates.len()
        invariant
            i <= candidates@.len(),
            views == candidate_views(candidates@),
            string_views(lines@) =~= help_lines(views.take(i as int)),
        decreases candidates.len() - i,
    {
        let ghost before = lines@;
        let candidate = &candidates[i];
        let mut line = "  ".to_owned();
        line.append(candidate.display.as_str());
        put_filling(
            &mut line,
            candidate.display.as_str().unicode_len(),
            HELP_WIDTH,
            Ghost(candidate.display@),
        );
        line.append(" ");
        line.append(candidate.help.as_str());
        proof {
            assert(views[i as int].display == candidate.display@);
            assert(line@ == help_line(views[i as int]));
        }
        lines.push(line);
        assert(string_views(lines@) =~= string_views(before).push(line@));
        i += 1;
    }
    assert(views.take(i as int) =~= views);
    join_all(&lines, "\n")
}

/// Whether what is typed ends between words, so that a new word is asked for.
pub fn asks_for_new_word(line: &str) -> (r: bool)
    ensures
        r == (line@.len() == 0 || is_white(line@.last())),
{
    let chars = chars_of(line);
    let n: usize = chars.len();
    n == 0 || white(chars[n - 1])
}

/// What may follow the words that were typed, given what was typed of the next.
pub fn what_may_follow(typed: &[Typed], last: &str) -> (r: Vec<Candidate>)
    ensures
        candidate_views(r@) == following(
            command_table(),
            meant(command_words(), typed_list(typed@), typed@.len()),
            typed@.len(),
            last@,
        ),
{
    let entries = all_commands();
    proof {
        grammar_is_table(entries@);
    }
    candidates(&entries, typed, last)
}

/// The flags of a command are its family, what it is about and its source, and
/// no others.
pub proof fn flags_say_what_is_asked(v6: bool, about: Option<Flag>, source: Option<PeerSource>)
    ensures
        v6 ==> flags_of(v6, about, source).contains(Flag::Ipv6),
        about is Some ==> flags_of(v6, about, source).contains(about->0),
        source is Some ==> flags_of(v6, about, source).contains(Flag::Source(source->0)),
        flags_of(v6, about, source).len() == (if v6 {
            1int
        } else {
            0
        }) + (if about is Some {
            1int
        } else {
            0
        }) + (if source is Some {
            1int
        } else {
            0
        }),
{
    let list = flags_of(v6, about, source);
    let n: int = if v6 {
        1
    } else {
        0
    };
    if v6 {
        assert(list[0] == Flag::Ipv6);
    }
    if about is Some {
        assert(list[n] == about->0);
    }
    if source is Some {
        assert(list[list.len() - 1] == Flag::Source(source->0));
    }
}

/// A list of routes can be narrowed to a source, by a keyword that names it, to
/// an ingress, to an AS number and to a community, and keeps its family and what
/// it is about.
pub proof fn routes_can_be_narrowed(
    table: Seq<EntryView>,
    text: Seq<char>,
    v6: bool,
    about: Option<Flag>,
    help: Seq<char>,
)
    ensures
        ({
            let all = with_routes(table, text, v6, about, help);
            let n = table.len() as int;
            &&& all.len() == n + 7
            &&& all.take(n) == table
            &&& forall|i: int| n <= i < n + 7 ==> (#[trigger] all[i]).command == Command::Routes
            &&& all[n].words == words_of(text)
            &&& all[n + 1].words == words_of(text + " source bgp"@)
            &&& all[n + 1].flags == flags_of(v6, about, Some(PeerSource::Bgp))
            &&& all[n + 2].words == words_of(text + " source bmp"@)
            &&& all[n + 2].flags == flags_of(v6, about, Some(PeerSource::Bmp))
            &&& all[n + 3].words == words_of(text + " source mrt"@)
            &&& all[n + 3].flags == flags_of(v6, about, Some(PeerSource::Mrt))
            &&& all[n + 4].words == words_of(text + " ingress <id>"@)
            &&& all[n + 5].words == words_of(text + " origin-as <asn>"@)
            &&& all[n + 6].words == words_of(text + " community <community>"@)
            &&& all[n].flags == flags_of(v6, about, None)
            &&& all[n + 4].flags == flags_of(v6, about, None)
            &&& all[n + 5].flags == flags_of(v6, about, None)
            &&& all[n + 6].flags == flags_of(v6, about, None)
        }),
{
    let all = with_routes(table, text, v6, about, help);
    assert(all.take(table.len() as int) =~= table);
}

/// The commands for neighbors: a summary of all, of the own and of the monitored
/// ones, and details of all or of one, and its routes.
pub proof fn neighbors_have_their_commands(table: Seq<EntryView>, base: Seq<char>, v6: bool)
    ensures
        ({
            let all = with_neighbors(table, base, v6);
            let n = table.len() as int;
            &&& all.len() == n + 6
            &&& all.take(n) == table
            &&& all[n].words == words_of(base + " summary"@) && all[n].command == Command::Summary
            &&& all[n + 1].words == words_of(base + " summary source bgp"@) && all[n + 1].command
                == Command::Summary && all[n + 1].flags == flags_of(
                v6,
                None,
                Some(PeerSource::Bgp),
            )
            &&& all[n + 2].words == words_of(base + " summary source bmp"@) && all[n + 2].command
                == Command::Summary && all[n + 2].flags == flags_of(
                v6,
                None,
                Some(PeerSource::Bmp),
            )
            &&& all[n + 3].words == words_of(base + " neighbors"@) && all[n + 3].command
                == Command::Neighbors
            &&& all[n + 4].words == words_of(base + " neighbors <ip>"@) && all[n + 4].command
                == Command::Neighbors
            &&& all[n + 5].words == words_of(base + " neighbors <ip> routes"@) && all[n + 5].command
                == Command::Routes
        }),
{
    let all = with_neighbors(table, base, v6);
    assert(all.take(table.len() as int) =~= table);
}

/// Each word in angle brackets stands for a value of its kind, and any other for
/// itself.
pub proof fn brackets_stand_for_values(text: Seq<char>)
    ensures
        word_of("<prefix>"@) == WordView::Prefix,
        word_of("<ip>"@) == WordView::Ip,
        word_of("<id>"@) == WordView::Id,
        word_of("<asn>"@) == WordView::Asn,
        word_of("<community>"@) == WordView::Community,
        word_of(text) is Keyword ==> word_of(text)->Keyword_0 == text,
{
    reveal_strlit("<prefix>");
    reveal_strlit("<ip>");
    reveal_strlit("<id>");
    reveal_strlit("<asn>");
    reveal_strlit("<community>");
    assert("<prefix>"@.len() == 8 && "<ip>"@.len() == 4 && "<id>"@.len() == 4);
    assert("<asn>"@.len() == 5 && "<community>"@.len() == 11);
    assert("<ip>"@[2] == 'p' && "<id>"@[2] == 'd');
}

} // verus!
