//! What holds a command together: what is sent, what is made of failures, and
//! which lines are commands.

use crate::cli::error::{CliError, ErrorView};
use crate::json::{json_in, parse, Json, JsonView};
use crate::text::{
    chars_of, end_of, join, join3, join_all, joined_with, string_between, string_of, string_views,
    trim_chars, trimmed, trimmed_end,
};
use vstd::prelude::*;
use vstd::string::StringExecFns;

verus! {

/// The version of the command line, which is that of the package.
pub const VERSION: &'static str = "0.1.0";

/// How long to wait for more of an answer, in seconds. A large table on a busy
/// daemon can pause between parts.
pub const DEFAULT_TIMEOUT: u64 = 120;

/// The request for a path.
pub open spec fn request_text(path: Seq<char>, host: Seq<char>) -> Seq<char> {
    "GET "@ + path + " HTTP/1.1\r\nHost: "@ + host + "\r\nUser-Agent: netom-cli/"@ + VERSION@
        + "\r\nAccept-Encoding: identity\r\nConnection: close\r\n\r\n"@
}

/// The request for a path.
pub fn request(path: &str, host: &str) -> (r: String)
    ensures
        r@ == request_text(path@, host@),
{
    let mut out = "GET ".to_owned();
    out.append(path);
    out.append(" HTTP/1.1\r\nHost: ");
    out.append(host);
    out.append("\r\nUser-Agent: netom-cli/");
    out.append(VERSION);
    out.append("\r\nAccept-Encoding: identity\r\nConnection: close\r\n\r\n");
    out
}

/// What is said if none of some addresses answers: which were tried, what went
/// wrong last, and where they come from.
pub open spec fn unreachable_text(
    addrs: Seq<Seq<char>>,
    last: Option<Seq<char>>,
    provenance: Seq<char>,
) -> Seq<char> {
    "Unable to connect to netom at "@ + joined_with(addrs, ", "@) + (match last {
        Some(error) => ": "@ + error,
        None => " (no addresses to try)"@,
    }) + "\n%   ("@ + provenance + ")"@
}

/// The error if none of some addresses answers.
pub fn unreachable_error(addrs: &[String], last: Option<&str>, provenance: &str) -> (r: CliError)
    ensures
        r@ == ErrorView::Transport(
            unreachable_text(
                string_views(addrs@),
                match last {
                    Some(error) => Some(error@),
                    None => None,
                },
                provenance@,
            ),
        ),
{
    let mut text = "Unable to connect to netom at ".to_owned();
    text.append(join_all(addrs, ", ").as_str());
    let detail = match last {
        Some(error) => join(": ", error),
        None => " (no addresses to try)".to_owned(),
    };
    text.append(detail.as_str());
    text.append("\n%   (");
    text.append(provenance);
    text.append(")");
    CliError::Transport(text)
}

/// Whether a status says that all is well.
pub fn is_success(status: u16) -> (r: bool)
    ensures
        r == (200 <= status < 300),
{
    200 <= status && status < 300
}

/// What comes of looking for the `data` of an answer.
pub open spec fn envelope_data(path: Seq<char>, document: Result<JsonView, Seq<char>>) -> Result<
    JsonView,
    ErrorView,
> {
    match document {
        Err(error) => Err(
            ErrorView::Transport("Malformed JSON from "@ + path + ": "@ + error),
        ),
        Ok(value) => match value.get("data"@) {
            Some(data) => Ok(data),
            None => Err(ErrorView::Transport("No 'data' field in "@ + path + " response"@)),
        },
    }
}

/// The `data` of an answer, wrapped as it came.
#[derive(Debug)]
pub struct Envelope {
    pub document: Json,
}

impl Envelope {
    /// What the `data` of the answer holds.
    pub open spec fn data_view(self) -> Option<JsonView> {
        self.document.deep().get("data"@)
    }

    /// The `data` of the answer.
    pub fn data(&self) -> (r: Option<&Json>)
        ensures
            match r {
                Some(data) => self.data_view() == Some(data.deep()),
                None => self.data_view() is None,
            },
    {
        self.document.get("data")
    }

    /// Checks that an answer has a `data` field.
    pub fn open(path: &str, document: Result<Json, String>) -> (r: Result<Envelope, CliError>)
        ensures
            match envelope_data(
                path@,
                match document {
                    Ok(value) => Ok(value.deep()),
                    Err(error) => Err(error@),
                },
            ) {
                Ok(data) => r is Ok && r->Ok_0.data_view() == Some(data),
                Err(error) => r is Err && r->Err_0@ == error,
            },
    {
        match document {
            Err(error) => {
                let mut text = join3("Malformed JSON from ", path, ": ");
                text.append(error.as_str());
                Err(CliError::Transport(text))
            },
            Ok(value) => {
                if value.get("data").is_none() {
                    return Err(
                        CliError::Transport(join3("No 'data' field in ", path, " response")),
                    );
                }
                Ok(Envelope { document: value })
            },
        }
    }
}

/// Reads an answer and checks that it has a `data` field.
pub fn get_data(path: &str, body: &str) -> (r: Result<Envelope, CliError>)
    ensures
        match envelope_data(path@, json_in(body@)) {
            Ok(data) => r is Ok && r->Ok_0.data_view() == Some(data),
            Err(error) => r is Err && r->Err_0@ == error,
        },
{
    Envelope::open(path, parse(body))
}

/// What is said of an answer that was passed on and did not come to its end.
pub fn output_truncated() -> (r: CliError)
    ensures
        r@ == ErrorView::Transport(
            "Output truncated: the daemon closed the connection before the response was complete."@,
        ),
{
    CliError::transport(
        "Output truncated: the daemon closed the connection before the response was complete.",
    )
}

/// The command on a line, if there is one: empty lines and comments are none.
pub open spec fn command_on(line: Seq<char>) -> Option<Seq<char>> {
    let text = trimmed(line);
    if text.len() == 0 || text[0] == '#' {
        None
    } else {
        Some(text)
    }
}

/// The command on a line, if there is one.
pub fn runnable(line: &str) -> (r: Option<String>)
    ensures
        match r {
            Some(text) => command_on(line@) == Some(text@),
            None => command_on(line@) is None,
        },
{
    let chars = chars_of(line);
    let text = trim_chars(&chars);
    if text.len() == 0 || text[0] == '#' {
        None
    } else {
        Some(string_of(&text))
    }
}

/// What stands before the question mark at the end of a command.
pub open spec fn help_asked(command: Seq<char>) -> Option<Seq<char>> {
    let text = trimmed_end(command);
    if text.len() > 0 && text.last() == '?' {
        Some(text.drop_last())
    } else {
        None
    }
}

/// What stands before the question mark at the end of a command, if it asks
/// how it could go on.
pub fn help_stem(command: &str) -> (r: Option<String>)
    ensures
        match r {
            Some(text) => help_asked(command@) == Some(text@),
            None => help_asked(command@) is None,
        },
{
    let chars = chars_of(command);
    let end: usize = end_of(&chars);
    if end > 0 && chars[end - 1] == '?' {
        let stem = string_between(&chars, 0, end - 1);
        assert(stem@ =~= chars@.take(end as int).drop_last());
        Some(stem)
    } else {
        None
    }
}

/// A line holds a command unless it is empty or a comment, and the command has
/// no white space around it. A command that ends in a question mark asks how it
/// could go on.
pub proof fn comments_are_no_commands(line: Seq<char>)
    ensures
        command_on(line) is Some <==> trimmed(line).len() > 0 && trimmed(line)[0] != '#',
        command_on(line) is Some ==> command_on(line)->0 == trimmed(line),
        help_asked(line) is Some <==> trimmed_end(line).len() > 0 && trimmed_end(line).last()
            == '?',
        help_asked(line) is Some ==> help_asked(line)->0.push('?') == trimmed_end(line),
{
    if help_asked(line) is Some {
        assert(help_asked(line)->0.push('?') =~= trimmed_end(line));
    }
}

/// An answer is opened exactly if it is a document with data.
pub proof fn answers_need_data(path: Seq<char>, document: Result<JsonView, Seq<char>>)
    ensures
        envelope_data(path, document) is Ok <==> document is Ok && document->Ok_0.get("data"@)
            is Some,
        envelope_data(path, document) is Ok ==> envelope_data(path, document)->Ok_0
            == document->Ok_0.get("data"@)->0,
        envelope_data(path, document) is Err ==> envelope_data(path, document)->Err_0 is Transport,
{
}

/// A request asks for its path at its host, and for the connection to be closed
/// behind the answer.
pub proof fn requests_ask_for_their_path(path: Seq<char>, host: Seq<char>)
    ensures
        ("GET "@ + path + " HTTP/1.1\r\nHost: "@ + host + "\r\n"@).is_prefix_of(
            request_text(path, host),
        ),
{
    reveal_strlit("\r\n");
    reveal_strlit("\r\nUser-Agent: netom-cli/");
    let end = "\r\nUser-Agent: netom-cli/"@;
    assert("\r\n"@ =~= end.take(2));
    let fore = "GET "@ + path + " HTTP/1.1\r\nHost: "@ + host;
    let rest = VERSION@ + "\r\nAccept-Encoding: identity\r\nConnection: close\r\n\r\n"@;
    assert(request_text(path, host) =~= fore + end + rest);
}

} // verus!
