//! What can go wrong, and how it is told.

use crate::json::{json_in, parse, Json, JsonView};
use crate::text::{decimal, decimal_text, join, join3, trim, trimmed};
use vstd::prelude::*;
use vstd::string::StringExecFns;

verus! {

/// Exit codes, by which a script can tell a mistake in typing from a daemon
/// that cannot be reached and from one that says no.
pub const EXIT_OK: i32 = 0;
pub const EXIT_USAGE: i32 = 1;
pub const EXIT_TRANSPORT: i32 = 2;
pub const EXIT_API: i32 = 3;

#[derive(Debug)]
pub enum CliError {
    /// A command that was not understood; the text is complete.
    Usage(String),
    /// The daemon could not be reached, or the connection broke.
    Transport(String),
    /// The daemon refused.
    Api { status: u16, message: String },
    /// Whoever read the output went away. That is no failure.
    BrokenPipe,
}

/// What a [`CliError`] holds.
pub ghost enum ErrorView {
    Usage(Seq<char>),
    Transport(Seq<char>),
    Api { status: u16, message: Seq<char> },
    BrokenPipe,
}

impl View for CliError {
    type V = ErrorView;

    open spec fn view(&self) -> ErrorView {
        match self {
            CliError::Usage(text) => ErrorView::Usage(text@),
            CliError::Transport(text) => ErrorView::Transport(text@),
            CliError::Api { status, message } => ErrorView::Api {
                status: *status,
                message: message@,
            },
            CliError::BrokenPipe => ErrorView::BrokenPipe,
        }
    }
}

/// What a daemon that refused said: the `error` field of its answer, or the
/// answer itself.
pub open spec fn refusal_detail(body: Seq<char>, document: Result<JsonView, Seq<char>>) -> Seq<
    char,
> {
    match document {
        Ok(value) => match value.text_at("error"@) {
            Some(text) => text,
            None => trimmed(body),
        },
        Err(_) => trimmed(body),
    }
}

/// What an operator is told of a refusal.
pub open spec fn refusal_message(status: u16, path: Seq<char>, detail: Seq<char>) -> Seq<char> {
    if status == 404 {
        "Not supported by this netom (no endpoint "@ + path
            + "). The daemon is probably older than this CLI."@
    } else if status == 503 && detail.len() == 0 {
        "Service unavailable; the RIB may not be ready, or too many concurrent table dumps are already running. Retry shortly."@
    } else if detail.len() == 0 {
        "HTTP "@ + decimal_text(status as nat) + " from "@ + path
    } else {
        detail
    }
}

impl ErrorView {
    /// The exit code for an error.
    pub open spec fn code(self) -> i32 {
        match self {
            ErrorView::Usage(_) => EXIT_USAGE,
            ErrorView::Transport(_) => EXIT_TRANSPORT,
            ErrorView::Api { .. } => EXIT_API,
            ErrorView::BrokenPipe => EXIT_OK,
        }
    }

    /// What is shown of an error.
    pub open spec fn text(self) -> Seq<char> {
        match self {
            ErrorView::Usage(text) => text,
            ErrorView::Transport(text) => "% "@ + text,
            ErrorView::Api { message, .. } => "% "@ + message,
            ErrorView::BrokenPipe => ""@,
        }
    }
}

impl CliError {
    pub fn exit_code(&self) -> (r: i32)
        ensures
            r == self@.code(),
    {
        match self {
            CliError::Usage(_) => EXIT_USAGE,
            CliError::Transport(_) => EXIT_TRANSPORT,
            CliError::Api { .. } => EXIT_API,
            CliError::BrokenPipe => EXIT_OK,
        }
    }

    /// Whether nothing is to be shown.
    pub fn is_silent(&self) -> (r: bool)
        ensures
            r == (self@ == ErrorView::BrokenPipe),
    {
        match self {
            CliError::BrokenPipe => true,
            _ => false,
        }
    }

    pub fn transport(text: &str) -> (r: CliError)
        ensures
            r@ == ErrorView::Transport(text@),
    {
        CliError::Transport(text.to_owned())
    }

    pub fn usage(text: &str) -> (r: CliError)
        ensures
            r@ == ErrorView::Usage(text@),
    {
        CliError::Usage(text.to_owned())
    }

    /// The error for an operation that failed, given whether that was because
    /// the reader went away.
    pub fn from_io(broken_pipe: bool, text: &str) -> (r: CliError)
        ensures
            r@ == (if broken_pipe {
                ErrorView::BrokenPipe
            } else {
                ErrorView::Transport(text@)
            }),
    {
        if broken_pipe {
            CliError::BrokenPipe
        } else {
            CliError::Transport(text.to_owned())
        }
    }

    /// The error for a refusal, given what the daemon said.
    pub fn refused(status: u16, path: &str, detail: String) -> (r: CliError)
        ensures
            r@ == (ErrorView::Api { status, message: refusal_message(status, path@, detail@) }),
    {
        let message = if status == 404 {
            join3(
                "Not supported by this netom (no endpoint ",
                path,
                "). The daemon is probably older than this CLI.",
            )
        } else if status == 503 && detail.as_str().is_empty() {
            "Service unavailable; the RIB may not be ready, or too many concurrent table dumps are already running. Retry shortly.".to_owned()
        } else if detail.as_str().is_empty() {
            let mut text = join("HTTP ", decimal(status as u64).as_str());
            text.append(" from ");
            text.append(path);
            text
        } else {
            detail
        };
        CliError::Api { status, message }
    }

    /// What the daemon said, given its answer as a document if it is one.
    pub fn detail_of(body: &str, document: Result<Json, String>) -> (r: String)
        ensures
            r@ == refusal_detail(
                body@,
                match document {
                    Ok(value) => Ok(value.deep()),
                    Err(error) => Err(error@),
                },
            ),
    {
        match document {
            Ok(value) => match value.text_at("error") {
                Some(text) => text.to_owned(),
                None => trim(body),
            },
            Err(_) => trim(body),
        }
    }

    /// The error for an answer with a status that says no.
    pub fn from_http(status: u16, path: &str, body: &str) -> (r: CliError)
        ensures
            r@ == (ErrorView::Api {
                status,
                message: refusal_message(status, path@, refusal_detail(body@, json_in(body@))),
            }),
    {
        let detail = CliError::detail_of(body, parse(body));
        CliError::refused(status, path, detail)
    }

    /// What is shown.
    pub fn to_text(&self) -> (r: String)
        ensures
            r@ == self@.text(),
    {
        match self {
            CliError::Usage(text) => text.clone(),
            CliError::Transport(text) => join("% ", text.as_str()),
            CliError::Api { message, .. } => join("% ", message.as_str()),
            CliError::BrokenPipe => "".to_owned(),
        }
    }
}

/// An error is silent exactly if it is no failure.
pub proof fn only_success_is_silent(e: ErrorView)
    ensures
        e.code() == EXIT_OK <==> e == ErrorView::BrokenPipe,
{
}

/// A command that is not right ends with one, a daemon that is not reached with
/// two, a daemon that refuses with three, and output that nobody reads is no
/// error.
pub proof fn errors_have_their_codes(error: ErrorView)
    ensures
        error is Usage ==> error.code() == 1,
        error is Transport ==> error.code() == 2,
        error is Api ==> error.code() == 3,
        error is BrokenPipe <==> error.code() == 0,
        error is BrokenPipe ==> error.text().len() == 0,
        error is Usage ==> error.text() == error->Usage_0,
        error is Transport ==> error.text() == "% "@ + error->Transport_0,
        error is Api ==> error.text() == "% "@ + error->message,
{
    reveal_strlit("");
}

/// A refusal is told in the words of the daemon where it has any, but for what it
/// does not know at all.
pub proof fn refusals_are_told(status: u16, path: Seq<char>, detail: Seq<char>)
    ensures
        status != 404 && detail.len() > 0 ==> refusal_message(status, path, detail) == detail,
        status != 404 && status != 503 && detail.len() == 0 ==> refusal_message(
            status,
            path,
            detail,
        ) == "HTTP "@ + decimal_text(status as nat) + " from "@ + path,
        refusal_message(404, path, detail) == "Not supported by this netom (no endpoint "@ + path
            + "). The daemon is probably older than this CLI."@,
{
}

/// What the daemon said of a refusal is its error where it gave one, else all
/// that it said.
pub proof fn refusals_tell_the_error(body: Seq<char>, document: JsonView, error: Seq<char>)
    ensures
        document.text_at("error"@) is Some ==> refusal_detail(body, Ok(document))
            == document.text_at("error"@)->0,
        document.text_at("error"@) is None ==> refusal_detail(body, Ok(document)) == trimmed(body),
        refusal_detail(body, Err(error)) == trimmed(body),
{
}

} // verus!
