//! Configuration of the export.

use crate::text::{chars_of, same};
use vstd::prelude::*;
use vstd::string::StringExecFns;

verus! {

/// Configuration of the export.
#[derive(Debug)]
pub struct Config {
    pub endpoint: String,
    pub database: String,
    pub table: String,
    pub username: String,
    /// Read at startup; no credential is written to the spool.
    pub password_file: Option<String>,
    pub collector_id: String,
    pub spool_dir: String,
    pub spool_bytes: u64,
    pub reserve_bytes: u64,
    pub queue_bytes: u32,
    pub batch_rows: u32,
    pub batch_bytes: u64,
    pub flush_seconds: u64,
    pub retention_hours: u32,
    pub request_timeout_seconds: u64,
    pub shutdown_seconds: u64,
}

impl Default for Config {
    fn default() -> (r: Config)
        ensures
            r.endpoint@ == "http://127.0.0.1:8123"@,
            r.database@ == "netom"@,
            r.table@ == "events"@,
            r.username@ == "default"@,
            r.password_file is None,
            r.collector_id@ == ""@,
            r.spool_dir@ == "/var/lib/netom/clickhouse"@,
            r.spool_bytes == 34_359_738_368,
            r.reserve_bytes == 5_368_709_120,
            r.queue_bytes == 67_108_864,
            r.batch_rows == 100_000,
            r.batch_bytes == 33_554_432,
            r.flush_seconds == 5,
            r.retention_hours == 24,
            r.request_timeout_seconds == 60,
            r.shutdown_seconds == 30,
            r.limits_fit(),
    {
        Config {
            endpoint: "http://127.0.0.1:8123".to_owned(),
            database: "netom".to_owned(),
            table: "events".to_owned(),
            username: "default".to_owned(),
            password_file: None,
            collector_id: "".to_owned(),
            spool_dir: "/var/lib/netom/clickhouse".to_owned(),
            spool_bytes: 34_359_738_368,
            reserve_bytes: 5_368_709_120,
            queue_bytes: 67_108_864,
            batch_rows: 100_000,
            batch_bytes: 33_554_432,
            flush_seconds: 5,
            retention_hours: 24,
            request_timeout_seconds: 60,
            shutdown_seconds: 30,
        }
    }
}

/// Whether a character may stand in a plain SQL identifier.
pub open spec fn identifier_char(c: char) -> bool {
    'a' <= c <= 'z' || 'A' <= c <= 'Z' || '0' <= c <= '9' || c == '_'
}

/// Whether a name is a plain SQL identifier.
pub open spec fn is_identifier(name: Seq<char>) -> bool {
    name.len() > 0 && forall|i: int| 0 <= i < name.len() ==> identifier_char(#[trigger] name[i])
}

/// Whether a name is a plain SQL identifier.
pub fn plain_identifier(name: &str) -> (r: bool)
    ensures
        r == is_identifier(name@),
{
    let chars = chars_of(name);
    let mut i: usize = 0;
    while i < chars.len()
        invariant
            i <= chars.len(),
            chars@ == name@,
            forall|k: int| 0 <= k < i ==> identifier_char(#[trigger] name@[k]),
        decreases chars.len() - i,
    {
        let c: char = chars[i];
        if !(('a' <= c && c <= 'z') || ('A' <= c && c <= 'Z') || ('0' <= c && c <= '9') || c
            == '_') {
            assert(!identifier_char(name@[i as int]));
            return false;
        }
        i += 1;
    }
    chars.len() > 0
}

/// What is looked at in a URL.
#[derive(Debug)]
pub struct UrlParts {
    pub scheme: String,
    pub has_host: bool,
    pub has_query: bool,
    pub has_fragment: bool,
    pub username: String,
    pub has_password: bool,
}

/// What [`UrlParts`] hold.
pub ghost struct UrlView {
    pub scheme: Seq<char>,
    pub has_host: bool,
    pub has_query: bool,
    pub has_fragment: bool,
    pub username: Seq<char>,
    pub has_password: bool,
}

impl View for UrlParts {
    type V = UrlView;

    open spec fn view(&self) -> UrlView {
        UrlView {
            scheme: self.scheme@,
            has_host: self.has_host,
            has_query: self.has_query,
            has_fragment: self.has_fragment,
            username: self.username@,
            has_password: self.has_password,
        }
    }
}

/// The parts of a URL, or the text of the error that it is none.
pub uninterp spec fn url_in(text: Seq<char>) -> Result<UrlView, Seq<char>>;

/// `reqwest::Url::parse` and what its accessors give.
#[verifier::external_body]
fn parse_url(text: &str) -> (r: Result<UrlParts, String>)
    ensures
        match r {
            Ok(parts) => url_in(text@) == Ok::<UrlView, Seq<char>>(parts@),
            Err(error) => url_in(text@) == Err::<UrlView, Seq<char>>(error@),
        },
{
    let url = reqwest::Url::parse(text).map_err(|e| e.to_string())?;
    Ok(UrlParts {
        scheme: url.scheme().to_owned(),
        has_host: url.host_str().is_some(),
        has_query: url.query().is_some(),
        has_fragment: url.fragment().is_some(),
        username: url.username().to_owned(),
        has_password: url.password().is_some(),
    })
}

/// Whether a URL will do for an endpoint: HTTP or HTTPS, with a host and
/// without credentials, query or fragment.
pub open spec fn endpoint_fits(url: UrlView) -> bool {
    &&& url.scheme == "http"@ || url.scheme == "https"@
    &&& url.has_host
    &&& !url.has_query
    &&& !url.has_fragment
    &&& url.username.len() == 0
    &&& !url.has_password
}

/// Whether a URL will do for an endpoint.
pub fn check_endpoint(url: &UrlParts) -> (r: bool)
    ensures
        r == endpoint_fits(url@),
{
    (same(url.scheme.as_str(), "http") || same(url.scheme.as_str(), "https")) && url.has_host
        && !url.has_query && !url.has_fragment && url.username.as_str().is_empty()
        && !url.has_password
}

impl Config {
    /// Whether the limits make sense together.
    pub open spec fn limits_fit(self) -> bool {
        &&& self.queue_bytes >= 2_097_152
        &&& 0 < self.batch_rows <= 1_000_000
        &&& 1_048_576 <= self.batch_bytes <= 536_870_912
        &&& self.spool_bytes >= self.batch_bytes * 2
        &&& 0 < self.retention_hours <= 8760
        &&& 0 < self.flush_seconds <= 3600
        &&& self.request_timeout_seconds > 0
        &&& self.shutdown_seconds > 0
    }

    /// What is wrong with the configuration, if anything.
    pub open spec fn problem(self) -> Option<Seq<char>> {
        if !is_identifier(self.database@) || !is_identifier(self.table@) {
            Some("database/table must be plain SQL identifiers"@)
        } else {
            match url_in(self.endpoint@) {
                Err(error) => Some(error),
                Ok(url) => if !endpoint_fits(url) {
                    Some(
                        "endpoint must be an HTTP(S) URL without credentials, query or fragment"@,
                    )
                } else if !self.limits_fit() {
                    Some("invalid ClickHouse resource limits (see docs/clickhouse.md)"@)
                } else {
                    None
                },
            }
        }
    }

    /// Checks the limits.
    pub fn check_limits(&self) -> (r: bool)
        ensures
            r == self.limits_fit(),
    {
        !(self.queue_bytes < 2_097_152 || self.batch_rows == 0 || self.batch_rows > 1_000_000
            || self.batch_bytes < 1_048_576 || self.batch_bytes > 536_870_912 || self.spool_bytes
            < self.batch_bytes * 2 || self.retention_hours == 0 || self.retention_hours > 8760
            || self.flush_seconds == 0 || self.flush_seconds > 3600 || self.request_timeout_seconds
            == 0 || self.shutdown_seconds == 0)
    }

    /// Checks the configuration.
    pub fn validate(&self) -> (r: Result<(), String>)
        ensures
            match self.problem() {
                Some(text) => r is Err && r->Err_0@ == text,
                None => r is Ok,
            },
    {
        if !plain_identifier(self.database.as_str()) || !plain_identifier(self.table.as_str()) {
            return Err("database/table must be plain SQL identifiers".to_owned());
        }
        let url = match parse_url(self.endpoint.as_str()) {
            Ok(url) => url,
            Err(error) => {
                return Err(error);
            },
        };
        if !check_endpoint(&url) {
            return Err(
                "endpoint must be an HTTP(S) URL without credentials, query or fragment".to_owned(),
            );
        }
        if !self.check_limits() {
            return Err("invalid ClickHouse resource limits (see docs/clickhouse.md)".to_owned());
        }
        Ok(())
    }

    /// What a spool is bound to.
    pub open spec fn binding_text(self) -> Seq<char> {
        "schema=1;endpoint="@ + self.endpoint@ + ";database="@ + self.database@ + ";table="@
            + self.table@ + ";collector="@ + self.collector_id@ + ";block=v1"@
    }

    /// What a spool is bound to: the destination, and how rows are put into
    /// blocks. Credentials may change.
    pub fn binding(&self) -> (r: String)
        ensures
            r@ == self.binding_text(),
    {
        let mut out = "schema=1;endpoint=".to_owned();
        out.append(self.endpoint.as_str());
        out.append(";database=");
        out.append(self.database.as_str());
        out.append(";table=");
        out.append(self.table.as_str());
        out.append(";collector=");
        out.append(self.collector_id.as_str());
        out.append(";block=v1");
        out
    }
}

/// Only the destination and the collector bind a spool.
pub proof fn binding_ignores_credentials(a: Config, b: Config)
    requires
        a.endpoint@ == b.endpoint@,
        a.database@ == b.database@,
        a.table@ == b.table@,
        a.collector_id@ == b.collector_id@,
    ensures
        a.binding_text() == b.binding_text(),
{
}

/// The limits that a configuration may set: a queue of two of the largest
/// events, batches of up to a million rows and between one and 512 MiB, a spool
/// for two of them, a retention of up to a year, a flush at least every hour.
pub proof fn limits_are_bounded(config: Config)
    ensures
        config.limits_fit() <==> {
            &&& config.queue_bytes >= 2 * 1024 * 1024
            &&& 1 <= config.batch_rows <= 1000 * 1000
            &&& 1024 * 1024 <= config.batch_bytes <= 512 * 1024 * 1024
            &&& config.spool_bytes >= config.batch_bytes + config.batch_bytes
            &&& 1 <= config.retention_hours <= 365 * 24
            &&& 1 <= config.flush_seconds <= 60 * 60
            &&& config.request_timeout_seconds != 0
            &&& config.shutdown_seconds != 0
        },
{
}

/// More space, and more time for a request or for the end, is never a problem.
pub proof fn more_room_fits(config: Config, spool: u64, queue: u32, request: u64, shutdown: u64)
    requires
        config.problem() is None,
        spool >= config.spool_bytes,
        queue >= config.queue_bytes,
        request >= config.request_timeout_seconds,
        shutdown >= config.shutdown_seconds,
    ensures
        (Config {
            spool_bytes: spool,
            queue_bytes: queue,
            request_timeout_seconds: request,
            shutdown_seconds: shutdown,
            ..config
        }).problem() is None,
{
}

/// A configuration without a problem names its table by plain identifiers and
/// its server by a URL that has no credentials, query or fragment.
pub proof fn accepted_configurations_are_plain(config: Config)
    requires
        config.problem() is None,
    ensures
        config.database@.len() > 0 && config.table@.len() > 0,
        forall|i: int|
            0 <= i < config.database@.len() ==> identifier_char(#[trigger] config.database@[i]),
        forall|i: int|
            0 <= i < config.table@.len() ==> identifier_char(#[trigger] config.table@[i]),
        url_in(config.endpoint@) is Ok,
        url_in(config.endpoint@)->Ok_0.has_host,
        !url_in(config.endpoint@)->Ok_0.has_query,
        !url_in(config.endpoint@)->Ok_0.has_fragment,
        !url_in(config.endpoint@)->Ok_0.has_password,
        url_in(config.endpoint@)->Ok_0.username.len() == 0,
        url_in(config.endpoint@)->Ok_0.scheme == "http"@ || url_in(config.endpoint@)->Ok_0.scheme
            == "https"@,
        config.limits_fit(),
{
}

/// Plain identifiers are made of ASCII letters, digits and underscores.
pub proof fn identifiers_are_ascii(c: char)
    ensures
        identifier_char(c) <==> 97 <= c as int <= 122 || 65 <= c as int <= 90 || 48 <= c as int
            <= 57 || c as int == 95,
{
}

proof fn middles_differ(fore: Seq<char>, a: Seq<char>, b: Seq<char>, rest: Seq<char>)
    requires
        fore + a + rest == fore + b + rest,
    ensures
        a == b,
{
    let one = fore + a + rest;
    let two = fore + b + rest;
    assert(one.len() == two.len());
    assert(one.subrange(fore.len() as int, (fore.len() + a.len()) as int) =~= a);
    assert(two.subrange(fore.len() as int, (fore.len() + b.len()) as int) =~= b);
}

/// A spool is bound to every part of its destination: where two configurations
/// differ in one part alone, their spools are bound to different ones.
pub proof fn every_part_binds(a: Config, b: Config)
    requires
        a.binding_text() == b.binding_text(),
    ensures
        a.database@ == b.database@ && a.table@ == b.table@ && a.collector_id@ == b.collector_id@
            ==> a.endpoint@ == b.endpoint@,
        a.endpoint@ == b.endpoint@ && a.table@ == b.table@ && a.collector_id@ == b.collector_id@
            ==> a.database@ == b.database@,
        a.endpoint@ == b.endpoint@ && a.database@ == b.database@ && a.collector_id@
            == b.collector_id@ ==> a.table@ == b.table@,
        a.endpoint@ == b.endpoint@ && a.database@ == b.database@ && a.table@ == b.table@
            ==> a.collector_id@ == b.collector_id@,
{
    let (s, d, t, c, e) = (
        "schema=1;endpoint="@,
        ";database="@,
        ";table="@,
        ";collector="@,
        ";block=v1"@,
    );
    let (one, two) = (a.binding_text(), b.binding_text());
    if a.database@ == b.database@ && a.table@ == b.table@ && a.collector_id@ == b.collector_id@ {
        let rest = d + a.database@ + t + a.table@ + c + a.collector_id@ + e;
        assert(one =~= s + a.endpoint@ + rest);
        assert(two =~= s + b.endpoint@ + rest);
        middles_differ(s, a.endpoint@, b.endpoint@, rest);
    }
    if a.endpoint@ == b.endpoint@ && a.table@ == b.table@ && a.collector_id@ == b.collector_id@ {
        let fore = s + a.endpoint@ + d;
        let rest = t + a.table@ + c + a.collector_id@ + e;
        assert(one =~= fore + a.database@ + rest);
        assert(two =~= fore + b.database@ + rest);
        middles_differ(fore, a.database@, b.database@, rest);
    }
    if a.endpoint@ == b.endpoint@ && a.database@ == b.database@ && a.collector_id@
        == b.collector_id@ {
        let fore = s + a.endpoint@ + d + a.database@ + t;
        let rest = c + a.collector_id@ + e;
        assert(one =~= fore + a.table@ + rest);
        assert(two =~= fore + b.table@ + rest);
        middles_differ(fore, a.table@, b.table@, rest);
    }
    if a.endpoint@ == b.endpoint@ && a.database@ == b.database@ && a.table@ == b.table@ {
        let fore = s + a.endpoint@ + d + a.database@ + t + a.table@ + c;
        assert(one =~= fore + a.collector_id@ + e);
        assert(two =~= fore + b.collector_id@ + e);
        middles_differ(fore, a.collector_id@, b.collector_id@, e);
    }
}

} // verus!
