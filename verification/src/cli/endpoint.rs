//! Where the daemon's HTTP API is.

use crate::addr::{socket_of, IpAddr, SocketAddr};
use crate::cli::error::{CliError, ErrorView};
use crate::text::{
    chars_of, decimal, decimal_text, find_char, join3, matches_at, occurs_at, position_of, quote,
    quoted, same, string_between, string_views,
};
use crate::toml_doc::{self, toml_in, toml_items, toml_parts, Toml, TomlView};
use vstd::prelude::*;
use vstd::string::{StrSliceExecFns, StringExecFns};

verus! {

/// The port of the API where none is given.
pub const DEFAULT_PORT: u16 = 8080;

/// The first configuration to look at where none is named.
pub const LOCAL_CONFIG: &'static str = "./netom.conf";

/// The second configuration to look at where none is named.
pub const SYSTEM_CONFIG: &'static str = "/etc/netom/netom.conf";

/// Where to connect to, in the order of trial, and how that was found.
#[derive(Debug)]
pub struct Endpoint {
    pub addrs: Vec<SocketAddr>,
    pub provenance: String,
}

/// The addresses that can be connected to for one that is listened on: for a
/// wildcard the loopback address. On the IPv6 wildcard IPv4 is served too.
pub open spec fn connectable_of(addr: SocketAddr) -> Seq<SocketAddr> {
    match addr.ip {
        IpAddr::V4(0) => seq![socket_of(IpAddr::V4(0x7f00_0001), addr.port)],
        IpAddr::V6(0) => seq![
            socket_of(IpAddr::V6(1), addr.port),
            socket_of(IpAddr::V4(0x7f00_0001), addr.port),
        ],
        _ => seq![addr],
    }
}

/// The addresses that can be connected to for some that are listened on.
pub open spec fn all_connectable(addrs: Seq<SocketAddr>) -> Seq<SocketAddr>
    decreases addrs.len(),
{
    if addrs.len() == 0 {
        seq![]
    } else {
        all_connectable(addrs.drop_last()) + connectable_of(addrs.last())
    }
}

/// Whether an address stands for all addresses of a family.
pub open spec fn is_wildcard(addr: SocketAddr) -> bool {
    addr.ip == IpAddr::V4(0) || addr.ip == IpAddr::V6(0)
}

/// No address that is to be connected to is a wildcard, the port is kept, and
/// there is one for every address that is listened on.
pub proof fn wildcards_are_replaced(addr: SocketAddr)
    ensures
        connectable_of(addr).len() > 0,
        forall|i: int|
            0 <= i < connectable_of(addr).len() ==> !is_wildcard(
                #[trigger] connectable_of(addr)[i],
            ) && connectable_of(addr)[i].port == addr.port,
        !is_wildcard(addr) ==> connectable_of(addr) == seq![addr],
{
}

/// The addresses that can be connected to for one that is listened on.
pub fn connectable(addr: SocketAddr) -> (r: Vec<SocketAddr>)
    ensures
        r@ == connectable_of(addr),
{
    let mut out: Vec<SocketAddr> = Vec::new();
    let loopback = SocketAddr::new(IpAddr::V4(0x7f00_0001), addr.port);
    match addr.ip {
        IpAddr::V4(0) => {
            out.push(loopback);
        },
        IpAddr::V6(0) => {
            out.push(SocketAddr::new(IpAddr::V6(1), addr.port));
            out.push(loopback);
        },
        _ => {
            out.push(addr);
        },
    }
    assert(out@ =~= connectable_of(addr));
    out
}

/// The endpoint for some addresses that are listened on.
pub fn endpoint_from(addrs: &[SocketAddr], provenance: String) -> (r: Endpoint)
    ensures
        r.addrs@ == all_connectable(addrs@),
        r.provenance == provenance,
{
    let mut out: Vec<SocketAddr> = Vec::new();
    let mut i: usize = 0;
    assert(out@ =~= seq![]);
    while i < addrs.len()
        invariant
            i <= addrs@.len(),
            out@ == all_connectable(addrs@.take(i as int)),
        decreases addrs.len() - i,
    {
        let mut more = connectable(addrs[i]);
        assert(addrs@.take(i + 1).drop_last() =~= addrs@.take(i as int));
        out.append(&mut more);
        i += 1;
    }
    assert(addrs@.take(i as int) =~= addrs@);
    Endpoint { addrs: out, provenance }
}

/// Where the first occurrence of a part of a text begins, if it occurs.
pub open spec fn first_at(s: Seq<char>, part: Seq<char>, from: int) -> Option<int>
    decreases s.len() - from + 1,
{
    if from < 0 || from > s.len() {
        None
    } else if occurs_at(s, part, from) {
        Some(from)
    } else {
        first_at(s, part, from + 1)
    }
}

/// What is told of a URL with a scheme other than HTTP.
pub open spec fn scheme_text(scheme: Seq<char>) -> Seq<char> {
    "% Unsupported URL scheme "@ + quoted(scheme) + ": the netom API is plain HTTP."@
}

/// The host, and the port if there is one, that a URL names. A scheme may be
/// left out; a path does not count.
pub open spec fn host_port_in(url: Seq<char>) -> Result<Seq<char>, Seq<char>> {
    let rest = match first_at(url, "://"@, 0) {
        Some(at) => if url.take(at) == "http"@ {
            Ok(url.skip(at + 3))
        } else {
            Err(scheme_text(url.take(at)))
        },
        None => Ok(url),
    };
    match rest {
        Ok(rest) => Ok(rest.take(position_of(rest, '/'))),
        Err(error) => Err(error),
    }
}

fn find_part(s: &[char], part: &[char]) -> (r: Option<usize>)
    ensures
        r is Some <==> first_at(s@, part@, 0) is Some,
        r is Some ==> first_at(s@, part@, 0) == Some(r->0 as int) && occurs_at(
            s@,
            part@,
            r->0 as int,
        ),
{
    let mut i: usize = 0;
    loop
        invariant
            i <= s@.len(),
            first_at(s@, part@, 0) == first_at(s@, part@, i as int),
        decreases s.len() - i,
    {
        if matches_at(s, part, i) {
            return Some(i);
        }
        if i == s.len() {
            assert(first_at(s@, part@, i + 1) is None);
            return None;
        }
        i += 1;
    }
}

/// The host, and the port if there is one, that a URL names.
pub fn split_url(url: &str) -> (r: Result<String, CliError>)
    ensures
        match r {
            Ok(host) => host_port_in(url@) == Ok::<_, Seq<char>>(host@),
            Err(CliError::Usage(text)) => host_port_in(url@) == Err::<Seq<char>, _>(text@),
            Err(_) => false,
        },
{
    let chars = chars_of(url);
    let mark = chars_of("://");
    proof {
        reveal_strlit("://");
    }
    let start: usize = match find_part(&chars, &mark) {
        Some(at) => {
            let scheme = string_between(&chars, 0, at);
            assert(scheme@ =~= url@.take(at as int));
            if !same(scheme.as_str(), "http") {
                let text = join3(
                    "% Unsupported URL scheme ",
                    quote(scheme.as_str()).as_str(),
                    ": the netom API is plain HTTP.",
                );
                return Err(CliError::usage(text.as_str()));
            }
            assert(mark@.len() == 3 && at + 3 <= chars.len());
            at + 3
        },
        None => 0,
    };
    let end = find_char(&chars, start, '/');
    let host = string_between(&chars, start, end);
    proof {
        let rest = url@.skip(start as int);
        assert(url@.skip(0) =~= url@);
        assert(host@ =~= rest.take(position_of(rest, '/')));
    }
    Ok(host)
}

/// How the host of a URL is to be found: at addresses that can be connected to,
/// or by looking up a name with a port.
#[derive(Debug)]
pub enum Target {
    Addresses(Vec<SocketAddr>),
    Lookup(String),
}

/// The name and port to look up for a host that may come without a port.
pub open spec fn lookup_text(host: Seq<char>) -> Seq<char> {
    if host.contains(':') {
        host
    } else {
        host + ":"@ + decimal_text(DEFAULT_PORT as nat)
    }
}

/// How to find a host, by what it is: an address with a port, an address
/// without one, or neither.
pub fn target_of(host: &str, socket: Option<SocketAddr>, ip: Option<IpAddr>) -> (r: Target)
    ensures
        match (socket, ip) {
            (Some(addr), _) => r matches Target::Addresses(addrs) && addrs@ == connectable_of(
                addr,
            ),
            (None, Some(ip)) => r matches Target::Addresses(addrs) && addrs@ == connectable_of(
                (socket_of(ip, DEFAULT_PORT)),
            ),
            (None, None) => r matches Target::Lookup(text) && text@ == lookup_text(host@),
        },
{
    if let Some(addr) = socket {
        return Target::Addresses(connectable(addr));
    }
    if let Some(ip) = ip {
        return Target::Addresses(connectable(SocketAddr::new(ip, DEFAULT_PORT)));
    }
    let chars = chars_of(host);
    let at = find_char(&chars, 0, ':');
    if at < chars.len() {
        assert(host@[at as int] == ':');
        return Target::Lookup(host.to_owned());
    }
    Target::Lookup(join3(host, ":", decimal(DEFAULT_PORT as u64).as_str()))
}

/// The endpoint of a URL, by the addresses that were found for its host. Where
/// there is none, the URL is said to be none.
pub fn from_found(url: &str, found: Vec<SocketAddr>, provenance: &str) -> (r: Result<
    Endpoint,
    CliError,
>)
    ensures
        r is Ok <==> found@.len() > 0,
        match r {
            Ok(endpoint) => endpoint.addrs == found && endpoint.provenance@ == provenance@,
            Err(error) => error@ == ErrorView::Usage(
                "% Cannot parse endpoint "@ + quoted(url@) + "."@,
            ),
        },
{
    if found.len() == 0 {
        let text = join3("% Cannot parse endpoint ", quote(url).as_str(), ".");
        return Err(CliError::usage(text.as_str()));
    }
    Ok(Endpoint { addrs: found, provenance: provenance.to_owned() })
}

/// The texts among some values, in order.
pub open spec fn texts_among(items: Seq<TomlView>) -> Seq<Seq<char>>
    decreases items.len(),
{
    if items.len() == 0 {
        seq![]
    } else {
        let rest = texts_among(items.drop_last());
        match items.last() {
            TomlView::Text(text) => rest.push(text),
            _ => rest,
        }
    }
}

/// The addresses, as texts, that a configuration has the API listen on.
pub open spec fn listen_texts(document: TomlView) -> Seq<Seq<char>> {
    match document.get("http_listen"@) {
        Some(TomlView::Array(items)) => texts_among(items),
        _ => seq![],
    }
}

/// What is told of a configuration that does not parse.
pub open spec fn unparsed_text(path: Seq<char>, error: Seq<char>) -> Seq<char> {
    "% Cannot parse "@ + path + ": "@ + error
}

/// The addresses that a configuration has the API listen on, as texts; or what
/// is told of a configuration that does not parse.
pub open spec fn listen_in(path: Seq<char>, document: Result<TomlView, Seq<char>>) -> Result<
    Seq<Seq<char>>,
    Seq<char>,
> {
    match document {
        Ok(document) => Ok(listen_texts(document)),
        Err(error) => Err(unparsed_text(path, error)),
    }
}

/// The addresses, as texts, that a document has the API listen on.
pub fn listen_of(document: &Toml) -> (r: Vec<String>)
    ensures
        string_views(r@) == listen_texts(document.deep()),
{
    broadcast use toml_parts;

    let mut out: Vec<String> = Vec::new();
    assert(string_views(out@) =~= seq![]);
    if let Some(Toml::Array(items)) = document.get("http_listen") {
        let ghost all = toml_items(items@);
        let mut i: usize = 0;
        assert(all.take(0) =~= seq![]);
        while i < items.len()
            invariant
                all == toml_items(items@),
                i <= items@.len(),
                string_views(out@) == texts_among(all.take(i as int)),
            decreases items.len() - i,
        {
            let ghost before = out@;
            proof {
                assert(all.take(i + 1).drop_last() =~= all.take(i as int));
                assert(all.take(i + 1).last() == items@[i as int].deep());
            }
            if let Toml::Text(text) = &items[i] {
                out.push(text.as_str().to_owned());
                assert(string_views(out@) =~= string_views(before).push(text@));
            }
            i += 1;
        }
        assert(all.take(i as int) =~= all);
    }
    out
}

/// The addresses, as texts, that a configuration has the API listen on.
pub fn http_listen(path: &str, text: &str) -> (r: Result<Vec<String>, CliError>)
    ensures
        match r {
            Ok(texts) => listen_in(path@, toml_in(text@)) == Ok::<_, Seq<char>>(
                string_views(texts@),
            ),
            Err(CliError::Usage(error)) => listen_in(path@, toml_in(text@)) == Err::<
                Seq<Seq<char>>,
                _,
            >(error@),
            Err(_) => false,
        },
{
    match toml_doc::parse(text) {
        Ok(document) => Ok(listen_of(&document)),
        Err(error) => {
            let mut out = "% Cannot parse ".to_owned();
            out.append(path);
            out.append(": ");
            out.append(error.as_str());
            Err(CliError::usage(out.as_str()))
        },
    }
}

/// The error that a configuration cannot be read.
pub fn cannot_read(path: &str, error: &str) -> (r: CliError)
    ensures
        r@ == ErrorView::Usage("% Cannot read "@ + path@ + ": "@ + error@),
{
    let mut out = "% Cannot read ".to_owned();
    out.append(path);
    out.append(": ");
    out.append(error);
    CliError::usage(out.as_str())
}

/// The endpoint of a configuration, by the addresses among those that it has
/// the API listen on. Where there is none, that is an error.
pub fn from_config(path: &str, addrs: &[SocketAddr]) -> (r: Result<Endpoint, CliError>)
    ensures
        r is Ok <==> addrs@.len() > 0,
        match r {
            Ok(endpoint) => endpoint.addrs@ == all_connectable(addrs@) && endpoint.provenance@
                == "from "@ + path@ + ": http_listen"@,
            Err(error) => error@ == ErrorView::Usage(
                "% "@ + path@
                    + " does not set a usable http_listen; the daemon's HTTP API is disabled or the value is malformed."@,
            ),
        },
{
    if addrs.len() == 0 {
        let text = join3(
            "% ",
            path,
            " does not set a usable http_listen; the daemon's HTTP API is disabled or the value is malformed.",
        );
        return Err(CliError::usage(text.as_str()));
    }
    Ok(endpoint_from(addrs, join3("from ", path, ": http_listen")))
}

/// What says where the API is.
#[derive(Debug)]
pub enum Source {
    /// A URL, and where it was given.
    Url(String, String),
    /// A configuration that was named: it has to be usable.
    Config(String),
    /// A configuration that was not named: another is tried if it is not
    /// usable.
    Found(String),
    /// Nothing: the default.
    Default,
}

/// What a [`Source`] holds.
pub ghost enum SourceView {
    Url(Seq<char>, Seq<char>),
    Config(Seq<char>),
    Found(Seq<char>),
    Default,
}

impl View for Source {
    type V = SourceView;

    open spec fn view(&self) -> SourceView {
        match self {
            Source::Url(url, from) => SourceView::Url(url@, from@),
            Source::Config(path) => SourceView::Config(path@),
            Source::Found(path) => SourceView::Found(path@),
            Source::Default => SourceView::Default,
        }
    }
}

/// What some sources hold.
pub open spec fn source_views(sources: Seq<Source>) -> Seq<SourceView> {
    sources.map_values(|source: Source| source@)
}

/// What says where the API is, in the order of trial: a URL on the command
/// line, one in the environment, a configuration on the command line, the
/// configurations at the well-known places, and the default.
pub open spec fn sources_for(
    url_flag: Option<Seq<char>>,
    url_env: Option<Seq<char>>,
    config_flag: Option<Seq<char>>,
) -> Seq<SourceView> {
    if url_flag is Some {
        seq![SourceView::Url(url_flag->0, "from --url"@)]
    } else if url_env is Some && url_env->0.len() > 0 {
        seq![SourceView::Url(url_env->0, "from $NETOM_URL"@)]
    } else if config_flag is Some {
        seq![SourceView::Config(config_flag->0)]
    } else {
        seq![
            SourceView::Found(LOCAL_CONFIG@),
            SourceView::Found(SYSTEM_CONFIG@),
            SourceView::Default,
        ]
    }
}

/// A URL on the command line goes before everything else.
pub proof fn url_flag_beats_all(
    url: Seq<char>,
    url_env: Option<Seq<char>>,
    config_flag: Option<Seq<char>>,
)
    ensures
        sources_for(Some(url), url_env, config_flag) == seq![
            SourceView::Url(url, "from --url"@),
        ],
{
}

/// What an optional text holds.
pub open spec fn option_view(text: Option<&str>) -> Option<Seq<char>> {
    match text {
        Some(text) => Some(text@),
        None => None,
    }
}

/// What says where the API is, in the order of trial.
pub fn resolve(url_flag: Option<&str>, url_env: Option<&str>, config_flag: Option<&str>) -> (r: Vec<
    Source,
>)
    ensures
        source_views(r@) == sources_for(
            option_view(url_flag),
            option_view(url_env),
            option_view(config_flag),
        ),
{
    let ghost expected = sources_for(
        option_view(url_flag),
        option_view(url_env),
        option_view(config_flag),
    );
    let mut out: Vec<Source> = Vec::new();
    if let Some(url) = url_flag {
        out.push(Source::Url(url.to_owned(), "from --url".to_owned()));
        assert(source_views(out@) =~= expected);
        return out;
    }
    if let Some(url) = url_env {
        if url.unicode_len() > 0 {
            out.push(Source::Url(url.to_owned(), "from $NETOM_URL".to_owned()));
            assert(source_views(out@) =~= expected);
            return out;
        }
    }
    if let Some(path) = config_flag {
        out.push(Source::Config(path.to_owned()));
        assert(source_views(out@) =~= expected);
        return out;
    }
    out.push(Source::Found(LOCAL_CONFIG.to_owned()));
    out.push(Source::Found(SYSTEM_CONFIG.to_owned()));
    out.push(Source::Default);
    assert(source_views(out@) =~= expected);
    out
}

/// The endpoint where nothing says where the API is.
pub fn default_endpoint() -> (r: Endpoint)
    ensures
        r.addrs@ == seq![socket_of(IpAddr::V4(0x7f00_0001), DEFAULT_PORT)],
        r.provenance@ == "default endpoint; no --url, $NETOM_URL or config found"@,
{
    let mut addrs: Vec<SocketAddr> = Vec::new();
    addrs.push(SocketAddr::new(IpAddr::V4(0x7f00_0001), DEFAULT_PORT));
    assert(addrs@ =~= seq![socket_of(IpAddr::V4(0x7f00_0001), DEFAULT_PORT)]);
    Endpoint {
        addrs,
        provenance: "default endpoint; no --url, $NETOM_URL or config found".to_owned(),
    }
}

/// In place of all addresses of IPv4 the loopback address of IPv4 is connected
/// to, and in place of those of IPv6 that of IPv6 and then that of IPv4.
pub proof fn loopback_stands_for_all(port: u16)
    ensures
        connectable_of(socket_of(IpAddr::V4(0), port)) == seq![
            socket_of(IpAddr::V4((127 * 0x100_0000 + 1) as u32), port),
        ],
        connectable_of(socket_of(IpAddr::V6(0), port)) == seq![
            socket_of(IpAddr::V6(1), port),
            socket_of(IpAddr::V4((127 * 0x100_0000 + 1) as u32), port),
        ],
{
}

/// Every address that is listened on adds its own addresses behind the others.
pub proof fn addresses_are_tried_in_order(addrs: Seq<SocketAddr>, more: SocketAddr)
    ensures
        all_connectable(addrs.push(more)) == all_connectable(addrs) + connectable_of(more),
        all_connectable(Seq::empty()).len() == 0,
{
    assert(addrs.push(more).drop_last() =~= addrs);
}

/// A part is found where it first occurs.
pub proof fn first_occurrence_is_found(s: Seq<char>, part: Seq<char>, from: int)
    requires
        0 <= from,
    ensures
        first_at(s, part, from) is Some ==> from <= first_at(s, part, from)->0 && occurs_at(
            s,
            part,
            first_at(s, part, from)->0,
        ),
        forall|at: int|
            from <= at && (first_at(s, part, from) is None || at < first_at(s, part, from)->0)
                ==> !(#[trigger] occurs_at(s, part, at)),
    decreases s.len() - from + 1,
{
    if from <= s.len() && !occurs_at(s, part, from) {
        first_occurrence_is_found(s, part, from + 1);
    }
}

/// A host without a scheme is the host up to the first slash, and only HTTP is
/// taken for a scheme.
pub proof fn urls_name_their_host(host: Seq<char>, path: Seq<char>)
    requires
        forall|i: int| 0 <= i < host.len() ==> #[trigger] host[i] != '/',
        first_at(host + seq!['/'] + path, "://"@, 0) is None,
    ensures
        host_port_in(host + seq!['/'] + path) == Ok::<Seq<char>, Seq<char>>(host),
{
    let url = host + seq!['/'] + path;
    crate::text::position_is_behind_the_front(host, '/', path);
    assert(url.take(host.len() as int) =~= host);
}

/// A URL is refused exactly if it has a scheme and that is not HTTP.
pub proof fn only_plain_http_is_spoken(url: Seq<char>)
    ensures
        host_port_in(url) is Err <==> first_at(url, "://"@, 0) is Some && url.take(
            first_at(url, "://"@, 0)->0,
        ) != "http"@,
{
}

/// A host that has no port is looked up with the port of the API.
pub proof fn hosts_have_a_port(host: Seq<char>)
    ensures
        host.contains(':') ==> lookup_text(host) == host,
        !host.contains(':') ==> lookup_text(host) == host + ":"@ + decimal_text(
            DEFAULT_PORT as nat,
        ),
{
}

/// Without a URL on the command line, one in the environment counts unless it is
/// empty, then a configuration on the command line, and then what is found at
/// the well-known places, ahead of the default.
pub proof fn sources_are_tried_in_order(url: Seq<char>, config: Seq<char>)
    ensures
        url.len() > 0 ==> sources_for(None, Some(url), Some(config)) == seq![
            SourceView::Url(url, "from $NETOM_URL"@),
        ],
        sources_for(None, Some(Seq::empty()), Some(config)) == seq![SourceView::Config(config)],
        sources_for(None, None, Some(config)) == seq![SourceView::Config(config)],
        sources_for(None, None, None).len() == 3,
        sources_for(None, None, None)[0] == SourceView::Found(LOCAL_CONFIG@),
        sources_for(None, None, None)[1] == SourceView::Found(SYSTEM_CONFIG@),
        sources_for(None, None, None)[2] == SourceView::Default,
{
}

/// The texts among the values that the API is to listen on, in order; other
/// values do not count.
pub proof fn listen_addresses_are_texts(items: Seq<TomlView>, more: TomlView)
    ensures
        more is Text ==> texts_among(items.push(more)) == texts_among(items).push(more->Text_0),
        more !is Text ==> texts_among(items.push(more)) == texts_among(items),
        texts_among(Seq::empty()).len() == 0,
{
    assert(items.push(more).drop_last() =~= items);
}

} // verus!
