//! How a connection over which a router sends BMP messages comes about.

use crate::addr::SocketAddr;
use crate::text::{
    chars_of, find_last, is_white, join3, last_position_of, number_in, parse_digits, quote, quoted,
    string_between, white,
};
use crate::wire::octet_views;
use rustls::pki_types::ServerName;
use vstd::prelude::*;

verus! {

/// Who opens the connection.
#[derive(Debug)]
pub enum Connection {
    /// The router does, to an address.
    Listen(SocketAddr),
    Connect(ActiveConnection),
}

/// Where to connect to, and whether the connection is encrypted.
#[derive(Debug)]
pub struct ActiveConnection {
    pub endpoint: String,
    pub tls: Option<TlsConfig>,
}

/// How to tell that the router is the right one.
#[derive(Debug)]
pub struct TlsConfig {
    /// The file with the certificates to trust, in place of well-known ones.
    pub ca_file: Option<String>,
    /// The name that the router must have, in place of that of the endpoint.
    pub server_name: Option<String>,
    /// Whether any router will do: the connection is then only encrypted.
    pub insecure: bool,
}

impl Default for TlsConfig {
    fn default() -> (r: TlsConfig)
        ensures
            r == (TlsConfig { ca_file: None, server_name: None, insecure: false }),
    {
        TlsConfig { ca_file: None, server_name: None, insecure: false }
    }
}

/// The host of an endpoint: a name or an IPv4 address, or what stands in
/// brackets, which has to be an IPv6 address.
#[derive(Debug)]
pub enum Host {
    Name(String),
    Bracketed(String),
}

/// What a [`Host`] holds.
pub ghost enum HostView {
    Name(Seq<char>),
    Bracketed(Seq<char>),
}

impl View for Host {
    type V = HostView;

    open spec fn view(&self) -> HostView {
        match self {
            Host::Name(name) => HostView::Name(name@),
            Host::Bracketed(text) => HostView::Bracketed(text@),
        }
    }
}

/// Whether a character cannot stand in the name of a host.
pub open spec fn is_refused(c: char) -> bool {
    c == ':' || c == '/' || c == '[' || c == ']' || is_white(c)
}

/// The host that a text before the last colon of an endpoint is.
pub open spec fn host_in(host: Seq<char>) -> Option<HostView> {
    if host.len() > 0 && host[0] == '[' {
        if host.len() >= 2 && host.last() == ']' {
            Some(HostView::Bracketed(host.subrange(1, host.len() - 1)))
        } else {
            None
        }
    } else if host.len() == 0 || exists|i: int|
        0 <= i < host.len() && is_refused(#[trigger] host[i]) {
        None
    } else {
        Some(HostView::Name(host))
    }
}

/// Whether a text is the number of a port that can be connected to.
pub open spec fn is_port(text: Seq<char>) -> bool {
    number_in(text, 65535) is Some && number_in(text, 65535) != Some(0nat)
}

/// The host of an endpoint, if that has a host and a port.
pub open spec fn endpoint_form(endpoint: Seq<char>) -> Option<HostView> {
    match last_position_of(endpoint, ':') {
        Some(at) => if is_port(endpoint.skip(at + 1)) {
            host_in(endpoint.take(at))
        } else {
            None
        },
        None => None,
    }
}

/// What is told of an endpoint that is none.
pub open spec fn invalid_text(endpoint: Seq<char>) -> Seq<char> {
    "invalid BMP endpoint "@ + quoted(endpoint) + ": expected host:port or [IPv6]:port"@
}

/// The host of an endpoint, if what stands in brackets is an IPv6 address.
pub open spec fn endpoint_host_of(endpoint: Seq<char>, is_ipv6: bool) -> Result<Seq<char>, Seq<char>> {
    match endpoint_form(endpoint) {
        Some(HostView::Name(name)) => Ok(name),
        Some(HostView::Bracketed(text)) => if is_ipv6 {
            Ok(text)
        } else {
            Err(invalid_text(endpoint))
        },
        None => Err(invalid_text(endpoint)),
    }
}

/// The host of an endpoint, if that has a host and a port.
#[verifier::loop_isolation(false)]
pub fn split_endpoint(endpoint: &str) -> (r: Option<Host>)
    ensures
        r is Some <==> endpoint_form(endpoint@) is Some,
        r is Some ==> endpoint_form(endpoint@) == Some(r->0@),
{
    let chars = chars_of(endpoint);
    let at = match find_last(&chars, ':') {
        Some(at) => at,
        None => {
            return None;
        },
    };
    let port = vstd::slice::slice_subrange(chars.as_slice(), at + 1, chars.len());
    assert(port@ =~= endpoint@.skip(at + 1));
    match parse_digits(port, 65535) {
        Some(n) => if n == 0 {
            return None;
        },
        None => {
            return None;
        },
    }
    let ghost host = endpoint@.take(at as int);
    if at > 0 && chars[0] == '[' {
        if at >= 2 && chars[at - 1] == ']' {
            let text = string_between(&chars, 1, at - 1);
            assert(text@ =~= host.subrange(1, host.len() - 1));
            assert(host.last() == ']');
            return Some(Host::Bracketed(text));
        }
        return None;
    }
    if at == 0 {
        return None;
    }
    let mut i: usize = 0;
    while i < at
        invariant
            i <= at < chars@.len(),
            chars@ == endpoint@,
            host == endpoint@.take(at as int),
            forall|k: int| 0 <= k < i ==> !is_refused(#[trigger] host[k]),
        decreases at - i,
    {
        let c = chars[i];
        assert(host[i as int] == c);
        if c == ':' || c == '/' || c == '[' || c == ']' || white(c) {
            return None;
        }
        i += 1;
    }
    let name = string_between(&chars, 0, at);
    assert(name@ =~= host);
    Some(Host::Name(name))
}

/// The host of an endpoint. `is_ipv6` says whether what stands in brackets is
/// an IPv6 address.
pub fn endpoint_host(endpoint: &str, is_ipv6: bool) -> (r: Result<String, String>)
    ensures
        match r {
            Ok(host) => endpoint_host_of(endpoint@, is_ipv6) == Ok::<_, Seq<char>>(host@),
            Err(error) => endpoint_host_of(endpoint@, is_ipv6) == Err::<Seq<char>, _>(error@),
        },
{
    match split_endpoint(endpoint) {
        Some(Host::Name(name)) => {
            return Ok(name);
        },
        Some(Host::Bracketed(text)) => if is_ipv6 {
            return Ok(text);
        },
        None => {},
    }
    Err(
        join3(
            "invalid BMP endpoint ",
            quote(endpoint).as_str(),
            ": expected host:port or [IPv6]:port",
        ),
    )
}

/// Whether a text is the name of a server, or the text of the error that it is
/// none.
pub uninterp spec fn server_name_in(text: Seq<char>) -> Result<(), Seq<char>>;

/// `ServerName::try_from` takes the name of a server, or says why the text is
/// none.
#[verifier::external_body]
fn check_server_name(text: &str) -> (r: Result<(), String>)
    ensures
        match r {
            Ok(_) => server_name_in(text@) is Ok,
            Err(error) => server_name_in(text@) == Err::<(), _>(error@),
        },
{
    ServerName::try_from(text.to_owned()).map(|_| ()).map_err(|e| e.to_string())
}

/// The error that a configuration of encryption is, if it is one. A file of
/// certificates says nothing where any router will do.
pub open spec fn tls_error(tls: Option<TlsConfig>) -> Option<Seq<char>> {
    match tls {
        Some(tls) => if tls.insecure && tls.ca_file is Some {
            Some("tls.ca_file and tls.insecure are mutually exclusive"@)
        } else {
            match tls.server_name {
                Some(name) => match server_name_in(name@) {
                    Ok(_) => None,
                    Err(error) => Some(error),
                },
                None => None,
            }
        },
        None => None,
    }
}

/// What is told of a configuration that says neither or both.
pub open spec fn choice_text() -> Seq<char> {
    "bmp-tcp-in requires exactly one of listen or connect; tls is only valid with connect"@
}

/// The error that a configuration of a connection is, if it is one.
pub open spec fn connection_error(
    listen: Option<SocketAddr>,
    connect: Option<String>,
    tls: Option<TlsConfig>,
    is_ipv6: bool,
) -> Option<Seq<char>> {
    match (listen, connect, tls) {
        (Some(_), None, None) => None,
        (None, Some(endpoint), _) => match endpoint_host_of(endpoint@, is_ipv6) {
            Ok(_) => tls_error(tls),
            Err(error) => Some(error),
        },
        _ => Some(choice_text()),
    }
}

impl Connection {
    /// The connection of a configuration, which names an address to listen on
    /// or an endpoint to connect to. `is_ipv6` says whether what stands in
    /// brackets in the endpoint is an IPv6 address.
    pub fn from_config(
        listen: Option<SocketAddr>,
        connect: Option<String>,
        tls: Option<TlsConfig>,
        is_ipv6: bool,
    ) -> (r: Result<Connection, String>)
        ensures
            r is Ok <==> connection_error(listen, connect, tls, is_ipv6) is None,
            match r {
                Ok(connection) => connection == (match connect {
                    Some(endpoint) => Connection::Connect((ActiveConnection { endpoint, tls })),
                    None => Connection::Listen(listen->0),
                }),
                Err(error) => connection_error(listen, connect, tls, is_ipv6) == Some(error@),
            },
    {
        match (listen, connect, tls) {
            (Some(addr), None, None) => Ok(Connection::Listen(addr)),
            (None, Some(endpoint), tls) => {
                match endpoint_host(endpoint.as_str(), is_ipv6) {
                    Ok(_) => {},
                    Err(error) => {
                        return Err(error);
                    },
                }
                if let Some(tls) = &tls {
                    if tls.insecure && tls.ca_file.is_some() {
                        return Err("tls.ca_file and tls.insecure are mutually exclusive".to_owned());
                    }
                    if let Some(name) = &tls.server_name {
                        match check_server_name(name.as_str()) {
                            Ok(_) => {},
                            Err(error) => {
                                return Err(error);
                            },
                        }
                    }
                }
                Ok(Connection::Connect(ActiveConnection { endpoint, tls }))
            },
            _ => Err(
                "bmp-tcp-in requires exactly one of listen or connect; tls is only valid with connect".to_owned(),
            ),
        }
    }
}

/// The name that the router must have: the one of the configuration, else the
/// host of the endpoint, which has to be in order in any case.
pub open spec fn expected_name_of(connection: ActiveConnection, is_ipv6: bool) -> Result<
    Seq<char>,
    Seq<char>,
> {
    match endpoint_host_of(connection.endpoint@, is_ipv6) {
        Ok(host) => {
            let name = match connection.tls {
                Some(tls) => match tls.server_name {
                    Some(name) => name@,
                    None => host,
                },
                None => host,
            };
            match server_name_in(name) {
                Ok(_) => Ok(name),
                Err(error) => Err(error),
            }
        },
        Err(error) => Err(error),
    }
}

impl ActiveConnection {
    /// The name that the router must have: the one of the configuration, else
    /// the host of the endpoint. `is_ipv6` says whether what stands in brackets
    /// in the endpoint is an IPv6 address.
    pub fn expected_name(&self, is_ipv6: bool) -> (r: Result<String, String>)
        ensures
            match r {
                Ok(name) => expected_name_of(*self, is_ipv6) == Ok::<_, Seq<char>>(name@),
                Err(error) => expected_name_of(*self, is_ipv6) == Err::<Seq<char>, _>(error@),
            },
    {
        let host = match endpoint_host(self.endpoint.as_str(), is_ipv6) {
            Ok(host) => host,
            Err(error) => {
                return Err(error);
            },
        };
        let name = match &self.tls {
            Some(tls) => match &tls.server_name {
                Some(name) => name.as_str().to_owned(),
                None => host,
            },
            None => host,
        };
        match check_server_name(name.as_str()) {
            Ok(_) => Ok(name),
            Err(error) => Err(error),
        }
    }
}

/// Whose certificates are accepted.
#[derive(Debug)]
pub enum Trust {
    /// Anyone's: the connection is only encrypted.
    Anyone,
    /// Those that the certificates in a file vouch for.
    File(String),
    /// Those that well-known authorities vouch for.
    WellKnown,
}

/// What a [`Trust`] holds.
pub ghost enum TrustView {
    Anyone,
    File(Seq<char>),
    WellKnown,
}

impl View for Trust {
    type V = TrustView;

    open spec fn view(&self) -> TrustView {
        match self {
            Trust::Anyone => TrustView::Anyone,
            Trust::File(path) => TrustView::File(path@),
            Trust::WellKnown => TrustView::WellKnown,
        }
    }
}

impl TlsConfig {
    /// Whose certificates are accepted.
    pub fn trust(&self) -> (r: Trust)
        ensures
            r@ == (if self.insecure {
                TrustView::Anyone
            } else {
                match self.ca_file {
                    Some(path) => TrustView::File(path@),
                    None => TrustView::WellKnown,
                }
            }),
    {
        if self.insecure {
            return Trust::Anyone;
        }
        match &self.ca_file {
            Some(path) => Trust::File(path.as_str().to_owned()),
            None => Trust::WellKnown,
        }
    }
}

/// The certificates in a text in PEM format, up to the first section that
/// cannot be read, and the text of the error that it is, if there is one.
pub uninterp spec fn certificates_in(pem: Seq<u8>) -> (Seq<Seq<u8>>, Option<Seq<char>>);

/// What an error holds, if there is one.
pub open spec fn error_view(error: Option<String>) -> Option<Seq<char>> {
    match error {
        Some(error) => Some(error@),
        None => None,
    }
}

/// `rustls_pemfile::certs` takes the certificates out of a text in PEM format,
/// up to the first section that cannot be read.
#[verifier::external_body]
fn pem_certificates(pem: &[u8]) -> (r: (Vec<Vec<u8>>, Option<String>))
    ensures
        (octet_views(r.0@), error_view(r.1)) == certificates_in(pem@),
{
    let mut rest = pem;
    let mut error = None;
    let list = rustls_pemfile::certs(&mut rest)
        .map_while(|found| found.map_err(|e| error = Some(e.to_string())).ok())
        .map(|certificate| certificate.to_vec())
        .collect();
    (list, error)
}

/// What can be wrong with a file of certificates.
#[derive(Debug)]
pub enum RootsError {
    /// A section cannot be read.
    Pem(String),
    /// There is no certificate in it.
    Empty,
}

/// What a [`RootsError`] holds.
pub ghost enum RootsErrorView {
    Pem(Seq<char>),
    Empty,
}

impl View for RootsError {
    type V = RootsErrorView;

    open spec fn view(&self) -> RootsErrorView {
        match self {
            RootsError::Pem(error) => RootsErrorView::Pem(error@),
            RootsError::Empty => RootsErrorView::Empty,
        }
    }
}

impl RootsError {
    /// What the error says.
    pub fn message(&self) -> (r: String)
        ensures
            r@ == (match self@ {
                RootsErrorView::Pem(error) => error,
                RootsErrorView::Empty => "BMP TLS CA file contains no certificates"@,
            }),
    {
        match self {
            RootsError::Pem(error) => error.as_str().to_owned(),
            RootsError::Empty => "BMP TLS CA file contains no certificates".to_owned(),
        }
    }
}

/// The certificates of a file that are to be trusted, and what is wrong with
/// the file behind them.
#[derive(Debug)]
pub struct Roots {
    pub certificates: Vec<Vec<u8>>,
    pub error: Option<RootsError>,
}

/// What is wrong with a file of certificates, by what was found in it.
pub open spec fn roots_error(found: (Seq<Seq<u8>>, Option<Seq<char>>)) -> Option<RootsErrorView> {
    match found.1 {
        Some(error) => Some(RootsErrorView::Pem(error)),
        None => if found.0.len() == 0 {
            Some(RootsErrorView::Empty)
        } else {
            None
        },
    }
}

impl Roots {
    /// The certificates, once they were taken out of a file: a file without
    /// any is refused.
    pub fn of(certificates: Vec<Vec<u8>>, error: Option<String>) -> (r: Roots)
        ensures
            r.certificates == certificates,
            match r.error {
                Some(problem) => roots_error((octet_views(certificates@), error_view(error)))
                    == Some(problem@),
                None => roots_error((octet_views(certificates@), error_view(error))) is None,
            },
    {
        let error = match error {
            Some(error) => Some(RootsError::Pem(error)),
            None => if certificates.len() == 0 {
                Some(RootsError::Empty)
            } else {
                None
            },
        };
        Roots { certificates, error }
    }
}

/// The certificates that are to be trusted by the text of a file.
pub fn trusted_roots(pem: &[u8]) -> (r: Roots)
    ensures
        octet_views(r.certificates@) == certificates_in(pem@).0,
        match r.error {
            Some(problem) => roots_error(certificates_in(pem@)) == Some(problem@),
            None => roots_error(certificates_in(pem@)) is None,
        },
{
    let (certificates, error) = pem_certificates(pem);
    Roots::of(certificates, error)
}

/// The longest time between two attempts, in seconds.
pub const LONGEST_DELAY: u64 = 300;

/// The time until the next attempt to connect. It doubles with every attempt
/// until it is reset.
#[derive(Clone, Copy, Debug)]
pub struct Backoff(pub u64);

impl Default for Backoff {
    fn default() -> (r: Backoff)
        ensures
            r.0 == 0,
            r.wf(),
    {
        Backoff(0)
    }
}

/// The delay after some number of delays.
pub open spec fn delay_after(n: nat) -> nat
    decreases n,
{
    if n == 0 {
        1
    } else if 2 * delay_after((n - 1) as nat) > LONGEST_DELAY {
        LONGEST_DELAY as nat
    } else {
        2 * delay_after((n - 1) as nat)
    }
}

/// The delay stays between one second and the longest, and never shrinks.
pub proof fn delays_are_bounded(n: nat)
    ensures
        1 <= delay_after(n) <= LONGEST_DELAY,
        delay_after(n) <= delay_after(n + 1),
    decreases n,
{
    if n > 0 {
        delays_are_bounded((n - 1) as nat);
    }
}

impl Backoff {
    /// Whether the delay is at most the longest.
    pub open spec fn wf(self) -> bool {
        self.0 <= LONGEST_DELAY
    }

    /// The time until the next attempt, in seconds.
    pub fn next_delay(&mut self) -> (r: u64)
        requires
            old(self).wf(),
        ensures
            r == final(self).0,
            old(self).0 == 0 ==> r == delay_after(0),
            forall|n: nat|
                old(self).0 == #[trigger] delay_after(n) ==> r == delay_after(n + 1),
            r == (if old(self).0 == 0 {
                1
            } else if old(self).0 * 2 > LONGEST_DELAY {
                LONGEST_DELAY as int
            } else {
                old(self).0 * 2
            }),
            final(self).wf(),
    {
        proof {
            assert forall|n: nat| self.0 == #[trigger] delay_after(n) implies delay_after(n + 1)
                == (if self.0 * 2 > LONGEST_DELAY {
                LONGEST_DELAY as int
            } else {
                self.0 * 2
            }) && delay_after(n) != 0 by {
                delays_are_bounded(n);
            }
        }
        self.0 = if self.0 == 0 {
            1
        } else if self.0 * 2 > LONGEST_DELAY {
            LONGEST_DELAY
        } else {
            self.0 * 2
        };
        self.0
    }

    /// Starts over.
    pub fn reset(&mut self)
        ensures
            final(self).0 == 0,
            final(self).wf(),
    {
        self.0 = 0;
    }
}

proof fn last_is_behind(fore: Seq<char>, rest: Seq<char>, c: char)
    requires
        forall|i: int| 0 <= i < rest.len() ==> #[trigger] rest[i] != c,
    ensures
        last_position_of(fore + seq![c] + rest, c) == Some(fore.len() as int),
    decreases rest.len(),
{
    let all = fore + seq![c] + rest;
    if rest.len() > 0 {
        let less = rest.drop_last();
        assert forall|i: int| 0 <= i < less.len() implies #[trigger] less[i] != c by {
            assert(less[i] == rest[i]);
        }
        last_is_behind(fore, less, c);
        assert(all.drop_last() =~= fore + seq![c] + less);
        assert(all.last() == rest[rest.len() - 1]);
    } else {
        assert(all.last() == c);
    }
}

/// A name, a colon and a port are an endpoint with that name for its host, and
/// so is what stands in brackets.
pub proof fn endpoints_have_their_host(host: Seq<char>, port: Seq<char>)
    requires
        host.len() > 0,
        is_port(port),
        forall|i: int| 0 <= i < port.len() ==> #[trigger] port[i] != ':',
    ensures
        (forall|i: int| 0 <= i < host.len() ==> !is_refused(#[trigger] host[i])) ==> endpoint_form(
            host + seq![':'] + port,
        ) == Some(HostView::Name(host)),
        endpoint_form(seq!['['] + host + seq![']'] + seq![':'] + port) == Some(
            HostView::Bracketed(host),
        ),
{
    let plain = host + seq![':'] + port;
    last_is_behind(host, port, ':');
    assert(plain.take(host.len() as int) =~= host);
    assert(plain.skip(host.len() as int + 1) =~= port);
    let inner = seq!['['] + host + seq![']'];
    let whole = inner + seq![':'] + port;
    last_is_behind(inner, port, ':');
    assert(whole.take(inner.len() as int) =~= inner);
    assert(whole.skip(inner.len() as int + 1) =~= port);
    assert(inner.subrange(1, inner.len() - 1) =~= host);
    if forall|i: int| 0 <= i < host.len() ==> !is_refused(#[trigger] host[i]) {
        assert(is_refused('['));
        assert(!is_refused(host[0]));
        assert(host[0] != '[');
    }
}

/// A port is a number from one up to what sixteen bits can hold.
pub proof fn ports_fit_sixteen_bits(text: Seq<char>)
    ensures
        is_port(text) ==> number_in(text, 65535) is Some && 1 <= number_in(text, 65535)->0 <= 65535,
        number_in(text, 65535) is Some && number_in(text, 65535)->0 > 0 ==> is_port(text),
{
}

/// A configuration is accepted only if it names one of an address to listen on
/// and an endpoint to connect to. TLS is for connecting alone, and there a file
/// of certificates and no check of them exclude each other.
pub proof fn one_side_opens_the_connection(
    listen: Option<SocketAddr>,
    connect: Option<String>,
    tls: Option<TlsConfig>,
    is_ipv6: bool,
)
    ensures
        connection_error(listen, connect, tls, is_ipv6) is None ==> {
            &&& listen is Some <==> connect is None
            &&& tls is Some ==> connect is Some
            &&& tls is Some ==> !(tls->0.insecure && tls->0.ca_file is Some)
            &&& connect is Some ==> endpoint_form(connect->0@) is Some
            &&& tls is Some && tls->0.server_name is Some ==> server_name_in(
                tls->0.server_name->0@,
            ) is Ok
        },
        listen is Some && connect is None && tls is None ==> connection_error(
            listen,
            connect,
            tls,
            is_ipv6,
        ) is None,
        listen is None && connect is Some && tls is None && endpoint_form(connect->0@) is Some && (
        is_ipv6 || endpoint_form(connect->0@)->0 is Name) ==> connection_error(
            listen,
            connect,
            tls,
            is_ipv6,
        ) is None,
{
}

/// The name of the configuration counts ahead of the host of the endpoint, and
/// no name is expected that is not in order.
pub proof fn configured_names_count(connection: ActiveConnection, is_ipv6: bool)
    requires
        expected_name_of(connection, is_ipv6) is Ok,
    ensures
        connection.tls is Some && connection.tls->0.server_name is Some ==> expected_name_of(
            connection,
            is_ipv6,
        )->Ok_0 == connection.tls->0.server_name->0@,
        connection.tls is None || connection.tls->0.server_name is None ==> match endpoint_form(
            connection.endpoint@,
        ) {
            Some(HostView::Name(name)) => expected_name_of(connection, is_ipv6)->Ok_0 == name,
            Some(HostView::Bracketed(text)) => is_ipv6 && expected_name_of(
                connection,
                is_ipv6,
            )->Ok_0 == text,
            None => false,
        },
        server_name_in(expected_name_of(connection, is_ipv6)->Ok_0) is Ok,
{
}

/// The delay starts at one second and doubles up to five minutes.
pub proof fn delays_double(n: nat)
    ensures
        delay_after(0) == 1,
        delay_after(n + 1) == if 2 * delay_after(n) <= 300 {
            2 * delay_after(n)
        } else {
            300
        },
        n <= 8 ==> delay_after(n) == vstd::arithmetic::power2::pow2(n),
        n > 8 ==> delay_after(n) == 300,
    decreases n,
{
    vstd::arithmetic::power2::lemma2_to64();
    if n > 0 {
        delays_double((n - 1) as nat);
    }
}

/// A file of certificates is refused if it cannot be read or holds none.
pub proof fn certificates_are_needed(found: (Seq<Seq<u8>>, Option<Seq<char>>))
    ensures
        roots_error(found) is None <==> found.1 is None && found.0.len() > 0,
        found.1 is Some ==> roots_error(found) == Some(RootsErrorView::Pem(found.1->0)),
        found.1 is None && found.0.len() == 0 ==> roots_error(found) == Some(
            RootsErrorView::Empty,
        ),
{
}

} // verus!
