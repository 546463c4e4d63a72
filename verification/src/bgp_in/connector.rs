//! Which peers to dial, and when.

use crate::addr::IpAddr;
use crate::keyed::{in_order, value_is_at, Key, Keyed};
use crate::text::{decimal, decimal_text, join3, same};
use vstd::prelude::*;
use vstd::string::{StrSliceExecFns, StringExecFns};

verus! {

/// How long to wait for a connection, in seconds.
pub const CONNECT_TIMEOUT: u64 = 10;

/// How often the dialers are held against the configuration, in seconds.
pub const RECONCILE_INTERVAL: u64 = 5;

/// How long to wait before looking again at a peer that has a session, in
/// seconds.
pub const IDLE_POLL_INTERVAL: u64 = 5;

/// Which peers a configuration is for: one address, or all addresses of a
/// prefix.
#[derive(Clone, Copy, Debug, PartialEq, Eq, Structural)]
pub enum PrefixOrExact {
    Exact(IpAddr),
    Prefix(IpAddr, u8),
}

/// The configuration of a peer, as far as dialling depends on it. What else
/// the configuration says stands in `rest`.
#[derive(Debug)]
pub struct PeerConfig {
    pub name: String,
    pub connect: bool,
    pub remote_port: u16,
    pub source_addr: Option<IpAddr>,
    pub md5_key: Option<String>,
    pub connect_retry_secs: u32,
    pub rest: String,
}

/// Whether two optional texts are the same.
pub open spec fn same_option(a: Option<String>, b: Option<String>) -> bool {
    match (a, b) {
        (Some(a), Some(b)) => a@ == b@,
        (None, None) => true,
        _ => false,
    }
}

impl PeerConfig {
    /// Whether two configurations are the same.
    pub open spec fn equals(self, other: PeerConfig) -> bool {
        &&& self.name@ == other.name@
        &&& self.connect == other.connect
        &&& self.remote_port == other.remote_port
        &&& self.source_addr == other.source_addr
        &&& same_option(self.md5_key, other.md5_key)
        &&& self.connect_retry_secs == other.connect_retry_secs
        &&& self.rest@ == other.rest@
    }

    /// Whether two configurations are the same.
    pub fn is_same(&self, other: &PeerConfig) -> (r: bool)
        ensures
            r == self.equals(*other),
    {
        let keys = match (&self.md5_key, &other.md5_key) {
            (Some(a), Some(b)) => same(a.as_str(), b.as_str()),
            (None, None) => true,
            _ => false,
        };
        let sources = match (self.source_addr, other.source_addr) {
            (Some(a), Some(b)) => a == b,
            (None, None) => true,
            _ => false,
        };
        same(self.name.as_str(), other.name.as_str()) && self.connect == other.connect
            && self.remote_port == other.remote_port && sources && keys && self.connect_retry_secs
            == other.connect_retry_secs && same(self.rest.as_str(), other.rest.as_str())
    }
}

/// A dialer at work: the configuration that it was started with, and whether
/// it came to an end.
#[derive(Debug)]
pub struct Dialer {
    pub config: PeerConfig,
    pub finished: bool,
}

/// Where the configuration by which an address is to be dialled stands, behind
/// the last if nowhere. Of two the later counts.
pub open spec fn wanted_at(configs: Seq<(PrefixOrExact, PeerConfig)>, addr: IpAddr) -> Option<int>
    decreases configs.len(),
{
    if configs.len() == 0 {
        None
    } else if configs.last().1.connect && configs.last().0 == PrefixOrExact::Exact(addr) {
        Some(configs.len() - 1)
    } else {
        wanted_at(configs.drop_last(), addr)
    }
}

/// Whether a dialer for an address goes on: the address is still to be dialled,
/// by the configuration that the dialer was started with, and the dialer did
/// not come to an end.
pub open spec fn goes_on(
    configs: Seq<(PrefixOrExact, PeerConfig)>,
    addr: IpAddr,
    dialer: Dialer,
) -> bool {
    match wanted_at(configs, addr) {
        Some(i) => configs[i].1.equals(dialer.config) && !dialer.finished,
        None => false,
    }
}

/// What is to be done so that the dialers are those of the configuration.
#[derive(Debug)]
pub struct Plan {
    /// The addresses whose dialers are to be stopped.
    pub stop: Vec<IpAddr>,
    /// The addresses for which a dialer is to be started, each with the place
    /// of its configuration.
    pub start: Vec<(IpAddr, usize)>,
    /// The places of configurations that ask for a prefix to be dialled, if
    /// that was not told before.
    pub warn: Vec<usize>,
}

proof fn wanted_is_within(configs: Seq<(PrefixOrExact, PeerConfig)>, addr: IpAddr)
    ensures
        wanted_at(configs, addr) matches Some(i) ==> 0 <= i < configs.len()
            && configs[i].1.connect && configs[i].0 == PrefixOrExact::Exact(addr),
    decreases configs.len(),
{
    if configs.len() > 0 {
        wanted_is_within(configs.drop_last(), addr);
    }
}

/// Whether every address to be dialled is listed with the place of its
/// configuration, and no other.
spec fn lists_wanted(
    wanted: Keyed<IpAddr, usize>,
    configs: Seq<(PrefixOrExact, PeerConfig)>,
) -> bool {
    &&& wanted.wf()
    &&& forall|addr: IpAddr|
        (#[trigger] wanted.value(addr)) is Some <==> wanted_at(configs, addr) is Some
    &&& forall|addr: IpAddr|
        (#[trigger] wanted.value(addr)) is Some ==> wanted.value(addr)->0 == wanted_at(
            configs,
            addr,
        )->0
}

/// The addresses to be dialled.
fn wanted_addresses(configs: &[(PrefixOrExact, PeerConfig)]) -> (r: Keyed<IpAddr, usize>)
    ensures
        lists_wanted(r, configs@),
{
    let mut wanted: Keyed<IpAddr, usize> = Keyed::new();
    let mut i: usize = 0;
    while i < configs.len()
        invariant
            i <= configs@.len(),
            lists_wanted(wanted, configs@.take(i as int)),
        decreases configs.len() - i,
    {
        let entry = &configs[i];
        proof {
            let upto = configs@.take(i + 1);
            assert(upto.drop_last() =~= configs@.take(i as int));
            assert(upto.last() == *entry);
        }
        if entry.1.connect {
            if let PrefixOrExact::Exact(addr) = entry.0 {
                wanted.insert(addr, i);
            }
        }
        i += 1;
    }
    assert(configs@.take(i as int) =~= configs@);
    wanted
}

/// Whether an address is in a list of addresses and places.
pub open spec fn starts(list: Seq<(IpAddr, usize)>, addr: IpAddr) -> bool {
    exists|i: int| 0 <= i < list.len() && (#[trigger] list[i]).0 == addr
}

/// The dialers to be stopped: those that do not go on, in the order of their
/// addresses.
pub open spec fn stopped(
    running: Seq<(IpAddr, Dialer)>,
    configs: Seq<(PrefixOrExact, PeerConfig)>,
) -> Seq<IpAddr>
    decreases running.len(),
{
    if running.len() == 0 {
        seq![]
    } else {
        let rest = stopped(running.drop_last(), configs);
        let (addr, dialer) = running.last();
        if goes_on(configs, addr, dialer) {
            rest
        } else {
            rest.push(addr)
        }
    }
}

/// The configurations that ask for a prefix to be dialled and were not told
/// before, each prefix once.
pub open spec fn to_warn(
    configs: Seq<(PrefixOrExact, PeerConfig)>,
    warned: Seq<PrefixOrExact>,
) -> Seq<usize>
    decreases configs.len(),
{
    if configs.len() == 0 {
        seq![]
    } else {
        let rest = to_warn(configs.drop_last(), warned);
        let (key, config) = configs.last();
        if config.connect && key is Prefix && !warned_after(
            configs.drop_last(),
            warned,
        ).contains(key) {
            rest.push((configs.len() - 1) as usize)
        } else {
            rest
        }
    }
}

/// The prefixes that were told, with those that some configurations add.
pub open spec fn warned_after(
    configs: Seq<(PrefixOrExact, PeerConfig)>,
    warned: Seq<PrefixOrExact>,
) -> Seq<PrefixOrExact>
    decreases configs.len(),
{
    if configs.len() == 0 {
        warned
    } else {
        let rest = warned_after(configs.drop_last(), warned);
        let (key, config) = configs.last();
        if config.connect && key is Prefix && !rest.contains(key) {
            rest.push(key)
        } else {
            rest
        }
    }
}

fn is_in(list: &[PrefixOrExact], key: PrefixOrExact) -> (r: bool)
    ensures
        r == list@.contains(key),
{
    let mut i: usize = 0;
    while i < list.len()
        invariant
            i <= list@.len(),
            forall|k: int| 0 <= k < i ==> list@[k] != key,
        decreases list.len() - i,
    {
        if list[i] == key {
            return true;
        }
        i += 1;
    }
    false
}

/// Holds the dialers against the configuration. A dialer is stopped if its
/// peer is no longer to be dialled, or by another configuration, or if it came
/// to an end; an address without a dialer that goes on gets one.
pub fn reconcile(
    configs: &[(PrefixOrExact, PeerConfig)],
    running: &Keyed<IpAddr, Dialer>,
    warned: &mut Vec<PrefixOrExact>,
) -> (r: Plan)
    requires
        running.wf(),
    ensures
        r.stop@ == stopped(running.entries@, configs@),
        forall|addr: IpAddr| #[trigger]
            starts(r.start@, addr) <==> wanted_at(configs@, addr) is Some && !(running.value(
                addr,
            ) is Some && goes_on(configs@, addr, running.value(addr)->0)),
        forall|i: int|
            0 <= i < r.start@.len() ==> wanted_at(configs@, (#[trigger] r.start@[i]).0) == Some(
                r.start@[i].1 as int,
            ),
        in_order(r.start@),
        r.warn@ == to_warn(configs@, old(warned)@),
        final(warned)@ == warned_after(configs@, old(warned)@),
{
    let wanted = wanted_addresses(configs);
    let mut stop: Vec<IpAddr> = Vec::new();
    let mut i: usize = 0;
    assert(stop@ =~= seq![]);
    while i < running.entries.len()
        invariant
            running.wf(),
            lists_wanted(wanted, configs@),
            i <= running.entries@.len(),
            stop@ == stopped(running.entries@.take(i as int), configs@),
        decreases running.entries.len() - i,
    {
        let entry = &running.entries[i];
        proof {
            let upto = running.entries@.take(i + 1);
            assert(upto.drop_last() =~= running.entries@.take(i as int));
            assert(upto.last() == *entry);
            wanted_is_within(configs@, entry.0);
        }
        let keep = match wanted.get(entry.0) {
            Some(at) => configs[*at].1.is_same(&entry.1.config) && !entry.1.finished,
            None => false,
        };
        if !keep {
            stop.push(entry.0);
        }
        i += 1;
    }
    assert(running.entries@.take(i as int) =~= running.entries@);
    let mut start: Vec<(IpAddr, usize)> = Vec::new();
    let mut k: usize = 0;
    while k < wanted.entries.len()
        invariant
            running.wf(),
            lists_wanted(wanted, configs@),
            k <= wanted.entries@.len(),
            forall|j: int|
                0 <= j < start@.len() ==> started(*running, configs@, #[trigger] start@[j]),
            forall|n: int|
                0 <= n < k && !kept(*running, configs@, (#[trigger] wanted.entries@[n]).0)
                    ==> starts(start@, wanted.entries@[n].0),
            in_order(start@),
            start@.len() > 0 ==> k > 0 && start@.last().0.rank() <= wanted.entries@[k
                - 1].0.rank(),
        decreases wanted.entries.len() - k,
    {
        let (addr, at) = wanted.entries[k];
        proof {
            value_is_at(wanted.entries@, k as int);
            assert(wanted.value(addr) is Some);
            wanted_is_within(configs@, addr);
        }
        let keep = match running.get(addr) {
            Some(dialer) => configs[at].1.is_same(&dialer.config) && !dialer.finished,
            None => false,
        };
        let ghost before = start@;
        if k > 0 {
            assert(wanted.entries@[k - 1].0.rank() < wanted.entries@[k as int].0.rank());
        }
        if !keep {
            start.push((addr, at));
            proof {
                assert(start@[before.len() as int].0 == addr);
                assert forall|n: int|
                    0 <= n < k && !kept(
                        *running,
                        configs@,
                        (#[trigger] wanted.entries@[n]).0,
                    ) implies starts(start@, wanted.entries@[n].0) by {
                    let j = choose|j: int|
                        0 <= j < before.len() && (#[trigger] before[j]).0
                            == wanted.entries@[n].0;
                    assert(start@[j] == before[j]);
                }
                assert forall|a: int, b: int| 0 <= a < b < start@.len() implies (
                #[trigger] start@[a]).0.rank() < (#[trigger] start@[b]).0.rank() by {
                    if b == before.len() {
                        if a < before.len() - 1 {
                            assert(before[a].0.rank() < before[before.len() - 1].0.rank());
                        }
                    } else {
                        assert(before[a].0.rank() < before[b].0.rank());
                    }
                }
            }
        }
        proof {
            assert forall|j: int| 0 <= j < start@.len() implies started(*running, configs@, #[trigger] start@[j]) by {
                if j < before.len() {
                    assert(started(*running, configs@, before[j]));
                }
            }
        }
        k += 1;
    }
    proof {
        assert forall|addr: IpAddr| #[trigger]
            starts(start@, addr) <==> wanted_at(configs@, addr) is Some && !kept(
                *running,
                configs@,
                addr,
            ) by {
            if starts(start@, addr) {
                let j = choose|j: int| 0 <= j < start@.len() && (#[trigger] start@[j]).0 == addr;
                assert(started(*running, configs@, start@[j]));
            }
            if wanted_at(configs@, addr) is Some {
                assert(wanted.value(addr) is Some);
                let n = choose|n: int|
                    0 <= n < wanted.entries@.len() && (#[trigger] wanted.entries@[n]).0 == addr;
                assert(wanted.entries@[n].0 == addr);
            }
        }
        assert forall|j: int| 0 <= j < start@.len() implies wanted_at(
            configs@,
            (#[trigger] start@[j]).0,
        ) == Some(start@[j].1 as int) by {
            assert(started(*running, configs@, start@[j]));
        }
    }
    let mut warn: Vec<usize> = Vec::new();
    let mut n: usize = 0;
    assert(warn@ =~= seq![]);
    assert(configs@.take(0) =~= seq![]);
    while n < configs.len()
        invariant
            n <= configs@.len(),
            warn@ == to_warn(configs@.take(n as int), old(warned)@),
            warned@ == warned_after(configs@.take(n as int), old(warned)@),
        decreases configs.len() - n,
    {
        let entry = &configs[n];
        proof {
            let upto = configs@.take(n + 1);
            assert(upto.drop_last() =~= configs@.take(n as int));
            assert(upto.last() == *entry);
        }
        let is_prefix = match entry.0 {
            PrefixOrExact::Prefix(_, _) => true,
            PrefixOrExact::Exact(_) => false,
        };
        if entry.1.connect && is_prefix && !is_in(warned, entry.0) {
            warned.push(entry.0);
            warn.push(n);
        }
        n += 1;
    }
    assert(configs@.take(n as int) =~= configs@);
    Plan { stop, start, warn }
}

/// Whether a dialer for an address goes on.
spec fn kept(
    running: Keyed<IpAddr, Dialer>,
    configs: Seq<(PrefixOrExact, PeerConfig)>,
    addr: IpAddr,
) -> bool {
    running.value(addr) is Some && goes_on(configs, addr, running.value(addr)->0)
}

/// Whether an address is to be dialled by the configuration at some place, and
/// no dialer for it goes on.
spec fn started(
    running: Keyed<IpAddr, Dialer>,
    configs: Seq<(PrefixOrExact, PeerConfig)>,
    start: (IpAddr, usize),
) -> bool {
    &&& wanted_at(configs, start.0) == Some(start.1 as int)
    &&& !kept(running, configs, start.0)
}

proof fn stopped_do_not_go_on(
    running: Seq<(IpAddr, Dialer)>,
    configs: Seq<(PrefixOrExact, PeerConfig)>,
    addr: IpAddr,
)
    ensures
        stopped(running, configs).contains(addr) <==> exists|i: int|
            0 <= i < running.len() && (#[trigger] running[i]).0 == addr && !goes_on(
                configs,
                addr,
                running[i].1,
            ),
    decreases running.len(),
{
    if running.len() > 0 {
        let rest = running.drop_last();
        stopped_do_not_go_on(rest, configs, addr);
        let list = stopped(running, configs);
        let before = stopped(rest, configs);
        if before.contains(addr) {
            let i = choose|i: int|
                0 <= i < rest.len() && (#[trigger] rest[i]).0 == addr && !goes_on(
                    configs,
                    addr,
                    rest[i].1,
                );
            assert(running[i] == rest[i]);
            let k = choose|k: int| 0 <= k < before.len() && before[k] == addr;
            assert(list[k] == addr);
        }
        if running.last().0 == addr && !goes_on(configs, addr, running.last().1) {
            assert(running[running.len() - 1].0 == addr);
            assert(list[list.len() - 1] == addr);
        }
        if list.contains(addr) && !before.contains(addr) {
            let k = choose|k: int| 0 <= k < list.len() && list[k] == addr;
            if k < before.len() {
                assert(before[k] == addr);
            }
            assert(running[running.len() - 1].0 == addr);
        }
        if exists|i: int|
            0 <= i < running.len() && (#[trigger] running[i]).0 == addr && !goes_on(
                configs,
                addr,
                running[i].1,
            ) {
            let i = choose|i: int|
                0 <= i < running.len() && (#[trigger] running[i]).0 == addr && !goes_on(
                    configs,
                    addr,
                    running[i].1,
                );
            if i < rest.len() {
                assert(rest[i] == running[i]);
            }
        }
    }
}

/// After the dialers were held against the configuration, an address has a
/// dialer if and only if it is to be dialled.
pub proof fn dialers_follow_the_configuration(
    configs: Seq<(PrefixOrExact, PeerConfig)>,
    running: Keyed<IpAddr, Dialer>,
    start: Seq<(IpAddr, usize)>,
    addr: IpAddr,
)
    requires
        running.wf(),
        starts(start, addr) <==> wanted_at(configs, addr) is Some && !(running.value(addr) is Some
            && goes_on(configs, addr, running.value(addr)->0)),
    ensures
        (running.value(addr) is Some && !stopped(running.entries@, configs).contains(addr))
            || starts(start, addr) <==> wanted_at(configs, addr) is Some,
{
    stopped_do_not_go_on(running.entries@, configs, addr);
    if running.value(addr) is Some {
        let i = choose|i: int|
            0 <= i < running.entries@.len() && (#[trigger] running.entries@[i]).0 == addr;
        value_is_at(running.entries@, i);
        if stopped(running.entries@, configs).contains(addr) {
            let k = choose|k: int|
                0 <= k < running.entries@.len() && (#[trigger] running.entries@[k]).0 == addr
                    && !goes_on(configs, addr, running.entries@[k].1);
            value_is_at(running.entries@, k);
        }
    }
}

/// What a dialer does next.
#[derive(Clone, Copy, Debug, PartialEq, Eq, Structural)]
pub enum DialStep {
    /// The peer is no longer to be dialled.
    Stop,
    /// The peer has a session: look again after some seconds.
    Wait(u64),
    /// Dial the peer, at a port.
    Dial(u16),
}

/// What a dialer does next, by the configuration of its peer, if there is one,
/// and by whether the peer has a session, whichever side opened it.
pub fn next_step(config: Option<&PeerConfig>, live: bool) -> (r: DialStep)
    ensures
        r == (match config {
            Some(config) => if !config.connect {
                DialStep::Stop
            } else if live {
                DialStep::Wait(IDLE_POLL_INTERVAL)
            } else {
                DialStep::Dial(config.remote_port)
            },
            None => DialStep::Stop,
        }),
{
    match config {
        Some(config) => if !config.connect {
            DialStep::Stop
        } else if live {
            DialStep::Wait(IDLE_POLL_INTERVAL)
        } else {
            DialStep::Dial(config.remote_port)
        },
        None => DialStep::Stop,
    }
}

/// Whether a peer has a session: one of the sessions, which are given by
/// address and AS number, is with its address.
pub fn has_live_session(live_sessions: &[(IpAddr, u32)], remote_addr: IpAddr) -> (r: bool)
    ensures
        r == exists|i: int|
            0 <= i < live_sessions@.len() && (#[trigger] live_sessions@[i]).0 == remote_addr,
{
    let mut i: usize = 0;
    while i < live_sessions.len()
        invariant
            i <= live_sessions@.len(),
            forall|k: int| 0 <= k < i ==> (#[trigger] live_sessions@[k]).0 != remote_addr,
        decreases live_sessions.len() - i,
    {
        if live_sessions[i].0 == remote_addr {
            return true;
        }
        i += 1;
    }
    false
}

/// A time between none and `max` milliseconds, by the nanoseconds of the clock.
pub fn jitter(max: u64, nanos: u32) -> (r: u64)
    requires
        max < u64::MAX,
    ensures
        r == nanos as int % (max + 1),
        r <= max,
{
    if max == 0 {
        return 0;
    }
    nanos as u64 % (max + 1)
}

/// The time until the next attempt, in milliseconds: that of the
/// configuration, and up to a quarter more.
pub fn retry_delay(retry_secs: u32, nanos: u32) -> (r: u64)
    ensures
        r == retry_secs * 1000 + nanos as int % (retry_secs * 250 + 1),
        retry_secs * 1000 <= r <= retry_secs * 1250,
{
    let retry: u64 = retry_secs as u64 * 1000;
    let max: u64 = retry_secs as u64 * 250;
    retry + jitter(max, nanos)
}

/// The name of a session with a peer, by the peer's address as a text and the
/// port that was dialled.
pub fn session_name(addr: &str, port: u16) -> (r: String)
    ensures
        r@ == "bgp-out["@ + addr@ + ":"@ + decimal_text(port as nat) + "]"@,
{
    let mut out = "bgp-out[".to_owned();
    out.append(addr);
    out.append(":");
    out.append(decimal(port as u64).as_str());
    out.append("]");
    out
}

/// Whether an address is an IPv4 address.
pub open spec fn is_v4(addr: IpAddr) -> bool {
    addr is V4
}

/// Refuses a source address of another family than the peer's. The addresses
/// are given as texts too.
pub fn check_source(source: IpAddr, source_text: &str, remote: IpAddr, remote_text: &str) -> (r:
    Result<(), String>)
    ensures
        r is Ok <==> is_v4(source) == is_v4(remote),
        r is Err ==> r->Err_0@ == "source_addr "@ + source_text@
            + " does not match address family of peer "@ + remote_text@,
{
    let matches = match (source, remote) {
        (IpAddr::V4(_), IpAddr::V4(_)) => true,
        (IpAddr::V6(_), IpAddr::V6(_)) => true,
        _ => false,
    };
    if matches {
        return Ok(());
    }
    let mut out = "source_addr ".to_owned();
    out.append(source_text);
    out.append(" does not match address family of peer ");
    out.append(remote_text);
    Err(out)
}

/// What is told when a connection takes too long.
pub fn timed_out(remote: &str) -> (r: String)
    ensures
        r@ == "connect to "@ + remote@ + " timed out"@,
{
    join3("connect to ", remote, " timed out")
}

/// What is told of a configuration that asks for a prefix to be dialled.
pub fn prefix_warning(name: &str, prefix: &str) -> (r: String)
    ensures
        r@ == "peer '"@ + name@ + "' ("@ + prefix@
            + "): connect = true needs an exact peer address, not a prefix; not connecting"@,
{
    let mut out = "peer '".to_owned();
    out.append(name);
    out.append("' (");
    out.append(prefix);
    out.append("): connect = true needs an exact peer address, not a prefix; not connecting");
    out
}

/// An address is to be dialled exactly if a configuration for that very address
/// asks for it; of more than one the last counts.
pub proof fn last_configuration_counts(
    configs: Seq<(PrefixOrExact, PeerConfig)>,
    addr: IpAddr,
    i: int,
)
    requires
        0 <= i < configs.len(),
        configs[i].0 == PrefixOrExact::Exact(addr),
        configs[i].1.connect,
    ensures
        wanted_at(configs, addr) is Some,
        i <= wanted_at(configs, addr)->0 < configs.len(),
        configs[wanted_at(configs, addr)->0].0 == PrefixOrExact::Exact(addr),
        configs[wanted_at(configs, addr)->0].1.connect,
    decreases configs.len(),
{
    if !(configs.last().1.connect && configs.last().0 == PrefixOrExact::Exact(addr)) {
        last_configuration_counts(configs.drop_last(), addr, i);
    }
}

/// An address that no configuration asks to be dialled is not dialled.
pub proof fn only_configured_peers_are_dialled(
    configs: Seq<(PrefixOrExact, PeerConfig)>,
    addr: IpAddr,
)
    requires
        forall|i: int|
            0 <= i < configs.len() && (#[trigger] configs[i]).1.connect ==> configs[i].0
                != PrefixOrExact::Exact(addr),
    ensures
        wanted_at(configs, addr) is None,
    decreases configs.len(),
{
    if configs.len() > 0 {
        assert(configs.last() == configs[configs.len() - 1]);
        let fore = configs.drop_last();
        assert forall|i: int| 0 <= i < fore.len() && (#[trigger] fore[i]).1.connect implies fore[i].0
            != PrefixOrExact::Exact(addr) by {
            assert(fore[i] == configs[i]);
        }
        only_configured_peers_are_dialled(fore, addr);
    }
}

/// A dialer goes on only while it is at work, and while nothing in the
/// configuration of its peer is another.
pub proof fn any_change_ends_a_dialer(
    configs: Seq<(PrefixOrExact, PeerConfig)>,
    addr: IpAddr,
    dialer: Dialer,
)
    requires
        goes_on(configs, addr, dialer),
    ensures
        !dialer.finished,
        wanted_at(configs, addr) is Some,
        ({
            let config = configs[wanted_at(configs, addr)->0].1;
            &&& config.name@ == dialer.config.name@
            &&& config.remote_port == dialer.config.remote_port
            &&& config.source_addr == dialer.config.source_addr
            &&& config.connect_retry_secs == dialer.config.connect_retry_secs
            &&& config.connect == dialer.config.connect
            &&& config.rest@ == dialer.config.rest@
            &&& config.md5_key is Some <==> dialer.config.md5_key is Some
            &&& config.md5_key is Some ==> config.md5_key->0@ == dialer.config.md5_key->0@
        }),
{
}

/// A dialer that is at work with the configuration that counts goes on.
pub proof fn unchanged_dialers_go_on(
    configs: Seq<(PrefixOrExact, PeerConfig)>,
    addr: IpAddr,
    dialer: Dialer,
)
    requires
        wanted_at(configs, addr) is Some,
        configs[wanted_at(configs, addr)->0].1 == dialer.config,
        !dialer.finished,
    ensures
        goes_on(configs, addr, dialer),
{
}

/// A prefix that is to be dialled is noted, and what was noted stays.
pub proof fn prefixes_are_noted(
    configs: Seq<(PrefixOrExact, PeerConfig)>,
    warned: Seq<PrefixOrExact>,
)
    ensures
        forall|key: PrefixOrExact|
            warned.contains(key) ==> #[trigger] warned_after(configs, warned).contains(key),
        forall|i: int|
            0 <= i < configs.len() && (#[trigger] configs[i]).1.connect && configs[i].0 is Prefix
                ==> warned_after(configs, warned).contains(configs[i].0),
    decreases configs.len(),
{
    if configs.len() > 0 {
        let fore = configs.drop_last();
        let rest = warned_after(fore, warned);
        let all = warned_after(configs, warned);
        prefixes_are_noted(fore, warned);
        assert forall|key: PrefixOrExact| rest.contains(key) implies #[trigger] all.contains(key) by {
            let k = choose|k: int| 0 <= k < rest.len() && rest[k] == key;
            assert(all[k] == key);
        }
        let key = configs.last().0;
        if configs.last().1.connect && key is Prefix && !rest.contains(key) {
            assert(all[all.len() - 1] == key);
        }
        assert forall|i: int|
            0 <= i < configs.len() && (#[trigger] configs[i]).1.connect && configs[i].0
                is Prefix implies all.contains(configs[i].0) by {
            if i < fore.len() {
                assert(fore[i] == configs[i]);
                assert(rest.contains(fore[i].0));
            }
        }
    }
}

/// Only configurations that ask for a prefix to be dialled are told of, and only
/// if that was not told before.
pub proof fn only_new_prefixes_are_told(
    configs: Seq<(PrefixOrExact, PeerConfig)>,
    warned: Seq<PrefixOrExact>,
    k: int,
)
    requires
        configs.len() <= usize::MAX,
        0 <= k < to_warn(configs, warned).len(),
    ensures
        to_warn(configs, warned)[k] < configs.len(),
        configs[to_warn(configs, warned)[k] as int].1.connect,
        configs[to_warn(configs, warned)[k] as int].0 is Prefix,
        !warned.contains(configs[to_warn(configs, warned)[k] as int].0),
    decreases configs.len(),
{
    let fore = configs.drop_last();
    if k < to_warn(fore, warned).len() {
        only_new_prefixes_are_told(fore, warned, k);
        assert(to_warn(configs, warned)[k] == to_warn(fore, warned)[k]);
    } else {
        prefixes_are_noted(fore, warned);
        if warned.contains(configs.last().0) {
            assert(warned_after(fore, warned).contains(configs.last().0));
        }
    }
}

/// What was told once is not told again.
pub proof fn prefixes_are_told_once(
    configs: Seq<(PrefixOrExact, PeerConfig)>,
    warned: Seq<PrefixOrExact>,
)
    requires
        configs.len() <= usize::MAX,
    ensures
        to_warn(configs, warned_after(configs, warned)).len() == 0,
{
    let after = warned_after(configs, warned);
    prefixes_are_noted(configs, warned);
    if to_warn(configs, after).len() > 0 {
        only_new_prefixes_are_told(configs, after, 0);
        let at = to_warn(configs, after)[0] as int;
        assert(after.contains(configs[at].0));
    }
}

} // verus!
