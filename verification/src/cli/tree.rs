//! What a command that was understood says.

use vstd::prelude::*;

verus! {

/// An address family.
#[derive(Clone, Copy, Debug, PartialEq, Eq, Structural)]
pub enum Afi {
    V4,
    V6,
}

/// What the routes of a table are for.
#[derive(Clone, Copy, Debug, PartialEq, Eq, Structural)]
pub enum Safi {
    Unicast,
    FlowSpec,
}

/// Where a peer is known from.
#[derive(Clone, Copy, Debug, PartialEq, Eq, Structural)]
pub enum PeerSource {
    Bgp,
    Bmp,
    Mrt,
}

impl PeerSource {
    pub open spec fn ingress_name(self) -> Seq<char> {
        match self {
            PeerSource::Bgp => "bgp"@,
            PeerSource::Bmp => "bmp"@,
            PeerSource::Mrt => "mrt"@,
        }
    }

    /// The type of the ingresses of such peers.
    pub fn ingress_type(self) -> (r: &'static str)
        ensures
            r@ == self.ingress_name(),
    {
        match self {
            PeerSource::Bgp => "bgp",
            PeerSource::Bmp => "bmp",
            PeerSource::Mrt => "mrt",
        }
    }
}

/// A keyword that changes what a command does.
#[derive(Clone, Copy, Debug, PartialEq, Eq, Structural)]
pub enum Flag {
    Ipv6,
    FlowSpec,
    Best,
    Source(PeerSource),
}

/// Something that a command was given. Addresses are as they are written.
#[derive(Debug)]
pub enum Argument {
    Prefix(String, u8),
    Ip(String),
    IngressId(u32),
    Asn(u32),
    Community(String),
}

/// What a [`Argument`] holds.
pub ghost enum ArgumentView {
    Prefix(Seq<char>, u8),
    Ip(Seq<char>),
    IngressId(u32),
    Asn(u32),
    Community(Seq<char>),
}

impl View for Argument {
    type V = ArgumentView;

    open spec fn view(&self) -> ArgumentView {
        match self {
            Argument::Prefix(addr, len) => ArgumentView::Prefix(addr@, *len),
            Argument::Ip(addr) => ArgumentView::Ip(addr@),
            Argument::IngressId(id) => ArgumentView::IngressId(*id),
            Argument::Asn(asn) => ArgumentView::Asn(*asn),
            Argument::Community(community) => ArgumentView::Community(community@),
        }
    }
}

/// What a command was given, and its keywords.
#[derive(Debug)]
pub struct Captures {
    pub args: Vec<Argument>,
    pub flags: Vec<Flag>,
}

/// What [`Captures`] hold.
pub ghost struct CapturesView {
    pub args: Seq<ArgumentView>,
    pub flags: Seq<Flag>,
}

impl View for Captures {
    type V = CapturesView;

    open spec fn view(&self) -> CapturesView {
        CapturesView { args: self.args@.map_values(|v: Argument| v@), flags: self.flags@ }
    }
}

impl Default for Captures {
    fn default() -> (r: Captures)
        ensures
            r@.args == Seq::<ArgumentView>::empty(),
            r@.flags == Seq::<Flag>::empty(),
    {
        let r = Captures { args: Vec::new(), flags: Vec::new() };
        assert(r@.args =~= Seq::<ArgumentView>::empty());
        r
    }
}

/// The source that the first such keyword names.
pub open spec fn source_in(flags: Seq<Flag>) -> Option<PeerSource>
    decreases flags.len(),
{
    if flags.len() == 0 {
        None
    } else {
        match flags[0] {
            Flag::Source(source) => Some(source),
            _ => source_in(flags.drop_first()),
        }
    }
}

/// The first of some values that passes a test.
pub open spec fn first_value(args: Seq<ArgumentView>, wanted: spec_fn(ArgumentView) -> bool) -> Option<
    ArgumentView,
>
    decreases args.len(),
{
    if args.len() == 0 {
        None
    } else if wanted(args[0]) {
        Some(args[0])
    } else {
        first_value(args.drop_first(), wanted)
    }
}

impl CapturesView {
    pub open spec fn afi(self) -> Afi {
        if self.flags.contains(Flag::Ipv6) {
            Afi::V6
        } else {
            Afi::V4
        }
    }

    pub open spec fn safi(self) -> Safi {
        if self.flags.contains(Flag::FlowSpec) {
            Safi::FlowSpec
        } else {
            Safi::Unicast
        }
    }

    pub open spec fn best(self) -> bool {
        self.flags.contains(Flag::Best)
    }

    pub open spec fn source(self) -> Option<PeerSource> {
        source_in(self.flags)
    }

    pub open spec fn prefix(self) -> Option<(Seq<char>, u8)> {
        match first_value(self.args, |v: ArgumentView| v is Prefix) {
            Some(ArgumentView::Prefix(addr, len)) => Some((addr, len)),
            _ => None,
        }
    }

    pub open spec fn ip(self) -> Option<Seq<char>> {
        match first_value(self.args, |v: ArgumentView| v is Ip) {
            Some(ArgumentView::Ip(addr)) => Some(addr),
            _ => None,
        }
    }

    pub open spec fn ingress_id(self) -> Option<u32> {
        match first_value(self.args, |v: ArgumentView| v is IngressId) {
            Some(ArgumentView::IngressId(id)) => Some(id),
            _ => None,
        }
    }

    pub open spec fn asn(self) -> Option<u32> {
        match first_value(self.args, |v: ArgumentView| v is Asn) {
            Some(ArgumentView::Asn(asn)) => Some(asn),
            _ => None,
        }
    }

    pub open spec fn community(self) -> Option<Seq<char>> {
        match first_value(self.args, |v: ArgumentView| v is Community) {
            Some(ArgumentView::Community(community)) => Some(community),
            _ => None,
        }
    }
}

impl Captures {
    fn has(&self, flag: Flag) -> (r: bool)
        ensures
            r == self@.flags.contains(flag),
    {
        let mut i: usize = 0;
        while i < self.flags.len()
            invariant
                i <= self.flags@.len(),
                forall|k: int| 0 <= k < i ==> self.flags@[k] != flag,
            decreases self.flags.len() - i,
        {
            if self.flags[i] == flag {
                return true;
            }
            i += 1;
        }
        false
    }

    /// The family that the command is about; IPv4 if nothing else is said.
    pub fn afi(&self) -> (r: Afi)
        ensures
            r == self@.afi(),
    {
        if self.has(Flag::Ipv6) {
            Afi::V6
        } else {
            Afi::V4
        }
    }

    /// The kind of routes that the command is about.
    pub fn safi(&self) -> (r: Safi)
        ensures
            r == self@.safi(),
    {
        if self.has(Flag::FlowSpec) {
            Safi::FlowSpec
        } else {
            Safi::Unicast
        }
    }

    /// Whether the command asks for the best path.
    pub fn best(&self) -> (r: bool)
        ensures
            r == self@.best(),
    {
        self.has(Flag::Best)
    }

    /// The source that the command is narrowed to.
    pub fn source(&self) -> (r: Option<PeerSource>)
        ensures
            r == self@.source(),
    {
        let mut i: usize = 0;
        assert(self.flags@.skip(0) =~= self.flags@);
        while i < self.flags.len()
            invariant
                i <= self.flags@.len(),
                source_in(self.flags@) == source_in(self.flags@.skip(i as int)),
            decreases self.flags.len() - i,
        {
            assert(self.flags@.skip(i as int).drop_first() =~= self.flags@.skip(i + 1));
            match self.flags[i] {
                Flag::Source(source) => {
                    return Some(source);
                },
                _ => {},
            }
            i += 1;
        }
        None
    }

    /// The prefix that the command is about.
    pub fn prefix(&self) -> (r: Option<(&str, u8)>)
        ensures
            match r {
                Some((addr, len)) => self@.prefix() == Some((addr@, len)),
                None => self@.prefix() is None,
            },
    {
        let ghost wanted = |v: ArgumentView| v is Prefix;
        let mut i: usize = 0;
        assert(self@.args.skip(0) =~= self@.args);
        while i < self.args.len()
            invariant
                i <= self.args@.len(),
                wanted == (|v: ArgumentView| v is Prefix),
                first_value(self@.args, wanted) == first_value(self@.args.skip(i as int), wanted),
            decreases self.args.len() - i,
        {
            assert(self@.args.skip(i as int).drop_first() =~= self@.args.skip(i + 1));
            assert(self@.args[i as int] == self.args@[i as int]@);
            match &self.args[i] {
                Argument::Prefix(addr, len) => {
                    return Some((addr.as_str(), *len));
                },
                _ => {},
            }
            i += 1;
        }
        None
    }

    /// The address that the command is about.
    pub fn ip(&self) -> (r: Option<&str>)
        ensures
            r is Some <==> self@.ip() is Some,
            r is Some ==> self@.ip() == Some(r->0@),
    {
        let ghost wanted = |v: ArgumentView| v is Ip;
        let mut i: usize = 0;
        assert(self@.args.skip(0) =~= self@.args);
        while i < self.args.len()
            invariant
                i <= self.args@.len(),
                wanted == (|v: ArgumentView| v is Ip),
                first_value(self@.args, wanted) == first_value(self@.args.skip(i as int), wanted),
            decreases self.args.len() - i,
        {
            assert(self@.args.skip(i as int).drop_first() =~= self@.args.skip(i + 1));
            assert(self@.args[i as int] == self.args@[i as int]@);
            match &self.args[i] {
                Argument::Ip(addr) => {
                    return Some(addr.as_str());
                },
                _ => {},
            }
            i += 1;
        }
        None
    }

    /// The ingress that the command is narrowed to.
    pub fn ingress_id(&self) -> (r: Option<u32>)
        ensures
            r == self@.ingress_id(),
    {
        let ghost wanted = |v: ArgumentView| v is IngressId;
        let mut i: usize = 0;
        assert(self@.args.skip(0) =~= self@.args);
        while i < self.args.len()
            invariant
                i <= self.args@.len(),
                wanted == (|v: ArgumentView| v is IngressId),
                first_value(self@.args, wanted) == first_value(self@.args.skip(i as int), wanted),
            decreases self.args.len() - i,
        {
            assert(self@.args.skip(i as int).drop_first() =~= self@.args.skip(i + 1));
            assert(self@.args[i as int] == self.args@[i as int]@);
            match &self.args[i] {
                Argument::IngressId(id) => {
                    return Some(*id);
                },
                _ => {},
            }
            i += 1;
        }
        None
    }

    /// The AS that the command is narrowed to.
    pub fn asn(&self) -> (r: Option<u32>)
        ensures
            r == self@.asn(),
    {
        let ghost wanted = |v: ArgumentView| v is Asn;
        let mut i: usize = 0;
        assert(self@.args.skip(0) =~= self@.args);
        while i < self.args.len()
            invariant
                i <= self.args@.len(),
                wanted == (|v: ArgumentView| v is Asn),
                first_value(self@.args, wanted) == first_value(self@.args.skip(i as int), wanted),
            decreases self.args.len() - i,
        {
            assert(self@.args.skip(i as int).drop_first() =~= self@.args.skip(i + 1));
            assert(self@.args[i as int] == self.args@[i as int]@);
            match &self.args[i] {
                Argument::Asn(asn) => {
                    return Some(*asn);
                },
                _ => {},
            }
            i += 1;
        }
        None
    }

    /// The community that the command is narrowed to.
    pub fn community(&self) -> (r: Option<&str>)
        ensures
            r is Some <==> self@.community() is Some,
            r is Some ==> self@.community() == Some(r->0@),
    {
        let ghost wanted = |v: ArgumentView| v is Community;
        let mut i: usize = 0;
        assert(self@.args.skip(0) =~= self@.args);
        while i < self.args.len()
            invariant
                i <= self.args@.len(),
                wanted == (|v: ArgumentView| v is Community),
                first_value(self@.args, wanted) == first_value(self@.args.skip(i as int), wanted),
            decreases self.args.len() - i,
        {
            assert(self@.args.skip(i as int).drop_first() =~= self@.args.skip(i + 1));
            assert(self@.args[i as int] == self.args@[i as int]@);
            match &self.args[i] {
                Argument::Community(community) => {
                    return Some(community.as_str());
                },
                _ => {},
            }
            i += 1;
        }
        None
    }
}

/// The first of some values that passes a test is one of them, and none in front
/// of it passes; where there is none, none passes.
pub proof fn first_value_is_first(
    args: Seq<ArgumentView>,
    wanted: spec_fn(ArgumentView) -> bool,
) -> (k: int)
    ensures
        first_value(args, wanted) is Some ==> 0 <= k < args.len() && args[k] == first_value(
            args,
            wanted,
        )->0 && wanted(args[k]),
        first_value(args, wanted) is None ==> k == args.len(),
        forall|j: int| 0 <= j < k ==> !wanted(#[trigger] args[j]),
    decreases args.len(),
{
    if args.len() == 0 {
        0
    } else if wanted(args[0]) {
        0
    } else {
        let rest = args.drop_first();
        let k = first_value_is_first(rest, wanted);
        assert forall|j: int| 0 <= j < k + 1 implies !wanted(#[trigger] args[j]) by {
            if j > 0 {
                assert(args[j] == rest[j - 1]);
            }
        }
        k + 1
    }
}

/// A command is about IPv4 and unicast routes unless it says otherwise, and what
/// it was given is found by its kind.
pub proof fn captures_are_found_by_kind(c: CapturesView, i: int)
    ensures
        c.afi() is V6 <==> c.flags.contains(Flag::Ipv6),
        c.safi() is FlowSpec <==> c.flags.contains(Flag::FlowSpec),
        c.best() <==> c.flags.contains(Flag::Best),
        c.args.len() == 1 && c.args[0] is Prefix ==> c.prefix() == Some(
            (c.args[0]->Prefix_0, c.args[0]->Prefix_1),
        ) && c.ip() is None && c.ingress_id() is None && c.asn() is None && c.community() is None,
        c.args.len() == 1 && c.args[0] is Ip ==> c.ip() == Some(c.args[0]->Ip_0) && c.prefix()
            is None && c.ingress_id() is None && c.asn() is None && c.community() is None,
        c.args.len() == 1 && c.args[0] is IngressId ==> c.ingress_id() == Some(
            c.args[0]->IngressId_0,
        ) && c.ip() is None && c.prefix() is None && c.asn() is None && c.community() is None,
        c.args.len() == 1 && c.args[0] is Asn ==> c.asn() == Some(c.args[0]->Asn_0) && c.ip()
            is None && c.prefix() is None && c.ingress_id() is None && c.community() is None,
        c.args.len() == 1 && c.args[0] is Community ==> c.community() == Some(
            c.args[0]->Community_0,
        ) && c.ip() is None && c.prefix() is None && c.ingress_id() is None && c.asn() is None,
{
    reveal_with_fuel(first_value, 2);
}

/// The source of a command is the one that its first such keyword names.
pub proof fn first_source_counts(flags: Seq<Flag>, first: Flag, source: PeerSource)
    ensures
        source_in(seq![Flag::Source(source)] + flags) == Some(source),
        first !is Source ==> source_in(seq![first] + flags) == source_in(flags),
        source_in(Seq::empty()) is None,
        PeerSource::Bgp.ingress_name() == "bgp"@,
        PeerSource::Bmp.ingress_name() == "bmp"@,
        PeerSource::Mrt.ingress_name() == "mrt"@,
{
    assert((seq![Flag::Source(source)] + flags).drop_first() =~= flags);
    assert((seq![first] + flags).drop_first() =~= flags);
}

} // verus!
