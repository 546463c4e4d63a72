//! Names of filters and the scripts they stand in, and streams of messages.

use crate::addr::IpAddr;
use crate::text::{same, string_views};
use vstd::prelude::*;

verus! {

/// The name of a filter.
#[derive(Debug, PartialEq, Eq, Hash)]
pub struct FilterName(pub String);

impl Default for FilterName {
    fn default() -> (r: FilterName)
        ensures
            r.0@ == Seq::<char>::empty(),
    {
        let name = "".to_owned();
        proof {
            reveal_strlit("");
            assert(name@ =~= Seq::<char>::empty());
        }
        FilterName(name)
    }
}

impl From<String> for FilterName {
    fn from(value: String) -> (r: FilterName) {
        FilterName(value)
    }
}

impl vstd::std_specs::convert::FromSpecImpl<String> for FilterName {
    open spec fn obeys_from_spec() -> bool {
        true
    }

    open spec fn from_spec(value: String) -> FilterName {
        FilterName(value)
    }
}

impl FilterName {
    /// The name as a text.
    pub fn as_str(&self) -> (r: &str)
        ensures
            r@ == self.0@,
    {
        self.0.as_str()
    }
}

/// The scripts that filters stand in, by the name of the filter. Where a name
/// occurs more than once, the last script counts.
#[derive(Debug)]
pub struct RotoScripts {
    pub scripts: Vec<(FilterName, String)>,
}

/// The script in which a filter stands.
pub open spec fn script_for(scripts: Seq<(FilterName, String)>, name: Seq<char>) -> Option<Seq<char>>
    decreases scripts.len(),
{
    if scripts.len() == 0 {
        None
    } else if scripts.last().0.0@ == name {
        Some(scripts.last().1@)
    } else {
        script_for(scripts.drop_last(), name)
    }
}

/// Whether a filter of some name has a script.
pub open spec fn is_filter(scripts: Seq<(FilterName, String)>, name: Seq<char>) -> bool {
    script_for(scripts, name) is Some
}

/// Whether a filter stands in some script.
pub open spec fn is_origin(scripts: Seq<(FilterName, String)>, path: Seq<char>) -> bool {
    exists|name: Seq<char>| #[trigger] script_for(scripts, name) == Some(path)
}

/// Whether no text occurs twice.
pub open spec fn all_different(texts: Seq<Seq<char>>) -> bool {
    forall|i: int, j: int| 0 <= i < j < texts.len() ==> #[trigger] texts[i] != #[trigger] texts[j]
}

/// The texts of some names.
pub open spec fn name_views(names: Seq<FilterName>) -> Seq<Seq<char>> {
    names.map_values(|name: FilterName| name.0@)
}

/// Each entry's name is that of a filter, and every filter has an entry.
proof fn filters_are_entries(scripts: Seq<(FilterName, String)>, name: Seq<char>)
    ensures
        is_filter(scripts, name) <==> exists|i: int|
            0 <= i < scripts.len() && (#[trigger] scripts[i]).0.0@ == name,
    decreases scripts.len(),
{
    if scripts.len() > 0 {
        let rest = scripts.drop_last();
        filters_are_entries(rest, name);
        if is_filter(rest, name) {
            let i = choose|i: int| 0 <= i < rest.len() && (#[trigger] rest[i]).0.0@ == name;
            assert(scripts[i].0.0@ == name);
        }
        if scripts.last().0.0@ == name {
            assert(scripts[scripts.len() - 1].0.0@ == name);
        }
        if exists|i: int| 0 <= i < scripts.len() && (#[trigger] scripts[i]).0.0@ == name {
            let i = choose|i: int| 0 <= i < scripts.len() && (#[trigger] scripts[i]).0.0@ == name;
            if i < rest.len() {
                assert(rest[i].0.0@ == name);
            }
        }
    }
}

impl RotoScripts {
    /// The scripts of some filters.
    pub fn new(scripts: Vec<(FilterName, String)>) -> (r: RotoScripts)
        ensures
            r.scripts == scripts,
    {
        RotoScripts { scripts }
    }

    /// The script in which a filter stands.
    pub fn get(&self, name: &FilterName) -> (r: Option<&String>)
        ensures
            r is Some <==> is_filter(self.scripts@, name.0@),
            r is Some ==> script_for(self.scripts@, name.0@) == Some(r->0@),
    {
        let mut n: usize = self.scripts.len();
        assert(self.scripts@.take(n as int) =~= self.scripts@);
        while n > 0
            invariant
                n <= self.scripts@.len(),
                script_for(self.scripts@, name.0@) == script_for(
                    self.scripts@.take(n as int),
                    name.0@,
                ),
            decreases n,
        {
            let ghost upto = self.scripts@.take(n as int);
            n -= 1;
            assert(upto.drop_last() =~= self.scripts@.take(n as int));
            if same(self.scripts[n].0.0.as_str(), name.0.as_str()) {
                return Some(&self.scripts[n].1);
            }
        }
        None
    }

    /// The names of all filters, each once.
    fn names(&self) -> (r: Vec<String>)
        ensures
            all_different(string_views(r@)),
            forall|name: Seq<char>|
                string_views(r@).contains(name) <==> is_filter(self.scripts@, name),
    {
        let mut names: Vec<String> = Vec::new();
        let mut i: usize = 0;
        while i < self.scripts.len()
            invariant
                i <= self.scripts@.len(),
                all_different(string_views(names@)),
                forall|name: Seq<char>|
                    string_views(names@).contains(name) <==> is_entry(self.scripts@, i as int, name),
            decreases self.scripts.len() - i,
        {
            let ghost before = names@;
            add_missing(&mut names, self.scripts[i].0.0.as_str());
            i += 1;
            proof {
                assert forall|name: Seq<char>|
                    string_views(names@).contains(name) <==> is_entry(
                        self.scripts@,
                        i as int,
                        name,
                    ) by {
                    assert(string_views(before).contains(name) <==> is_entry(
                        self.scripts@,
                        i - 1,
                        name,
                    ));
                    assert(self.scripts@[i - 1].0.0@ == self.scripts@[i - 1].0.0@);
                }
            }
        }
        proof {
            assert forall|name: Seq<char>|
                string_views(names@).contains(name) <==> is_filter(self.scripts@, name) by {
                filters_are_entries(self.scripts@, name);
                assert(is_entry(self.scripts@, i as int, name) <==> exists|k: int|
                    0 <= k < self.scripts@.len() && (#[trigger] self.scripts@[k]).0.0@ == name);
            }
        }
        names
    }

    /// The names of all filters, each once.
    pub fn get_filter_names(&self) -> (r: Vec<FilterName>)
        ensures
            all_different(name_views(r@)),
            forall|name: Seq<char>|
                name_views(r@).contains(name) <==> is_filter(self.scripts@, name),
    {
        let names = self.names();
        let ghost texts = string_views(names@);
        let mut out: Vec<FilterName> = Vec::new();
        for name in iter: names
            invariant
                texts == string_views(iter.seq()),
                name_views(out@) == texts.take(iter.index() as int),
        {
            let ghost before = out@;
            out.push(FilterName(name));
            assert(name_views(out@) =~= name_views(before).push(name@));
            assert(texts.take(iter.index() + 1) =~= texts.take(iter.index() as int).push(name@));
        }
        assert(texts.take(texts.len() as int) =~= texts);
        out
    }

    /// The scripts that filters stand in, each once.
    pub fn get_script_origins(&self) -> (r: Vec<String>)
        ensures
            all_different(string_views(r@)),
            forall|path: Seq<char>|
                string_views(r@).contains(path) <==> is_origin(self.scripts@, path),
    {
        let names = self.names();
        let mut paths: Vec<String> = Vec::new();
        let mut i: usize = 0;
        while i < names.len()
            invariant
                i <= names@.len(),
                all_different(string_views(paths@)),
                forall|name: Seq<char>|
                    string_views(names@).contains(name) <==> is_filter(self.scripts@, name),
                forall|path: Seq<char>| #[trigger]
                    string_views(paths@).contains(path) ==> is_origin(self.scripts@, path),
                forall|k: int|
                    0 <= k < i ==> string_views(paths@).contains(
                        script_for(self.scripts@, (#[trigger] names@[k])@)->0,
                    ),
            decreases names.len() - i,
        {
            let ghost before = paths@;
            proof {
                assert(string_views(names@)[i as int] == names@[i as int]@);
                assert(string_views(names@).contains(names@[i as int]@));
            }
            let name = FilterName(names[i].as_str().to_owned());
            if let Some(path) = self.get(&name) {
                add_missing(&mut paths, path.as_str());
                proof {
                    assert(script_for(self.scripts@, name.0@) == Some(path@));
                    assert forall|p: Seq<char>| #[trigger]
                        string_views(paths@).contains(p) implies is_origin(self.scripts@, p) by {
                        assert(string_views(before).contains(p) ==> is_origin(self.scripts@, p));
                    }
                    assert forall|k: int| 0 <= k < i implies string_views(paths@).contains(
                        script_for(self.scripts@, (#[trigger] names@[k])@)->0,
                    ) by {
                        assert(string_views(before).contains(
                            script_for(self.scripts@, names@[k]@)->0,
                        ));
                    }
                }
            }
            i += 1;
        }
        proof {
            assert forall|path: Seq<char>|
                string_views(paths@).contains(path) <==> is_origin(self.scripts@, path) by {
                if is_origin(self.scripts@, path) {
                    let name = choose|name: Seq<char>|
                        #[trigger] script_for(self.scripts@, name) == Some(path);
                    assert(is_filter(self.scripts@, name));
                    assert(string_views(names@).contains(name));
                    let k = choose|k: int|
                        0 <= k < string_views(names@).len() && string_views(names@)[k] == name;
                    assert(names@[k]@ == name);
                }
            }
        }
        paths
    }
}

/// Whether one of the first entries has some name.
spec fn is_entry(scripts: Seq<(FilterName, String)>, n: int, name: Seq<char>) -> bool {
    exists|k: int| 0 <= k < n && k < scripts.len() && (#[trigger] scripts[k]).0.0@ == name
}

/// Adds a text to a list unless it is there.
fn add_missing(list: &mut Vec<String>, text: &str)
    requires
        all_different(string_views(old(list)@)),
    ensures
        all_different(string_views(final(list)@)),
        forall|t: Seq<char>| #[trigger]
            string_views(final(list)@).contains(t) <==> string_views(old(list)@).contains(t) || t
                == text@,
{
    let ghost before = list@;
    let mut k: usize = 0;
    while k < list.len()
        invariant
            list@ == before,
            all_different(string_views(before)),
            k <= before.len(),
            forall|j: int| 0 <= j < k ==> (#[trigger] before[j])@ != text@,
        decreases list.len() - k,
    {
        if same(list[k].as_str(), text) {
            assert(string_views(before)[k as int] == text@);
            return ;
        }
        k += 1;
    }
    list.push(text.to_owned());
    proof {
        let views = string_views(list@);
        assert(views =~= string_views(before).push(text@));
        assert forall|a: int, b: int| 0 <= a < b < views.len() implies #[trigger] views[a]
            != #[trigger] views[b] by {
            if b < before.len() {
                assert(string_views(before)[a] != string_views(before)[b]);
            } else {
                assert(views[a] == before[a]@);
            }
        }
        assert forall|t: Seq<char>| #[trigger] views.contains(t) <==> string_views(before).contains(
            t,
        ) || t == text@ by {
            if string_views(before).contains(t) {
                let j = choose|j: int|
                    0 <= j < string_views(before).len() && string_views(before)[j] == t;
                assert(views[j] == t);
            }
            if t == text@ {
                assert(views[before.len() as int] == t);
            }
            if views.contains(t) {
                let j = choose|j: int| 0 <= j < views.len() && views[j] == t;
                if j < before.len() {
                    assert(string_views(before)[j] == t);
                }
            }
        }
    }
}

/// What an insertion into the RIB tells: whether the prefix was new, and
/// whether the peer was.
#[derive(Clone, Copy, Debug)]
pub struct InsertionInfo {
    pub prefix_new: bool,
    pub new_peer: bool,
}

/// A RIB that a BMP message is about, by its place.
#[derive(Clone, Copy, Debug, PartialEq, Eq, Structural)]
pub enum RibType {
    AdjRibIn,
    AdjRibOut,
    LocRib,
}

/// A RIB of a peer, by its place and by whether policy was applied to it.
#[derive(Clone, Copy, Debug, PartialEq, Eq, PartialOrd, Ord, Hash, Structural)]
pub enum PeerRibType {
    InPre,
    InPost,
    Loc,
    OutPre,
    OutPost,
}

impl Default for PeerRibType {
    fn default() -> (r: PeerRibType)
        ensures
            r == PeerRibType::OutPost,
    {
        PeerRibType::OutPost
    }
}

impl PeerRibType {
    /// The RIB at a place, before or after policy. Policy makes no difference
    /// to the Loc-RIB.
    pub fn from_rib(is_post_policy: bool, rib_type: RibType) -> (r: PeerRibType)
        ensures
            r == (match rib_type {
                RibType::AdjRibIn => if is_post_policy {
                    PeerRibType::InPost
                } else {
                    PeerRibType::InPre
                },
                RibType::AdjRibOut => if is_post_policy {
                    PeerRibType::OutPost
                } else {
                    PeerRibType::OutPre
                },
                RibType::LocRib => PeerRibType::Loc,
            }),
    {
        match (rib_type, is_post_policy) {
            (RibType::AdjRibIn, true) => PeerRibType::InPost,
            (RibType::AdjRibIn, false) => PeerRibType::InPre,
            (RibType::AdjRibOut, true) => PeerRibType::OutPost,
            (RibType::AdjRibOut, false) => PeerRibType::OutPre,
            (RibType::LocRib, _) => PeerRibType::Loc,
        }
    }

    /// The RIB in words.
    pub open spec fn words(self) -> Seq<char> {
        match self {
            PeerRibType::InPre => "adj-RIB-in-pre"@,
            PeerRibType::InPost => "adj-RIB-in-post"@,
            PeerRibType::Loc => "RIB-loc"@,
            PeerRibType::OutPre => "adj-RIB-out-pre"@,
            PeerRibType::OutPost => "adj-RIB-out-post"@,
        }
    }

    /// The RIB in words.
    pub fn as_str(self) -> (r: &'static str)
        ensures
            r@ == self.words(),
    {
        match self {
            PeerRibType::InPre => "adj-RIB-in-pre",
            PeerRibType::InPost => "adj-RIB-in-post",
            PeerRibType::Loc => "RIB-loc",
            PeerRibType::OutPre => "adj-RIB-out-pre",
            PeerRibType::OutPost => "adj-RIB-out-post",
        }
    }

    /// The name of the RIB.
    pub open spec fn short_name(self) -> Seq<char> {
        match self {
            PeerRibType::InPre => "InPre"@,
            PeerRibType::InPost => "InPost"@,
            PeerRibType::Loc => "Loc"@,
            PeerRibType::OutPre => "OutPre"@,
            PeerRibType::OutPost => "OutPost"@,
        }
    }

    /// The name of the RIB.
    pub fn name(self) -> (r: &'static str)
        ensures
            r@ == self.short_name(),
    {
        match self {
            PeerRibType::InPre => "InPre",
            PeerRibType::InPost => "InPost",
            PeerRibType::Loc => "Loc",
            PeerRibType::OutPre => "OutPre",
            PeerRibType::OutPost => "OutPost",
        }
    }
}

/// A peer, by its address and its AS number.
#[derive(Clone, Copy, Debug, PartialEq, Eq, Structural)]
pub struct PeerId {
    pub addr: IpAddr,
    pub asn: u32,
}

impl PeerId {
    pub fn new(addr: IpAddr, asn: u32) -> (r: PeerId)
        ensures
            r == (PeerId { addr, asn }),
    {
        PeerId { addr, asn }
    }
}

/// One more script counts for its filter ahead of those before it, and for no
/// other filter.
pub proof fn last_script_counts(
    scripts: Seq<(FilterName, String)>,
    more: (FilterName, String),
    name: Seq<char>,
)
    ensures
        more.0.0@ == name ==> script_for(scripts.push(more), name) == Some(more.1@),
        more.0.0@ != name ==> script_for(scripts.push(more), name) == script_for(scripts, name),
        script_for(Seq::empty(), name) is None,
{
    assert(scripts.push(more).drop_last() =~= scripts);
}

/// Each RIB of a peer has its own words and its own name.
pub proof fn ribs_have_their_words(rib: PeerRibType)
    ensures
        rib is InPre ==> rib.words() == "adj-RIB-in-pre"@ && rib.short_name() == "InPre"@,
        rib is InPost ==> rib.words() == "adj-RIB-in-post"@ && rib.short_name() == "InPost"@,
        rib is Loc ==> rib.words() == "RIB-loc"@ && rib.short_name() == "Loc"@,
        rib is OutPre ==> rib.words() == "adj-RIB-out-pre"@ && rib.short_name() == "OutPre"@,
        rib is OutPost ==> rib.words() == "adj-RIB-out-post"@ && rib.short_name() == "OutPost"@,
{
}

} // verus!
