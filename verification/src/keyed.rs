//! Collections of entries in the order of their keys.

use crate::addr::IpAddr;
use vstd::prelude::*;

verus! {

/// A value that entries can be ordered and found by.
pub trait Key: Sized + Copy {
    /// The place of a key among all keys.
    spec fn rank(self) -> int;

    /// No two keys have one place.
    proof fn rank_is_unique(a: Self, b: Self)
        requires
            a.rank() == b.rank(),
        ensures
            a == b,
    ;

    /// Whether a key stands before another.
    fn before(self, other: Self) -> (r: bool)
        ensures
            r == (self.rank() < other.rank()),
    ;
}

impl Key for u32 {
    open spec fn rank(self) -> int {
        self as int
    }

    proof fn rank_is_unique(a: u32, b: u32) {
    }

    fn before(self, other: u32) -> (r: bool) {
        self < other
    }
}

impl Key for u64 {
    open spec fn rank(self) -> int {
        self as int
    }

    proof fn rank_is_unique(a: u64, b: u64) {
    }

    fn before(self, other: u64) -> (r: bool) {
        self < other
    }
}

/// IPv4 addresses stand before IPv6 addresses.
impl Key for IpAddr {
    open spec fn rank(self) -> int {
        match self {
            IpAddr::V4(bits) => bits as int,
            IpAddr::V6(bits) => 0x1_0000_0000 + bits as int,
        }
    }

    proof fn rank_is_unique(a: IpAddr, b: IpAddr) {
    }

    fn before(self, other: IpAddr) -> (r: bool) {
        match (self, other) {
            (IpAddr::V4(a), IpAddr::V4(b)) => a < b,
            (IpAddr::V6(a), IpAddr::V6(b)) => a < b,
            (IpAddr::V4(_), IpAddr::V6(_)) => true,
            (IpAddr::V6(_), IpAddr::V4(_)) => false,
        }
    }
}

/// Whether entries are in the order of their keys, each key once.
pub open spec fn in_order<K: Key, V>(entries: Seq<(K, V)>) -> bool {
    forall|i: int, j: int|
        0 <= i < j < entries.len() ==> (#[trigger] entries[i]).0.rank() < (
        #[trigger] entries[j]).0.rank()
}

/// Whether one of some entries has a key.
pub open spec fn has_key<K: Key, V>(entries: Seq<(K, V)>, key: K) -> bool {
    exists|i: int| 0 <= i < entries.len() && (#[trigger] entries[i]).0 == key
}

/// The value that some entries have for a key.
pub open spec fn value_for<K: Key, V>(entries: Seq<(K, V)>, key: K) -> Option<V> {
    if has_key(entries, key) {
        Some(entries[choose|i: int| 0 <= i < entries.len() && (#[trigger] entries[i]).0 == key].1)
    } else {
        None
    }
}

/// The value for a key is that of the entry with the key.
pub proof fn value_is_at<K: Key, V>(entries: Seq<(K, V)>, i: int)
    requires
        in_order(entries),
        0 <= i < entries.len(),
    ensures
        value_for(entries, entries[i].0) == Some(entries[i].1),
{
    let key = entries[i].0;
    assert(has_key(entries, key));
    let j = choose|j: int| 0 <= j < entries.len() && (#[trigger] entries[j]).0 == key;
    if j != i {
        assert(entries[i].0.rank() == entries[j].0.rank());
        assert(false);
    }
}

/// Entries that are in order and have the same value for every key are the
/// same entries.
pub proof fn values_determine_entries<K: Key, V>(a: Seq<(K, V)>, b: Seq<(K, V)>)
    requires
        in_order(a),
        in_order(b),
        forall|key: K| value_for(a, key) == value_for(b, key),
    ensures
        a == b,
    decreases a.len(),
{
    if a.len() == 0 {
        if b.len() > 0 {
            value_is_at(b, 0);
            assert(value_for(a, b[0].0) is Some);
            assert(has_key(a, b[0].0));
            assert(false);
        }
        assert(a =~= b);
    } else {
        let last = a.len() - 1;
        value_is_at(a, last);
        assert(has_key(b, a[last].0));
        let j = choose|j: int| 0 <= j < b.len() && (#[trigger] b[j]).0 == a[last].0;
        let end = b.len() - 1;
        value_is_at(b, end);
        assert(has_key(a, b[end].0));
        let k = choose|k: int| 0 <= k < a.len() && (#[trigger] a[k]).0 == b[end].0;
        assert(j == end) by {
            if j < end {
                assert(b[j].0.rank() < b[end].0.rank());
                if k < last {
                    assert(a[k].0.rank() < a[last].0.rank());
                }
                assert(false);
            }
        }
        assert(a[last] == b[end]) by {
            value_is_at(b, j);
        }
        let p = a.drop_last();
        let q = b.drop_last();
        assert(in_order(p) && in_order(q));
        assert forall|key: K| value_for(p, key) == value_for(q, key) by {
            value_without_last(a, key);
            value_without_last(b, key);
        }
        values_determine_entries(p, q);
        assert(a =~= p.push(a[last]));
        assert(b =~= q.push(b[end]));
    }
}

/// Without the last entry, a key other than its key has the value it had.
proof fn value_without_last<K: Key, V>(entries: Seq<(K, V)>, key: K)
    requires
        in_order(entries),
        entries.len() > 0,
    ensures
        value_for(entries.drop_last(), key) == (if key == entries.last().0 {
            None
        } else {
            value_for(entries, key)
        }),
{
    let rest = entries.drop_last();
    assert(in_order(rest));
    if has_key(rest, key) {
        let i = choose|i: int| 0 <= i < rest.len() && (#[trigger] rest[i]).0 == key;
        assert(entries[i].0 == key);
        value_is_at(rest, i);
        value_is_at(entries, i);
        if key == entries.last().0 {
            assert(entries[i].0.rank() < entries[entries.len() - 1].0.rank());
            assert(false);
        }
    } else if has_key(entries, key) {
        let i = choose|i: int| 0 <= i < entries.len() && (#[trigger] entries[i]).0 == key;
        if i < rest.len() {
            assert(rest[i].0 == key);
            assert(false);
        }
    }
}

/// Entries in the order of their keys, each key once.
#[derive(Debug)]
pub struct Keyed<K, V> {
    pub entries: Vec<(K, V)>,
}

impl<K: Key, V> Keyed<K, V> {
    /// Whether the entries are in order.
    pub open spec fn wf(self) -> bool {
        in_order(self.entries@)
    }

    /// The value for a key.
    pub open spec fn value(self, key: K) -> Option<V> {
        value_for(self.entries@, key)
    }

    /// No entries.
    pub fn new() -> (r: Keyed<K, V>)
        ensures
            r.wf(),
            r.entries@.len() == 0,
            forall|key: K| r.value(key) is None,
    {
        Keyed { entries: Vec::new() }
    }

    /// The number of entries before a key, and whether the next has it.
    fn find(&self, key: K) -> (r: (usize, bool))
        requires
            self.wf(),
        ensures
            r.0 <= self.entries@.len(),
            forall|i: int| 0 <= i < r.0 ==> (#[trigger] self.entries@[i]).0.rank() < key.rank(),
            forall|i: int|
                r.0 <= i < self.entries@.len() && (r.1 ==> i > r.0) ==> (
                #[trigger] self.entries@[i]).0.rank() > key.rank(),
            r.1 ==> r.0 < self.entries@.len() && self.entries@[r.0 as int].0 == key && self.value(
                key,
            ) == Some(self.entries@[r.0 as int].1),
            !r.1 ==> self.value(key) is None,
    {
        let mut low: usize = 0;
        let mut high: usize = self.entries.len();
        while low < high
            invariant
                self.wf(),
                low <= high <= self.entries@.len(),
                forall|i: int|
                    0 <= i < low ==> (#[trigger] self.entries@[i]).0.rank() < key.rank(),
                forall|i: int|
                    high <= i < self.entries@.len() ==> (#[trigger] self.entries@[i]).0.rank()
                        >= key.rank(),
            decreases high - low,
        {
            let middle = low + (high - low) / 2;
            let at = self.entries[middle].0;
            if at.before(key) {
                low = middle + 1;
            } else {
                high = middle;
            }
        }
        if low < self.entries.len() && !key.before(self.entries[low].0) {
            proof {
                K::rank_is_unique(self.entries@[low as int].0, key);
                value_is_at(self.entries@, low as int);
            }
            (low, true)
        } else {
            (low, false)
        }
    }

    /// Whether there is an entry with a key.
    pub fn contains(&self, key: K) -> (r: bool)
        requires
            self.wf(),
        ensures
            r == self.value(key) is Some,
    {
        self.find(key).1
    }

    /// The value for a key.
    pub fn get(&self, key: K) -> (r: Option<&V>)
        requires
            self.wf(),
        ensures
            r is Some <==> self.value(key) is Some,
            r is Some ==> self.value(key) == Some(*r->0),
    {
        let (at, found) = self.find(key);
        if found {
            Some(&self.entries[at].1)
        } else {
            None
        }
    }

    /// The value for a key, to be changed in place.
    pub fn get_mut(&mut self, key: K) -> (r: Option<&mut V>)
        requires
            old(self).wf(),
        ensures
            r is Some <==> old(self).value(key) is Some,
            r is Some ==> old(self).value(key) == Some(*r->0),
            r is Some ==> final(self).value(key) == Some(*final(r->0)),
            r is None ==> *final(self) == *old(self),
            forall|k: K| k != key ==> #[trigger] final(self).value(k) == old(self).value(k),
            final(self).wf(),
    {
        let ghost before = self.entries@;
        let (at, found) = self.find(key);
        if found {
            let r = &mut self.entries[at].1;
            proof {
                entry_replaced(before, at as int, *final(r));
            }
            Some(r)
        } else {
            None
        }
    }

    /// The value for a key, to be changed in place; `value` is put there if
    /// there was none.
    pub fn get_or_insert(&mut self, key: K, value: V) -> (r: &mut V)
        requires
            old(self).wf(),
        ensures
            *r == (match old(self).value(key) {
                Some(v) => v,
                None => value,
            }),
            final(self).value(key) == Some(*final(r)),
            forall|k: K| k != key ==> #[trigger] final(self).value(k) == old(self).value(k),
            final(self).wf(),
    {
        let ghost before = self.entries@;
        let (at, found) = self.find(key);
        if !found {
            self.entries.insert(at, (key, value));
            proof {
                entry_inserted(before, at as int, key, value);
            }
        }
        let ghost between = self.entries@;
        let r = &mut self.entries[at].1;
        proof {
            assert(between[at as int].0 == key);
            value_is_at(between, at as int);
            entry_replaced(between, at as int, *final(r));
        }
        r
    }

    /// Puts a value for a key, in place of the one that was there.
    pub fn insert(&mut self, key: K, value: V)
        requires
            old(self).wf(),
        ensures
            final(self).value(key) == Some(value),
            forall|k: K| k != key ==> #[trigger] final(self).value(k) == old(self).value(k),
            final(self).wf(),
    {
        let ghost before = self.entries@;
        let (at, found) = self.find(key);
        if found {
            self.entries.set(at, (key, value));
            proof {
                entry_replaced(before, at as int, value);
            }
        } else {
            self.entries.insert(at, (key, value));
            proof {
                entry_inserted(before, at as int, key, value);
            }
        }
    }

    /// Takes out the value for a key.
    pub fn remove(&mut self, key: K) -> (r: Option<V>)
        requires
            old(self).wf(),
        ensures
            r == old(self).value(key),
            r is None ==> *final(self) == *old(self),
            final(self).value(key) is None,
            forall|k: K| k != key ==> #[trigger] final(self).value(k) == old(self).value(k),
            final(self).wf(),
    {
        let ghost before = self.entries@;
        let (at, found) = self.find(key);
        if found {
            let (_, value) = self.entries.remove(at);
            proof {
                entry_removed(before, at as int);
            }
            Some(value)
        } else {
            None
        }
    }
}

/// Another value for an entry changes nothing else.
proof fn entry_replaced<K: Key, V>(entries: Seq<(K, V)>, at: int, value: V)
    requires
        in_order(entries),
        0 <= at < entries.len(),
    ensures
        ({
            let after = entries.update(at, (entries[at].0, value));
            &&& in_order(after)
            &&& value_for(after, entries[at].0) == Some(value)
            &&& forall|k: K|
                k != entries[at].0 ==> #[trigger] value_for(after, k) == value_for(entries, k)
        }),
{
    let key = entries[at].0;
    let after = entries.update(at, (key, value));
    assert forall|i: int, j: int| 0 <= i < j < after.len() implies (#[trigger] after[i]).0.rank()
        < (#[trigger] after[j]).0.rank() by {
        assert(entries[i].0.rank() < entries[j].0.rank());
    }
    value_is_at(after, at);
    assert forall|k: K| k != key implies #[trigger] value_for(after, k) == value_for(
        entries,
        k,
    ) by {
        same_values(after, entries, k, |i: int| i, |i: int| i);
    }
}

/// An entry more, where its key belongs, changes nothing else.
proof fn entry_inserted<K: Key, V>(entries: Seq<(K, V)>, at: int, key: K, value: V)
    requires
        in_order(entries),
        0 <= at <= entries.len(),
        forall|i: int| 0 <= i < at ==> (#[trigger] entries[i]).0.rank() < key.rank(),
        forall|i: int| at <= i < entries.len() ==> (#[trigger] entries[i]).0.rank() > key.rank(),
    ensures
        ({
            let after = entries.insert(at, (key, value));
            &&& in_order(after)
            &&& value_for(after, key) == Some(value)
            &&& forall|k: K| k != key ==> #[trigger] value_for(after, k) == value_for(entries, k)
        }),
{
    let after = entries.insert(at, (key, value));
    assert forall|i: int, j: int| 0 <= i < j < after.len() implies (#[trigger] after[i]).0.rank()
        < (#[trigger] after[j]).0.rank() by {
        if i != at && j != at {
            let p = if i < at { i } else { i - 1 };
            let q = if j < at { j } else { j - 1 };
            assert(entries[p].0.rank() < entries[q].0.rank());
        } else if i == at {
            assert(after[j] == entries[j - 1]);
        } else {
            assert(after[i] == entries[i]);
        }
    }
    value_is_at(after, at);
    assert forall|k: K| k != key implies #[trigger] value_for(after, k) == value_for(
        entries,
        k,
    ) by {
        same_values(
            after,
            entries,
            k,
            |i: int| if i < at { i } else { i - 1 },
            |i: int| if i < at { i } else { i + 1 },
        );
    }
}

/// An entry less changes nothing else.
pub proof fn entry_removed<K: Key, V>(entries: Seq<(K, V)>, at: int)
    requires
        in_order(entries),
        0 <= at < entries.len(),
    ensures
        ({
            let after = entries.remove(at);
            &&& in_order(after)
            &&& value_for(after, entries[at].0) is None
            &&& forall|k: K|
                k != entries[at].0 ==> #[trigger] value_for(after, k) == value_for(entries, k)
        }),
{
    let key = entries[at].0;
    let after = entries.remove(at);
    assert forall|i: int, j: int| 0 <= i < j < after.len() implies (#[trigger] after[i]).0.rank()
        < (#[trigger] after[j]).0.rank() by {
        let p = if i < at { i } else { i + 1 };
        let q = if j < at { j } else { j + 1 };
        assert(entries[p].0.rank() < entries[q].0.rank());
    }
    assert(!has_key(after, key)) by {
        if has_key(after, key) {
            let i = choose|i: int| 0 <= i < after.len() && (#[trigger] after[i]).0 == key;
            let p = if i < at { i } else { i + 1 };
            assert(entries[p].0 == key);
            assert(entries[p].0.rank() == entries[at].0.rank());
        }
    }
    assert forall|k: K| k != key implies #[trigger] value_for(after, k) == value_for(
        entries,
        k,
    ) by {
        same_values(
            after,
            entries,
            k,
            |i: int| if i < at { i } else { i + 1 },
            |i: int| if i < at { i } else { i - 1 },
        );
    }
}

/// Where each entry of a key stands among other entries too, the key has one
/// value.
proof fn same_values<K: Key, V>(
    a: Seq<(K, V)>,
    b: Seq<(K, V)>,
    key: K,
    there: spec_fn(int) -> int,
    back: spec_fn(int) -> int,
)
    requires
        in_order(a),
        in_order(b),
        forall|i: int|
            0 <= i < a.len() && (#[trigger] a[i]).0 == key ==> 0 <= there(i) < b.len()
                && b[there(i)] == a[i],
        forall|i: int|
            0 <= i < b.len() && (#[trigger] b[i]).0 == key ==> 0 <= back(i) < a.len() && a[back(i)]
                == b[i],
    ensures
        value_for(a, key) == value_for(b, key),
{
    if has_key(a, key) {
        let i = choose|i: int| 0 <= i < a.len() && (#[trigger] a[i]).0 == key;
        value_is_at(a, i);
        value_is_at(b, there(i));
    } else if has_key(b, key) {
        let i = choose|i: int| 0 <= i < b.len() && (#[trigger] b[i]).0 == key;
        assert(a[back(i)].0 == key);
    }
}

/// Numbers rank by their size. Every IPv4 address ranks ahead of every IPv6
/// address, and within a family the lower number ahead.
pub proof fn keys_rank_by_size(a: IpAddr, b: IpAddr, m: u32, n: u32, x: u64, y: u64)
    ensures
        m < n <==> m.rank() < n.rank(),
        x < y <==> x.rank() < y.rank(),
        a is V4 && b is V6 ==> a.rank() < b.rank(),
        a is V4 && b is V4 ==> (a.rank() < b.rank() <==> a->V4_0 < b->V4_0),
        a is V6 && b is V6 ==> (a.rank() < b.rank() <==> a->V6_0 < b->V6_0),
{
}

} // verus!
