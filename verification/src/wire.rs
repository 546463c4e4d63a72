//! Integers as octets.

use vstd::prelude::*;

verus! {

/// The two octets of a number, the high one first.
pub open spec fn be16(n: int) -> Seq<u8> {
    seq![(n / 256 % 256) as u8, (n % 256) as u8]
}

/// The four octets of a number, the highest first.
pub open spec fn be32(n: int) -> Seq<u8> {
    be16(n / 65536) + be16(n % 65536)
}

/// The two octets of a number, the low one first.
pub open spec fn le16(n: int) -> Seq<u8> {
    seq![(n % 256) as u8, (n / 256 % 256) as u8]
}

/// The four octets of a number, the lowest first.
pub open spec fn le32(n: int) -> Seq<u8> {
    le16(n % 65536) + le16(n / 65536)
}

/// The eight octets of a number, the lowest first.
pub open spec fn le64(n: int) -> Seq<u8> {
    le32(n % 0x1_0000_0000) + le32(n / 0x1_0000_0000)
}

/// The number that two octets stand for, the high one first.
pub open spec fn of_be16(b: Seq<u8>) -> int {
    b[0] * 256 + b[1]
}

/// The number that four octets stand for, the highest first.
pub open spec fn of_be32(b: Seq<u8>) -> int {
    of_be16(b.take(2)) * 65536 + of_be16(b.skip(2))
}

/// The number that two octets stand for, the low one first.
pub open spec fn of_le16(b: Seq<u8>) -> int {
    b[1] * 256 + b[0]
}

/// The number that four octets stand for, the lowest first.
pub open spec fn of_le32(b: Seq<u8>) -> int {
    of_le16(b.skip(2)) * 65536 + of_le16(b.take(2))
}

/// What some octet strings hold.
pub open spec fn octet_views(list: Seq<Vec<u8>>) -> Seq<Seq<u8>> {
    list.map_values(|item: Vec<u8>| item@)
}

/// In network order the first octet counts the most, in the other order the
/// last.
pub proof fn octets_count_by_their_place(a: u8, b: u8, c: u8, d: u8)
    ensures
        of_be16(seq![a, b]) == a * 256 + b,
        of_be32(seq![a, b, c, d]) == a * 16777216 + b * 65536 + c * 256 + d,
        of_le16(seq![a, b]) == b * 256 + a,
        of_le32(seq![a, b, c, d]) == d * 16777216 + c * 65536 + b * 256 + a,
{
    let all = seq![a, b, c, d];
    assert(all.take(2) =~= seq![a, b]);
    assert(all.skip(2) =~= seq![c, d]);
}

/// Reading two octets undoes writing them.
pub proof fn be16_round_trip(n: int)
    requires
        0 <= n < 65536,
    ensures
        be16(n).len() == 2,
        of_be16(be16(n)) == n,
{
}

/// Reading four octets undoes writing them.
pub proof fn be32_round_trip(n: int)
    requires
        0 <= n < 0x1_0000_0000,
    ensures
        be32(n).len() == 4,
        of_be32(be32(n)) == n,
{
    assert(be32(n).take(2) =~= be16(n / 65536));
    assert(be32(n).skip(2) =~= be16(n % 65536));
}

/// Reading four octets undoes writing them.
pub proof fn le32_round_trip(n: int)
    requires
        0 <= n < 0x1_0000_0000,
    ensures
        le32(n).len() == 4,
        of_le32(le32(n)) == n,
{
    assert(le32(n).take(2) =~= le16(n % 65536));
    assert(le32(n).skip(2) =~= le16(n / 65536));
}

/// The number that two octets at `at` stand for, the high one first.
pub fn read_be16(b: &[u8], at: usize) -> (r: u16)
    requires
        at + 2 <= b@.len(),
    ensures
        r == of_be16(b@.subrange(at as int, at + 2)),
{
    b[at] as u16 * 256 + b[at + 1] as u16
}

/// The number that four octets at `at` stand for, the highest first.
pub fn read_be32(b: &[u8], at: usize) -> (r: u32)
    requires
        at + 4 <= b@.len(),
    ensures
        r == of_be32(b@.subrange(at as int, at + 4)),
{
    assert(b@.len() == b.len());
    let r: u32 = read_be16(b, at) as u32 * 65536 + read_be16(b, at + 2) as u32;
    assert(b@.subrange(at as int, at + 4).take(2) =~= b@.subrange(at as int, at + 2));
    assert(b@.subrange(at as int, at + 4).skip(2) =~= b@.subrange(at + 2, at + 4));
    r
}

/// The number that four octets at `at` stand for, the lowest first.
pub fn read_le32(b: &[u8], at: usize) -> (r: u32)
    requires
        at + 4 <= b@.len(),
    ensures
        r == of_le32(b@.subrange(at as int, at + 4)),
{
    assert(b@.len() == b.len());
    let low: u32 = b[at + 1] as u32 * 256 + b[at] as u32;
    let high: u32 = b[at + 3] as u32 * 256 + b[at + 2] as u32;
    high * 65536 + low
}

/// Appends octets.
pub fn put(out: &mut Vec<u8>, octets: &[u8])
    ensures
        final(out)@ == old(out)@ + octets@,
{
    out.extend_from_slice(octets);
    assert(out@ =~= old(out)@ + octets@);
}

/// Appends a number as two octets, the high one first.
pub fn put_be16(out: &mut Vec<u8>, n: u16)
    ensures
        final(out)@ == old(out)@ + be16(n as int),
{
    out.push((n / 256) as u8);
    out.push((n % 256) as u8);
    assert(out@ =~= old(out)@ + be16(n as int));
}

/// Appends a number as four octets, the highest first.
pub fn put_be32(out: &mut Vec<u8>, n: u32)
    ensures
        final(out)@ == old(out)@ + be32(n as int),
{
    put_be16(out, (n / 65536) as u16);
    put_be16(out, (n % 65536) as u16);
    assert(out@ =~= old(out)@ + be32(n as int));
}

/// Appends a number as two octets, the low one first.
pub fn put_le16(out: &mut Vec<u8>, n: u16)
    ensures
        final(out)@ == old(out)@ + le16(n as int),
{
    out.push((n % 256) as u8);
    out.push((n / 256) as u8);
    assert(out@ =~= old(out)@ + le16(n as int));
}

/// Appends a number as four octets, the lowest first.
pub fn put_le32(out: &mut Vec<u8>, n: u32)
    ensures
        final(out)@ == old(out)@ + le32(n as int),
{
    put_le16(out, (n % 65536) as u16);
    put_le16(out, (n / 65536) as u16);
    assert(out@ =~= old(out)@ + le32(n as int));
}

/// Appends a number as eight octets, the lowest first.
pub fn put_le64(out: &mut Vec<u8>, n: u64)
    ensures
        final(out)@ == old(out)@ + le64(n as int),
{
    put_le32(out, (n % 0x1_0000_0000) as u32);
    put_le32(out, (n / 0x1_0000_0000) as u32);
    assert(out@ =~= old(out)@ + le64(n as int));
}

/// A copy of the octets from `from` up to `to`.
pub fn copy_between(b: &[u8], from: usize, to: usize) -> (r: Vec<u8>)
    requires
        from <= to <= b@.len(),
    ensures
        r@ == b@.subrange(from as int, to as int),
{
    vstd::slice::slice_to_vec(vstd::slice::slice_subrange(b, from, to))
}

/// Whether two octet strings are the same.
pub fn same_octets(a: &[u8], b: &[u8]) -> (r: bool)
    ensures
        r == (a@ == b@),
{
    if a.len() != b.len() {
        return false;
    }
    let mut i: usize = 0;
    while i < a.len()
        invariant
            i <= a.len(),
            a.len() == b.len(),
            forall|k: int| 0 <= k < i ==> a@[k] == b@[k],
        decreases a.len() - i,
    {
        if a[i] != b[i] {
            return false;
        }
        i += 1;
    }
    assert(a@ =~= b@);
    true
}

/// The eight octets of a number, the highest first.
pub open spec fn be64(n: int) -> Seq<u8> {
    be32(n / 0x1_0000_0000) + be32(n % 0x1_0000_0000)
}

/// The sixteen octets of a number, the highest first.
pub open spec fn be128(n: int) -> Seq<u8> {
    be64(n / 0x1_0000_0000_0000_0000) + be64(n % 0x1_0000_0000_0000_0000)
}

/// Appends a number as eight octets, the highest first.
pub fn put_be64(out: &mut Vec<u8>, n: u64)
    ensures
        final(out)@ == old(out)@ + be64(n as int),
{
    put_be32(out, (n / 0x1_0000_0000) as u32);
    put_be32(out, (n % 0x1_0000_0000) as u32);
    assert(out@ =~= old(out)@ + be64(n as int));
}

/// Appends a number as sixteen octets, the highest first.
pub fn put_be128(out: &mut Vec<u8>, n: u128)
    ensures
        final(out)@ == old(out)@ + be128(n as int),
{
    put_be64(out, (n / 0x1_0000_0000_0000_0000) as u64);
    put_be64(out, (n % 0x1_0000_0000_0000_0000) as u64);
    assert(out@ =~= old(out)@ + be128(n as int));
}

/// Sixteen octets as an array.
pub fn array16(b: &[u8]) -> (r: [u8; 16])
    requires
        b@.len() == 16,
    ensures
        r@ == b@,
{
    let r: [u8; 16] = [
        b[0],
        b[1],
        b[2],
        b[3],
        b[4],
        b[5],
        b[6],
        b[7],
        b[8],
        b[9],
        b[10],
        b[11],
        b[12],
        b[13],
        b[14],
        b[15],
    ];
    assert(r@ =~= b@);
    r
}

} // verus!
