//! Numbers as an operator reads them.

use crate::text::{chars_of, decimal, decimal_text, string_of};
use vstd::prelude::*;
use vstd::string::StringExecFns;

verus! {

/// A number below a hundred in two digits; a larger one as it is.
pub open spec fn two_digits(n: nat) -> Seq<char> {
    if n < 10 {
        "0"@ + decimal_text(n)
    } else {
        decimal_text(n)
    }
}

fn put_two_digits(out: &mut String, n: u64)
    ensures
        final(out)@ == old(out)@ + two_digits(n as nat),
{
    if n < 10 {
        out.append("0");
    }
    out.append(decimal(n).as_str());
    assert(out@ =~= old(out)@ + two_digits(n as nat));
}

/// A duration in the unit that suits it: `01:23:45` below a day, `3d04h` below
/// a week, else `4w2d`.
pub open spec fn uptime_text(secs: nat) -> Seq<char> {
    if secs < 86_400 {
        two_digits(secs / 3600) + ":"@ + two_digits(secs % 3600 / 60) + ":"@ + two_digits(secs % 60)
    } else if secs < 604_800 {
        decimal_text(secs / 86_400) + "d"@ + two_digits(secs % 86_400 / 3600) + "h"@
    } else {
        decimal_text(secs / 604_800) + "w"@ + decimal_text(secs % 604_800 / 86_400) + "d"@
    }
}

/// A duration in the unit that suits it.
pub fn uptime(secs: u64) -> (r: String)
    ensures
        r@ == uptime_text(secs as nat),
{
    let mut out = String::new();
    if secs < 86_400 {
        put_two_digits(&mut out, secs / 3600);
        out.append(":");
        put_two_digits(&mut out, secs % 3600 / 60);
        out.append(":");
        put_two_digits(&mut out, secs % 60);
    } else if secs < 604_800 {
        out.append(decimal(secs / 86_400).as_str());
        out.append("d");
        put_two_digits(&mut out, secs % 86_400 / 3600);
        out.append("h");
    } else {
        out.append(decimal(secs / 604_800).as_str());
        out.append("w");
        out.append(decimal(secs % 604_800 / 86_400).as_str());
        out.append("d");
    }
    assert(out@ =~= uptime_text(secs as nat));
    out
}

/// Digits in groups of three.
pub open spec fn grouped(digits: Seq<char>) -> Seq<char>
    decreases digits.len(),
{
    if digits.len() <= 3 {
        digits
    } else {
        grouped(digits.take(digits.len() - 3)) + ","@ + digits.skip(digits.len() - 3)
    }
}

fn group(digits: &[char]) -> (r: String)
    ensures
        r@ == grouped(digits@),
    decreases digits@.len(),
{
    let len: usize = digits.len();
    if len <= 3 {
        string_of(digits)
    } else {
        let head = vstd::slice::slice_subrange(digits, 0, len - 3);
        let tail = vstd::slice::slice_subrange(digits, len - 3, len);
        assert(head@ =~= digits@.take(len - 3));
        assert(tail@ =~= digits@.skip(len - 3));
        let mut out = group(head);
        out.append(",");
        out.append(string_of(tail).as_str());
        out
    }
}

/// A number with its digits in groups of three.
pub fn count(n: u64) -> (r: String)
    ensures
        r@ == grouped(decimal_text(n as nat)),
{
    let digits = chars_of(decimal(n).as_str());
    group(&digits)
}

/// Four octets with dots between them; anything else is no identifier.
pub open spec fn router_id_text(octets: Seq<u8>) -> Seq<char> {
    if octets.len() == 4 {
        decimal_text(octets[0] as nat) + "."@ + decimal_text(octets[1] as nat) + "."@
            + decimal_text(octets[2] as nat) + "."@ + decimal_text(octets[3] as nat)
    } else {
        "-"@
    }
}

/// A BGP identifier as it is usually written.
pub fn router_id(octets: &[u8]) -> (r: String)
    ensures
        r@ == router_id_text(octets@),
{
    if octets.len() != 4 {
        return "-".to_owned();
    }
    let mut out = decimal(octets[0] as u64);
    out.append(".");
    out.append(decimal(octets[1] as u64).as_str());
    out.append(".");
    out.append(decimal(octets[2] as u64).as_str());
    out.append(".");
    out.append(decimal(octets[3] as u64).as_str());
    out
}

/// A quotient rounded to the nearest number, and to the even one of two that
/// are as near.
pub open spec fn rounded(n: nat, d: nat) -> nat {
    let q = n / d;
    let twice = 2 * (n % d);
    if twice > d || (twice == d && q % 2 == 1) {
        q + 1
    } else {
        q
    }
}

/// The unit in which a number of octets is told.
pub open spec fn byte_unit(n: nat) -> (nat, Seq<char>) {
    if n < 1_048_576 {
        (1024nat, " KiB"@)
    } else if n < 1_073_741_824 {
        (1_048_576nat, " MiB"@)
    } else if n < 1_099_511_627_776 {
        (1_073_741_824nat, " GiB"@)
    } else {
        (1_099_511_627_776nat, " TiB"@)
    }
}

/// The size of the steps between the numbers with 53 binary digits that are as
/// large as a number.
pub open spec fn precision(n: nat) -> nat {
    if n < 0x20_0000_0000_0000 {
        1
    } else if n < 0x40_0000_0000_0000 {
        2
    } else if n < 0x80_0000_0000_0000 {
        4
    } else if n < 0x100_0000_0000_0000 {
        8
    } else if n < 0x200_0000_0000_0000 {
        16
    } else if n < 0x400_0000_0000_0000 {
        32
    } else if n < 0x800_0000_0000_0000 {
        64
    } else if n < 0x1000_0000_0000_0000 {
        128
    } else if n < 0x2000_0000_0000_0000 {
        256
    } else if n < 0x4000_0000_0000_0000 {
        512
    } else if n < 0x8000_0000_0000_0000 {
        1024
    } else {
        2048
    }
}

/// A number of octets: as it is below a kibibyte, else in the largest unit
/// that it reaches, to one place behind the point. What is told is the number
/// to 53 binary digits.
pub open spec fn bytes_text(n: nat) -> Seq<char> {
    if n < 1024 {
        decimal_text(n) + " B"@
    } else {
        let near = rounded(n, precision(n)) * precision(n);
        let unit = byte_unit(near);
        let tenths = rounded(near * 10, unit.0);
        decimal_text(tenths / 10) + "."@ + decimal_text(tenths % 10) + unit.1
    }
}

fn step(n: u64) -> (r: u64)
    ensures
        r == precision(n as nat),
        1 <= r <= 2048,
{
    if n < 0x20_0000_0000_0000 {
        1
    } else if n < 0x40_0000_0000_0000 {
        2
    } else if n < 0x80_0000_0000_0000 {
        4
    } else if n < 0x100_0000_0000_0000 {
        8
    } else if n < 0x200_0000_0000_0000 {
        16
    } else if n < 0x400_0000_0000_0000 {
        32
    } else if n < 0x800_0000_0000_0000 {
        64
    } else if n < 0x1000_0000_0000_0000 {
        128
    } else if n < 0x2000_0000_0000_0000 {
        256
    } else if n < 0x4000_0000_0000_0000 {
        512
    } else if n < 0x8000_0000_0000_0000 {
        1024
    } else {
        2048
    }
}

fn round(n: u128, d: u128) -> (r: u128)
    requires
        0 < d <= 1_099_511_627_776,
        n < 0x100_0000_0000_0000_0000,
    ensures
        r == rounded(n as nat, d as nat),
        r <= n / d + 1,
{
    let q: u128 = n / d;
    let twice: u128 = 2 * (n % d);
    proof {
        assert(n % d < d) by (nonlinear_arith)
            requires
                d > 0,
        ;
        assert(q <= n) by (nonlinear_arith)
            requires
                q == n / d,
                d > 0,
        ;
    }
    if twice > d || (twice == d && q % 2 == 1) {
        q + 1
    } else {
        q
    }
}

/// A number of octets in the unit that suits it.
pub fn bytes(n: u64) -> (r: String)
    ensures
        r@ == bytes_text(n as nat),
{
    if n < 1024 {
        let mut out = decimal(n);
        out.append(" B");
        return out;
    }
    let by: u128 = step(n) as u128;
    let times: u128 = round(n as u128, by);
    proof {
        assert((n as u128 / by + 1) * by <= n + by) by (nonlinear_arith)
            requires
                by > 0,
        ;
        assert(times * by <= (n as u128 / by + 1) * by) by (nonlinear_arith)
            requires
                times <= n as u128 / by + 1,
        ;
    }
    let near: u128 = times * by;
    let (size, name): (u128, &'static str) = if near < 1_048_576 {
        (1024, " KiB")
    } else if near < 1_073_741_824 {
        (1_048_576, " MiB")
    } else if near < 1_099_511_627_776 {
        (1_073_741_824, " GiB")
    } else {
        (1_099_511_627_776, " TiB")
    };
    let tenths: u128 = round(near * 10, size);
    assert(tenths <= near * 10 / (size as int) + 1);
    assert(near * 10 / (size as int) <= 0x4000_0000_0000_0000) by (nonlinear_arith)
        requires
            near <= 0x1_0000_0000_0000_0800,
            size >= 1024,
    ;
    let mut out = decimal((tenths / 10) as u64);
    out.append(".");
    out.append(decimal((tenths % 10) as u64).as_str());
    out.append(name);
    out
}

/// A duration below a day is told in hours, minutes and seconds that add up to
/// it; one below a week in days and hours, and a longer one in weeks and days,
/// with less than an hour or a day left out.
pub proof fn durations_add_up(secs: nat) -> (parts: (nat, nat, nat))
    ensures
        secs < 24 * 3600 ==> {
            &&& uptime_text(secs) == two_digits(parts.0) + ":"@ + two_digits(parts.1) + ":"@
                + two_digits(parts.2)
            &&& parts.0 * 3600 + parts.1 * 60 + parts.2 == secs
            &&& parts.1 < 60 && parts.2 < 60
        },
        24 * 3600 <= secs < 7 * 24 * 3600 ==> {
            &&& uptime_text(secs) == decimal_text(parts.0) + "d"@ + two_digits(parts.1) + "h"@
            &&& parts.0 * 86_400 + parts.1 * 3600 <= secs
            &&& secs < parts.0 * 86_400 + parts.1 * 3600 + 3600
            &&& parts.1 < 24
        },
        secs >= 7 * 24 * 3600 ==> {
            &&& uptime_text(secs) == decimal_text(parts.0) + "w"@ + decimal_text(parts.1) + "d"@
            &&& parts.0 * 604_800 + parts.1 * 86_400 <= secs
            &&& secs < parts.0 * 604_800 + parts.1 * 86_400 + 86_400
            &&& parts.1 < 7
        },
{
    if secs < 86_400 {
        (secs / 3600, secs % 3600 / 60, secs % 60)
    } else if secs < 604_800 {
        (secs / 86_400, secs % 86_400 / 3600, 0)
    } else {
        (secs / 604_800, secs % 604_800 / 86_400, 0)
    }
}

/// Numbers below a hundred take two digits.
pub proof fn two_digits_are_two(n: nat)
    requires
        n < 100,
    ensures
        two_digits(n).len() == 2,
        two_digits(n)[0] as int - 48 == n / 10,
        two_digits(n)[1] as int - 48 == n % 10,
{
    reveal_strlit("0");
    assert("0"@.len() == 1 && "0"@[0] == '0');
    reveal_with_fuel(decimal_text, 3);
    assert(n >= 10 ==> n / 10 < 10);
    assert(n >= 10 ==> decimal_text(n) =~= decimal_text(n / 10).push(
        crate::text::digit_char(n as int % 10),
    ));
}

/// Groups of digits have a comma in front of every three from the right, and
/// without the commas they are the digits.
pub proof fn groups_hold_the_digits(digits: Seq<char>)
    requires
        forall|i: int| 0 <= i < digits.len() ==> #[trigger] digits[i] != ',',
    ensures
        grouped(digits).filter(|c: char| c != ',') == digits,
        forall|i: int|
            0 <= i < grouped(digits).len() ==> (#[trigger] grouped(digits)[i] == ',' <==> (
            grouped(digits).len() - i) % 4 == 0),
        digits.len() > 0 ==> grouped(digits)[0] != ',' && grouped(digits).len() == digits.len() + (
        digits.len() - 1) / 3,
    decreases digits.len(),
{
    let keep = |c: char| c != ',';
    reveal(Seq::filter);
    reveal_strlit(",");
    let all = grouped(digits);
    if digits.len() <= 3 {
        all_kept(digits);
    } else {
        let n = digits.len() - 3;
        let head = digits.take(n);
        let tail = digits.skip(n);
        groups_hold_the_digits(head);
        assert(","@ =~= seq![',']);
        all_kept(tail);
        Seq::filter_distributes_over_add(grouped(head) + ","@, tail, keep);
        Seq::filter_distributes_over_add(grouped(head), ","@, keep);
        assert(","@.drop_last() =~= seq![]);
        assert(","@.drop_last().filter(keep) =~= seq![]);
        assert(","@.len() == 1 && ","@.last() == ',' && !keep(','));
        assert(","@.filter(keep) =~= seq![]);
        assert(all =~= grouped(head) + ","@ + tail);
        assert(all.filter(keep) =~= digits);
        assert forall|i: int| 0 <= i < all.len() implies (#[trigger] all[i] == ',' <==> (all.len()
            - i) % 4 == 0) by {
            if i < grouped(head).len() {
                assert(all[i] == grouped(head)[i]);
                assert(all.len() - i == grouped(head).len() - i + 4);
            } else if i > grouped(head).len() {
                assert(all[i] == tail[i - grouped(head).len() - 1]);
                assert(all[i] == digits[n + i - grouped(head).len() - 1]);
            }
        }
        assert(all[0] == grouped(head)[0]);
    }
}

proof fn all_kept(digits: Seq<char>)
    requires
        forall|i: int| 0 <= i < digits.len() ==> #[trigger] digits[i] != ',',
    ensures
        digits.filter(|c: char| c != ',') == digits,
    decreases digits.len(),
{
    reveal(Seq::filter);
    if digits.len() > 0 {
        let fore = digits.drop_last();
        assert forall|i: int| 0 <= i < fore.len() implies #[trigger] fore[i] != ',' by {
            assert(fore[i] == digits[i]);
        }
        all_kept(fore);
        assert(digits =~= fore.push(digits.last()));
    } else {
        assert(digits.filter(|c: char| c != ',') =~= digits);
    }
}

/// Rounding gives the nearest number, and of two as near the even one.
pub proof fn rounding_gives_the_nearest(n: nat, d: nat)
    requires
        d > 0,
    ensures
        2 * n <= 2 * (rounded(n, d) * d) + d,
        2 * (rounded(n, d) * d) <= 2 * n + d,
        2 * n == 2 * (rounded(n, d) * d) + d || 2 * (rounded(n, d) * d) == 2 * n + d ==> rounded(
            n,
            d,
        ) % 2 == 0,
{
    let q = n / d;
    let m = n % d;
    assert(n == q * d + m && m < d) by (nonlinear_arith)
        requires
            d > 0,
            q == n / d,
            m == n % d,
    ;
    assert((q + 1) * d == q * d + d) by (nonlinear_arith);
}

/// The unit of a number of octets is the largest power of 1024 that is not
/// above it.
pub proof fn units_suit_the_number(n: nat)
    requires
        n >= 1024,
    ensures
        byte_unit(n).0 <= n,
        n < 1024 * byte_unit(n).0 || byte_unit(n).1 == " TiB"@,
        byte_unit(n).1 == " KiB"@ && byte_unit(n).0 == 1024 || byte_unit(n).1 == " MiB"@
            && byte_unit(n).0 == 1024 * 1024 || byte_unit(n).1 == " GiB"@ && byte_unit(n).0 == 1024
            * 1024 * 1024 || byte_unit(n).1 == " TiB"@ && byte_unit(n).0 == 1024 * 1024 * 1024
            * 1024,
{
}

/// An identifier is its four octets, each in decimal, with dots between them;
/// anything of another length is none.
pub proof fn identifiers_have_four_octets(a: u8, b: u8, c: u8, d: u8, other: Seq<u8>)
    ensures
        router_id_text(seq![a, b, c, d]) == decimal_text(a as nat) + "."@ + decimal_text(b as nat)
            + "."@ + decimal_text(c as nat) + "."@ + decimal_text(d as nat),
        other.len() != 4 ==> router_id_text(other) == "-"@,
{
}

/// A number of octets below 1024 is told as it is, and a larger one in tenths of
/// its unit, rounded to the nearest.
pub proof fn sizes_are_told_in_tenths(n: nat) -> (tenths: nat)
    requires
        n < 0x20_0000_0000_0000,
    ensures
        n < 1024 ==> bytes_text(n) == decimal_text(n) + " B"@,
        n >= 1024 ==> {
            &&& bytes_text(n) == decimal_text(tenths / 10) + "."@ + decimal_text(tenths % 10)
                + byte_unit(n).1
            &&& 2 * (tenths * byte_unit(n).0) <= 20 * n + byte_unit(n).0
            &&& 20 * n <= 2 * (tenths * byte_unit(n).0) + byte_unit(n).0
        },
{
    assert(precision(n) == 1);
    assert(n / 1 == n && n % 1 == 0);
    assert(rounded(n, 1) == n);
    assert(rounded(n, precision(n)) * precision(n) == n);
    let tenths = rounded(n * 10, byte_unit(n).0);
    rounding_gives_the_nearest(n * 10, byte_unit(n).0);
    tenths
}

} // verus!
