//! Labels of the file panel: sizes, relative times, rename selections.
use vstd::prelude::*;

use crate::text::{
    byte_len, char_width, chars_of, dec, dec_int, push_dec, push_dec_i64, string_of, width_of,
};

verus! {

pub open spec fn relative_unit(n: int, unit: char) -> Seq<char> {
    dec_int(n).push(unit)
}

fn relative_label(n: i64, unit: char) -> (res: String)
    ensures
        res@ == relative_unit(n as int, unit),
{
    let mut v: Vec<char> = Vec::new();
    push_dec_i64(&mut v, n);
    v.push(unit);
    assert(v@ =~= relative_unit(n as int, unit));
    string_of(&v)
}

/// `"{m}m"`.
pub fn relative_minutes(m: i64) -> (res: String)
    ensures
        res@ == relative_unit(m as int, 'm'),
{
    relative_label(m, 'm')
}

/// `"{h}h"`.
pub fn relative_hours(h: i64) -> (res: String)
    ensures
        res@ == relative_unit(h as int, 'h'),
{
    relative_label(h, 'h')
}

/// `"{d}d"`.
pub fn relative_days(d: i64) -> (res: String)
    ensures
        res@ == relative_unit(d as int, 'd'),
{
    relative_label(d, 'd')
}

// ---------------------------------------------------------------------------
// Sizes
// ---------------------------------------------------------------------------

pub open spec fn pow2(k: nat) -> nat
    decreases k,
{
    if k == 0 {
        1
    } else {
        2 * pow2((k - 1) as nat)
    }
}

/// Number of binary digits of `n`.
pub open spec fn bit_len(n: nat) -> nat
    decreases n,
{
    if n == 0 {
        0
    } else {
        1 + bit_len(n / 2)
    }
}

/// `n`, rounded to the nearest multiple of `unit`, halves to the even multiple.
pub open spec fn round_to_multiple(n: nat, unit: nat) -> nat
    recommends
        unit > 0,
{
    let q = n / unit;
    let r = n % unit;
    if 2 * r > unit || (2 * r == unit && q % 2 == 1) {
        (q + 1) * unit
    } else {
        q * unit
    }
}

/// The value `bytes as f64` holds: `bytes` rounded to 53 significant bits,
/// to nearest, ties to even.
pub open spec fn as_f64(bytes: nat) -> nat {
    if bit_len(bytes) <= 53 {
        bytes
    } else {
        round_to_multiple(bytes, pow2((bit_len(bytes) - 53) as nat))
    }
}

/// `num / den` rounded to a whole number, halves to even: what `{:.0}` prints.
pub open spec fn round_div(num: nat, den: nat) -> nat
    recommends
        den > 0,
{
    round_to_multiple(num, den) / den
}

/// `{:.1}` of `num / den`: tenths rounded, halves to even.
pub open spec fn one_decimal(num: nat, den: nat) -> Seq<char> {
    let t = round_div(num * 10, den);
    dec(t / 10).push('.').push(crate::text::digit_char(t % 10))
}

pub open spec fn human_size_spec(bytes: nat) -> Seq<char> {
    if bytes < pow2(10) {
        dec(bytes).push('B')
    } else if bytes < pow2(20) {
        dec(round_div(bytes, pow2(10))).push('K')
    } else if bytes < pow2(30) {
        one_decimal(bytes, pow2(20)).push('M')
    } else if bytes < pow2(40) {
        one_decimal(bytes, pow2(30)).push('G')
    } else {
        one_decimal(as_f64(bytes), pow2(40)).push('T')
    }
}

proof fn lemma_pow2_values()
    ensures
        pow2(10) == 1024,
        pow2(20) == 1048576,
        pow2(30) == 1073741824,
        pow2(40) == 1099511627776,
        pow2(53) == 9007199254740992,
        pow2(64) == 18446744073709551616,
{
    reveal_with_fuel(pow2, 65);
}

proof fn lemma_pow2_pos(k: nat)
    ensures
        pow2(k) > 0,
    decreases k,
{
    if k > 0 {
        lemma_pow2_pos((k - 1) as nat);
    }
}

proof fn lemma_bit_len_bound(n: nat, k: nat)
    requires
        n < pow2(k),
    ensures
        bit_len(n) <= k,
    decreases k,
{
    if n > 0 {
        assert(k > 0);
        lemma_bit_len_bound(n / 2, (k - 1) as nat);
    }
}

proof fn lemma_bit_len_lower(n: nat)
    requires
        n > 0,
    ensures
        pow2((bit_len(n) - 1) as nat) <= n < pow2(bit_len(n)),
    decreases n,
{
    if n / 2 > 0 {
        lemma_bit_len_lower(n / 2);
    } else {
        assert(n == 1);
        assert(bit_len(0) == 0);
    }
}

proof fn lemma_round_div_bound(n: nat, d: nat)
    requires
        d > 0,
    ensures
        round_div(n, d) <= n / d + 1,
{
    let q = n / d;
    let qi = q as int;
    let di = d as int;
    assert(((qi + 1) * di) / di == qi + 1) by (nonlinear_arith)
        requires
            di > 0,
    ;
    assert((qi * di) / di == qi) by (nonlinear_arith)
        requires
            di > 0,
    ;
}

fn round_div_u128(num: u128, den: u128) -> (res: u128)
    requires
        den > 0,
        num < 0x1_0000_0000_0000_0000_0000,
    ensures
        res == round_div(num as nat, den as nat),
{
    let q = num / den;
    let r = num % den;
    proof {
        assert(num == q * den + r) by (nonlinear_arith)
            requires
                q == num / den,
                r == num % den,
                den > 0,
        ;
        assert(q <= num) by (nonlinear_arith)
            requires
                q == num / den,
                den > 0,
        ;
        assert(r < den);
    }
    let up = 2 * r > den || (2 * r == den && q % 2 == 1);
    proof {
        let d = den as int;
        let qi = q as int;
        if up {
            assert(((qi + 1) * d) / d == qi + 1) by (nonlinear_arith)
                requires
                    d > 0,
            ;
        } else {
            assert((qi * d) / d == qi) by (nonlinear_arith)
                requires
                    d > 0,
            ;
        }
    }
    if up {
        q + 1
    } else {
        q
    }
}

/// `bytes as f64`, as the whole number it holds.
fn as_f64_exact(bytes: u64) -> (res: u128)
    ensures
        res == as_f64(bytes as nat),
        res <= 0x1_0000_0000_0000_0000,
{
    proof {
        lemma_pow2_values();
    }
    let mut len: u32 = 0;
    let mut m: u64 = bytes;
    proof {
        lemma_bit_len_bound(bytes as nat, 64);
    }
    while m > 0
        invariant
            bit_len(bytes as nat) <= 64,
            bit_len(bytes as nat) == len + bit_len(m as nat),
        decreases m,
    {
        m = m / 2;
        len = len + 1;
    }
    proof {
        lemma_bit_len_bound(bytes as nat, 64);
    }
    if len <= 53 {
        return bytes as u128;
    }
    let shift: u32 = len - 53;
    let mut unit: u128 = 1;
    let mut k: u32 = 0;
    while k < shift
        invariant
            k <= shift <= 11,
            unit == pow2(k as nat),
            1 <= unit <= 2048,
        decreases shift - k,
    {
        proof {
            reveal_with_fuel(pow2, 12);
            assert(pow2((k + 1) as nat) == 2 * pow2(k as nat));
            lemma_pow2_mono(k as nat + 1, 11);
        }
        unit = unit * 2;
        k = k + 1;
    }
    let n: u128 = bytes as u128;
    let q = n / unit;
    let r = n % unit;
    proof {
        lemma_pow2_pos(shift as nat);
        assert(q <= n) by (nonlinear_arith)
            requires
                q == n / unit,
                unit > 0,
        ;
        assert(q * unit <= n) by (nonlinear_arith)
            requires
                q == n / unit,
                unit > 0,
        ;
    }
    if 2 * r > unit || (2 * r == unit && q % 2 == 1) {
        proof {
            lemma_pow2_add(shift as nat, (64 - shift) as nat);
            let big = pow2((64 - shift) as nat);
            let qi = q as int;
            let ui = unit as int;
            assert(qi * ui <= n);
            assert(n < ui * big);
            assert(qi < big) by (nonlinear_arith)
                requires
                    qi * ui <= n,
                    n < ui * big,
                    ui > 0,
            ;
            assert((qi + 1) * ui <= big * ui) by (nonlinear_arith)
                requires
                    qi < big,
                    ui > 0,
            ;
        }
        (q + 1) * unit
    } else {
        q * unit
    }
}

proof fn lemma_pow2_add(a: nat, b: nat)
    ensures
        pow2(a + b) == pow2(a) * pow2(b),
    decreases a,
{
    if a > 0 {
        lemma_pow2_add((a - 1) as nat, b);
        assert(pow2(a + b) == 2 * pow2((a - 1 + b) as nat));
        assert(2 * (pow2((a - 1) as nat) * pow2(b)) == (2 * pow2((a - 1) as nat)) * pow2(b))
            by (nonlinear_arith);
        assert(pow2(a) == 2 * pow2((a - 1) as nat));
    } else {
        assert(pow2(a) == 1);
        assert(a + b == b);
    }
}

proof fn lemma_pow2_mono(a: nat, b: nat)
    requires
        a <= b,
    ensures
        pow2(a) <= pow2(b),
    decreases b,
{
    if a < b {
        lemma_pow2_mono(a, (b - 1) as nat);
        lemma_pow2_pos((b - 1) as nat);
    }
}

fn push_one_decimal(out: &mut Vec<char>, num: u128, den: u128)
    requires
        den > 0,
        num <= 0x1_0000_0000_0000_0000,
        num / den <= 0x1_0000_0000,
    ensures
        final(out)@ == old(out)@ + one_decimal(num as nat, den as nat),
{
    proof {
        assert(num * 10 <= 0x1_0000_0000_0000_0000 * 10);
    }
    let t = round_div_u128(num * 10, den);
    proof {
        let ni = num as int;
        let di = den as int;
        lemma_round_div_bound((num * 10) as nat, den as nat);
        assert((ni * 10) / di <= 10 * (ni / di) + 10) by (nonlinear_arith)
            requires
                di > 0,
                ni >= 0,
        ;
    }
    push_dec(out, (t / 10) as u64);
    out.push('.');
    let d: u8 = (t % 10) as u8;
    out.push((48u8 + d) as char);
    assert(out@ =~= old(out)@ + one_decimal(num as nat, den as nat));
}

/// A byte count in `B`, `K`, `M`, `G` or `T`, as the file panel shows it.
pub fn human_size(bytes: u64) -> (res: String)
    ensures
        res@ == human_size_spec(bytes as nat),
{
    proof {
        lemma_pow2_values();
    }
    let mut v: Vec<char> = Vec::new();
    if bytes < 1024 {
        push_dec(&mut v, bytes);
        v.push('B');
    } else if bytes < 1048576 {
        let k = round_div_u128(bytes as u128, 1024);
        proof {
            lemma_round_div_bound(bytes as nat, 1024);
        }
        push_dec(&mut v, k as u64);
        v.push('K');
    } else if bytes < 1073741824 {
        push_one_decimal(&mut v, bytes as u128, 1048576);
        v.push('M');
    } else if bytes < 1099511627776 {
        push_one_decimal(&mut v, bytes as u128, 1073741824);
        v.push('G');
    } else {
        let f = as_f64_exact(bytes);
        push_one_decimal(&mut v, f, 1099511627776);
        v.push('T');
    }
    assert(v@ =~= human_size_spec(bytes as nat));
    string_of(&v)
}

// ---------------------------------------------------------------------------
// Relative times
// ---------------------------------------------------------------------------

/// `i64::saturating_sub`.
pub open spec fn sat_sub(a: int, b: int) -> int {
    let d = a - b;
    if d > i64::MAX {
        i64::MAX as int
    } else if d < i64::MIN {
        i64::MIN as int
    } else {
        d
    }
}

/// How long ago `mtime` was, seen at `now` (both in seconds).
pub open spec fn relative_time_spec(mtime: int, now: int) -> Seq<char> {
    let diff = sat_sub(now, mtime);
    if mtime <= 0 {
        Seq::empty()
    } else if diff < 60 {
        seq!['n', 'o', 'w']
    } else if diff < 3600 {
        relative_unit(diff / 60, 'm')
    } else if diff < 86400 {
        relative_unit(diff / 3600, 'h')
    } else {
        relative_unit(diff / 86400, 'd')
    }
}

pub fn relative_time(mtime: i64, now: i64) -> (res: String)
    ensures
        res@ == relative_time_spec(mtime as int, now as int),
{
    if mtime <= 0 {
        return String::new();
    }
    let wide: i128 = now as i128 - mtime as i128;
    let diff: i64 = if wide > i64::MAX as i128 {
        i64::MAX
    } else if wide < i64::MIN as i128 {
        i64::MIN
    } else {
        wide as i64
    };
    if diff < 60 {
        let mut v: Vec<char> = Vec::new();
        v.push('n');
        v.push('o');
        v.push('w');
        assert(v@ =~= seq!['n', 'o', 'w']);
        return string_of(&v);
    }
    if diff < 3600 {
        return relative_minutes(diff / 60);
    }
    if diff < 86400 {
        return relative_hours(diff / 3600);
    }
    relative_days(diff / 86400)
}

// ---------------------------------------------------------------------------
// Rename selection
// ---------------------------------------------------------------------------

/// Byte range of a file name that a rename selects: up to the last `.`
/// (when that `.` is not the first character), else the whole name.
pub open spec fn basename_selection(name: Seq<char>) -> (nat, nat) {
    match crate::paths::last_dot(name) {
        Some(i) => if i > 0 {
            (byte_len(name.subrange(0, i)), byte_len(name))
        } else {
            (byte_len(name), byte_len(name))
        },
        None => (byte_len(name), byte_len(name)),
    }
}

pub fn split_basename_ext(name: &str) -> (res: (usize, usize))
    requires
        4 * name@.len() <= usize::MAX,
    ensures
        res.0 == basename_selection(name@).0,
        res.1 == basename_selection(name@).1,
{
    let v = chars_of(name);
    let offs = crate::text::byte_offsets(&v);
    let total = offs[v.len()];
    assert(v@.subrange(0, v@.len() as int) =~= v@);
    match crate::paths::rfind_dot(&v) {
        Some(i) => {
            proof {
                crate::paths::lemma_last_dot(v@);
            }
            if i > 0 {
                (offs[i], total)
            } else {
                (total, total)
            }
        },
        None => (total, total),
    }
}

} // verus!
