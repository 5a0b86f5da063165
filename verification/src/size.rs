//! Byte counts as short human-readable text with one decimal.
//!
//! The decimal is that of the byte count converted to a 64-bit float and
//! divided by a power of 1024, printed to one place: the float keeps 53
//! significant bits (ties to even), the division by a power of two is
//! exact, and the printed tenth is rounded ties to even on the exact
//! binary value. All of that is computed here on integers.

use vstd::prelude::*;

use crate::text::{push_decimal, push_str, string_of};

verus! {

/// `2^n`.
pub open spec fn two_pow(n: nat) -> nat
    decreases n,
{
    if n == 0 {
        1
    } else {
        2 * two_pow((n - 1) as nat)
    }
}

/// How many low bits of `b` a 64-bit float (53 significant bits) drops.
pub open spec fn dropped_bits(b: nat) -> nat
    decreases b,
{
    if b < 0x20_0000_0000_0000 {
        0
    } else {
        1 + dropped_bits(b / 2)
    }
}

/// `q` rounded up by one when the remainder `r` of a division by `d` is
/// more than half of `d`, or exactly half and `q` odd (ties to even).
pub open spec fn round_even(q: nat, r: nat, d: nat) -> nat {
    if 2 * r > d || (2 * r == d && q % 2 == 1) {
        q + 1
    } else {
        q
    }
}

/// The value of `b` converted to a 64-bit float: `b` rounded to 53
/// significant bits, ties to even.
pub open spec fn float_value(b: nat) -> nat {
    let p = two_pow(dropped_bits(b));
    round_even(b / p, b % p, p) * p
}

/// Tenths in `float(b) / d`, rounded ties to even.
pub open spec fn scaled_tenths(b: nat, d: nat) -> nat {
    let t = 10 * float_value(b);
    round_even(t / d, t % d, d)
}

/// A count of tenths as `whole.tenth`.
pub open spec fn tenths_text(t: nat) -> Seq<char> {
    crate::text::decimal(t / 10) + "."@ + crate::text::decimal(t % 10)
}

/// `b` bytes as `{:.1} MB` of mebibytes.
pub open spec fn mb_text(b: nat) -> Seq<char> {
    tenths_text(scaled_tenths(b, 1048576)) + " MB"@
}

/// `b` bytes in the largest unit among B, KB, MB and GB (powers of 1024)
/// that keeps the whole part at least 1; bytes are printed whole, the
/// other units with one decimal.
pub open spec fn human_bytes_text(b: nat) -> Seq<char> {
    if b < 1024 {
        crate::text::decimal(b) + "B"@
    } else if b < 1048576 {
        tenths_text(scaled_tenths(b, 1024)) + "KB"@
    } else if b < 1073741824 {
        tenths_text(scaled_tenths(b, 1048576)) + "MB"@
    } else {
        tenths_text(scaled_tenths(b, 1073741824)) + "GB"@
    }
}

proof fn lemma_two_pow_pos(n: nat)
    ensures
        two_pow(n) >= 1,
    decreases n,
{
    if n > 0 {
        lemma_two_pow_pos((n - 1) as nat);
    }
}

/// Dropping bits one at a time.
proof fn lemma_dropped_step(b: nat, k: nat)
    requires
        forall|j: nat| j < k ==> #[trigger] (b / two_pow(j)) >= 0x20_0000_0000_0000,
    ensures
        dropped_bits(b) == k + dropped_bits(b / two_pow(k)),
    decreases k,
{
    if k > 0 {
        lemma_two_pow_pos((k - 1) as nat);
        lemma_dropped_step(b, (k - 1) as nat);
        let c = b / two_pow((k - 1) as nat);
        assert(c >= 0x20_0000_0000_0000);
        vstd::arithmetic::div_mod::lemma_div_denominator(b as int, two_pow((k - 1) as nat) as int, 2);
        assert(c / 2 == b / two_pow(k));
    } else {
        assert(two_pow(0) == 1);
        assert(b / two_pow(0) == b);
    }
}

/// `b` converted to a 64-bit float, as an exact integer.
fn float_of(b: u64) -> (v: u128)
    ensures
        v == float_value(b as nat),
        v <= 4 * (b as nat) + 2,
{
    let big: u128 = 9007199254740992;
    proof {
        assert(two_pow(53) == 9007199254740992) by {
            reveal_with_fuel(two_pow, 54);
        }
    }
    let mut q: u128 = b as u128;
    let mut p: u128 = 1;
    let ghost mut k: nat = 0;
    proof {
        assert(two_pow(0) == 1);
    }
    while q >= big
        invariant
            p == two_pow(k),
            p >= 1,
            q == (b as nat) / two_pow(k),
            p * q <= b,
            k > 0 ==> q >= 0x10_0000_0000_0000,
            big == 0x20_0000_0000_0000,
            forall|j: nat| j < k ==> #[trigger] ((b as nat) / two_pow(j)) >= 0x20_0000_0000_0000,
        decreases q,
    {
        proof {
            vstd::arithmetic::div_mod::lemma_div_denominator(b as int, two_pow(k) as int, 2);
            assert((b as nat) / two_pow(k) >= 0x20_0000_0000_0000);
            assert(p * 2 == two_pow(k + 1));
            assert(p <= b) by (nonlinear_arith)
                requires
                    p * q <= b,
                    q >= 1,
                    p >= 1,
            ;
            assert(p * 2 * (q / 2) <= p * q) by (nonlinear_arith)
                requires
                    q >= 0,
                    p >= 0,
            ;
        }
        q = q / 2;
        p = p * 2;
        proof {
            k = k + 1;
        }
    }
    proof {
        lemma_dropped_step(b as nat, k);
        assert(dropped_bits(q as nat) == 0);
        lemma_two_pow_pos(k);
    }
    let r: u128 = (b as u128) - p * q;
    proof {
        vstd::arithmetic::div_mod::lemma_fundamental_div_mod(b as int, p as int);
        assert(r == (b as nat) % two_pow(k));
    }
    let rounded: u128 = if 2 * r > p || (2 * r == p && q % 2 == 1) {
        q + 1
    } else {
        q
    };
    proof {
        assert(rounded * p <= 2 * (b as nat) + 2 * p) by (nonlinear_arith)
            requires
                rounded <= q + 1,
                p * q <= b,
                p >= 1,
        ;
        if k > 0 {
            assert(p <= b) by (nonlinear_arith)
                requires
                    p * q <= b,
                    q >= 1,
                    p >= 1,
            ;
        } else {
            assert(p == 1);
        }
        assert(rounded * p <= 4 * (b as nat) + 2);
    }
    rounded * p
}

/// Tenths in `float(b) / d`, rounded ties to even.
fn tenths(b: u64, d: u128) -> (t: u64)
    requires
        1024 <= d <= 1073741824,
    ensures
        t == scaled_tenths(b as nat, d as nat),
{
    let v = float_of(b);
    let t: u128 = 10 * v;
    let q: u128 = t / d;
    let r: u128 = t % d;
    let rounded: u128 = if 2 * r > d || (2 * r == d && q % 2 == 1) {
        q + 1
    } else {
        q
    };
    proof {
        assert(rounded <= 0xffff_ffff_ffff_ffff) by (nonlinear_arith)
            requires
                rounded <= q + 1,
                q == t / d,
                d >= 1024,
                t == 10 * v,
                v <= 4 * (b as nat) + 2,
                b <= 0xffff_ffff_ffff_ffff,
        ;
    }
    rounded as u64
}

/// A count of tenths as `whole.tenth`, appended to `out`.
fn push_tenths(out: &mut Vec<char>, t: u64)
    ensures
        final(out)@ == old(out)@ + tenths_text(t as nat),
{
    push_decimal(out, t / 10);
    push_str(out, ".");
    push_decimal(out, t % 10);
}

/// `b` bytes as `{:.1} MB`.
pub fn mb(b: u64) -> (s: String)
    ensures
        s@ == mb_text(b as nat),
{
    let mut out: Vec<char> = Vec::new();
    push_tenths(&mut out, tenths(b, 1048576));
    push_str(&mut out, " MB");
    string_of(&out)
}

/// `bytes` as a short size: whole bytes below 1024, otherwise KB, MB or
/// GB with one decimal.
pub fn human_bytes(bytes: u64) -> (s: String)
    ensures
        s@ == human_bytes_text(bytes as nat),
{
    let mut out: Vec<char> = Vec::new();
    if bytes < 1024 {
        push_decimal(&mut out, bytes);
        push_str(&mut out, "B");
    } else if bytes < 1048576 {
        push_tenths(&mut out, tenths(bytes, 1024));
        push_str(&mut out, "KB");
    } else if bytes < 1073741824 {
        push_tenths(&mut out, tenths(bytes, 1048576));
        push_str(&mut out, "MB");
    } else {
        push_tenths(&mut out, tenths(bytes, 1073741824));
        push_str(&mut out, "GB");
    }
    string_of(&out)
}

} // verus!
