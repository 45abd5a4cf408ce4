//! Small formatting helpers shared by both front ends.

use vstd::arithmetic::power2::pow2;
use vstd::prelude::*;

use crate::text::{chars_of, decimal_chars, push_decimal, push_span};

verus! {

/// 2^53: below it every `u64` is exactly a double.
pub open spec fn exact_double_limit() -> nat {
    0x20_0000_0000_0000
}

/// How many low bits a double drops from `b`.
pub open spec fn double_shift(b: nat) -> nat
    decreases b,
{
    if b < exact_double_limit() {
        0
    } else {
        1 + double_shift(b / 2)
    }
}

/// `b as f64`: the nearest double to `b`, ties to the even significand.
pub open spec fn as_double(b: nat) -> nat {
    let p = pow2(double_shift(b));
    let q = b / p;
    let r = b % p;
    let up = 2 * r > p || (2 * r == p && q % 2 == 1);
    (if up {
        q + 1
    } else {
        q
    }) * p
}

pub open spec fn pow1024(i: nat) -> nat
    decreases i,
{
    if i == 0 {
        1
    } else {
        1024 * pow1024((i - 1) as nat)
    }
}

/// How many times the value is divided by 1024: while it is at least 1024
/// and a larger unit is left.
pub open spec fn unit_index(f: nat, i: nat) -> nat
    decreases 5 - i,
{
    if i < 5 && f >= pow1024(i + 1) {
        unit_index(f, i + 1)
    } else {
        i
    }
}

/// `f / 1024^i` in tenths, rounded to nearest with ties to even, the way
/// `{:.1}` renders the exact value.
pub open spec fn tenths(f: nat, i: nat) -> nat {
    let den = pow1024(i);
    let q = (10 * f) / den;
    let r = (10 * f) % den;
    if 2 * r > den || (2 * r == den && q % 2 == 1) {
        q + 1
    } else {
        q
    }
}

pub open spec fn unit_char(i: nat) -> char {
    if i == 0 {
        'B'
    } else if i == 1 {
        'K'
    } else if i == 2 {
        'M'
    } else if i == 3 {
        'G'
    } else if i == 4 {
        'T'
    } else {
        'P'
    }
}

/// The rendering of a byte count: `"{b} B"` below 1024, else the value in
/// the largest binary unit up to P that keeps it at least 1, with one decimal.
pub open spec fn human_bytes_text(b: nat) -> Seq<char> {
    if b < 1024 {
        decimal_chars(b) + seq![' ', 'B']
    } else {
        let f = as_double(b);
        let i = unit_index(f, 0);
        let t = tenths(f, i);
        decimal_chars(t / 10) + seq!['.', ((48 + t % 10) as u8) as char, ' ', unit_char(i)]
    }
}

proof fn lemma_pow1024_positive(i: nat)
    ensures
        pow1024(i) >= 1,
    decreases i,
{
    if i > 0 {
        lemma_pow1024_positive((i - 1) as nat);
    }
}

proof fn lemma_unit_index_bounds(f: nat, i: nat)
    requires
        i <= 5,
    ensures
        i <= unit_index(f, i) <= 5,
    decreases 5 - i,
{
    if i < 5 && f >= pow1024(i + 1) {
        lemma_unit_index_bounds(f, i + 1);
    }
}

/// The nearest double of `b`, computed exactly.
fn double_of(b: u64) -> (f: u128)
    ensures
        f == as_double(b as nat),
        f <= 0x1_0000_0000_0000_0000,
        b >= 1024 ==> f >= 1024,
{
    let mut q: u128 = b as u128;
    let mut p: u128 = 1;
    let mut r: u128 = 0;
    let ghost mut s: nat = 0;
    proof {
        vstd::arithmetic::power2::lemma2_to64();
    }
    while q >= 0x20_0000_0000_0000
        invariant
            b as nat == q * p + r,
            r < p,
            p == pow2(s),
            p <= 0x800,
            q <= u64::MAX,
            p > 1 ==> b >= 0x20_0000_0000_0000,
            p == 1 ==> q == b && r == 0,
            double_shift(b as nat) == s + double_shift(q as nat),
        decreases q,
    {
        let bit = q % 2;
        proof {
            assert(q == 2 * (q / 2) + bit);
            assert(q * p == (q / 2) * (2 * p) + bit * p) by (nonlinear_arith)
                requires
                    q == 2 * (q / 2) + bit,
            ;
            assert(double_shift(q as nat) == 1 + double_shift((q / 2) as nat));
            vstd::arithmetic::power2::lemma_pow2_unfold(s + 1);
            assert(q / 2 < 0x80_0000_0000_0000_0000) by (nonlinear_arith)
                requires
                    q <= u64::MAX,
            ;
            assert(q * p <= b);
            assert(p < 0x800) by (nonlinear_arith)
                requires
                    q * p <= b,
                    q >= 0x20_0000_0000_0000,
                    b <= u64::MAX,
                    p >= 1,
            ;
            vstd::arithmetic::power2::lemma2_to64();
            if s >= 11 {
                if s > 11 {
                    vstd::arithmetic::power2::lemma_pow2_strictly_increases(11, s);
                }
            }
            if s + 1 < 11 {
                vstd::arithmetic::power2::lemma_pow2_strictly_increases(s + 1, 11);
            }
            assert(bit * p <= p) by (nonlinear_arith)
                requires
                    bit <= 1,
            ;
        }
        r = r + bit * p;
        q = q / 2;
        p = 2 * p;
        proof {
            s = s + 1;
        }
    }
    proof {
        assert(double_shift(q as nat) == 0);
        vstd::arithmetic::div_mod::lemma_fundamental_div_mod_converse(b as int, p as int, q as int, r as int);
    }
    let up = 2 * r > p || (2 * r == p && q % 2 == 1);
    let q2 = if up {
        q + 1
    } else {
        q
    };
    assert(q2 * p <= 0x20_0000_0000_0000 * 0x800) by (nonlinear_arith)
        requires
            q2 <= 0x20_0000_0000_0000,
            p <= 0x800,
    ;
    assert(q2 * p >= q * p) by (nonlinear_arith)
        requires
            q2 >= q,
            p >= 1,
    ;
    q2 * p
}

/// Format a byte count using binary (KiB-style) units, no trailing pad.
/// `1023 → "1023 B"`, `1024 → "1.0 K"`, `2_500_000 → "2.4 M"`.
pub fn human_bytes(b: u64) -> (r: String)
    ensures
        r@ == human_bytes_text(b as nat),
{
    let mut out = String::new();
    if b < 1024 {
        push_decimal(&mut out, b as u128);
        out.push(' ');
        out.push('B');
        return out;
    }
    let f = double_of(b);
    let mut i: u32 = 0;
    let mut den: u128 = 1;
    while i < 5 && f >= den * 1024
        invariant
            i <= 5,
            den == pow1024(i as nat),
            den <= 0x4_0000_0000_0000,
            f <= 0x1_0000_0000_0000_0000,
            unit_index(f as nat, 0) == unit_index(f as nat, i as nat),
        decreases 5 - i,
    {
        assert(pow1024((i + 1) as nat) == 1024 * pow1024(i as nat));
        den = den * 1024;
        i = i + 1;
        assert(den <= 0x4_0000_0000_0000) by {
            lemma_pow1024_bound(i as nat);
        }
    }
    proof {
        assert(pow1024((i + 1) as nat) == 1024 * pow1024(i as nat));
        lemma_pow1024_positive(i as nat);
    }
    let num = 10 * f;
    let q = num / den;
    let rem = num % den;
    let t = if 2 * rem > den || (2 * rem == den && q % 2 == 1) {
        q + 1
    } else {
        q
    };
    push_decimal(&mut out, t / 10);
    out.push('.');
    out.push(((48 + (t % 10) as u8) as u8) as char);
    out.push(' ');
    out.push(unit_letter(i));
    out
}

proof fn lemma_pow1024_bound(i: nat)
    requires
        i <= 5,
    ensures
        pow1024(i) <= 0x4_0000_0000_0000,
{
    reveal_with_fuel(pow1024, 6);
}

fn unit_letter(i: u32) -> (c: char)
    ensures
        c == unit_char(i as nat),
{
    if i == 0 {
        'B'
    } else if i == 1 {
        'K'
    } else if i == 2 {
        'M'
    } else if i == 3 {
        'G'
    } else if i == 4 {
        'T'
    } else {
        'P'
    }
}

/// Truncate to `max` Unicode chars; appends `…` if anything was cut.
/// `truncate("hello", 10) → "hello"`, `truncate("hello world", 5) → "hell…"`.
pub fn truncate(s: &str, max: usize) -> (r: String)
    ensures
        r@ == (if s@.len() <= max {
            s@
        } else {
            s@.take(if max == 0 {
                0
            } else {
                max - 1
            }).push('…')
        }),
{
    let cs = chars_of(s);
    let mut out = String::new();
    if cs.len() <= max {
        push_span(&mut out, &cs, 0, cs.len());
        assert(cs@.subrange(0, cs@.len() as int) =~= cs@);
        return out;
    }
    let keep = if max == 0 {
        0
    } else {
        max - 1
    };
    push_span(&mut out, &cs, 0, keep);
    out.push('…');
    out
}

/// Format an optional byte count, rendering `None` as `—`.
pub fn opt_bytes(v: Option<u64>) -> (r: String)
    ensures
        r@ == (match v {
            Some(b) => human_bytes_text(b as nat),
            None => seq!['—'],
        }),
{
    match v {
        Some(b) => human_bytes(b),
        None => {
            let mut out = String::new();
            out.push('—');
            out
        },
    }
}

/// Per-process disk rate cell. A true 0 B/s and an unreadable counter are
/// indistinguishable, so both render as `—` rather than a wall of zeros.
pub fn rate_str(v: u64) -> (r: String)
    ensures
        r@ == (if v > 0 {
            human_bytes_text(v as nat)
        } else {
            seq!['—']
        }),
{
    opt_bytes(
        if v > 0 {
            Some(v)
        } else {
            None
        },
    )
}

} // verus!
