//! The engine's evaluation as the evaluation bar labels it.

use vstd::prelude::*;
use crate::text::{decimal, push_decimal, string_of};
use crate::uci::Score;

verus! {

/// `num / den` rounded to the nearest integer, ties to the even one.
pub open spec fn half_even(num: nat, den: nat) -> nat {
    let q = num / den;
    let r = num % den;
    if 2 * r > den {
        q + 1
    } else if 2 * r < den {
        q
    } else if q % 2 == 1 {
        q + 1
    } else {
        q
    }
}

/// The spacing of single-precision floats around `a`, for `a` from 2^24 to
/// 2^32.
pub open spec fn f32_spacing(a: nat) -> nat {
    if a < 0x200_0000 { 2 }
    else if a < 0x400_0000 { 4 }
    else if a < 0x800_0000 { 8 }
    else if a < 0x1000_0000 { 16 }
    else if a < 0x2000_0000 { 32 }
    else if a < 0x4000_0000 { 64 }
    else if a < 0x8000_0000 { 128 }
    else { 256 }
}

/// The single-precision float nearest to the integer `a` (below 2^32),
/// ties to even, as `a as f32` gives it.
pub open spec fn f32_of(a: nat) -> nat {
    if a < 0x100_0000 { a } else { half_even(a, f32_spacing(a)) * f32_spacing(a) }
}

/// `prod` doubled, with `scale` beside it, until it reaches 100 * 2^23.
pub open spec fn lifted(prod: nat, scale: nat) -> (nat, nat)
    decreases (if prod >= 838_860_800 { 0 } else { 838_860_800 - prod }),
{
    if prod == 0 || prod >= 838_860_800 { (prod, scale) } else { lifted(2 * prod, 2 * scale) }
}

/// Tenths in `big / 100` as single-precision division gives it and `{:.1}`
/// prints it: the quotient rounded to 24 significant bits, then to tenths,
/// ties to even both times.
pub open spec fn f32_tenths(big: nat) -> nat {
    if big == 0 {
        0
    } else if big >= 1_677_721_600 {
        20 * half_even(big, 200)
    } else {
        let (prod, scale) = lifted(big, 1);
        half_even(10 * half_even(prod, 100), scale)
    }
}

/// A score seen from White's side as text: pawns with a sign and one
/// decimal, as `{:+.1}` prints the centipawns over 100 in single precision
/// (`+0.4`, `-1.2`), or the moves to mate (`M3`, `-M2`).
pub open spec fn label_text(score: Score) -> Seq<char> {
    match score {
        Score::Cp(cp) => {
            let a: nat = if cp < 0 { (-cp) as nat } else { cp as nat };
            let tenths = f32_tenths(f32_of(a));
            seq![if cp < 0 { '-' } else { '+' }] + decimal(tenths / 10) + seq!['.'] + decimal(tenths % 10)
        },
        Score::Mate(m) => if m < 0 { "-M"@ + decimal((-m) as nat) } else { seq!['M'] + decimal(m as nat) },
    }
}

fn half_even_of(num: u64, den: u64) -> (r: u64)
    requires
        den > 0,
        num < u64::MAX,
    ensures
        r == half_even(num as nat, den as nat),
{
    let q = num / den;
    let r = num % den;
    if r > den - r {
        q + 1
    } else if r < den - r {
        q
    } else if q % 2 == 1 {
        q + 1
    } else {
        q
    }
}

/// The single-precision float nearest to `a`, which is below 2^32.
fn f32_nearest(a: u64) -> (r: u64)
    requires
        a < 0x1_0000_0000,
    ensures
        r == f32_of(a as nat),
        r < 0x1_0000_0100,
{
    if a < 0x100_0000 {
        return a;
    }
    let step: u64 = if a < 0x200_0000 { 2 }
        else if a < 0x400_0000 { 4 }
        else if a < 0x800_0000 { 8 }
        else if a < 0x1000_0000 { 16 }
        else if a < 0x2000_0000 { 32 }
        else if a < 0x4000_0000 { 64 }
        else if a < 0x8000_0000 { 128 }
        else { 256 };
    let m = half_even_of(a, step);
    proof {
        assert(m <= a / step + 1);
        assert(m * step <= a + step) by (nonlinear_arith)
            requires
                m <= a / step + 1,
                step > 0,
        {
            assert((a / step) * step <= a);
            assert(m * step <= (a / step + 1) * step);
        }
    }
    m * step
}

/// Tenths in `big / 100` as single precision gives it.
fn tenths_of(big: u64) -> (t: u64)
    requires
        big < 0x1_0000_0100,
    ensures
        t == f32_tenths(big as nat),
{
    if big == 0 {
        return 0;
    }
    if big >= 1_677_721_600 {
        return 20 * half_even_of(big, 200);
    }
    let mut prod: u64 = big;
    let mut scale: u64 = 1;
    while prod < 838_860_800
        invariant
            1 <= prod < 1_677_721_600,
            1 <= scale <= prod,
            lifted(prod as nat, scale as nat) == lifted(big as nat, 1),
        decreases (if prod >= 838_860_800 { 0 } else { 838_860_800 - prod }),
    {
        proof {
            assert(lifted(prod as nat, scale as nat) == lifted(2 * prod as nat, 2 * scale as nat));
        }
        prod = prod * 2;
        scale = scale * 2;
    }
    let m = half_even_of(prod, 100);
    half_even_of(10 * m, scale)
}

/// Text for a score seen from White's side.
pub fn label(score: Score) -> (s: String)
    requires
        !(score matches Score::Mate(m) && m == i32::MIN),
    ensures
        s@ == label_text(score),
{
    let mut out: Vec<char> = Vec::new();
    match score {
        Score::Cp(cp) => {
            let a: u64 = if cp < 0 { (0 - (cp as i64)) as u64 } else { cp as u64 };
            let tenths: u64 = tenths_of(f32_nearest(a));
            out.push(if cp < 0 { '-' } else { '+' });
            push_decimal(&mut out, tenths / 10);
            out.push('.');
            push_decimal(&mut out, tenths % 10);
        },
        Score::Mate(m) => {
            if m < 0 {
                out.push('-');
                out.push('M');
                push_decimal(&mut out, (0 - (m as i64)) as u64);
                proof {
                    reveal_strlit("-M");
                    assert(out@ =~= "-M"@ + decimal((-m) as nat));
                }
            } else {
                out.push('M');
                push_decimal(&mut out, m as u64);
            }
        },
    }
    string_of(out.as_slice())
}

} // verus!
