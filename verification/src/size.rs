//! Byte counts as a magnitude with two decimals and a unit.

use vstd::prelude::*;
use crate::text::{decimal, digit, digit_char, push_char, push_decimal};

verus! {

/// The units of a rendered size, each 1024 times the one before.
#[derive(Clone, Copy, Debug, PartialEq, Eq, Structural)]
pub enum Unit {
    B,
    KB,
    MB,
    GB,
    TB,
    PB,
}

impl Unit {
    /// How many bytes one of this unit holds.
    pub open spec fn scale(self) -> nat {
        match self {
            Unit::B => 1,
            Unit::KB => 1024,
            Unit::MB => 1_048_576,
            Unit::GB => 1_073_741_824,
            Unit::TB => 1_099_511_627_776,
            Unit::PB => 1_125_899_906_842_624,
        }
    }

    /// The unit's name as it is printed.
    pub open spec fn label_text(self) -> Seq<char> {
        match self {
            Unit::B => "B"@,
            Unit::KB => "KB"@,
            Unit::MB => "MB"@,
            Unit::GB => "GB"@,
            Unit::TB => "TB"@,
            Unit::PB => "PB"@,
        }
    }

    /// The unit's name as it is printed.
    pub fn label(&self) -> (s: &'static str)
        ensures
            s@ == self.label_text(),
    {
        match self {
            Unit::B => "B",
            Unit::KB => "KB",
            Unit::MB => "MB",
            Unit::GB => "GB",
            Unit::TB => "TB",
            Unit::PB => "PB",
        }
    }

    /// How many bytes one of this unit holds.
    pub fn bytes(&self) -> (n: u64)
        ensures
            n == self.scale(),
    {
        match self {
            Unit::B => 1,
            Unit::KB => 1024,
            Unit::MB => 1_048_576,
            Unit::GB => 1_073_741_824,
            Unit::TB => 1_099_511_627_776,
            Unit::PB => 1_125_899_906_842_624,
        }
    }
}

/// The unit in which `size` is shown: the first whose magnitude is below
/// 1024, and `PB` where none is.
pub open spec fn unit_of(size: nat) -> Unit {
    if size < 1024 * Unit::B.scale() {
        Unit::B
    } else if size < 1024 * Unit::KB.scale() {
        Unit::KB
    } else if size < 1024 * Unit::MB.scale() {
        Unit::MB
    } else if size < 1024 * Unit::GB.scale() {
        Unit::GB
    } else if size < 1024 * Unit::TB.scale() {
        Unit::TB
    } else {
        Unit::PB
    }
}

/// `num / den` rounded to the nearest whole number, a tie going to the even
/// one.
pub open spec fn round_half_even(num: nat, den: nat) -> nat
    recommends
        den > 0,
{
    let q = num / den;
    let r = num % den;
    if 2 * r > den || (2 * r == den && q % 2 == 1) {
        q + 1
    } else {
        q
    }
}

/// The distance between neighbouring numbers that 53 significant bits can
/// tell apart around `n`: 1 below 2^53, doubling with every further bit.
pub open spec fn grain(n: nat) -> nat
    decreases n,
{
    if n < 9_007_199_254_740_992 {
        1
    } else {
        2 * grain(n / 2)
    }
}

/// `n` kept to 53 significant bits: the nearest multiple of `grain(n)`, a tie
/// going to the even multiple. Below 2^53 this is `n` itself.
pub open spec fn in_53_bits(n: nat) -> nat {
    grain(n) * round_half_even(n, grain(n))
}

/// The magnitude of `size` in its unit, rounded to hundredths: the byte
/// count, kept to 53 significant bits, over the unit's scale, with a tie
/// going to the even hundredth.
pub open spec fn rounded_hundredths(size: nat) -> nat {
    round_half_even(in_53_bits(size) * 100, unit_of(size).scale())
}

/// The magnitude of `size` in its unit as it is shown, in hundredths. It is
/// the rounded magnitude, but for one case: below `PB` a magnitude is less
/// than 1024, so where rounding would reach 1024.00 the last hundredth
/// below it, 1023.99, is shown.
pub open spec fn hundredths(size: nat) -> nat {
    if unit_of(size) != Unit::PB && rounded_hundredths(size) >= 102_400 {
        102_399
    } else {
        rounded_hundredths(size)
    }
}

/// A number of hundredths written with exactly two decimals.
pub open spec fn two_decimals(h: nat) -> Seq<char> {
    decimal(h / 100) + seq!['.', digit((h / 10) % 10), digit(h % 10)]
}

/// What `human_size` returns for `size`: the text of the magnitude and the
/// unit.
pub open spec fn human_size_spec(size: nat) -> (Seq<char>, Unit) {
    (two_decimals(hundredths(size)), unit_of(size))
}

/// The unit of `size`, found by dividing by 1024 while the magnitude is at
/// least 1024 and a larger unit is left.
pub fn pick_unit(size: u64) -> (u: Unit)
    ensures
        u == unit_of(size as nat),
{
    let mut unit = Unit::B;
    let mut magnitude: u64 = size;
    while magnitude >= 1024 && unit != Unit::PB
        invariant
            magnitude == size as nat / unit.scale(),
            unit != Unit::B ==> size >= unit.scale(),
            unit_of(size as nat).scale() >= unit.scale(),
        decreases magnitude,
    {
        proof {
            let scale = unit.scale() as int;
            vstd::arithmetic::div_mod::lemma_div_denominator(size as int, scale, 1024);
            vstd::arithmetic::div_mod::lemma_fundamental_div_mod(size as int, scale);
            assert(scale * (size as int / scale) >= scale * 1024) by (nonlinear_arith)
                requires
                    scale > 0,
                    size as int / scale >= 1024,
            ;
        }
        magnitude = magnitude / 1024;
        unit = match unit {
            Unit::B => Unit::KB,
            Unit::KB => Unit::MB,
            Unit::MB => Unit::GB,
            Unit::GB => Unit::TB,
            _ => Unit::PB,
        };
    }
    unit
}

/// Below 2^53 every number keeps all its bits.
pub proof fn lemma_small_numbers_are_exact(n: nat)
    requires
        n < 9_007_199_254_740_992,
    ensures
        in_53_bits(n) == n,
{
    assert(grain(n) == 1);
    assert(n / 1 == n && n % 1 == 0);
}

/// `n` kept to 53 significant bits.
pub fn keep_53_bits(n: u64) -> (m: u128)
    ensures
        m == in_53_bits(n as nat),
        m <= 2 * (n as nat) + 2,
{
    let mut step: u64 = 1;
    let mut rest: u64 = n;
    while rest >= 9_007_199_254_740_992
        invariant
            step >= 1,
            rest == n as nat / step as nat,
            step * rest <= n,
            step == 1 || rest >= 4_503_599_627_370_496,
            grain(n as nat) == step * grain(rest as nat),
        decreases rest,
    {
        proof {
            assert(step < 2048) by (nonlinear_arith)
                requires
                    step * rest <= n,
                    rest >= 9_007_199_254_740_992,
                    n < 0x1_0000_0000_0000_0000,
            ;
            vstd::arithmetic::div_mod::lemma_div_denominator(n as int, step as int, 2);
            assert((step * 2) * (rest / 2) <= step * rest) by (nonlinear_arith)
                requires
                    step >= 1,
                    rest >= 0,
            ;
            assert(step * grain(rest as nat) == (step * 2) * grain((rest / 2) as nat))
                by (nonlinear_arith)
                requires
                    grain(rest as nat) == 2 * grain((rest / 2) as nat),
            ;
        }
        rest = rest / 2;
        step = step * 2;
    }
    proof {
        assert(grain(rest as nat) == 1);
        assert(step * 1 == step) by (nonlinear_arith);
        assert(step == 1 || step <= n) by (nonlinear_arith)
            requires
                step * rest <= n,
                step >= 1,
                step == 1 || rest >= 1,
        ;
    }
    let q: u64 = n / step;
    let r: u64 = n % step;
    let half_up: bool = r > step - r || (r == step - r && q % 2 == 1);
    let rounded: u128 = if half_up {
        q as u128 + 1
    } else {
        q as u128
    };
    proof {
        vstd::arithmetic::div_mod::lemma_fundamental_div_mod(n as int, step as int);
        assert(rounded * step <= 2 * n + 2) by (nonlinear_arith)
            requires
                rounded <= q + 1,
                n == step * q + r,
                0 <= r,
                step >= 1,
                q >= 0,
                step == 1 || step <= n,
        ;
        assert(rounded * step == step * rounded) by (nonlinear_arith);
        assert(grain(n as nat) == step);
        assert(rounded == round_half_even(n as nat, step as nat));
    }
    rounded * (step as u128)
}

/// The magnitude of `size` in hundredths of its unit, as it is shown, and
/// the unit. Below `PB` the magnitude stays under 1024.00.
pub fn scale_size(size: u64) -> (r: (u64, Unit))
    ensures
        r.0 == hundredths(size as nat),
        r.1 == unit_of(size as nat),
        r.1 != Unit::PB ==> r.0 < 102_400,
{
    let unit = pick_unit(size);
    let scale: u128 = unit.bytes() as u128;
    let kept: u128 = keep_53_bits(size);
    proof {
        if size < 9_007_199_254_740_992 {
            lemma_small_numbers_are_exact(size as nat);
        }
    }
    let num: u128 = kept * 100;
    let q: u128 = num / scale;
    let r: u128 = num % scale;
    let half_up: bool = r > scale - r || (r == scale - r && q % 2 == 1);
    let rounded: u128 = if half_up {
        q + 1
    } else {
        q
    };
    assert(rounded == rounded_hundredths(size as nat));
    let h: u128 = if unit != Unit::PB && rounded >= 102_400 {
        102_399
    } else {
        rounded
    };
    assert(h == hundredths(size as nat));
    assert(h < 0x1_0000_0000_0000_0000) by {
        if unit == Unit::PB {
            assert(scale == 1_125_899_906_842_624);
            assert(num < 0x100_0000_0000_0000_0000);
            assert(q == num / 1_125_899_906_842_624);
            assert(q < 0x1_0000_0000);
        } else {
            assert(kept == size);
            assert(q <= num) by (nonlinear_arith)
                requires
                    q == num / scale,
                    scale >= 1,
                    num >= 0,
            ;
        }
    }
    (h as u64, unit)
}

/// A number of hundredths written with exactly two decimals.
pub fn format_hundredths(h: u64) -> (text: String)
    ensures
        text@ == two_decimals(h as nat),
{
    let mut text = String::new();
    push_decimal(&mut text, h / 100);
    push_char(&mut text, '.');
    push_char(&mut text, digit_char((h / 10) % 10));
    push_char(&mut text, digit_char(h % 10));
    assert(text@ =~= two_decimals(h as nat));
    text
}

/// Renders a byte count as a magnitude with exactly two decimals and its
/// unit: bytes below 1024, then each larger unit while the magnitude would
/// reach 1024, and `PB` for everything beyond `TB`. In every unit but `PB`
/// the magnitude shown is below 1024.00.
pub fn human_size(size: u64) -> (r: (String, Unit))
    ensures
        r.0@ == human_size_spec(size as nat).0,
        r.1 == human_size_spec(size as nat).1,
        r.1 != Unit::PB ==> hundredths(size as nat) < 102_400,
{
    let (h, unit) = scale_size(size);
    (format_hundredths(h), unit)
}

/// Whether `size` lies so close below the next unit that rounding to two
/// decimals would reach 1024.00: within half a hundredth of its own unit.
pub open spec fn rounds_to_1024(size: nat) -> bool {
    let scale = unit_of(size).scale();
    200 * (1024 * scale - size) <= scale
}

/// In every unit but `PB` the magnitude itself is below 1024, and rounding
/// it to two decimals reaches 1024.00, and never more, exactly where the
/// size lies within half a hundredth of the next unit.
pub proof fn lemma_rounding_reaches_1024(size: u64)
    requires
        unit_of(size as nat) != Unit::PB,
    ensures
        size < 1024 * unit_of(size as nat).scale(),
        rounded_hundredths(size as nat) <= 102_400,
        rounded_hundredths(size as nat) == 102_400 <==> rounds_to_1024(size as nat),
{
    lemma_small_numbers_are_exact(size as nat);
    let scale = unit_of(size as nat).scale();
    let num = size as nat * 100;
    vstd::arithmetic::div_mod::lemma_fundamental_div_mod(num as int, scale as int);
    let q = num / scale;
    let r = num % scale;
    assert(0 <= r < scale);
    assert(q <= 102_399) by (nonlinear_arith)
        requires
            num == scale * q + r,
            0 <= r,
            scale > 0,
            num < 102_400 * scale,
    ;
    if q == 102_399 {
        assert(scale * q == 102_399 * scale) by (nonlinear_arith)
            requires
                q == 102_399,
        ;
    } else {
        assert(scale * q <= 102_398 * scale) by (nonlinear_arith)
            requires
                q <= 102_398,
                scale > 0,
        ;
    }
}

/// No size is shown with a magnitude of 1024.00 or more in a unit below
/// `PB`.
pub proof fn lemma_magnitude_below_1024(size: u64)
    requires
        unit_of(size as nat) != Unit::PB,
    ensures
        hundredths(size as nat) < 102_400,
{
}

/// What is shown is the magnitude rounded to two decimals, but for the
/// sizes below `PB` that lie within half a hundredth of the next unit: they
/// are shown as 1023.99.
pub proof fn lemma_shown_is_rounded(size: u64)
    ensures
        unit_of(size as nat) != Unit::PB && rounds_to_1024(size as nat) ==> hundredths(
            size as nat,
        ) == 102_399,
        !(unit_of(size as nat) != Unit::PB && rounds_to_1024(size as nat)) ==> hundredths(
            size as nat,
        ) == rounded_hundredths(size as nat),
{
    if unit_of(size as nat) != Unit::PB {
        lemma_rounding_reaches_1024(size);
    }
}

/// Bytes are always shown exactly: below 1024 the magnitude is the size.
pub proof fn lemma_bytes_are_exact(size: u64)
    requires
        size < 1024,
    ensures
        unit_of(size as nat) == Unit::B,
        hundredths(size as nat) == 100 * size,
{
    lemma_small_numbers_are_exact(size as nat);
}

} // verus!
