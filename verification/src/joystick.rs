//! Firmware joystick processing: a raw ADC reading becomes a signed axis value
//! around the centre measured at boot, then the inner dead zone is removed and
//! the rest rescaled so that the stick's edge still reaches full scale.

use vstd::prelude::*;
use vstd::arithmetic::div_mod::{
    lemma_div_is_ordered, lemma_div_by_multiple, lemma_div_multiples_vanish, lemma_div_pos_is_pos,
};
use vstd::arithmetic::mul::lemma_mul_inequality;

verus! {

/// Largest ADC reading of the joystick channels (12 bits).
pub const ADC_MAX: u16 = 4095;

/// `x`, but at least one (the divisor guard of the scaling).
pub open spec fn at_least_one(x: int) -> int {
    if x > 1 {
        x
    } else {
        1
    }
}

/// `x` limited to the range of `i16`.
pub open spec fn clamp_i16(x: int) -> int {
    if x < -32768 {
        -32768
    } else if x > 32767 {
        32767
    } else {
        x
    }
}

/// Readings below the centre map linearly onto `[-32768, 0]` over the lower
/// range `[0, center]`; readings above it map onto `[0, 32767]` over the upper
/// range `[center, 4095]`; quotients round toward zero.
pub open spec fn scaled_axis(value: int, center: int) -> int {
    if value < center {
        -(((center - value) * 32768) / at_least_one(center))
    } else {
        ((value - center) * 32767) / at_least_one(4095 - center)
    }
}

/// The signed axis value of ADC reading `value` around `center`.
pub open spec fn axis_value(value: u16, center: u16) -> int {
    clamp_i16(scaled_axis(value as int, center as int))
}

/// Magnitude of a signed value.
pub open spec fn magnitude(x: int) -> int {
    if x < 0 {
        -x
    } else {
        x
    }
}

/// Full scale on the side of `value`: 32768 below zero, 32767 above.
pub open spec fn full_scale(value: int) -> int {
    if value < 0 {
        32768
    } else {
        32767
    }
}

/// Values whose magnitude is at most `limit` become zero; the remaining range
/// `(limit, full scale]` is stretched onto `(0, full scale]`, keeping the sign.
pub open spec fn deadzone_value(value: int, limit: int) -> int {
    if magnitude(value) <= limit {
        0
    } else {
        let scaled = ((magnitude(value) - limit) * full_scale(value)) / (full_scale(value) - limit);
        if value < 0 {
            -scaled
        } else {
            scaled
        }
    }
}

/// Negation that maps `i16::MIN` to `i16::MAX`.
pub open spec fn saturating_negation(x: int) -> int {
    if x == -32768 {
        32767
    } else {
        -x
    }
}

/// The value the firmware sends for one joystick axis.
pub open spec fn joystick_axis_value(value: u16, center: u16, inverted: bool, limit: int) -> int {
    let v = deadzone_value(axis_value(value, center), limit);
    if inverted {
        saturating_negation(v)
    } else {
        v
    }
}

proof fn lemma_quotient_bounded(n: int, d: int, bound: int)
    requires
        0 <= n <= d * bound,
        0 < d,
        0 <= bound,
    ensures
        0 <= n / d <= bound,
{
    lemma_div_pos_is_pos(n, d);
    lemma_div_is_ordered(n, d * bound, d);
    lemma_div_by_multiple(bound, d);
    assert(d * bound == bound * d) by (nonlinear_arith);
}

/// Converts an ADC reading to a signed axis value around `center`.
pub fn axis(value: u16, center: u16) -> (r: i16)
    ensures
        r as int == axis_value(value, center),
{
    let value = value as i32;
    let center = center as i32;
    let scaled: i32 = if value < center {
        let lower = if center > 1 {
            center
        } else {
            1
        };
        proof {
            assert(((center - value) * 32768) <= lower * ((center - value) * 32768))
                by (nonlinear_arith)
                requires
                    lower >= 1,
                    center - value >= 0,
            ;
            lemma_quotient_bounded((center - value) * 32768, lower as int, (center - value) * 32768);
        }
        -(((center - value) * 32768) / lower)
    } else {
        let span = 4095 - center;
        let upper = if span > 1 {
            span
        } else {
            1
        };
        proof {
            assert(((value - center) * 32767) <= upper * ((value - center) * 32767))
                by (nonlinear_arith)
                requires
                    upper >= 1,
                    value - center >= 0,
            ;
            lemma_quotient_bounded((value - center) * 32767, upper as int, (value - center) * 32767);
        }
        ((value - center) * 32767) / upper
    };
    if scaled < -32768 {
        -32768
    } else if scaled > 32767 {
        32767
    } else {
        scaled as i16
    }
}

/// Removes the dead zone of `deadzone_limit` (a magnitude between 0 and
/// 32768) from `value` and rescales the rest.
pub fn deadzone(value: i16, deadzone_limit: i32) -> (r: i16)
    requires
        0 <= deadzone_limit <= 32768,
    ensures
        r as int == deadzone_value(value as int, deadzone_limit as int),
{
    let value = value as i32;
    let magnitude = if value < 0 {
        -value
    } else {
        value
    };
    if magnitude <= deadzone_limit {
        return 0;
    }
    let full_scale: i32 = if value < 0 {
        32768
    } else {
        32767
    };
    proof {
        lemma_mul_inequality(
            magnitude - deadzone_limit,
            full_scale - deadzone_limit,
            full_scale as int,
        );
        lemma_quotient_bounded(
            (magnitude - deadzone_limit) * full_scale,
            full_scale - deadzone_limit,
            full_scale as int,
        );
    }
    let scaled = (magnitude - deadzone_limit) * full_scale / (full_scale - deadzone_limit);
    if value < 0 {
        (-scaled) as i16
    } else {
        scaled as i16
    }
}

/// The value sent for one joystick axis: the reading around `center`, with
/// the dead zone removed, negated (saturating) when the axis is `inverted`.
pub fn joystick_axis(value: u16, center: u16, inverted: bool, deadzone_limit: i32) -> (r: i16)
    requires
        0 <= deadzone_limit <= 32768,
    ensures
        r as int == joystick_axis_value(value, center, inverted, deadzone_limit as int),
{
    let value = deadzone(axis(value, center), deadzone_limit);
    if inverted {
        if value == -32768 {
            32767
        } else {
            -value
        }
    } else {
        value
    }
}

/// The measured centre reads as zero.
pub proof fn lemma_axis_center_is_zero(center: u16)
    ensures
        axis_value(center, center) == 0,
{
}

/// The lowest reading maps to `i16::MIN` and the highest ADC reading to
/// `i16::MAX`, for any centre strictly inside the ADC range.
pub proof fn lemma_axis_range_ends(center: u16)
    requires
        1 <= center <= 4094,
    ensures
        axis_value(0, center) == -32768,
        axis_value(ADC_MAX, center) == 32767,
{
    lemma_div_multiples_vanish(32768, center as int);
    lemma_div_multiples_vanish(32767, 4095 - center);
}

/// A larger reading never gives a smaller axis value.
pub proof fn lemma_axis_monotonic(low: u16, high: u16, center: u16)
    requires
        low <= high,
    ensures
        axis_value(low, center) <= axis_value(high, center),
{
    let c = center as int;
    let l = low as int;
    let h = high as int;
    if h < c {
        lemma_mul_inequality(c - h, c - l, 32768);
        lemma_div_is_ordered((c - h) * 32768, (c - l) * 32768, at_least_one(c));
    } else if l >= c {
        lemma_mul_inequality(l - c, h - c, 32767);
        lemma_div_is_ordered((l - c) * 32767, (h - c) * 32767, at_least_one(4095 - c));
    } else {
        lemma_div_pos_is_pos((c - l) * 32768, at_least_one(c));
        lemma_div_pos_is_pos((h - c) * 32767, at_least_one(4095 - c));
    }
}

/// Values inside the dead zone become zero.
pub proof fn lemma_deadzone_removes_inner_zone(value: int, limit: int)
    requires
        magnitude(value) <= limit,
    ensures
        deadzone_value(value, limit) == 0,
{
}

/// The edge of the stick still gives the full output value.
pub proof fn lemma_deadzone_keeps_full_scale(limit: int)
    requires
        0 <= limit < 32767,
    ensures
        deadzone_value(32767, limit) == 32767,
        deadzone_value(-32768, limit) == -32768,
{
    lemma_div_multiples_vanish(32767, 32767 - limit);
    lemma_div_multiples_vanish(32768, 32768 - limit);
}

/// Removing the dead zone keeps the sign and never makes a value larger.
pub proof fn lemma_deadzone_never_amplifies(value: int, limit: int)
    requires
        -32768 <= value <= 32767,
        0 <= limit <= 32768,
    ensures
        magnitude(deadzone_value(value, limit)) <= magnitude(value),
        value >= 0 ==> deadzone_value(value, limit) >= 0,
        value <= 0 ==> deadzone_value(value, limit) <= 0,
{
    let m = magnitude(value);
    let fs = full_scale(value);
    if m > limit {
        assert((m - limit) * fs <= m * (fs - limit)) by (nonlinear_arith)
            requires
                m <= fs,
                0 <= limit,
        ;
        lemma_div_is_ordered((m - limit) * fs, m * (fs - limit), fs - limit);
        lemma_div_by_multiple(m, fs - limit);
        lemma_div_pos_is_pos((m - limit) * fs, fs - limit);
    }
}

/// A stick resting at its measured centre sends zero on both axes, whatever
/// the dead zone and inversion.
pub proof fn lemma_centered_stick_sends_zero(center: u16, inverted: bool, limit: int)
    requires
        0 <= limit,
    ensures
        joystick_axis_value(center, center, inverted, limit) == 0,
{
}

} // verus!
