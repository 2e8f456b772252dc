//! Points in time as milliseconds since the Unix epoch.
use crate::json::JsonNumber;
use chrono::{TimeZone, Utc};
use vstd::arithmetic::power2::pow2;
use vstd::prelude::*;

verus! {

/// The first millisecond of the year -262143, the earliest that a calendar date can hold.
pub const FIRST_MILLIS: i64 = -8_334_601_228_800_000;

/// The last millisecond of the year 262142, the latest that a calendar date can hold.
pub const LAST_MILLIS: i64 = 8_210_266_876_799_999;

/// The instant `millis`, where a calendar date can hold it.
pub open spec fn calendar_millis(millis: int) -> Option<int> {
    if FIRST_MILLIS <= millis <= LAST_MILLIS {
        Some(millis)
    } else {
        None
    }
}

/// The sign of a double: minus one or one.
pub open spec fn float_sign(bits: u64) -> int {
    if bits as int / 0x8000_0000_0000_0000 == 1 {
        -1
    } else {
        1
    }
}

/// The exponent field of a double.
pub open spec fn float_exponent(bits: u64) -> nat {
    ((bits as int / 0x10_0000_0000_0000) % 2048) as nat
}

/// The significand of a double, its hidden bit put in.
pub open spec fn float_significand(bits: u64) -> nat {
    let fraction = bits as int % 0x10_0000_0000_0000;
    if float_exponent(bits) == 0 {
        fraction as nat
    } else {
        (fraction + 0x10_0000_0000_0000) as nat
    }
}

/// The integer part of a double, cut toward zero; none for an infinity or NaN.
pub open spec fn float_integer(bits: u64) -> Option<int> {
    let exponent = float_exponent(bits);
    let significand = float_significand(bits);
    if exponent == 2047 {
        None
    } else if exponent >= 1075 {
        Some(float_sign(bits) * (significand * pow2((exponent - 1075) as nat)))
    } else {
        let shift = 1075 - (if exponent == 0 {
            1
        } else {
            exponent as int
        });
        Some(float_sign(bits) * (significand as int / pow2(shift as nat) as int))
    }
}

/// The integer part of a number; none for an infinity or NaN.
pub open spec fn integer_part(n: JsonNumber) -> Option<int> {
    match n {
        JsonNumber::Unsigned(n) => Some(n as int),
        JsonNumber::Negative(n) => Some(n as int),
        JsonNumber::Float(bits) => float_integer(bits),
    }
}

/// The instant that a number of milliseconds stands for, where a calendar date can hold it.
pub open spec fn number_instant(n: JsonNumber) -> Option<int> {
    match integer_part(n) {
        Some(millis) => calendar_millis(millis),
        None => None,
    }
}

/// The view of an optional instant.
pub open spec fn instant_view(millis: Option<i64>) -> Option<int> {
    match millis {
        Some(millis) => Some(millis as int),
        None => None,
    }
}

/// `Utc.timestamp_millis_opt` of `chrono`, read back with `timestamp_millis`: an instant
/// within the range of calendar dates comes back as it is, any other gives none.
#[verifier::external_body]
fn utc_millis(millis: i64) -> (instant: Option<i64>)
    ensures
        instant_view(instant) == calendar_millis(millis as int),
{
    Utc.timestamp_millis_opt(millis).single().map(|instant| instant.timestamp_millis())
}

/// Two to the power of `e`.
fn power_of_two(e: u32) -> (p: u64)
    requires
        e < 64,
    ensures
        p == pow2(e as nat),
{
    let mut p: u64 = 1;
    let mut i: u32 = 0;
    proof {
        vstd::arithmetic::power2::lemma2_to64();
    }
    while i < e
        invariant
            i <= e < 64,
            p == pow2(i as nat),
        decreases e - i,
    {
        proof {
            vstd::arithmetic::power2::lemma_pow2_unfold((i + 1) as nat);
            vstd::arithmetic::power2::lemma2_to64_rest();
            if i + 1 < 63 {
                vstd::arithmetic::power2::lemma_pow2_strictly_increases((i + 1) as nat, 63);
            }
        }
        p = p * 2;
        i = i + 1;
    }
    p
}

/// The instant that a double stands for, as milliseconds, cut toward zero; none where it is
/// no number or no calendar date can hold it.
pub fn float_millis(bits: u64) -> (instant: Option<i64>)
    ensures
        instant_view(instant) == number_instant(JsonNumber::Float(bits)),
{
    let exponent: u64 = (bits / 0x10_0000_0000_0000) % 2048;
    let fraction: u64 = bits % 0x10_0000_0000_0000;
    let significand: u64 = if exponent == 0 {
        fraction
    } else {
        fraction + 0x10_0000_0000_0000
    };
    if exponent == 2047 {
        return None;
    }
    if exponent > 1075 {
        proof {
            let e = (exponent - 1075) as nat;
            vstd::arithmetic::power2::lemma2_to64();
            if e > 1 {
                vstd::arithmetic::power2::lemma_pow2_strictly_increases(1, e);
            }
            assert(significand * pow2(e) >= 0x20_0000_0000_0000) by (nonlinear_arith)
                requires
                    significand >= 0x10_0000_0000_0000,
                    pow2(e) >= 2,
            ;
        }
        return None;
    }
    let magnitude: u64 = if exponent == 1075 {
        proof {
            vstd::arithmetic::power2::lemma2_to64();
        }
        significand
    } else {
        let shift: u64 = 1075 - (if exponent == 0 {
            1
        } else {
            exponent
        });
        if shift >= 64 {
            proof {
                vstd::arithmetic::power2::lemma2_to64_rest();
                if shift > 64 {
                    vstd::arithmetic::power2::lemma_pow2_strictly_increases(64, shift as nat);
                }
                assert(significand as int / pow2(shift as nat) as int == 0) by {
                    vstd::arithmetic::div_mod::lemma_basic_div(significand as int, pow2(shift as nat) as int);
                }
            }
            0
        } else {
            let divisor = power_of_two(shift as u32);
            proof {
                vstd::arithmetic::power2::lemma_pow2_pos(shift as nat);
                vstd::arithmetic::div_mod::lemma_div_is_ordered_by_denominator(significand as int, 1, divisor as int);
            }
            significand / divisor
        }
    };
    let negative: bool = bits / 0x8000_0000_0000_0000 == 1;
    if negative {
        utc_millis(-(magnitude as i64))
    } else {
        utc_millis(magnitude as i64)
    }
}

/// The instant that a number of milliseconds stands for, cut toward zero; none where no
/// calendar date can hold it.
pub fn number_millis(n: JsonNumber) -> (instant: Option<i64>)
    ensures
        instant_view(instant) == number_instant(n),
{
    match n {
        JsonNumber::Unsigned(n) => if n <= i64::MAX as u64 {
            utc_millis(n as i64)
        } else {
            None
        },
        JsonNumber::Negative(n) => utc_millis(n),
        JsonNumber::Float(bits) => float_millis(bits),
    }
}

/// The instant `millis`, where a calendar date can hold it.
pub fn calendar_instant(millis: i64) -> (instant: Option<i64>)
    ensures
        instant_view(instant) == calendar_millis(millis as int),
{
    utc_millis(millis)
}

/// An integer of milliseconds is its own instant, where a calendar date can hold it, and none
/// otherwise.
pub proof fn law_an_integer_is_its_own_instant(n: u64, m: i64)
    ensures
        number_instant(JsonNumber::Unsigned(n)) is Some <==> n <= LAST_MILLIS,
        n <= LAST_MILLIS ==> number_instant(JsonNumber::Unsigned(n)) == Some(n as int),
        number_instant(JsonNumber::Negative(m)) is Some <==> FIRST_MILLIS <= m <= LAST_MILLIS,
        FIRST_MILLIS <= m <= LAST_MILLIS ==> number_instant(JsonNumber::Negative(m)) == Some(
            m as int,
        ),
{
}

/// The integer part of a double is the integer that its magnitude reaches and does not pass by
/// one, with the double's sign; an infinity and what is no number have none.
pub proof fn law_the_integer_part_is_cut_toward_zero(bits: u64)
    ensures
        float_integer(bits) is None <==> float_exponent(bits) == 2047,
        0 < float_exponent(bits) < 1075 ==> {
            let whole = float_sign(bits) * float_integer(bits)->0;
            let unit = pow2((1075 - float_exponent(bits)) as nat);
            &&& whole >= 0
            &&& whole * unit <= float_significand(bits) < (whole + 1) * unit
        },
        1075 <= float_exponent(bits) < 2047 ==> float_sign(bits) * float_integer(bits)->0
            == float_significand(bits) * pow2((float_exponent(bits) - 1075) as nat),
{
    let exponent = float_exponent(bits);
    let significand = float_significand(bits) as int;
    if 0 < exponent < 1075 {
        let unit = pow2((1075 - exponent) as nat) as int;
        vstd::arithmetic::power2::lemma_pow2_pos((1075 - exponent) as nat);
        let whole = significand / unit;
        vstd::arithmetic::div_mod::lemma_fundamental_div_mod(significand, unit);
        vstd::arithmetic::div_mod::lemma_mod_division_less_than_divisor(significand, unit);
        vstd::arithmetic::div_mod::lemma_div_pos_is_pos(significand, unit);
        assert(float_integer(bits) == Some(float_sign(bits) * whole));
        let sign = float_sign(bits);
        assert(sign * (sign * whole) == whole) by (nonlinear_arith)
            requires
                sign == 1 || sign == -1,
        ;
        assert(whole * unit <= significand < (whole + 1) * unit) by (nonlinear_arith)
            requires
                significand == unit * whole + significand % unit,
                0 <= significand % unit < unit,
        ;
    } else if 1075 <= exponent < 2047 {
        let size = significand * pow2((exponent - 1075) as nat);
        let sign = float_sign(bits);
        assert(sign * (sign * size) == size) by (nonlinear_arith)
            requires
                sign == 1 || sign == -1,
        ;
    }
}

/// The highest bit of a double is its sign and changes nothing else: two doubles that differ in
/// it alone have integer parts that are each other's negatives.
pub proof fn law_the_highest_bit_is_the_sign(bits: u64)
    requires
        bits < 0x8000_0000_0000_0000,
    ensures
        ({
            let negative = (bits + 0x8000_0000_0000_0000) as u64;
            &&& float_integer(negative) is Some <==> float_integer(bits) is Some
            &&& float_integer(bits) is Some ==> float_integer(negative)->0 == -float_integer(
                bits,
            )->0
        }),
{
    let negative = (bits + 0x8000_0000_0000_0000) as u64;
    assert(negative as int == bits + 0x8000_0000_0000_0000);
    assert(negative as int / 0x8000_0000_0000_0000 == 1);
    assert(bits as int / 0x8000_0000_0000_0000 == 0);
    assert(negative as int % 0x10_0000_0000_0000 == bits as int % 0x10_0000_0000_0000);
    assert(negative as int / 0x10_0000_0000_0000 == bits as int / 0x10_0000_0000_0000 + 2048);
    assert(float_exponent(negative) == float_exponent(bits));
    assert(float_significand(negative) == float_significand(bits));
    if let Some(whole) = float_integer(bits) {
        assert(float_sign(bits) == 1);
        assert(float_sign(negative) == -1);
    }
}

/// A double's integer part gives the instant of the double.
pub proof fn law_a_double_is_the_instant_of_its_integer_part(bits: u64)
    ensures
        match float_integer(bits) {
            Some(millis) => number_instant(JsonNumber::Float(bits)) is Some <==> FIRST_MILLIS
                <= millis <= LAST_MILLIS,
            None => number_instant(JsonNumber::Float(bits)) is None,
        },
        float_integer(bits) matches Some(millis) ==> (FIRST_MILLIS <= millis <= LAST_MILLIS
            ==> number_instant(JsonNumber::Float(bits)) == Some(millis)),
{
}

/// A calendar date holds every instant from the first day of its first year to the last
/// millisecond of its last, and no other.
pub proof fn law_calendar_dates_are_bounded(millis: int)
    ensures
        calendar_millis(millis) is Some <==> -8_334_601_228_800_000 <= millis
            <= 8_210_266_876_799_999,
        calendar_millis(millis) is Some ==> calendar_millis(millis) == Some(millis),
        FIRST_MILLIS as int % 86_400_000 == 0,
        (LAST_MILLIS + 1) % 86_400_000 == 0,
{
}

} // verus!
