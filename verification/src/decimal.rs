//! Decimal amounts as whole units and nanos, and their fixed-point value.

use vstd::prelude::*;
use vstd::arithmetic::div_mod::lemma_fundamental_div_mod;
use vstd::arithmetic::div_mod::lemma_mod_bound;
use crate::fixed::clamp_int;
use crate::fixed::div_floor;
use crate::fixed::SCALE;

verus! {

/// A decimal amount: whole units and billionths of a unit.
#[derive(Clone, Copy, Debug, PartialEq, Eq, Structural)]
pub struct DecimalValue {
    pub units: i64,
    pub nanos: i32,
}

/// The amount in millionths: the nanos are rounded down to a millionth,
/// and the whole is limited to the range of a 64-bit number.
pub open spec fn micros_of(amount: DecimalValue) -> int {
    clamp_int(
        amount.units * SCALE + amount.nanos as int / 1000,
        i64::MIN as int,
        i64::MAX as int,
    )
}

/// The whole units of an amount in millionths, rounded towards zero.
pub open spec fn whole_units(micros: int) -> int {
    if micros >= 0 {
        micros / (SCALE as int)
    } else {
        -((-micros) / (SCALE as int))
    }
}

/// An amount in millionths as units and nanos, both with the sign of the
/// amount.  Where the units exceed the range of a 64-bit number, they are
/// limited to it and the nanos are zero.
pub open spec fn decimal_of(micros: int) -> DecimalValue {
    let units = whole_units(micros);
    if units > i64::MAX {
        DecimalValue { units: i64::MAX, nanos: 0 }
    } else if units < i64::MIN {
        DecimalValue { units: i64::MIN, nanos: 0 }
    } else {
        DecimalValue { units: units as i64, nanos: ((micros - units * SCALE) * 1000) as i32 }
    }
}

/// What is left of an amount in millionths besides its whole units is less
/// than a unit and has the sign of the amount.
pub proof fn lemma_whole_units(micros: int)
    ensures
        micros >= 0 ==> 0 <= micros - whole_units(micros) * SCALE < SCALE,
        micros <= 0 ==> -SCALE < micros - whole_units(micros) * SCALE <= 0,
{
    if micros >= 0 {
        lemma_fundamental_div_mod(micros, SCALE as int);
        lemma_mod_bound(micros, SCALE as int);
    } else {
        lemma_fundamental_div_mod(-micros, SCALE as int);
        lemma_mod_bound(-micros, SCALE as int);
    }
}

/// Round trip: an amount in millionths that is written as units and nanos
/// and read back is the amount that it was, wherever its units fit.
pub proof fn lemma_decimal_round_trip(micros: int)
    requires
        i64::MIN <= micros <= i64::MAX,
    ensures
        micros_of(decimal_of(micros)) == micros,
{
    lemma_whole_units(micros);
    let units = whole_units(micros);
    assert(i64::MIN <= units <= i64::MAX) by (nonlinear_arith)
        requires
            i64::MIN <= micros <= i64::MAX,
            -SCALE < micros - units * SCALE < SCALE,
    ;
}

impl DecimalValue {
    /// The amount in millionths.
    pub fn to_micros(&self) -> (micros: i64)
        ensures
            micros == micros_of(*self),
    {
        let wide: i128 = self.units as i128 * SCALE + div_floor(self.nanos as i128, 1000);
        if wide > i64::MAX as i128 {
            i64::MAX
        } else if wide < i64::MIN as i128 {
            i64::MIN
        } else {
            wide as i64
        }
    }

    /// An amount in millionths as units and nanos.
    pub fn from_micros(micros: i128) -> (amount: DecimalValue)
        ensures
            amount == decimal_of(micros as int),
    {
        proof {
            lemma_whole_units(micros as int);
        }
        let units: i128 = if micros >= 0 {
            micros / SCALE
        } else if micros == i128::MIN {
            -(i128::MAX / SCALE)
        } else {
            -((-micros) / SCALE)
        };
        if units > i64::MAX as i128 {
            DecimalValue { units: i64::MAX, nanos: 0 }
        } else if units < i64::MIN as i128 {
            DecimalValue { units: i64::MIN, nanos: 0 }
        } else {
            let rest: i128 = micros - units * SCALE;
            DecimalValue { units: units as i64, nanos: (rest * 1000) as i32 }
        }
    }
}

} // verus!
