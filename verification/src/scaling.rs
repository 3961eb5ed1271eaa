//! Exact scaling casts between column types.
//!
//! A cast between two numeric or temporal types is either statically
//! rejected, or assigned an exact power-of-ten or unit-ratio rule: the
//! stored integer is multiplied, or exactly divided (never rounded), and a
//! result whose magnitude exceeds the target's capacity is an error, never a
//! wrapped or clamped value.

use vstd::prelude::*;
use vstd::arithmetic::div_mod::{
    lemma_div_by_multiple, lemma_fundamental_div_mod_converse, lemma_mod_multiples_basic,
};
use crate::column::{ColumnType, PoSQLTimeUnit};

verus! {

/// Why an expression or plan could not be constructed.
#[derive(Clone, Copy, Debug, PartialEq, Eq, Structural)]
pub enum ConstructionError {
    /// The two named types cannot stand in this relation.
    IncompatibleTypes(ColumnType, ColumnType),
    /// The scale difference exceeds what a 128-bit mantissa can carry.
    ScaleOutOfRange(ColumnType, ColumnType),
}

/// Why evaluation over concrete rows failed.
#[derive(Clone, Copy, Debug, PartialEq, Eq, Structural)]
pub enum EvalError {
    /// A result's magnitude exceeds the target type's capacity.
    Overflow,
    /// A downscaling division would have to round.
    InexactDivision,
    /// A referenced column lies outside the table.
    UnknownColumn,
    /// A value of the wrong type reached an operation.
    TypeMismatch,
}

/// The exact rule of one scaling cast: multiply, or divide without remainder.
#[derive(Clone, Copy, Debug, PartialEq, Eq, Structural)]
pub enum ScalingFactor {
    Multiply(i128),
    ExactDivide(i128),
}

impl ScalingFactor {
    /// The positive ratio this factor scales by.
    pub open spec fn ratio(self) -> int {
        match self {
            ScalingFactor::Multiply(m) => m as int,
            ScalingFactor::ExactDivide(d) => d as int,
        }
    }

    /// A factor is well formed when its ratio is positive.
    pub open spec fn inv(self) -> bool {
        self.ratio() >= 1
    }
}

/// Ten to the given power.
pub open spec fn pow10(e: nat) -> int
    decreases e,
{
    if e == 0 {
        1
    } else {
        10 * pow10((e - 1) as nat)
    }
}

/// Ten to a power up to 38 fits a 128-bit signed integer.
pub proof fn lemma_pow10_38()
    ensures
        pow10(38) == 100000000000000000000000000000000000000int,
{
    reveal_with_fuel(pow10, 40);
}

/// Powers of ten are positive.
pub proof fn lemma_pow10_pos(e: nat)
    ensures
        pow10(e) >= 1,
    decreases e,
{
    if e > 0 {
        lemma_pow10_pos((e - 1) as nat);
    }
}

/// Powers of ten grow with the exponent.
pub proof fn lemma_pow10_mono(a: nat, b: nat)
    requires
        a <= b,
    ensures
        1 <= pow10(a) <= pow10(b),
    decreases b - a,
{
    if a == b {
        lemma_pow10_pos(a);
    } else {
        lemma_pow10_mono(a, (b - 1) as nat);
    }
}

/// Ten to the given power, on machine integers.
pub fn pow10_i128(e: u32) -> (r: i128)
    requires
        e <= 38,
    ensures
        r == pow10(e as nat),
        r >= 1,
{
    let mut acc: i128 = 1;
    let mut i: u32 = 0;
    while i < e
        invariant
            i <= e <= 38,
            acc == pow10(i as nat),
        decreases e - i,
    {
        proof {
            lemma_pow10_38();
            lemma_pow10_mono((i + 1) as nat, 38nat);
            assert(pow10((i + 1) as nat) == 10 * pow10(i as nat));
        }
        acc = acc * 10;
        i = i + 1;
    }
    proof {
        lemma_pow10_pos(e as nat);
    }
    acc
}

/// The ratio between two timestamp units: how a count of `from` units is
/// rescaled into a count of `to` units.
pub open spec fn spec_unit_ratio(from: PoSQLTimeUnit, to: PoSQLTimeUnit) -> ScalingFactor {
    match (from, to) {
        (PoSQLTimeUnit::Second, PoSQLTimeUnit::Second) => ScalingFactor::Multiply(1),
        (PoSQLTimeUnit::Second, PoSQLTimeUnit::Millisecond) => ScalingFactor::Multiply(1000),
        (PoSQLTimeUnit::Second, PoSQLTimeUnit::Microsecond) => ScalingFactor::Multiply(1000000),
        (PoSQLTimeUnit::Second, PoSQLTimeUnit::Nanosecond) => ScalingFactor::Multiply(1000000000),
        (PoSQLTimeUnit::Millisecond, PoSQLTimeUnit::Second) => ScalingFactor::ExactDivide(1000),
        (PoSQLTimeUnit::Millisecond, PoSQLTimeUnit::Millisecond) => ScalingFactor::Multiply(1),
        (PoSQLTimeUnit::Millisecond, PoSQLTimeUnit::Microsecond) => ScalingFactor::Multiply(1000),
        (PoSQLTimeUnit::Millisecond, PoSQLTimeUnit::Nanosecond) => ScalingFactor::Multiply(
            1000000,
        ),
        (PoSQLTimeUnit::Microsecond, PoSQLTimeUnit::Second) => ScalingFactor::ExactDivide(1000000),
        (PoSQLTimeUnit::Microsecond, PoSQLTimeUnit::Millisecond) => ScalingFactor::ExactDivide(
            1000,
        ),
        (PoSQLTimeUnit::Microsecond, PoSQLTimeUnit::Microsecond) => ScalingFactor::Multiply(1),
        (PoSQLTimeUnit::Microsecond, PoSQLTimeUnit::Nanosecond) => ScalingFactor::Multiply(1000),
        (PoSQLTimeUnit::Nanosecond, PoSQLTimeUnit::Second) => ScalingFactor::ExactDivide(
            1000000000,
        ),
        (PoSQLTimeUnit::Nanosecond, PoSQLTimeUnit::Millisecond) => ScalingFactor::ExactDivide(
            1000000,
        ),
        (PoSQLTimeUnit::Nanosecond, PoSQLTimeUnit::Microsecond) => ScalingFactor::ExactDivide(
            1000,
        ),
        (PoSQLTimeUnit::Nanosecond, PoSQLTimeUnit::Nanosecond) => ScalingFactor::Multiply(1),
    }
}

/// The ratio between two timestamp units.
pub fn unit_ratio(from: PoSQLTimeUnit, to: PoSQLTimeUnit) -> (r: ScalingFactor)
    ensures
        r == spec_unit_ratio(from, to),
        r.inv(),
{
    match (from, to) {
        (PoSQLTimeUnit::Second, PoSQLTimeUnit::Second) => ScalingFactor::Multiply(1),
        (PoSQLTimeUnit::Second, PoSQLTimeUnit::Millisecond) => ScalingFactor::Multiply(1000),
        (PoSQLTimeUnit::Second, PoSQLTimeUnit::Microsecond) => ScalingFactor::Multiply(1000000),
        (PoSQLTimeUnit::Second, PoSQLTimeUnit::Nanosecond) => ScalingFactor::Multiply(1000000000),
        (PoSQLTimeUnit::Millisecond, PoSQLTimeUnit::Second) => ScalingFactor::ExactDivide(1000),
        (PoSQLTimeUnit::Millisecond, PoSQLTimeUnit::Millisecond) => ScalingFactor::Multiply(1),
        (PoSQLTimeUnit::Millisecond, PoSQLTimeUnit::Microsecond) => ScalingFactor::Multiply(1000),
        (PoSQLTimeUnit::Millisecond, PoSQLTimeUnit::Nanosecond) => ScalingFactor::Multiply(
            1000000,
        ),
        (PoSQLTimeUnit::Microsecond, PoSQLTimeUnit::Second) => ScalingFactor::ExactDivide(1000000),
        (PoSQLTimeUnit::Microsecond, PoSQLTimeUnit::Millisecond) => ScalingFactor::ExactDivide(
            1000,
        ),
        (PoSQLTimeUnit::Microsecond, PoSQLTimeUnit::Microsecond) => ScalingFactor::Multiply(1),
        (PoSQLTimeUnit::Microsecond, PoSQLTimeUnit::Nanosecond) => ScalingFactor::Multiply(1000),
        (PoSQLTimeUnit::Nanosecond, PoSQLTimeUnit::Second) => ScalingFactor::ExactDivide(
            1000000000,
        ),
        (PoSQLTimeUnit::Nanosecond, PoSQLTimeUnit::Millisecond) => ScalingFactor::ExactDivide(
            1000000,
        ),
        (PoSQLTimeUnit::Nanosecond, PoSQLTimeUnit::Microsecond) => ScalingFactor::ExactDivide(
            1000,
        ),
        (PoSQLTimeUnit::Nanosecond, PoSQLTimeUnit::Nanosecond) => ScalingFactor::Multiply(1),
    }
}

/// The effective decimal scale a type casts from: zero for the integer
/// types, the declared scale for decimals.
pub open spec fn spec_source_scale(t: ColumnType) -> int {
    match t {
        ColumnType::Decimal75(_, s) => s as int,
        _ => 0,
    }
}

/// The exact scaling rule between two column types, or the construction
/// error that rejects the cast.
///
/// Integer and decimal types cast to decimals by a power of ten given by the
/// scale difference; timestamps cast to timestamps of the same zone by the
/// unit ratio, the zone being metadata that the cast preserves. Every other
/// pairing is incompatible. A scale difference beyond 38 digits exceeds the
/// 128-bit mantissa and is rejected when the cast is built.
pub open spec fn spec_scaling_factor(from: ColumnType, to: ColumnType) -> Result<
    ScalingFactor,
    ConstructionError,
> {
    match to {
        ColumnType::Decimal75(_, s2) => {
            if from.spec_is_integer() || from matches ColumnType::Decimal75(_, _) {
                let diff = s2 - spec_source_scale(from);
                if 0 <= diff <= 38 {
                    Ok(ScalingFactor::Multiply(pow10(diff as nat) as i128))
                } else if -38 <= diff < 0 {
                    Ok(ScalingFactor::ExactDivide(pow10((-diff) as nat) as i128))
                } else {
                    Err(ConstructionError::ScaleOutOfRange(from, to))
                }
            } else {
                Err(ConstructionError::IncompatibleTypes(from, to))
            }
        },
        ColumnType::TimestampTZ(u2, z2) => {
            match from {
                ColumnType::TimestampTZ(u1, z1) => {
                    if z1 == z2 {
                        Ok(spec_unit_ratio(u1, u2))
                    } else {
                        Err(ConstructionError::IncompatibleTypes(from, to))
                    }
                },
                _ => Err(ConstructionError::IncompatibleTypes(from, to)),
            }
        },
        _ => Err(ConstructionError::IncompatibleTypes(from, to)),
    }
}

/// The exact scaling rule between two column types.
pub fn scaling_factor(from: ColumnType, to: ColumnType) -> (r: Result<
    ScalingFactor,
    ConstructionError,
>)
    ensures
        r == spec_scaling_factor(from, to),
        r is Ok ==> r->Ok_0.inv(),
{
    match to {
        ColumnType::Decimal75(_, s2) => {
            let src = spec_source_scale_exec(from);
            match src {
                Some(s1) => {
                    let diff: i32 = (s2 as i32) - (s1 as i32);
                    if 0 <= diff && diff <= 38 {
                        proof {
                            lemma_pow10_mono(diff as nat, 38nat);
                            lemma_pow10_38();
                        }
                        Ok(ScalingFactor::Multiply(pow10_i128(diff as u32)))
                    } else if -38 <= diff && diff < 0 {
                        proof {
                            lemma_pow10_mono((-diff) as nat, 38nat);
                            lemma_pow10_38();
                        }
                        Ok(ScalingFactor::ExactDivide(pow10_i128((-diff) as u32)))
                    } else {
                        Err(ConstructionError::ScaleOutOfRange(from, to))
                    }
                },
                None => Err(ConstructionError::IncompatibleTypes(from, to)),
            }
        },
        ColumnType::TimestampTZ(u2, z2) => {
            match from {
                ColumnType::TimestampTZ(u1, z1) => {
                    if z1 == z2 {
                        Ok(unit_ratio(u1, u2))
                    } else {
                        Err(ConstructionError::IncompatibleTypes(from, to))
                    }
                },
                _ => Err(ConstructionError::IncompatibleTypes(from, to)),
            }
        },
        _ => Err(ConstructionError::IncompatibleTypes(from, to)),
    }
}

/// The effective source scale of a castable-from type, or nothing.
fn spec_source_scale_exec(t: ColumnType) -> (r: Option<i8>)
    ensures
        r is Some <==> (t.spec_is_integer() || t matches ColumnType::Decimal75(_, _)),
        r is Some ==> r->0 as int == spec_source_scale(t),
{
    match t {
        ColumnType::Decimal75(_, s) => Some(s),
        ColumnType::Uint8 => Some(0),
        ColumnType::TinyInt => Some(0),
        ColumnType::SmallInt => Some(0),
        ColumnType::Int => Some(0),
        ColumnType::BigInt => Some(0),
        ColumnType::Int128 => Some(0),
        _ => None,
    }
}

/// The magnitude bound a cast target imposes: results must lie strictly
/// between the negation of this bound and the bound itself.
pub open spec fn spec_target_bound(to: ColumnType) -> int {
    match to {
        ColumnType::Decimal75(p, _) => if p.spec_value() <= 38 {
            pow10(p.spec_value() as nat)
        } else {
            i128::MAX as int + 1
        },
        ColumnType::TimestampTZ(_, _) => i64::MAX as int + 1,
        _ => 0,
    }
}

/// One value scaled by one factor: the exact transform, or the exact error.
pub open spec fn spec_scale_value(v: int, f: ScalingFactor, bound: int) -> Result<int, EvalError> {
    match f {
        ScalingFactor::Multiply(m) => {
            if -bound < v * m < bound {
                Ok(v * m)
            } else {
                Err(EvalError::Overflow)
            }
        },
        ScalingFactor::ExactDivide(d) => {
            if v % (d as int) != 0 {
                Err(EvalError::InexactDivision)
            } else if -bound < v / (d as int) < bound {
                Ok(v / (d as int))
            } else {
                Err(EvalError::Overflow)
            }
        },
    }
}

/// Scales one mantissa by one factor, reporting overflow or rounding
/// exactly as the specification rule does. The bound may be one past the
/// 128-bit maximum, where the machine range itself is the capacity.
pub fn scale_value_i128(v: i128, f: ScalingFactor, bound: u128) -> (r: Result<i128, EvalError>)
    requires
        f.inv(),
        bound >= 1,
        bound <= i128::MAX as u128 + 1,
    ensures
        match spec_scale_value(v as int, f, bound as int) {
            Ok(w) => r is Ok && r->Ok_0 == w,
            Err(e) => r is Err && r->Err_0 == e,
        },
{
    let neg = v < 0;
    let mag: u128 = if v >= 0 {
        v as u128
    } else {
        ((-(v + 1)) as u128) + 1
    };
    let bound_mag: u128 = bound;
    match f {
        ScalingFactor::Multiply(m) => {
            let mm = m as u128;
            match mag.checked_mul(mm) {
                None => {
                    proof {
                        lemma_scale_mag_mul(v as int, mag as int, m as int);
                        assert(mag * mm > u128::MAX);
                    }
                    Err(EvalError::Overflow)
                },
                Some(prod) => {
                    proof {
                        lemma_scale_mag_mul(v as int, mag as int, m as int);
                    }
                    if prod >= bound_mag {
                        Err(EvalError::Overflow)
                    } else if neg {
                        Ok(-(prod as i128))
                    } else {
                        Ok(prod as i128)
                    }
                },
            }
        },
        ScalingFactor::ExactDivide(d) => {
            let dm = d as u128;
            let rem = mag % dm;
            let quot = mag / dm;
            proof {
                lemma_scale_mag_div(v as int, mag as int, d as int);
            }
            if rem != 0 {
                Err(EvalError::InexactDivision)
            } else if quot >= bound_mag {
                Err(EvalError::Overflow)
            } else if neg {
                Ok(-(quot as i128))
            } else {
                Ok(quot as i128)
            }
        },
    }
}

/// Multiplying the magnitude and restoring the sign is the signed product.
proof fn lemma_scale_mag_mul(v: int, mag: int, m: int)
    requires
        m >= 1,
        mag >= 0,
        v == mag || v == -mag,
    ensures
        v >= 0 ==> v * m == mag * m,
        v < 0 ==> v * m == -(mag * m),
        mag * m >= 0,
{
    assert(v < 0 ==> v * m == -(mag * m)) by (nonlinear_arith)
        requires v == -mag || v == mag, m >= 1, mag >= 0,
    ;
    assert(mag * m >= 0) by (nonlinear_arith)
        requires m >= 1, mag >= 0,
    ;
}

/// Dividing the magnitude and restoring the sign is the exact signed
/// quotient, and the remainders vanish together.
proof fn lemma_scale_mag_div(v: int, mag: int, d: int)
    requires
        d >= 1,
        mag >= 0,
        v == mag || v == -mag,
    ensures
        v % d == 0 <==> mag % d == 0,
        mag % d == 0 && v >= 0 ==> v / d == mag / d,
        mag % d == 0 && v < 0 ==> v / d == -(mag / d),
        mag % d != 0 ==> v % d != 0,
        mag / d >= 0,
        mag % d >= 0,
{
    vstd::arithmetic::div_mod::lemma_fundamental_div_mod(mag, d);
    vstd::arithmetic::div_mod::lemma_mod_bound(mag, d);
    vstd::arithmetic::div_mod::lemma_div_pos_is_pos(mag, d);
    if mag % d == 0 {
        assert(mag == (mag / d) * d) by (nonlinear_arith)
            requires d >= 1, mag == d * (mag / d) + mag % d, mag % d == 0,
        ;
        if v < 0 {
            assert(v == (-(mag / d)) * d + 0) by (nonlinear_arith)
                requires v == -mag, mag == (mag / d) * d,
            ;
            lemma_fundamental_div_mod_converse(v, d, -(mag / d), 0);
        } else {
            lemma_fundamental_div_mod_converse(v, d, mag / d, 0);
        }
    } else {
        if v < 0 {
            let q = mag / d;
            let r = mag % d;
            assert(v == (-q - 1) * d + (d - r)) by (nonlinear_arith)
                requires v == -mag, mag == d * q + r,
            ;
            lemma_fundamental_div_mod_converse(v, d, -q - 1, d - r);
        }
    }
}

/// A scaling rule that two types admit always carries a positive ratio.
pub proof fn lemma_scaling_factor_inv(from: ColumnType, to: ColumnType)
    requires
        spec_scaling_factor(from, to) is Ok,
    ensures
        spec_scaling_factor(from, to)->Ok_0.inv(),
{
    match to {
        ColumnType::Decimal75(_, s2) => {
            let diff = s2 - spec_source_scale(from);
            if diff >= 0 {
                lemma_pow10_mono(diff as nat, 38nat);
                lemma_pow10_38();
            } else {
                lemma_pow10_mono((-diff) as nat, 38nat);
                lemma_pow10_38();
            }
        },
        ColumnType::TimestampTZ(u2, _) => {
            match from {
                ColumnType::TimestampTZ(u1, _) => {
                    match (u1, u2) {
                        (PoSQLTimeUnit::Second, _) => {},
                        (PoSQLTimeUnit::Millisecond, _) => {},
                        (PoSQLTimeUnit::Microsecond, _) => {},
                        (PoSQLTimeUnit::Nanosecond, _) => {},
                    }
                },
                _ => {},
            }
        },
        _ => {},
    }
}

/// Casting one value forward and back across two types recovers it: the
/// round-trip law of scaling casts, for decimal-to-decimal and
/// timestamp-to-timestamp casts alike. It holds whenever both directions
/// are castable and neither direction overflows or rounds.
pub proof fn lemma_scaling_cast_round_trip(t1: ColumnType, t2: ColumnType, v: int, w: int, u: int)
    requires
        spec_scaling_factor(t1, t2) is Ok,
        spec_scaling_factor(t2, t1) is Ok,
        spec_scale_value(v, spec_scaling_factor(t1, t2)->Ok_0, spec_target_bound(t2)) == Ok::<
            int,
            EvalError,
        >(w),
        spec_scale_value(w, spec_scaling_factor(t2, t1)->Ok_0, spec_target_bound(t1)) == Ok::<
            int,
            EvalError,
        >(u),
    ensures
        u == v,
{
    let f = spec_scaling_factor(t1, t2)->Ok_0;
    let g = spec_scaling_factor(t2, t1)->Ok_0;
    lemma_factors_inverse(t1, t2);
    match f {
        ScalingFactor::Multiply(m) => {
            match g {
                ScalingFactor::Multiply(m2) => {
                    // both ratios are 1
                    let mi = m as int;
                    let m2i = m2 as int;
                    assert(w == v * mi && u == w * m2i);
                    assert(v * mi == v) by (nonlinear_arith)
                        requires mi == 1,
                    ;
                    assert(w * m2i == w) by (nonlinear_arith)
                        requires m2i == 1,
                    ;
                },
                ScalingFactor::ExactDivide(d) => {
                    assert(d == m);
                    lemma_mod_multiples_basic(v, m as int);
                    lemma_div_by_multiple_signed(v, m as int);
                },
            }
        },
        ScalingFactor::ExactDivide(d) => {
            match g {
                ScalingFactor::Multiply(m2) => {
                    assert(m2 == d);
                    vstd::arithmetic::div_mod::lemma_fundamental_div_mod(v, d as int);
                    assert(v == (v / (d as int)) * (d as int)) by (nonlinear_arith)
                        requires
                            v == (d as int) * (v / (d as int)) + v % (d as int),
                            v % (d as int) == 0,
                    ;
                },
                ScalingFactor::ExactDivide(_) => {
                    // the factor inversion rules out two divisions unless both are by 1
                    assert(false);
                },
            }
        },
    }
}

/// The two directions of a castable pair carry inverse factors: a multiply
/// one way is an exact divide by the same ratio the other way, and a ratio
/// of one inverts to a ratio of one.
pub proof fn lemma_factors_inverse(t1: ColumnType, t2: ColumnType)
    requires
        spec_scaling_factor(t1, t2) is Ok,
        spec_scaling_factor(t2, t1) is Ok,
    ensures
        match (spec_scaling_factor(t1, t2)->Ok_0, spec_scaling_factor(t2, t1)->Ok_0) {
            (ScalingFactor::Multiply(m), ScalingFactor::Multiply(m2)) => m == 1 && m2 == 1,
            (ScalingFactor::Multiply(m), ScalingFactor::ExactDivide(d)) => m == d && m > 1,
            (ScalingFactor::ExactDivide(d), ScalingFactor::Multiply(m)) => m == d && d > 1,
            (ScalingFactor::ExactDivide(_), ScalingFactor::ExactDivide(_)) => false,
        },
{
    match (t1, t2) {
        (ColumnType::TimestampTZ(u1, _), ColumnType::TimestampTZ(u2, _)) => {
            match (u1, u2) {
                (PoSQLTimeUnit::Second, PoSQLTimeUnit::Second) => {},
                (PoSQLTimeUnit::Second, PoSQLTimeUnit::Millisecond) => {},
                (PoSQLTimeUnit::Second, PoSQLTimeUnit::Microsecond) => {},
                (PoSQLTimeUnit::Second, PoSQLTimeUnit::Nanosecond) => {},
                (PoSQLTimeUnit::Millisecond, PoSQLTimeUnit::Second) => {},
                (PoSQLTimeUnit::Millisecond, PoSQLTimeUnit::Millisecond) => {},
                (PoSQLTimeUnit::Millisecond, PoSQLTimeUnit::Microsecond) => {},
                (PoSQLTimeUnit::Millisecond, PoSQLTimeUnit::Nanosecond) => {},
                (PoSQLTimeUnit::Microsecond, PoSQLTimeUnit::Second) => {},
                (PoSQLTimeUnit::Microsecond, PoSQLTimeUnit::Millisecond) => {},
                (PoSQLTimeUnit::Microsecond, PoSQLTimeUnit::Microsecond) => {},
                (PoSQLTimeUnit::Microsecond, PoSQLTimeUnit::Nanosecond) => {},
                (PoSQLTimeUnit::Nanosecond, PoSQLTimeUnit::Second) => {},
                (PoSQLTimeUnit::Nanosecond, PoSQLTimeUnit::Millisecond) => {},
                (PoSQLTimeUnit::Nanosecond, PoSQLTimeUnit::Microsecond) => {},
                (PoSQLTimeUnit::Nanosecond, PoSQLTimeUnit::Nanosecond) => {},
            }
        },
        _ => {
            let s1 = spec_source_scale(t1);
            let s2 = spec_source_scale(t2);
            let diff = s2 - s1;
            if diff == 0 {
            } else if diff > 0 {
                lemma_pow10_mono(1nat, diff as nat);
                lemma_pow10_mono(diff as nat, 38nat);
                lemma_pow10_38();
            } else {
                lemma_pow10_mono(1nat, (-diff) as nat);
                lemma_pow10_mono((-diff) as nat, 38nat);
                lemma_pow10_38();
            }
        },
    }
}

/// Division by a positive multiple recovers the multiplicand, for either sign.
proof fn lemma_div_by_multiple_signed(v: int, m: int)
    requires
        m >= 1,
    ensures
        (v * m) / m == v,
{
    assert(v * m == m * v + 0) by (nonlinear_arith);
    lemma_fundamental_div_mod_converse(v * m, m, v, 0);
}

} // verus!
