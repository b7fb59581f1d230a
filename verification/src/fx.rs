//! Fixed-point arithmetic for the engine.
//!
//! A quantity is an `i64` counting units of `1 / FX_SCALE`; one world unit is
//! `FX_SCALE`, one object-grid cell is `OBJECT_SIZE` (30 world units).
//! Products and quotients truncate toward zero, as the corresponding Rust
//! integer operations do.

use vstd::prelude::*;

verus! {

/// Number of fixed-point steps in one world unit.
pub const FX_SCALE: i64 = 10_000_000;

/// Side length of one object-grid cell (30 world units).
pub const OBJECT_SIZE: i64 = 300_000_000;

/// Half of `OBJECT_SIZE`.
pub const HALF_OBJECT_SIZE: i64 = 150_000_000;

/// Largest coordinate magnitude the engine integrates toward; positions are
/// clamped here after each substep, so world coordinates stay well inside
/// `i64` range.
pub const COORD_LIMIT: i64 = 1_000_000_000_000_000;

/// Bound that every coordinate held by the engine respects (clamping keeps
/// integrated positions at `COORD_LIMIT`; a ground or ceiling snap may land
/// slightly above it, still far below this bound).
pub const COORD_BOUND: i64 = 2_000_000_000_000_000;

/// Largest vertical-velocity magnitude the engine represents.
pub const VEL_LIMIT: i64 = 20_000_000_000;

/// Largest rotation magnitude, a multiple of 90 degrees.
pub const ROT_LIMIT: i64 = 360_000_000_000_000_000;

/// Largest time delta `update` accepts (100 seconds).
pub const DT_LIMIT: i64 = 1_000_000_000;

/// Truncating (toward zero) division of `a` by a positive divisor `d`.
pub open spec fn div_trunc(a: int, d: int) -> int {
    if a >= 0 {
        a / d
    } else {
        -((-a) / d)
    }
}

/// The fixed-point product: `a * b / FX_SCALE`, truncated toward zero.
pub open spec fn spec_fx_mul(a: int, b: int) -> int {
    div_trunc(a * b, FX_SCALE as int)
}

/// Operand bound under which `fx_mul` cannot overflow: the magnitude of the
/// mathematical product must stay under `9e25`, so the scaled result stays
/// under `9e18 < i64::MAX`.
pub open spec fn fx_mul_in_range(a: int, b: int) -> bool {
    -0x10000000000000000 < a < 0x10000000000000000 && -0x10000000000000000 < b
        < 0x10000000000000000 && -90000000000000000000000000 <= a * b
        <= 90000000000000000000000000
}

/// `|a| * |b| == |a * b|`, and the sign of a product follows the signs of
/// its factors.
proof fn lemma_abs_mul(a: int, b: int)
    ensures
        (if a >= 0 {
            a
        } else {
            -a
        }) * (if b >= 0 {
            b
        } else {
            -b
        }) == (if a * b >= 0 {
            a * b
        } else {
            -(a * b)
        }),
        ((a < 0) != (b < 0)) ==> a * b <= 0,
        ((a < 0) == (b < 0)) ==> a * b >= 0,
{
    assert((if a >= 0 {
        a
    } else {
        -a
    }) * (if b >= 0 {
        b
    } else {
        -b
    }) == (if a * b >= 0 {
        a * b
    } else {
        -(a * b)
    }) && (((a < 0) != (b < 0)) ==> a * b <= 0) && (((a < 0) == (b < 0)) ==> a * b >= 0))
        by (nonlinear_arith);
}

/// Magnitude bounds on operands give magnitude bounds on the fixed-point
/// product (and establish `fx_mul_in_range` for bounds under `1e16`).
pub proof fn lemma_fx_mul_range(a: int, b: int, ma: int, mb: int)
    requires
        0 <= ma,
        0 <= mb,
        -ma <= a <= ma,
        -mb <= b <= mb,
    ensures
        -(ma * mb) <= a * b <= ma * mb,
        -((ma * mb) / (FX_SCALE as int)) <= spec_fx_mul(a, b) <= (ma * mb) / (FX_SCALE as int),
        (a >= 0 && b >= 0) ==> spec_fx_mul(a, b) >= 0,
        (a >= 0 && b >= 0) ==> a * b >= 0,
{
    assert(-(ma * mb) <= a * b <= ma * mb && ((a >= 0 && b >= 0) ==> a * b >= 0))
        by (nonlinear_arith)
        requires
            0 <= ma,
            0 <= mb,
            -ma <= a <= ma,
            -mb <= b <= mb,
    ;
    if a * b >= 0 {
        vstd::arithmetic::div_mod::lemma_div_is_ordered(0, a * b, FX_SCALE as int);
        vstd::arithmetic::div_mod::lemma_div_is_ordered(a * b, ma * mb, FX_SCALE as int);
    } else {
        vstd::arithmetic::div_mod::lemma_div_is_ordered(0, -(a * b), FX_SCALE as int);
        vstd::arithmetic::div_mod::lemma_div_is_ordered(-(a * b), ma * mb, FX_SCALE as int);
    }
}

/// Fixed-point multiplication, truncating toward zero.
pub fn fx_mul(a: i64, b: i64) -> (r: i64)
    requires
        fx_mul_in_range(a as int, b as int),
    ensures
        r == spec_fx_mul(a as int, b as int),
{
    let neg: bool = (a < 0) != (b < 0);
    let ma: u128 = if a < 0 {
        (-(a as i128)) as u128
    } else {
        a as u128
    };
    let mb: u128 = if b < 0 {
        (-(b as i128)) as u128
    } else {
        b as u128
    };
    proof {
        lemma_abs_mul(a as int, b as int);
    }
    let p: u128 = ma * mb;
    let q: u128 = p / (FX_SCALE as u128);
    if neg {
        (-(q as i128)) as i64
    } else {
        q as i64
    }
}

/// A quarter turn (90 degrees) in fixed-point degrees.
pub const QUARTER_TURN: i64 = 900_000_000;

/// Largest ratio magnitude `ratio` reports; stands in for an unbounded
/// (or infinite) slope.
pub const RATIO_CAP: i64 = 10_000_000_000_000;

/// `y` snapped down to the object grid: `floor(y / OBJECT_SIZE)` grid cells.
pub open spec fn spec_floor_to_grid(y: int) -> int {
    (y / (OBJECT_SIZE as int)) * (OBJECT_SIZE as int)
}

/// Snaps `y` down to a multiple of `OBJECT_SIZE`.
pub fn floor_to_grid(y: i64) -> (r: i64)
    requires
        -COORD_BOUND <= y <= COORD_BOUND,
    ensures
        r == spec_floor_to_grid(y as int),
        r <= y < r + OBJECT_SIZE,
{
    let os_u: u64 = 300_000_000u64;
    if y >= 0 {
        let q: u64 = (y as u64) / os_u;
        proof {
            vstd::arithmetic::div_mod::lemma_fundamental_div_mod(y as int, OBJECT_SIZE as int);
        }
        (q * os_u) as i64
    } else {
        let m: u64 = (-(y as i128)) as u64;
        let q: u64 = m / os_u;
        let rem: u64 = m % os_u;
        if rem == 0 {
            proof {
                vstd::arithmetic::div_mod::lemma_fundamental_div_mod_converse(
                    y as int,
                    OBJECT_SIZE as int,
                    -(q as int),
                    0,
                );
            }
            -((q * os_u) as i64)
        } else {
            proof {
                vstd::arithmetic::div_mod::lemma_fundamental_div_mod_converse(
                    y as int,
                    OBJECT_SIZE as int,
                    -(q as int) - 1,
                    OBJECT_SIZE - rem,
                );
            }
            -(((q + 1) * os_u) as i64)
        }
    }
}

/// `rot` rounded to the nearest multiple of a quarter turn, ties away from
/// zero.
pub open spec fn spec_round_to_quarter_turn(rot: int) -> int {
    let m = if rot >= 0 {
        rot
    } else {
        -rot
    };
    let q = m / (QUARTER_TURN as int);
    let r = m % (QUARTER_TURN as int);
    let k = if 2 * r >= QUARTER_TURN {
        q + 1
    } else {
        q
    };
    if rot >= 0 {
        k * QUARTER_TURN
    } else {
        -(k * QUARTER_TURN)
    }
}

/// Rounds `rot` to the nearest multiple of 90 degrees, ties away from zero.
pub fn round_to_quarter_turn(rot: i64) -> (r: i64)
    requires
        -ROT_LIMIT <= rot <= ROT_LIMIT,
    ensures
        r == spec_round_to_quarter_turn(rot as int),
        -ROT_LIMIT <= r <= ROT_LIMIT,
        r % QUARTER_TURN == 0,
{
    let qt: u64 = 900_000_000u64;
    let m: u64 = if rot >= 0 {
        rot as u64
    } else {
        (-(rot as i128)) as u64
    };
    let q: u64 = m / qt;
    let rem: u64 = m % qt;
    let k: u64 = if 2 * rem >= qt {
        q + 1
    } else {
        q
    };
    proof {
        vstd::arithmetic::div_mod::lemma_fundamental_div_mod(m as int, QUARTER_TURN as int);
        // The result stays within `ROT_LIMIT`: that limit is itself a
        // multiple of a quarter turn, so rounding cannot pass it.
        assert(k as int <= 400_000_000) by {
            if 2 * rem >= qt {
                assert(m as int == (QUARTER_TURN as int) * (q as int) + rem);
                if q as int >= 400_000_000 {
                    assert((QUARTER_TURN as int) * (q as int) >= (QUARTER_TURN as int)
                        * 400_000_000) by (nonlinear_arith)
                        requires
                            q as int >= 400_000_000,
                    ;
                }
            }
        };
        assert(k as int * (QUARTER_TURN as int) <= ROT_LIMIT as int) by (nonlinear_arith)
            requires
                0 <= k as int <= 400_000_000,
        ;
        assert((k * qt) as int == k as int * (QUARTER_TURN as int));
        vstd::arithmetic::div_mod::lemma_mod_multiples_basic(k as int, QUARTER_TURN as int);
        assert((-((k * qt) as int)) % (QUARTER_TURN as int) == 0) by {
            vstd::arithmetic::div_mod::lemma_mod_multiples_basic(
                -(k as int),
                QUARTER_TURN as int,
            );
            assert(-(k as int) * (QUARTER_TURN as int) == -(k as int * (QUARTER_TURN as int)))
                by (nonlinear_arith);
        };
    }
    if rot >= 0 {
        (k * qt) as i64
    } else {
        -((k * qt) as i64)
    }
}

/// What quarter-turn rounding yields is always an exact multiple of a
/// quarter turn.
pub proof fn lemma_round_quarter_divides(rot: int)
    ensures
        spec_round_to_quarter_turn(rot) % (QUARTER_TURN as int) == 0,
{
    let m = if rot >= 0 {
        rot
    } else {
        -rot
    };
    let q = m / (QUARTER_TURN as int);
    let r = m % (QUARTER_TURN as int);
    let k = if 2 * r >= QUARTER_TURN {
        q + 1
    } else {
        q
    };
    vstd::arithmetic::div_mod::lemma_mod_multiples_basic(k, QUARTER_TURN as int);
    vstd::arithmetic::div_mod::lemma_mod_multiples_basic(-k, QUARTER_TURN as int);
    assert((-k) * (QUARTER_TURN as int) == -(k * (QUARTER_TURN as int))) by (nonlinear_arith);
}

/// Quarter-turn rounding keeps a rotation inside the engine's rotation
/// range.
pub proof fn lemma_round_quarter_range(rot: int)
    requires
        -ROT_LIMIT <= rot <= ROT_LIMIT,
    ensures
        -ROT_LIMIT <= spec_round_to_quarter_turn(rot) <= ROT_LIMIT,
{
    let m = if rot >= 0 {
        rot
    } else {
        -rot
    };
    let q = m / (QUARTER_TURN as int);
    let r = m % (QUARTER_TURN as int);
    let k = if 2 * r >= QUARTER_TURN {
        q + 1
    } else {
        q
    };
    vstd::arithmetic::div_mod::lemma_fundamental_div_mod(m, QUARTER_TURN as int);
    assert(k <= 400_000_000) by {
        if 2 * r >= QUARTER_TURN {
            if q >= 400_000_000 {
                assert((QUARTER_TURN as int) * q >= (QUARTER_TURN as int) * 400_000_000)
                    by (nonlinear_arith)
                    requires
                        q >= 400_000_000,
                ;
            }
        }
    };
    assert(k >= 0) by {
        vstd::arithmetic::div_mod::lemma_div_is_ordered(0, m, QUARTER_TURN as int);
    };
    assert(k * (QUARTER_TURN as int) <= ROT_LIMIT as int && 0 <= k * (QUARTER_TURN as int))
        by (nonlinear_arith)
        requires
            0 <= k <= 400_000_000,
    ;
}

/// The slope `dy / dx` as a fixed-point value, truncated toward zero and
/// capped at `RATIO_CAP` in magnitude. A nonpositive `dx` (the player never
/// moves backward; a zero `dx` only arises from a vanishing time delta)
/// yields the capped slope in the direction of `dy`.
pub open spec fn spec_ratio(dy: int, dx: int) -> int {
    if dx <= 0 {
        if dy > 0 {
            RATIO_CAP as int
        } else if dy < 0 {
            -RATIO_CAP as int
        } else {
            0
        }
    } else {
        spec_clamp(
            div_trunc(dy * (FX_SCALE as int), dx),
            -RATIO_CAP as int,
            RATIO_CAP as int,
        )
    }
}

/// Computes the capped fixed-point slope `dy / dx`.
pub fn ratio(dy: i64, dx: i64) -> (r: i64)
    requires
        -0x100000000000000 <= dy <= 0x100000000000000,
        -0x100000000000000 <= dx <= 0x100000000000000,
    ensures
        r == spec_ratio(dy as int, dx as int),
        -RATIO_CAP <= r <= RATIO_CAP,
{
    if dx <= 0 {
        if dy > 0 {
            RATIO_CAP
        } else if dy < 0 {
            -RATIO_CAP
        } else {
            0
        }
    } else {
        let m: u128 = if dy >= 0 {
            (dy as u128) * 10_000_000u128
        } else {
            ((-(dy as i128)) as u128) * 10_000_000u128
        };
        let q: u128 = m / (dx as u128);
        proof {
            if dy < 0 {
                assert((-(dy as int)) * (FX_SCALE as int) == -(dy as int * (FX_SCALE as int)))
                    by (nonlinear_arith);
            }
        }
        let qc: i64 = if q > (RATIO_CAP as u128) {
            RATIO_CAP
        } else {
            q as i64
        };
        if dy >= 0 {
            qc
        } else {
            -qc
        }
    }
}

/// Coefficient of the linear arctangent term: 45 degrees.
pub const ATAN_C1: i64 = 450_000_000;

/// Coefficient of the correction term of the arctangent approximation:
/// `0.273 radians` expressed in degrees (`15.6417`).
pub const ATAN_C2: i64 = 156_417_000;

/// The engine's arctangent, in fixed-point degrees, of a slope `x` in
/// `[0, 1]`: the rational approximation `45 x + 15.6417 x (1 - x)`,
/// accurate to about a quarter of a degree.
pub open spec fn spec_atan_unit(x: int) -> int {
    spec_fx_mul(ATAN_C1 as int, x) + spec_fx_mul(
        spec_fx_mul(ATAN_C2 as int, x),
        FX_SCALE as int - x,
    )
}

/// The engine's arctangent of a nonnegative slope: slopes above one go
/// through `atan(x) = 90 - atan(1 / x)` degrees.
pub open spec fn spec_atan_nonneg(x: int) -> int {
    if x <= FX_SCALE {
        spec_atan_unit(x)
    } else {
        QUARTER_TURN - spec_atan_unit((FX_SCALE as int) * (FX_SCALE as int) / x)
    }
}

/// The engine's arctangent of any slope, odd around zero.
pub open spec fn spec_atan_degrees(x: int) -> int {
    if x >= 0 {
        spec_atan_nonneg(x)
    } else {
        -spec_atan_nonneg(-x)
    }
}

/// The arctangent of a slope in `[0, 1]`.
fn atan_unit(x: i64) -> (r: i64)
    requires
        0 <= x <= FX_SCALE,
    ensures
        r == spec_atan_unit(x as int),
        0 <= r <= QUARTER_TURN,
{
    proof {
        lemma_mul_le_bound(ATAN_C1 as int, x as int, FX_SCALE as int);
        lemma_mul_le_bound(ATAN_C2 as int, x as int, FX_SCALE as int);
    }
    let t1 = fx_mul(ATAN_C1, x);
    let inner = fx_mul(ATAN_C2, x);
    proof {
        lemma_mul_le_bound(inner as int, FX_SCALE as int - x as int, FX_SCALE as int);
    }
    let t2 = fx_mul(inner, FX_SCALE - x);
    t1 + t2
}

/// For `0 <= b <= c` and `0 <= a`: `0 <= a * b / FX_SCALE <= a * c / FX_SCALE
/// <= a` when `c <= FX_SCALE`; gives the range facts `atan_unit` needs.
proof fn lemma_mul_le_bound(a: int, b: int, c: int)
    requires
        0 <= a,
        0 <= b <= c,
        c <= FX_SCALE,
    ensures
        0 <= spec_fx_mul(a, b) <= a,
        a * b >= 0,
        a * b <= a * (FX_SCALE as int),
{
    assert(0 <= a * b <= a * (FX_SCALE as int)) by (nonlinear_arith)
        requires
            0 <= a,
            0 <= b <= c,
            c <= FX_SCALE,
    ;
    vstd::arithmetic::div_mod::lemma_div_multiples_vanish(a, FX_SCALE as int);
    assert(a * b / (FX_SCALE as int) <= a * (FX_SCALE as int) / (FX_SCALE as int)) by {
        vstd::arithmetic::div_mod::lemma_div_is_ordered(
            a * b,
            a * (FX_SCALE as int),
            FX_SCALE as int,
        );
    };
    assert(a * b / (FX_SCALE as int) >= 0) by {
        vstd::arithmetic::div_mod::lemma_div_is_ordered(0, a * b, FX_SCALE as int);
    };
}

/// The engine's arctangent in fixed-point degrees of a fixed-point slope,
/// for slopes up to `RATIO_CAP` in magnitude.
pub fn atan_degrees(x: i64) -> (r: i64)
    requires
        -RATIO_CAP <= x <= RATIO_CAP,
    ensures
        r == spec_atan_degrees(x as int),
        -QUARTER_TURN <= r <= QUARTER_TURN,
{
    let m: i64 = if x >= 0 {
        x
    } else {
        -x
    };
    let a: i64 = if m <= FX_SCALE {
        atan_unit(m)
    } else {
        let recip: u64 = 100_000_000_000_000u64 / (m as u64);
        proof {
            assert(100_000_000_000_000int / (m as int) <= FX_SCALE) by {
                vstd::arithmetic::div_mod::lemma_div_is_ordered_by_denominator(
                    100_000_000_000_000int,
                    FX_SCALE as int,
                    m as int,
                );
            };
            vstd::arithmetic::div_mod::lemma_div_is_ordered(
                0,
                100_000_000_000_000int,
                m as int,
            );
        }
        QUARTER_TURN - atan_unit(recip as i64)
    };
    if x >= 0 {
        a
    } else {
        -a
    }
}

/// Clamps `v` into `[lo, hi]`.
pub open spec fn spec_clamp(v: int, lo: int, hi: int) -> int {
    if v < lo {
        lo
    } else if v > hi {
        hi
    } else {
        v
    }
}

/// Executable clamp into `[lo, hi]`.
pub fn clamp(v: i64, lo: i64, hi: i64) -> (r: i64)
    requires
        lo <= hi,
    ensures
        r == spec_clamp(v as int, lo as int, hi as int),
{
    if v < lo {
        lo
    } else if v > hi {
        hi
    } else {
        v
    }
}

} // verus!
