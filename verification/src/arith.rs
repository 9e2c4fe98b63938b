//! The arithmetic and logic semantics of the instruction set.
//!
//! Integer operations follow 32-bit (or 64-bit) two's-complement
//! wraparound: the mathematical result reduced modulo the type's range,
//! re-centred on the signed interval.  Division and remainder truncate
//! toward zero; dividing the most negative value by minus one wraps
//! instead of trapping; a zero divisor is a fatal condition reported to
//! the caller, never a silent result.

use vstd::prelude::*;
use crate::error::VmError;
use crate::things::{int_bits, int_val, long_bits, long_val, Value};

verus! {

/// The 32-bit two's-complement reduction of an integer.
pub open spec fn wrap32(x: int) -> int {
    let m = x % 0x1_0000_0000;
    if m < 0x8000_0000 {
        m
    } else {
        m - 0x1_0000_0000
    }
}

/// The 64-bit two's-complement reduction of an integer.
pub open spec fn wrap64(x: int) -> int {
    let m = x % 0x1_0000_0000_0000_0000;
    if m < 0x8000_0000_0000_0000 {
        m
    } else {
        m - 0x1_0000_0000_0000_0000
    }
}

/// Division truncated toward zero, defined for a nonzero divisor.
pub open spec fn trunc_div(a: int, b: int) -> int {
    if a >= 0 && b > 0 {
        a / b
    } else if a <= 0 && b < 0 {
        (-a) / (-b)
    } else if a < 0 {
        -((-a) / b)
    } else {
        -(a / (-b))
    }
}

/// The remainder that pairs with truncated division: it carries the
/// dividend's sign.
pub open spec fn trunc_rem(a: int, b: int) -> int {
    a - trunc_div(a, b) * b
}

/// Reduction is congruence: the wrapped sum of two in-range values.
proof fn lemma_wrap32_cases(s: int)
    requires
        -0x1_0000_0000 <= s < 0x1_0000_0000,
    ensures
        0 <= s < 0x8000_0000 ==> wrap32(s) == s,
        0x8000_0000 <= s ==> wrap32(s) == s - 0x1_0000_0000,
        -0x8000_0000 <= s < 0 ==> wrap32(s) == s,
        s < -0x8000_0000 ==> wrap32(s) == s + 0x1_0000_0000,
{
}

proof fn lemma_wrap64_cases(s: int)
    requires
        -0x1_0000_0000_0000_0000 <= s < 0x1_0000_0000_0000_0000,
    ensures
        0 <= s < 0x8000_0000_0000_0000 ==> wrap64(s) == s,
        0x8000_0000_0000_0000 <= s ==> wrap64(s) == s - 0x1_0000_0000_0000_0000,
        -0x8000_0000_0000_0000 <= s < 0 ==> wrap64(s) == s,
        s < -0x8000_0000_0000_0000 ==> wrap64(s) == s + 0x1_0000_0000_0000_0000,
{
}

/// 32-bit addition with wraparound.
pub fn jint_add(a: i32, b: i32) -> (r: i32)
    ensures
        r as int == wrap32(a + b),
{
    proof {
        lemma_wrap32_cases(a + b);
    }
    a.wrapping_add(b)
}

/// 32-bit subtraction with wraparound.
pub fn jint_sub(a: i32, b: i32) -> (r: i32)
    ensures
        r as int == wrap32(a - b),
{
    proof {
        lemma_wrap32_cases(a - b);
    }
    a.wrapping_sub(b)
}

/// 32-bit multiplication with wraparound.
pub fn jint_mul(a: i32, b: i32) -> (r: i32)
    ensures
        r as int == wrap32(a * b),
{
    a.wrapping_mul(b)
}

/// 32-bit negation with wraparound.
pub fn jint_neg(a: i32) -> (r: i32)
    ensures
        r as int == wrap32(-a),
{
    proof {
        lemma_wrap32_cases(-(a as int));
    }
    if a == i32::MIN {
        a
    } else {
        -a
    }
}

/// 32-bit division, truncated toward zero, with wraparound: dividing
/// the most negative value by minus one wraps to itself.  A zero
/// divisor is reported as the division fatal condition, if and only if
/// the divisor is zero.
pub fn jint_div(a: i32, b: i32) -> (r: Result<i32, VmError>)
    ensures
        match r {
            Ok(q) => b != 0 && q as int == wrap32(trunc_div(a as int, b as int)),
            Err(e) => b == 0 && e == VmError::DivisionByZero,
        },
{
    if b == 0 {
        return Err(VmError::DivisionByZero);
    }
    let neg = (a < 0) != (b < 0);
    let ma: u32 = if a < 0 {
        (-(a as i64)) as u32
    } else {
        a as u32
    };
    let mb: u32 = if b < 0 {
        (-(b as i64)) as u32
    } else {
        b as u32
    };
    let q: u32 = ma / mb;
    proof {
        lemma_udiv_le(ma as int, mb as int, q as int);
    }
    if neg {
        if q == 0x8000_0000 {
            Ok(i32::MIN)
        } else {
            Ok(-(q as i32))
        }
    } else {
        if q == 0x8000_0000 {
            proof {
                lemma_wrap32_cases(q as int);
            }
            Ok(i32::MIN)
        } else {
            Ok(q as i32)
        }
    }
}

/// 32-bit remainder of truncated division; it carries the dividend's
/// sign, and the most negative value modulo minus one is zero.  A zero
/// divisor is the division fatal condition, if and only if.
pub fn jint_rem(a: i32, b: i32) -> (r: Result<i32, VmError>)
    ensures
        match r {
            Ok(m) => b != 0 && m as int == trunc_rem(a as int, b as int),
            Err(e) => b == 0 && e == VmError::DivisionByZero,
        },
{
    if b == 0 {
        return Err(VmError::DivisionByZero);
    }
    let ma: u32 = if a < 0 {
        (-(a as i64)) as u32
    } else {
        a as u32
    };
    let mb: u32 = if b < 0 {
        (-(b as i64)) as u32
    } else {
        b as u32
    };
    let q: u32 = ma / mb;
    let m: u32 = ma % mb;
    proof {
        vstd::arithmetic::div_mod::lemma_fundamental_div_mod(ma as int, mb as int);
        lemma_udiv_le(ma as int, mb as int, q as int);
        let ai = a as int;
        let bi = b as int;
        let qi = q as int;
        let mi = m as int;
        let mbi = mb as int;
        assert(mbi * qi == qi * mbi) by (nonlinear_arith);
        if ai >= 0 && bi > 0 {
            assert(trunc_rem(ai, bi) == mi);
        } else if ai >= 0 {
            assert(trunc_div(ai, bi) == -qi);
            assert((-qi) * bi == qi * mbi) by (nonlinear_arith)
                requires
                    bi == -mbi,
            ;
            assert(trunc_rem(ai, bi) == mi);
        } else if bi > 0 {
            assert(trunc_div(ai, bi) == -qi);
            assert((-qi) * bi == -(qi * mbi)) by (nonlinear_arith)
                requires
                    bi == mbi,
            ;
            assert(trunc_rem(ai, bi) == -mi);
        } else {
            assert(trunc_div(ai, bi) == qi);
            assert(qi * bi == -(qi * mbi)) by (nonlinear_arith)
                requires
                    bi == -mbi,
            ;
            assert(trunc_rem(ai, bi) == -mi);
        }
    }
    if a < 0 {
        Ok(-(m as i32 as i64) as i32)
    } else {
        Ok(m as i32)
    }
}

/// 64-bit addition with wraparound.
pub fn jlong_add(a: i64, b: i64) -> (r: i64)
    ensures
        r as int == wrap64(a + b),
{
    proof {
        lemma_wrap64_cases(a + b);
    }
    a.wrapping_add(b)
}

/// 64-bit subtraction with wraparound.
pub fn jlong_sub(a: i64, b: i64) -> (r: i64)
    ensures
        r as int == wrap64(a - b),
{
    proof {
        lemma_wrap64_cases(a - b);
    }
    a.wrapping_sub(b)
}

/// 64-bit multiplication with wraparound.
pub fn jlong_mul(a: i64, b: i64) -> (r: i64)
    ensures
        r as int == wrap64(a * b),
{
    a.wrapping_mul(b)
}

/// 64-bit negation with wraparound.
pub fn jlong_neg(a: i64) -> (r: i64)
    ensures
        r as int == wrap64(-a),
{
    proof {
        lemma_wrap64_cases(-(a as int));
    }
    if a == i64::MIN {
        a
    } else {
        -a
    }
}

/// 64-bit division, truncated toward zero, with wraparound, and the
/// division fatal condition exactly on a zero divisor.
pub fn jlong_div(a: i64, b: i64) -> (r: Result<i64, VmError>)
    ensures
        match r {
            Ok(q) => b != 0 && q as int == wrap64(trunc_div(a as int, b as int)),
            Err(e) => b == 0 && e == VmError::DivisionByZero,
        },
{
    if b == 0 {
        return Err(VmError::DivisionByZero);
    }
    let neg = (a < 0) != (b < 0);
    let ma: u64 = if a < 0 {
        (-(a as i128)) as u64
    } else {
        a as u64
    };
    let mb: u64 = if b < 0 {
        (-(b as i128)) as u64
    } else {
        b as u64
    };
    let q: u64 = ma / mb;
    proof {
        lemma_udiv_le(ma as int, mb as int, q as int);
    }
    if neg {
        if q == 0x8000_0000_0000_0000 {
            Ok(i64::MIN)
        } else {
            Ok(-(q as i64))
        }
    } else {
        if q == 0x8000_0000_0000_0000 {
            proof {
                lemma_wrap64_cases(q as int);
            }
            Ok(i64::MIN)
        } else {
            Ok(q as i64)
        }
    }
}

/// 64-bit remainder of truncated division, and the division fatal
/// condition exactly on a zero divisor.
pub fn jlong_rem(a: i64, b: i64) -> (r: Result<i64, VmError>)
    ensures
        match r {
            Ok(m) => b != 0 && m as int == trunc_rem(a as int, b as int),
            Err(e) => b == 0 && e == VmError::DivisionByZero,
        },
{
    if b == 0 {
        return Err(VmError::DivisionByZero);
    }
    let ma: u64 = if a < 0 {
        (-(a as i128)) as u64
    } else {
        a as u64
    };
    let mb: u64 = if b < 0 {
        (-(b as i128)) as u64
    } else {
        b as u64
    };
    let q: u64 = ma / mb;
    let m: u64 = ma % mb;
    proof {
        vstd::arithmetic::div_mod::lemma_fundamental_div_mod(ma as int, mb as int);
        lemma_udiv_le(ma as int, mb as int, q as int);
        let ai = a as int;
        let bi = b as int;
        let qi = q as int;
        let mi = m as int;
        let mbi = mb as int;
        assert(mbi * qi == qi * mbi) by (nonlinear_arith);
        if ai >= 0 && bi > 0 {
            assert(trunc_rem(ai, bi) == mi);
        } else if ai >= 0 {
            assert(trunc_div(ai, bi) == -qi);
            assert((-qi) * bi == qi * mbi) by (nonlinear_arith)
                requires
                    bi == -mbi,
            ;
            assert(trunc_rem(ai, bi) == mi);
        } else if bi > 0 {
            assert(trunc_div(ai, bi) == -qi);
            assert((-qi) * bi == -(qi * mbi)) by (nonlinear_arith)
                requires
                    bi == mbi,
            ;
            assert(trunc_rem(ai, bi) == -mi);
        } else {
            assert(trunc_div(ai, bi) == qi);
            assert(qi * bi == -(qi * mbi)) by (nonlinear_arith)
                requires
                    bi == -mbi,
            ;
            assert(trunc_rem(ai, bi) == -mi);
        }
    }
    if a < 0 {
        Ok(-(m as i64 as i128) as i64)
    } else {
        Ok(m as i64)
    }
}


/// The quotient of non-negative division never exceeds the dividend.
proof fn lemma_udiv_le(x: int, d: int, q: int)
    requires
        0 <= x,
        1 <= d,
        q == x / d,
    ensures
        0 <= q <= x,
        x == d * q + x % d,
{
    vstd::arithmetic::div_mod::lemma_fundamental_div_mod(x, d);
    assert(0 <= x % d < d);
    assert(q <= d * q) by (nonlinear_arith)
        requires
            1 <= d,
            0 <= q,
    ;
    assert(0 <= q) by {
        if q < 0 {
            assert(d * q <= -d) by (nonlinear_arith)
                requires
                    1 <= d,
                    q <= -1,
            ;
        }
    }
}

/// The comparison value of two 64-bit integers: minus one, zero, or one.
pub fn jlong_cmp(a: i64, b: i64) -> (r: i32)
    ensures
        a < b ==> r == -1,
        a == b ==> r == 0,
        a > b ==> r == 1,
{
    if a < b {
        -1
    } else if a == b {
        0
    } else {
        1
    }
}


/// Left shift of the 32-bit pattern; the count is the shift operand's
/// low five bits.
pub fn vint_shl(a: Value, b: Value) -> (r: Value)
    ensures
        r.bits == ((((a.bits % 0x1_0000_0000) as u32) << ((b.bits % 32) as u32)) as u64),
{
    let low = (a.bits % 0x1_0000_0000) as u32;
    let sh = (b.bits % 32) as u32;
    Value { bits: (low << sh) as u64 }
}

/// Arithmetic right shift of the 32-bit value; the count is the shift
/// operand's low five bits.
pub fn vint_shr(a: Value, b: Value) -> (r: Value)
    ensures
        int_val(r.bits) == ((int_val(a.bits) as i32) >> ((b.bits % 32) as u32)) as int,
        r.bits == int_bits(((int_val(a.bits) as i32) >> ((b.bits % 32) as u32)) as int),
{
    let ai = a.as_int();
    let sh = (b.bits % 32) as u32;
    Value::nint(ai >> sh)
}

/// Logical right shift of the 32-bit pattern; the count is the shift
/// operand's low five bits.
pub fn vint_ushr(a: Value, b: Value) -> (r: Value)
    ensures
        r.bits == ((((a.bits % 0x1_0000_0000) as u32) >> ((b.bits % 32) as u32)) as u64),
{
    let low = (a.bits % 0x1_0000_0000) as u32;
    let sh = (b.bits % 32) as u32;
    Value { bits: (low >> sh) as u64 }
}

/// Bitwise conjunction of the 32-bit patterns.
pub fn vint_and(a: Value, b: Value) -> (r: Value)
    ensures
        r.bits == ((((a.bits % 0x1_0000_0000) as u32) & ((b.bits % 0x1_0000_0000) as u32)) as u64),
{
    Value { bits: (((a.bits % 0x1_0000_0000) as u32) & ((b.bits % 0x1_0000_0000) as u32)) as u64 }
}

/// Bitwise disjunction of the 32-bit patterns.
pub fn vint_or(a: Value, b: Value) -> (r: Value)
    ensures
        r.bits == ((((a.bits % 0x1_0000_0000) as u32) | ((b.bits % 0x1_0000_0000) as u32)) as u64),
{
    Value { bits: (((a.bits % 0x1_0000_0000) as u32) | ((b.bits % 0x1_0000_0000) as u32)) as u64 }
}

/// Bitwise exclusive disjunction of the 32-bit patterns.
pub fn vint_xor(a: Value, b: Value) -> (r: Value)
    ensures
        r.bits == ((((a.bits % 0x1_0000_0000) as u32) ^ ((b.bits % 0x1_0000_0000) as u32)) as u64),
{
    Value { bits: (((a.bits % 0x1_0000_0000) as u32) ^ ((b.bits % 0x1_0000_0000) as u32)) as u64 }
}

/// Left shift of the 64-bit pattern; the count is the shift operand's
/// low six bits.
pub fn vlong_shl(a: Value, b: Value) -> (r: Value)
    ensures
        r.bits == (a.bits << ((b.bits % 64) as u32)),
{
    Value { bits: a.bits << ((b.bits % 64) as u32) }
}

/// Arithmetic right shift of the 64-bit value; the count is the shift
/// operand's low six bits.
pub fn vlong_shr(a: Value, b: Value) -> (r: Value)
    ensures
        long_val(r.bits) == ((long_val(a.bits) as i64) >> ((b.bits % 64) as u32)) as int,
        r.bits == long_bits(((long_val(a.bits) as i64) >> ((b.bits % 64) as u32)) as int),
{
    let al = a.as_long();
    let sh = (b.bits % 64) as u32;
    Value::nlong(al >> sh)
}

/// Logical right shift of the 64-bit pattern; the count is the shift
/// operand's low six bits.
pub fn vlong_ushr(a: Value, b: Value) -> (r: Value)
    ensures
        r.bits == (a.bits >> ((b.bits % 64) as u32)),
{
    Value { bits: a.bits >> ((b.bits % 64) as u32) }
}

/// Bitwise conjunction of the 64-bit patterns.
pub fn vlong_and(a: Value, b: Value) -> (r: Value)
    ensures
        r.bits == (a.bits & b.bits),
{
    Value { bits: a.bits & b.bits }
}

/// Bitwise disjunction of the 64-bit patterns.
pub fn vlong_or(a: Value, b: Value) -> (r: Value)
    ensures
        r.bits == (a.bits | b.bits),
{
    Value { bits: a.bits | b.bits }
}

/// Bitwise exclusive disjunction of the 64-bit patterns.
pub fn vlong_xor(a: Value, b: Value) -> (r: Value)
    ensures
        r.bits == (a.bits ^ b.bits),
{
    Value { bits: a.bits ^ b.bits }
}

/// Widens the 32-bit value to 64 bits, preserving its value.
pub fn v_i2l(a: Value) -> (r: Value)
    ensures
        long_val(r.bits) == int_val(a.bits),
        r.bits == long_bits(int_val(a.bits)),
{
    let ai = a.as_int();
    Value::nlong(ai as i64)
}

/// Narrows the 64-bit pattern to its low 32 bits.
pub fn v_l2i(a: Value) -> (r: Value)
    ensures
        r.bits == a.bits % 0x1_0000_0000,
{
    Value { bits: a.bits % 0x1_0000_0000 }
}

/// Truncates to the low byte and sign-extends it back to 32 bits.
pub fn v_i2b(a: Value) -> (r: Value)
    ensures
        int_val(r.bits) == {
            let m = a.bits as int % 0x100;
            if m < 0x80 {
                m
            } else {
                m - 0x100
            }
        },
        r.bits == int_bits(
            {
                let m = a.bits as int % 0x100;
                if m < 0x80 {
                    m
                } else {
                    m - 0x100
                }
            },
        ),
{
    let m = a.bits % 0x100;
    if m < 0x80 {
        Value::nint(m as i32)
    } else {
        Value::nint((m as i64 - 0x100i64) as i32)
    }
}

/// Truncates to the low 16 bits, zero-extended: the character
/// conversion.
pub fn v_i2c(a: Value) -> (r: Value)
    ensures
        r.bits == a.bits % 0x1_0000,
{
    Value { bits: a.bits % 0x1_0000 }
}

/// Truncates to the low 16 bits and sign-extends them back to 32 bits.
pub fn v_i2s(a: Value) -> (r: Value)
    ensures
        int_val(r.bits) == {
            let m = a.bits as int % 0x1_0000;
            if m < 0x8000 {
                m
            } else {
                m - 0x1_0000
            }
        },
        r.bits == int_bits(
            {
                let m = a.bits as int % 0x1_0000;
                if m < 0x8000 {
                    m
                } else {
                    m - 0x1_0000
                }
            },
        ),
{
    let m = a.bits % 0x1_0000;
    if m < 0x8000 {
        Value::nint(m as i32)
    } else {
        Value::nint((m as i64 - 0x1_0000i64) as i32)
    }
}

/// The slot an integer addition leaves: the wrapped 32-bit sum.
pub open spec fn sv_iadd(a: Value, b: Value) -> Value {
    Value { bits: int_bits(wrap32(int_val(a.bits) + int_val(b.bits))) }
}

/// The slot an integer subtraction leaves.
pub open spec fn sv_isub(a: Value, b: Value) -> Value {
    Value { bits: int_bits(wrap32(int_val(a.bits) - int_val(b.bits))) }
}

/// The slot an integer multiplication leaves.
pub open spec fn sv_imul(a: Value, b: Value) -> Value {
    Value { bits: int_bits(wrap32(int_val(a.bits) * int_val(b.bits))) }
}

/// The slot an integer negation leaves.
pub open spec fn sv_ineg(a: Value) -> Value {
    Value { bits: int_bits(wrap32(-int_val(a.bits))) }
}

/// The slot an integer division leaves: the wrapped truncating quotient.
pub open spec fn sv_idiv(a: Value, b: Value) -> Value {
    Value { bits: int_bits(wrap32(trunc_div(int_val(a.bits), int_val(b.bits)))) }
}

/// The slot an integer remainder leaves.
pub open spec fn sv_irem(a: Value, b: Value) -> Value {
    Value { bits: int_bits(trunc_rem(int_val(a.bits), int_val(b.bits))) }
}

/// The slot a long addition leaves: the wrapped 64-bit sum.
pub open spec fn sv_ladd(a: Value, b: Value) -> Value {
    Value { bits: long_bits(wrap64(long_val(a.bits) + long_val(b.bits))) }
}

/// The slot a long subtraction leaves.
pub open spec fn sv_lsub(a: Value, b: Value) -> Value {
    Value { bits: long_bits(wrap64(long_val(a.bits) - long_val(b.bits))) }
}

/// The slot a long multiplication leaves.
pub open spec fn sv_lmul(a: Value, b: Value) -> Value {
    Value { bits: long_bits(wrap64(long_val(a.bits) * long_val(b.bits))) }
}

/// The slot a long negation leaves.
pub open spec fn sv_lneg(a: Value) -> Value {
    Value { bits: long_bits(wrap64(-long_val(a.bits))) }
}

/// The slot a long division leaves.
pub open spec fn sv_ldiv(a: Value, b: Value) -> Value {
    Value { bits: long_bits(wrap64(trunc_div(long_val(a.bits), long_val(b.bits)))) }
}

/// The slot a long remainder leaves.
pub open spec fn sv_lrem(a: Value, b: Value) -> Value {
    Value { bits: long_bits(trunc_rem(long_val(a.bits), long_val(b.bits))) }
}

/// The slot an integer left shift leaves.
pub open spec fn sv_ishl(a: Value, b: Value) -> Value {
    Value { bits: ((((a.bits as int % 0x1_0000_0000) as u32) << (((b.bits as int) % 32) as u32)) as u64) }
}

/// The slot an integer arithmetic right shift leaves.
pub open spec fn sv_ishr(a: Value, b: Value) -> Value {
    Value { bits: int_bits(((int_val(a.bits) as i32) >> (((b.bits as int) % 32) as u32)) as int) }
}

/// The slot an integer logical right shift leaves.
pub open spec fn sv_iushr(a: Value, b: Value) -> Value {
    Value { bits: ((((a.bits as int % 0x1_0000_0000) as u32) >> (((b.bits as int) % 32) as u32)) as u64) }
}

/// The slot an integer bitwise conjunction leaves.
pub open spec fn sv_iand(a: Value, b: Value) -> Value {
    Value { bits: ((((a.bits as int % 0x1_0000_0000) as u32) & ((b.bits as int % 0x1_0000_0000) as u32)) as u64) }
}

/// The slot an integer bitwise disjunction leaves.
pub open spec fn sv_ior(a: Value, b: Value) -> Value {
    Value { bits: ((((a.bits as int % 0x1_0000_0000) as u32) | ((b.bits as int % 0x1_0000_0000) as u32)) as u64) }
}

/// The slot an integer bitwise exclusive disjunction leaves.
pub open spec fn sv_ixor(a: Value, b: Value) -> Value {
    Value { bits: ((((a.bits as int % 0x1_0000_0000) as u32) ^ ((b.bits as int % 0x1_0000_0000) as u32)) as u64) }
}

/// The slot a long left shift leaves.
pub open spec fn sv_lshl(a: Value, b: Value) -> Value {
    Value { bits: (a.bits << (((b.bits as int) % 64) as u32)) }
}

/// The slot a long arithmetic right shift leaves.
pub open spec fn sv_lshr(a: Value, b: Value) -> Value {
    Value { bits: long_bits(((long_val(a.bits) as i64) >> (((b.bits as int) % 64) as u32)) as int) }
}

/// The slot a long logical right shift leaves.
pub open spec fn sv_lushr(a: Value, b: Value) -> Value {
    Value { bits: (a.bits >> (((b.bits as int) % 64) as u32)) }
}

/// The slot a long bitwise conjunction leaves.
pub open spec fn sv_land(a: Value, b: Value) -> Value {
    Value { bits: (a.bits & b.bits) }
}

/// The slot a long bitwise disjunction leaves.
pub open spec fn sv_lor(a: Value, b: Value) -> Value {
    Value { bits: (a.bits | b.bits) }
}

/// The slot a long bitwise exclusive disjunction leaves.
pub open spec fn sv_lxor(a: Value, b: Value) -> Value {
    Value { bits: (a.bits ^ b.bits) }
}

/// The slot the int-to-long widening leaves.
pub open spec fn sv_i2l(a: Value) -> Value {
    Value { bits: long_bits(int_val(a.bits)) }
}

/// The slot the long-to-int narrowing leaves: the low 32 bits.
pub open spec fn sv_l2i(a: Value) -> Value {
    Value { bits: ((a.bits as int) % 0x1_0000_0000) as u64 }
}

/// The slot the int-to-byte truncation leaves: the low byte,
/// sign-extended.
pub open spec fn sv_i2b(a: Value) -> Value {
    Value {
        bits: int_bits(
            {
                let m = (a.bits as int) % 0x100;
                if m < 0x80 {
                    m
                } else {
                    m - 0x100
                }
            },
        ),
    }
}

/// The slot the int-to-char truncation leaves: the low 16 bits,
/// zero-extended.
pub open spec fn sv_i2c(a: Value) -> Value {
    Value { bits: ((a.bits as int) % 0x1_0000) as u64 }
}

/// The slot the int-to-short truncation leaves: the low 16 bits,
/// sign-extended.
pub open spec fn sv_i2s(a: Value) -> Value {
    Value {
        bits: int_bits(
            {
                let m = (a.bits as int) % 0x1_0000;
                if m < 0x8000 {
                    m
                } else {
                    m - 0x1_0000
                }
            },
        ),
    }
}

/// The slot a long comparison leaves: minus one, zero or one.
pub open spec fn sv_lcmp(a: Value, b: Value) -> Value {
    Value {
        bits: int_bits(
            if long_val(a.bits) < long_val(b.bits) {
                -1
            } else if long_val(a.bits) == long_val(b.bits) {
                0
            } else {
                1
            },
        ),
    }
}

} // verus!
