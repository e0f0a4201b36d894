//! The factorial, and the conversions between the unit of angles and the
//! radians that the trigonometric kernels work in.

use vstd::prelude::*;
use vstd::arithmetic::power2::{lemma2_to64, lemma2_to64_rest, pow2};
use crate::ast::BinOp;
use crate::context::AngleMode;
use crate::error::EvalError;
use crate::host::{answer, ask, Kernel, Request, Step};
use crate::number::{
    lemma_decode, lemma_decode_large, lemma_whole_is_the_value, value, whole, whole_number, Whole,
    PI, TWO_HUNDRED,
};

verus! {

/// `n!`.
pub open spec fn factorial_of(n: nat) -> nat
    decreases n,
{
    if n == 0 {
        1
    } else {
        n * factorial_of((n - 1) as nat)
    }
}

/// The greatest number whose factorial is computed.  All factorials up to
/// this one are binary64 values.
pub const FACTORIAL_LIMIT: u64 = 20;

/// The bits of `k!`, for `k` up to [`FACTORIAL_LIMIT`].
pub open spec fn factorial_bits(k: nat) -> u64 {
    if k <= 1 {
        0x3FF0_0000_0000_0000
    } else if k == 2 {
        0x4000_0000_0000_0000
    } else if k == 3 {
        0x4018_0000_0000_0000
    } else if k == 4 {
        0x4038_0000_0000_0000
    } else if k == 5 {
        0x405E_0000_0000_0000
    } else if k == 6 {
        0x4086_8000_0000_0000
    } else if k == 7 {
        0x40B3_B000_0000_0000
    } else if k == 8 {
        0x40E3_B000_0000_0000
    } else if k == 9 {
        0x4116_2600_0000_0000
    } else if k == 10 {
        0x414B_AF80_0000_0000
    } else if k == 11 {
        0x4183_08A8_0000_0000
    } else if k == 12 {
        0x41BC_8CFC_0000_0000
    } else if k == 13 {
        0x41F7_328C_C000_0000
    } else if k == 14 {
        0x4234_4C3B_2800_0000
    } else if k == 15 {
        0x4273_0777_7580_0000
    } else if k == 16 {
        0x42B3_0777_7580_0000
    } else if k == 17 {
        0x42F4_37EE_ECD8_0000
    } else if k == 18 {
        0x4336_BEEC_CA73_0000
    } else if k == 19 {
        0x437B_02B9_3068_9000
    } else {
        0x43C0_E1B3_BE41_5A00
    }
}

/// The factorial of a number: of a whole number up to [`FACTORIAL_LIMIT`]
/// its factorial, of a greater one and of any other value an error.
pub open spec fn factorial_spec(bits: u64) -> Result<u64, EvalError<Seq<char>>> {
    match whole(bits) {
        None => Err(EvalError::MathError("Factorial requires non-negative integers"@)),
        Some(k) => if k > FACTORIAL_LIMIT {
            Err(EvalError::MathError("Factorial too large"@))
        } else {
            Ok(factorial_bits(k))
        },
    }
}

/// The factorial of a number.
pub fn factorial(n: u64) -> (r: Result<u64, EvalError>)
    ensures
        match factorial_spec(n) {
            Ok(bits) => r matches Ok(v) && v == bits,
            Err(e) => r matches Err(x) && x@ == e,
        },
{
    match whole_number(n, FACTORIAL_LIMIT) {
        Whole::No => Err(
            EvalError::MathError(String::from_str("Factorial requires non-negative integers")),
        ),
        Whole::Large => Err(EvalError::MathError(String::from_str("Factorial too large"))),
        Whole::Small(k) => Ok(factorial_table(k)),
    }
}

fn factorial_table(k: u64) -> (r: u64)
    requires
        k <= FACTORIAL_LIMIT,
    ensures
        r == factorial_bits(k as nat),
{
    if k <= 1 {
        0x3FF0_0000_0000_0000
    } else if k == 2 {
        0x4000_0000_0000_0000
    } else if k == 3 {
        0x4018_0000_0000_0000
    } else if k == 4 {
        0x4038_0000_0000_0000
    } else if k == 5 {
        0x405E_0000_0000_0000
    } else if k == 6 {
        0x4086_8000_0000_0000
    } else if k == 7 {
        0x40B3_B000_0000_0000
    } else if k == 8 {
        0x40E3_B000_0000_0000
    } else if k == 9 {
        0x4116_2600_0000_0000
    } else if k == 10 {
        0x414B_AF80_0000_0000
    } else if k == 11 {
        0x4183_08A8_0000_0000
    } else if k == 12 {
        0x41BC_8CFC_0000_0000
    } else if k == 13 {
        0x41F7_328C_C000_0000
    } else if k == 14 {
        0x4234_4C3B_2800_0000
    } else if k == 15 {
        0x4273_0777_7580_0000
    } else if k == 16 {
        0x42B3_0777_7580_0000
    } else if k == 17 {
        0x42F4_37EE_ECD8_0000
    } else if k == 18 {
        0x4336_BEEC_CA73_0000
    } else if k == 19 {
        0x437B_02B9_3068_9000
    } else {
        0x43C0_E1B3_BE41_5A00
    }
}

/// The bits given for `k!` hold the number `k!`, exactly.
pub proof fn lemma_factorial_bits(k: nat)
    requires
        k <= FACTORIAL_LIMIT,
    ensures
        whole(factorial_bits(k)) == Some(factorial_of(k)),
        value(factorial_bits(k)) == factorial_of(k) * pow2(1074),
{
    lemma_factorial_bits_are_whole(k);
    lemma_whole_is_the_value(factorial_bits(k), factorial_of(k));
}

/// The bits given for `k!` hold the whole number `k!`.
proof fn lemma_factorial_bits_are_whole(k: nat)
    requires
        k <= FACTORIAL_LIMIT,
    ensures
        whole(factorial_bits(k)) == Some(factorial_of(k)),
{
    lemma2_to64();
    lemma2_to64_rest();
    assert(factorial_of(0) == 1);
    assert(factorial_of(1) == 1);
    assert(factorial_of(2) == 2);
    assert(factorial_of(3) == 6);
    assert(factorial_of(4) == 24);
    assert(factorial_of(5) == 120);
    assert(factorial_of(6) == 720);
    assert(factorial_of(7) == 5040);
    assert(factorial_of(8) == 40320);
    assert(factorial_of(9) == 362880);
    assert(factorial_of(10) == 3628800);
    assert(factorial_of(11) == 39916800);
    assert(factorial_of(12) == 479001600);
    assert(factorial_of(13) == 6227020800);
    assert(factorial_of(14) == 87178291200);
    assert(factorial_of(15) == 1307674368000);
    assert(factorial_of(16) == 20922789888000);
    assert(factorial_of(17) == 355687428096000);
    assert(factorial_of(18) == 6402373705728000);
    assert(factorial_of(19) == 121645100408832000);
    assert(factorial_of(20) == 2432902008176640000);
    if k == 0 {
        lemma_decode(0x3ff0000000000000, 1023, 0x0, 52, 0x10000000000000, 1);
    }
    if k == 1 {
        lemma_decode(0x3ff0000000000000, 1023, 0x0, 52, 0x10000000000000, 1);
    }
    if k == 2 {
        lemma_decode(0x4000000000000000, 1024, 0x0, 51, 0x8000000000000, 2);
    }
    if k == 3 {
        lemma_decode(0x4018000000000000, 1025, 0x8000000000000, 50, 0x4000000000000, 6);
    }
    if k == 4 {
        lemma_decode(0x4038000000000000, 1027, 0x8000000000000, 48, 0x1000000000000, 24);
    }
    if k == 5 {
        lemma_decode(0x405e000000000000, 1029, 0xe000000000000, 46, 0x400000000000, 120);
    }
    if k == 6 {
        lemma_decode(0x4086800000000000, 1032, 0x6800000000000, 43, 0x80000000000, 720);
    }
    if k == 7 {
        lemma_decode(0x40b3b00000000000, 1035, 0x3b00000000000, 40, 0x10000000000, 5040);
    }
    if k == 8 {
        lemma_decode(0x40e3b00000000000, 1038, 0x3b00000000000, 37, 0x2000000000, 40320);
    }
    if k == 9 {
        lemma_decode(0x4116260000000000, 1041, 0x6260000000000, 34, 0x400000000, 362880);
    }
    if k == 10 {
        lemma_decode(0x414baf8000000000, 1044, 0xbaf8000000000, 31, 0x80000000, 3628800);
    }
    if k == 11 {
        lemma_decode(0x418308a800000000, 1048, 0x308a800000000, 27, 0x8000000, 39916800);
    }
    if k == 12 {
        lemma_decode(0x41bc8cfc00000000, 1051, 0xc8cfc00000000, 24, 0x1000000, 479001600);
    }
    if k == 13 {
        lemma_decode(0x41f7328cc0000000, 1055, 0x7328cc0000000, 20, 0x100000, 6227020800);
    }
    if k == 14 {
        lemma_decode(0x42344c3b28000000, 1059, 0x44c3b28000000, 16, 0x10000, 87178291200);
    }
    if k == 15 {
        lemma_decode(0x4273077775800000, 1063, 0x3077775800000, 12, 0x1000, 1307674368000);
    }
    if k == 16 {
        lemma_decode(0x42b3077775800000, 1067, 0x3077775800000, 8, 0x100, 20922789888000);
    }
    if k == 17 {
        lemma_decode(0x42f437eeecd80000, 1071, 0x437eeecd80000, 4, 0x10, 355687428096000);
    }
    if k == 18 {
        lemma_decode_large(0x4336beecca730000, 1075, 0x6beecca730000, 0, 0x1, 6402373705728000);
    }
    if k == 19 {
        lemma_decode_large(0x437b02b930689000, 1079, 0xb02b930689000, 4, 0x10, 121645100408832000);
    }
    if k == 20 {
        lemma_decode_large(0x43c0e1b3be415a00, 1084, 0xe1b3be415a00, 9, 0x200, 2432902008176640000);
    }
}

/// An angle given in the unit `mode`, in radians: degrees by the host's
/// conversion, gradians times pi over 200.
pub open spec fn to_radians_spec(angle: u64, mode: AngleMode, answers: Seq<u64>, used: nat) -> (
    Step<Seq<char>>,
    nat,
) {
    match mode {
        AngleMode::Degrees => answer(Request::Unary(Kernel::ToRadians, angle), answers, used),
        AngleMode::Radians => (Step::Done(angle), used),
        AngleMode::Gradians => match answer(
            Request::Binary(BinOp::Multiply, angle, PI),
            answers,
            used,
        ) {
            (Step::Done(product), u) => answer(
                Request::Binary(BinOp::Divide, product, TWO_HUNDRED),
                answers,
                u,
            ),
            other => other,
        },
    }
}

/// An angle given in radians, in the unit `mode`: degrees by the host's
/// conversion, gradians times 200 over pi.
pub open spec fn from_radians_spec(angle: u64, mode: AngleMode, answers: Seq<u64>, used: nat) -> (
    Step<Seq<char>>,
    nat,
) {
    match mode {
        AngleMode::Degrees => answer(Request::Unary(Kernel::ToDegrees, angle), answers, used),
        AngleMode::Radians => (Step::Done(angle), used),
        AngleMode::Gradians => match answer(
            Request::Binary(BinOp::Multiply, angle, TWO_HUNDRED),
            answers,
            used,
        ) {
            (Step::Done(product), u) => answer(
                Request::Binary(BinOp::Divide, product, PI),
                answers,
                u,
            ),
            other => other,
        },
    }
}

/// An angle given in the unit `mode`, in radians.
pub fn to_radians(angle: u64, mode: AngleMode, answers: &Vec<u64>, used: &mut usize) -> (r: Step)
    ensures
        r@ == to_radians_spec(angle, mode, answers@, *old(used) as nat).0,
        *final(used) == to_radians_spec(angle, mode, answers@, *old(used) as nat).1,
{
    match mode {
        AngleMode::Degrees => ask(Request::Unary(Kernel::ToRadians, angle), answers, used),
        AngleMode::Radians => Step::Done(angle),
        AngleMode::Gradians => {
            match ask(Request::Binary(BinOp::Multiply, angle, PI), answers, used) {
                Step::Done(product) => ask(
                    Request::Binary(BinOp::Divide, product, TWO_HUNDRED),
                    answers,
                    used,
                ),
                other => other,
            }
        },
    }
}

/// An angle given in radians, in the unit `mode`.
pub fn from_radians(angle: u64, mode: AngleMode, answers: &Vec<u64>, used: &mut usize) -> (r: Step)
    ensures
        r@ == from_radians_spec(angle, mode, answers@, *old(used) as nat).0,
        *final(used) == from_radians_spec(angle, mode, answers@, *old(used) as nat).1,
{
    match mode {
        AngleMode::Degrees => ask(Request::Unary(Kernel::ToDegrees, angle), answers, used),
        AngleMode::Radians => Step::Done(angle),
        AngleMode::Gradians => {
            match ask(Request::Binary(BinOp::Multiply, angle, TWO_HUNDRED), answers, used) {
                Step::Done(product) => ask(
                    Request::Binary(BinOp::Divide, product, PI),
                    answers,
                    used,
                ),
                other => other,
            }
        },
    }
}

} // verus!
