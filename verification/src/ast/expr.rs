//! Expressions.

use vstd::prelude::*;
use vstd::string::StringSliceAdditionalSpecFns;

use super::ident::{is_name, Ident};
use crate::lexer::bytes::{DIGIT_0, MINUS, PLUS};
use crate::lexer::pred::{all_digits, is_ascii_digit, is_digit_byte, is_number};

verus! {

/// An arithmetic operator.
#[derive(Debug, PartialEq, Eq, Clone, Copy, Structural)]
pub enum BinOp {
    Plus,
    Minus,
    Mul,
    Div,
}

/// An expression.
#[derive(Debug, PartialEq, Eq)]
pub enum Expr<'a> {
    IntLit(i128),
    Binary(BinaryExpr<'a>),
    Ident(Ident<'a>),
}

/// Two operands and the operator between them.
#[derive(Debug, PartialEq, Eq)]
pub struct BinaryExpr<'a> {
    pub left: Box<Expr<'a>>,
    pub right: Box<Expr<'a>>,
    pub op: BinOp,
}

/// An expression as a mathematical value. A name stands as its bytes.
pub enum SpecExpr {
    IntLit(int),
    Binary(SpecBinaryExpr),
    Ident(Seq<u8>),
}

/// A binary expression as a mathematical value.
pub struct SpecBinaryExpr {
    pub left: Box<SpecExpr>,
    pub right: Box<SpecExpr>,
    pub op: BinOp,
}

impl SpecExpr {
    /// Whether the expression is one that parsing gives: a name, or a
    /// literal that is not negative and fits in 128 bits with a sign.
    pub open spec fn in_source_form(self) -> bool {
        match self {
            SpecExpr::IntLit(value) => 0 <= value <= i128::MAX,
            SpecExpr::Ident(name) => is_name(name),
            SpecExpr::Binary(_) => false,
        }
    }
}

impl<'a> Expr<'a> {
    /// The mathematical value of the expression.
    pub open spec fn model(&self) -> SpecExpr
        decreases self,
    {
        match self {
            Expr::IntLit(value) => SpecExpr::IntLit(*value as int),
            Expr::Binary(binary) => SpecExpr::Binary(
                SpecBinaryExpr {
                    left: Box::new(binary.left.model()),
                    right: Box::new(binary.right.model()),
                    op: binary.op,
                },
            ),
            Expr::Ident(name) => SpecExpr::Ident(name.spec_bytes()),
        }
    }
}

impl<'a> View for Expr<'a> {
    type V = SpecExpr;

    open spec fn view(&self) -> SpecExpr {
        self.model()
    }
}

impl<'a> View for BinaryExpr<'a> {
    type V = SpecBinaryExpr;

    open spec fn view(&self) -> SpecBinaryExpr {
        SpecBinaryExpr { left: Box::new(self.left@), right: Box::new(self.right@), op: self.op }
    }
}

/// Why a piece of text is no integer literal.
#[derive(Debug, PartialEq, Eq, Clone, Copy, Structural)]
pub enum IntLitParseError {
    /// The text is empty.
    Empty,
    /// The text holds a byte that is no digit, or no digit at all.
    InvalidDigit,
    /// The number is too large.
    PosOverflow,
    /// The number is too small.
    NegOverflow,
}

/// The number that the digits `digits` write in base ten, the first digit
/// counting most. Leading zeros change nothing.
pub open spec fn decimal_value(digits: Seq<u8>) -> int
    decreases digits.len(),
{
    if digits.len() == 0 {
        0
    } else {
        decimal_value(digits.drop_last()) * 10 + (digits.last() - DIGIT_0)
    }
}

/// Whether `lit` starts with a sign, `+` or `-`.
pub open spec fn has_sign(lit: Seq<u8>) -> bool {
    lit.len() > 0 && (lit[0] == PLUS || lit[0] == MINUS)
}

/// The digits of `lit`: all of it but a leading sign.
pub open spec fn digits_of(lit: Seq<u8>) -> Seq<u8> {
    if has_sign(lit) {
        lit.skip(1)
    } else {
        lit
    }
}

/// The integer that `lit` writes, or why it writes none: an optional sign,
/// `+` or `-`, then one digit or more, in base ten, and the number fits
/// in 128 bits with a sign.
pub open spec fn int_of_literal(lit: Seq<u8>) -> Result<int, IntLitParseError> {
    let digits = digits_of(lit);
    let value = if lit.len() > 0 && lit[0] == MINUS {
        -decimal_value(digits)
    } else {
        decimal_value(digits)
    };
    if lit.len() == 0 {
        Err(IntLitParseError::Empty)
    } else if digits.len() == 0 || !all_digits(digits) {
        Err(IntLitParseError::InvalidDigit)
    } else if value > i128::MAX {
        Err(IntLitParseError::PosOverflow)
    } else if value < i128::MIN {
        Err(IntLitParseError::NegOverflow)
    } else {
        Ok(value)
    }
}

/// The value of digits is not negative.
pub proof fn lemma_decimal_value_nonnegative(digits: Seq<u8>)
    requires
        all_digits(digits),
    ensures
        decimal_value(digits) >= 0,
    decreases digits.len(),
{
    if digits.len() > 0 {
        assert forall|i: int| 0 <= i < digits.drop_last().len() implies is_digit_byte(
            #[trigger] digits.drop_last()[i],
        ) by {
            assert(digits.drop_last()[i] == digits[i]);
        }
        lemma_decimal_value_nonnegative(digits.drop_last());
        assert(is_digit_byte(digits[digits.len() - 1]));
    }
}

/// Digits write their value in base ten, whatever their number: a number
/// of digits alone is the literal of that value where the value fits in 128
/// bits with a sign, and too large a literal otherwise.
pub proof fn law_digits_value(digits: Seq<u8>)
    requires
        is_number(digits),
    ensures
        decimal_value(digits) >= 0,
        int_of_literal(digits) == if decimal_value(digits) <= i128::MAX {
            Ok::<int, IntLitParseError>(decimal_value(digits))
        } else {
            Err(IntLitParseError::PosOverflow)
        },
{
    assert(is_digit_byte(digits[0]));
    lemma_decimal_value_nonnegative(digits);
}

/// Zeros before digits change nothing of their value: leading zeros do not
/// make a number octal.
pub proof fn law_leading_zeros(zeros: Seq<u8>, digits: Seq<u8>)
    requires
        forall|i: int| 0 <= i < zeros.len() ==> #[trigger] zeros[i] == DIGIT_0,
    ensures
        decimal_value(zeros + digits) == decimal_value(digits),
    decreases digits.len(),
{
    let all = zeros + digits;
    if digits.len() == 0 {
        assert(all =~= zeros);
        lemma_zeros_value(zeros);
    } else {
        assert(all.drop_last() =~= zeros + digits.drop_last());
        assert(all.last() == digits.last());
        law_leading_zeros(zeros, digits.drop_last());
    }
}

/// The value of zeros is zero.
proof fn lemma_zeros_value(zeros: Seq<u8>)
    requires
        forall|i: int| 0 <= i < zeros.len() ==> #[trigger] zeros[i] == DIGIT_0,
    ensures
        decimal_value(zeros) == 0,
    decreases zeros.len(),
{
    if zeros.len() > 0 {
        assert(zeros.last() == DIGIT_0);
        let front = zeros.drop_last();
        assert forall|i: int| 0 <= i < front.len() implies #[trigger] front[i] == DIGIT_0 by {
            assert(front[i] == zeros[i]);
        }
        lemma_zeros_value(front);
    }
}

impl<'a> Expr<'a> {
    /// The integer literal that the text `lit` writes.
    ///
    /// The text is an optional sign and then digits in base ten; leading
    /// zeros are allowed and change nothing. A number that does not fit in
    /// 128 bits is an error, as is any other text.
    pub fn parse_int(lit: &'_ [u8]) -> (res: Result<Self, IntLitParseError>)
        ensures
            match int_of_literal(lit@) {
                Ok(value) => res matches Ok(expr) && expr@ == SpecExpr::IntLit(value),
                Err(why) => res == Err::<Self, IntLitParseError>(why),
            },
    {
        if lit.len() == 0 {
            return Err(IntLitParseError::Empty);
        }
        let negative = lit[0] == MINUS;
        let start: usize = if lit[0] == PLUS || lit[0] == MINUS {
            1
        } else {
            0
        };
        if start == lit.len() {
            return Err(IntLitParseError::InvalidDigit);
        }
        let ghost digits = digits_of(lit@);
        let mut value: i128 = 0;
        let mut overflow = false;
        let mut i: usize = start;
        while i < lit.len()
            invariant
                start <= i <= lit@.len(),
                lit@.len() > 0,
                negative == (lit@[0] == MINUS),
                digits == digits_of(lit@),
                digits == lit@.skip(start as int),
                all_digits(digits.take(i - start)),
                !overflow ==> value == if negative {
                    -decimal_value(digits.take(i - start))
                } else {
                    decimal_value(digits.take(i - start))
                },
                overflow && negative ==> -decimal_value(digits.take(i - start)) < i128::MIN,
                overflow && !negative ==> decimal_value(digits.take(i - start)) > i128::MAX,
            decreases lit@.len() - i,
        {
            let c = lit[i];
            if !is_ascii_digit(c) {
                proof {
                    assert(digits[i - start] == c);
                }
                return Err(IntLitParseError::InvalidDigit);
            }
            proof {
                assert(digits[i - start] == c);
                assert(all_digits(digits.take(i - start + 1))) by {
                    assert forall|k: int|
                        0 <= k < digits.take(i - start + 1).len() implies is_digit_byte(
                        #[trigger] digits.take(i - start + 1)[k],
                    ) by {
                        if k < i - start {
                            assert(digits.take(i - start)[k] == digits[k]);
                        }
                    }
                }
                assert(digits.take(i - start + 1).drop_last() =~= digits.take(i - start));
                lemma_decimal_value_nonnegative(digits.take(i - start));
            }
            if !overflow {
                let digit = (c - DIGIT_0) as i128;
                let next = match value.checked_mul(10) {
                    Some(shifted) => if negative {
                        shifted.checked_sub(digit)
                    } else {
                        shifted.checked_add(digit)
                    },
                    None => None,
                };
                match next {
                    Some(n) => {
                        value = n;
                    },
                    None => {
                        overflow = true;
                    },
                }
            }
            i += 1;
        }
        proof {
            assert(digits.take(i - start) =~= digits);
        }
        if overflow {
            if negative {
                Err(IntLitParseError::NegOverflow)
            } else {
                Err(IntLitParseError::PosOverflow)
            }
        } else {
            Ok(Expr::IntLit(value))
        }
    }
}

} // verus!
