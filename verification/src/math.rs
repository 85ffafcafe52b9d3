//! `mod` on integers: the remainder that has the sign of the divisor.
use vstd::prelude::*;

use crate::error::{ErrorMessage, LispError, TypePredicate};
use crate::marker::Buffers;
use crate::tag::{fixnum_value, in_fixnum_range, is_fixnum_word, word_tag, LispObject};

verus! {

/// X modulo Y, between zero (inclusive) and Y (exclusive).
pub open spec fn lisp_mod(x: int, y: int) -> int {
    if y > 0 {
        x % y
    } else {
        -((-x) % (-y))
    }
}

/// The remainder of a negated number.
proof fn lemma_neg_mod(a: int, b: int)
    requires
        a >= 0,
        b > 0,
    ensures
        (-a) % b == (if a % b == 0 {
            0
        } else {
            b - a % b
        }),
{
    let q = a / b;
    let m = a % b;
    vstd::arithmetic::div_mod::lemma_fundamental_div_mod(a, b);
    assert(0 <= m < b);
    if m == 0 {
        assert(-a == b * (-q) + 0) by (nonlinear_arith)
            requires
                a == b * q + m,
                m == 0,
        ;
        vstd::arithmetic::div_mod::lemma_fundamental_div_mod_converse(-a, b, -q, 0);
    } else {
        assert(-a == b * (-q - 1) + (b - m)) by (nonlinear_arith)
            requires
                a == b * q + m,
        ;
        vstd::arithmetic::div_mod::lemma_fundamental_div_mod_converse(-a, b, -q - 1, b - m);
    }
}

/// X modulo Y for fixnums, Y not zero.
pub fn mod_integers(x: i64, y: i64) -> (r: i64)
    requires
        y != 0,
        in_fixnum_range(x as int),
        in_fixnum_range(y as int),
    ensures
        r == lisp_mod(x as int, y as int),
{
    let b: i64 = if y < 0 {
        -y
    } else {
        y
    };
    let mut i1 = x % b;
    proof {
        if x >= 0 {
            assert(i1 == (x as int) % (b as int));
            lemma_neg_mod(x as int, b as int);
        } else {
            assert(i1 == -((-x as int) % (b as int)));
            lemma_neg_mod(-x as int, b as int);
        }
    }
    if y < 0 && i1 > 0 || y > 0 && i1 < 0 {
        i1 = i1 + y;
    }
    i1
}

/// `d` is `k` times `y`.
pub open spec fn multiple_of(d: int, y: int, k: int) -> bool {
    d == k * y
}

/// The result falls between zero (inclusive) and Y (exclusive), and
/// differs from X by a multiple of Y.
pub proof fn lemma_mod_range(x: int, y: int)
    requires
        y != 0,
    ensures
        y > 0 ==> 0 <= lisp_mod(x, y) < y,
        y < 0 ==> y < lisp_mod(x, y) <= 0,
        exists|k: int| #[trigger] multiple_of(x - lisp_mod(x, y), y, k),
{
    if y > 0 {
        vstd::arithmetic::div_mod::lemma_fundamental_div_mod(x, y);
        let q = x / y;
        assert(x - lisp_mod(x, y) == q * y) by (nonlinear_arith)
            requires
                x == y * q + x % y,
                lisp_mod(x, y) == x % y,
        ;
        assert(multiple_of(x - lisp_mod(x, y), y, q));
    } else {
        vstd::arithmetic::div_mod::lemma_fundamental_div_mod(-x, -y);
        let q = (-x) / (-y);
        assert(x - lisp_mod(x, y) == q * y) by (nonlinear_arith)
            requires
                -x == (-y) * q + (-x) % (-y),
                lisp_mod(x, y) == -((-x) % (-y)),
        ;
        assert(multiple_of(x - lisp_mod(x, y), y, q));
    }
}

/// What `mod` gives: an integer, or (when an operand is a float) a float
/// remainder that the caller computes.
#[derive(PartialEq, Eq, Structural, Clone, Copy, Debug)]
pub enum ModResult {
    Integer(LispObject),
    Float,
}

/// A number or marker operand: its integer value, `None` for a float;
/// a marker pointing nowhere is an error, anything else
/// `wrong-type-argument number-or-marker-p`.
pub open spec fn operand_value(w: &Buffers, o: LispObject) -> Result<Option<int>, LispError> {
    if is_fixnum_word(o.0) {
        Ok(Some(fixnum_value(o.0)))
    } else if word_tag(o.0) == 7 {
        Ok(None)
    } else {
        match w.marker_of(o) {
            Some(m) => if w.markers@[m].buffer is Some {
                Ok(Some(w.markers@[m].charpos as int))
            } else {
                Err(LispError::Error(ErrorMessage::MarkerDoesNotPointAnywhere))
            },
            None => Err(LispError::WrongType(TypePredicate::NumberOrMarkerP, o)),
        }
    }
}

/// The value of a number or marker operand (see `operand_value`).
fn check_number_coerce_marker(w: &Buffers, o: LispObject) -> (r: Result<Option<i64>, LispError>)
    requires
        w.wf(),
    ensures
        match operand_value(w, o) {
            Ok(Some(v)) => r == Ok::<Option<i64>, LispError>(Some(v as i64)) && in_fixnum_range(v),
            Ok(None) => r == Ok::<Option<i64>, LispError>(None),
            Err(e) => r == Err::<Option<i64>, LispError>(e),
        },
{
    match o.as_fixnum() {
        Some(n) => {
            proof {
                crate::tag::lemma_fixnum_word_unique(o.0);
            }
            Ok(Some(n))
        },
        None => {
            if o.is_float() {
                return Ok(None);
            }
            match w.as_marker(o) {
                Some(m) => {
                    let c = w.charpos_or_error(m)?;
                    proof {
                        crate::windows::lemma_marker_position_fits(w, m as int);
                    }
                    Ok(Some(c as i64))
                },
                None => Err(LispError::WrongType(TypePredicate::NumberOrMarkerP, o)),
            }
        },
    }
}

/// X modulo Y (numbers or markers): the remainder with the sign of Y;
/// `arith-error` for a zero Y.
pub fn fmod(w: &Buffers, x: LispObject, y: LispObject) -> (r: Result<ModResult, LispError>)
    requires
        w.wf(),
    ensures
        match (operand_value(w, x), operand_value(w, y)) {
            (Err(e), _) => r == Err::<ModResult, LispError>(e),
            (Ok(_), Err(e)) => r == Err::<ModResult, LispError>(e),
            (Ok(None), Ok(_)) => r == Ok::<ModResult, LispError>(ModResult::Float),
            (Ok(Some(_)), Ok(None)) => r == Ok::<ModResult, LispError>(ModResult::Float),
            (Ok(Some(a)), Ok(Some(b))) => if b == 0 {
                r == Err::<ModResult, LispError>(LispError::ArithError)
            } else {
                r matches Ok(ModResult::Integer(o)) && is_fixnum_word(o.0) && fixnum_value(o.0) == lisp_mod(a, b)
            },
        },
{
    let a = check_number_coerce_marker(w, x)?;
    let b = check_number_coerce_marker(w, y)?;
    let (i1, i2) = match (a, b) {
        (Some(i1), Some(i2)) => (i1, i2),
        _ => {
            return Ok(ModResult::Float);
        },
    };
    if i2 == 0 {
        return Err(LispError::ArithError);
    }
    let m = mod_integers(i1, i2);
    proof {
        lemma_mod_range(i1 as int, i2 as int);
    }
    Ok(ModResult::Integer(LispObject::from_fixnum(m)))
}

} // verus!
