//! Number predicates and `random`.
//!
//! The generator is `rand`'s `StdRng`.  One call of `random_draw` takes one
//! number from it and decides; a draw that `random` rejects (to keep the
//! remainder uniform) asks for another, which the caller makes.
use rand::{Rng, SeedableRng, StdRng};
use vstd::prelude::*;

use crate::heap::LispHeap;
use crate::tag::{fixnum_value, is_fixnum_word, word_tag, LispObject, INTMASK, MOST_POSITIVE_FIXNUM, wrap_fixnum};

verus! {

#[verifier::external_type_specification]
#[verifier::external_body]
pub struct ExStdRng(StdRng);

/// `rand`'s `Rng::gen::<i64>` on `StdRng`: the next 64 bits of the
/// generator as a signed number.  Nothing is said of the number, which
/// depends on the seed.
#[verifier::external_body]
fn draw_i64(rng: &mut StdRng) -> (v: i64) {
    rng.gen::<i64>()
}

/// `rand`'s `StdRng::new`: a generator seeded from the operating system,
/// `None` when no source of randomness could be read.
#[verifier::external_body]
fn system_rng() -> (r: Option<StdRng>) {
    StdRng::new().ok()
}

/// `rand`'s `SeedableRng::reseed` for `StdRng` with a seed of `usize`s.
/// Nothing is said of the state it leaves.
#[verifier::external_body]
fn reseed_rng(rng: &mut StdRng, seed: &Vec<usize>) {
    rng.reseed(seed.as_slice())
}

/// Whether OBJECT is a floating point number.
pub fn floatp(object: LispObject) -> (b: bool)
    ensures
        b == (word_tag(object.0) == 7),
{
    object.is_float()
}

/// Whether OBJECT is an integer.
pub fn integerp(object: LispObject) -> (b: bool)
    ensures
        b == is_fixnum_word(object.0),
{
    object.is_integer()
}

/// Whether OBJECT is a non-negative integer.
pub fn natnump(object: LispObject) -> (b: bool)
    ensures
        b == (is_fixnum_word(object.0) && fixnum_value(object.0) >= 0),
{
    object.is_natnum()
}

/// Whether OBJECT is a number (an integer or a float).
pub fn numberp(object: LispObject) -> (b: bool)
    ensures
        b == (is_fixnum_word(object.0) || word_tag(object.0) == 7),
{
    object.is_fixnum() || object.is_float()
}

/// Whether OBJECT is an integer or a marker (IS_MARKER says whether it
/// is a marker).
pub fn integer_or_marker_p(object: LispObject, is_marker: bool) -> (b: bool)
    ensures
        b == (is_marker || is_fixnum_word(object.0)),
{
    is_marker || object.is_integer()
}

/// Whether OBJECT is a number or a marker (IS_MARKER says whether it is
/// a marker).
pub fn number_or_marker_p(object: LispObject, is_marker: bool) -> (b: bool)
    ensures
        b == (is_fixnum_word(object.0) || word_tag(object.0) == 7 || is_marker),
{
    numberp(object) || is_marker
}

/// The absolute value of a draw.
pub open spec fn abs_int(v: int) -> int {
    if v < 0 {
        -v
    } else {
        v
    }
}

/// What `random` makes of the draw V for the positive LIMIT: the
/// remainder of `|V|` by LIMIT, unless the draw lies so near the top of
/// the range that the remainders are not all equally likely (then
/// `None`, and another draw is taken).
pub open spec fn random_remainder(v: int, limit: int) -> Option<int> {
    let rem = abs_int(v) % limit;
    if v - rem <= INTMASK - limit + 1 {
        Some(rem)
    } else {
        None
    }
}

/// What `random` makes of the draw V for LIMIT: for a positive fixnum
/// LIMIT the remainder (`None` for a rejected draw, and for the one draw
/// with no absolute value); for any other LIMIT the draw itself,
/// reduced into the fixnum range.
pub open spec fn random_outcome(v: i64, limit: LispObject) -> Option<int> {
    if is_fixnum_word(limit.0) && fixnum_value(limit.0) > 0 {
        if v == i64::MIN {
            None
        } else {
            random_remainder(v as int, fixnum_value(limit.0))
        }
    } else {
        Some(wrap_fixnum(v as int))
    }
}

/// The remainder that `random` returns for the draw VAL and the positive
/// LIMIT, `None` when the draw is rejected.
pub fn random_accept(val: i64, limit: i64) -> (r: Option<i64>)
    requires
        0 < limit <= MOST_POSITIVE_FIXNUM,
        val != i64::MIN,
    ensures
        match random_remainder(val as int, limit as int) {
            Some(rem) => r == Some(rem as i64),
            None => r is None,
        },
{
    let a: i64 = if val < 0 {
        -val
    } else {
        val
    };
    let remainder = a % limit;
    if (val as i128) - (remainder as i128) <= (INTMASK - limit + 1) as i128 {
        Some(remainder)
    } else {
        None
    }
}

/// The value `random` returns for the draw VAL and LIMIT, `None` when the
/// draw is rejected.
pub fn random_from_value(val: i64, limit: LispObject) -> (r: Option<LispObject>)
    ensures
        (r is Some) == (random_outcome(val, limit) is Some),
        r matches Some(o) ==> is_fixnum_word(o.0) && fixnum_value(o.0) == random_outcome(val, limit)->0,
{
    match limit.as_fixnum() {
        Some(l) if l > 0 => {
            if val == i64::MIN {
                return None;
            }
            match random_accept(val, l) {
                Some(rem) => Some(LispObject::from_fixnum(rem)),
                None => None,
            }
        },
        _ => Some(LispObject::from_fixnum_truncated(val)),
    }
}

/// One draw of `random` from RNG for LIMIT: the value for some draw,
/// `None` when that draw was rejected.
pub fn random_draw(rng: &mut StdRng, limit: LispObject) -> (r: Option<LispObject>)
    ensures
        exists|v: i64|
            {
                &&& (r is Some) == (random_outcome(v, limit) is Some)
                &&& r matches Some(o) ==> is_fixnum_word(o.0) && fixnum_value(o.0) == #[trigger] random_outcome(
                    v,
                    limit,
                )->0
            },
{
    let v = draw_i64(rng);
    random_from_value(v, limit)
}

/// How `random` treats the generator for LIMIT before drawing.
#[derive(PartialEq, Eq, Structural, Clone, Copy, Debug)]
pub enum RandomSeeding {
    /// `t`: seeded anew from the system (kept when that failed).
    System,
    /// A string: reseeded from its bytes.
    FromString,
    /// Anything else: kept as it is.
    Kept,
}

/// The seed of a string: its bytes, each widened.
pub fn string_seed(h: &LispHeap, s: LispObject) -> (v: Vec<usize>)
    requires
        h.wf(),
        h.is_string(s),
    ensures
        v@.len() == h.string_bytes_of(s).len(),
        forall|i: int| 0 <= i < v@.len() ==> v@[i] == h.string_bytes_of(s)[i] as usize,
{
    let n = h.string_len_bytes(s);
    let mut v: Vec<usize> = Vec::new();
    let mut k: usize = 0;
    while k < n
        invariant
            h.wf(),
            h.is_string(s),
            n == h.string_bytes_of(s).len(),
            k <= n,
            v@.len() == k,
            forall|i: int| 0 <= i < k ==> v@[i] == h.string_bytes_of(s)[i] as usize,
        decreases n - k,
    {
        let b = h.string_byte_at(s, k);
        v.push(b as usize);
        k = k + 1;
    }
    v
}

/// Seeds RNG as LIMIT asks: anew from the system for `t`, from the bytes
/// of a string LIMIT; any other LIMIT leaves it as it is.
pub fn random_seed(rng: &mut StdRng, h: &LispHeap, limit: LispObject) -> (r: RandomSeeding)
    requires
        h.wf(),
    ensures
        r == (if limit.0 == 8 {
            RandomSeeding::System
        } else if h.is_string(limit) {
            RandomSeeding::FromString
        } else {
            RandomSeeding::Kept
        }),
        r == RandomSeeding::Kept ==> *final(rng) == *old(rng),
{
    if limit.is_t() {
        match system_rng() {
            Some(fresh) => {
                *rng = fresh;
            },
            None => {},
        }
        RandomSeeding::System
    } else if h.is_string_obj(limit) {
        let seed = string_seed(h, limit);
        reseed_rng(rng, &seed);
        RandomSeeding::FromString
    } else {
        RandomSeeding::Kept
    }
}

/// For a positive LIMIT every value `random` returns lies in `[0, LIMIT)`.
pub proof fn lemma_random_in_range(v: i64, limit: LispObject)
    requires
        is_fixnum_word(limit.0),
        fixnum_value(limit.0) > 0,
    ensures
        random_outcome(v, limit) matches Some(x) ==> 0 <= x < fixnum_value(limit.0),
{
}

} // verus!
