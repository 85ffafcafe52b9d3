//! Lisp values as tagged machine words.
//!
//! A Lisp value is one 64-bit word.  Its low `GCTYPEBITS` bits hold the
//! type tag and the rest either hold the value itself (fixnums) or the
//! 8-aligned address of the object (everything else).  Fixnums use two
//! tags (`Int0` and `Int1`) so that they get one extra bit of range.
use vstd::prelude::*;

use crate::error::{LispError, TypePredicate};

verus! {

/// Number of low bits holding the type tag of a Lisp word.
pub const GCTYPEBITS: u64 = 3;

/// Number of low bits taken by the fixnum tag.
pub const INTTYPEBITS: u64 = 2;

/// Largest fixnum: `i64::MAX >> INTTYPEBITS`.
pub const MOST_POSITIVE_FIXNUM: i64 = 0x1fff_ffff_ffff_ffff;

/// Smallest fixnum: `-1 - MOST_POSITIVE_FIXNUM`.
pub const MOST_NEGATIVE_FIXNUM: i64 = -0x2000_0000_0000_0000;

/// Mask of the value bits of a fixnum word: `i64::MAX >> (INTTYPEBITS - 1)`.
pub const INTMASK: i64 = 0x3fff_ffff_ffff_ffff;

/// Number of bits of a character code.
pub const CHARACTERBITS: i64 = 22;

/// Maximum character code: `(1 << CHARACTERBITS) - 1`.
pub const MAX_CHAR: i64 = 0x3f_ffff;

/// The type tags of Lisp words.
#[derive(PartialEq, Eq, Structural, Clone, Copy, Debug)]
pub enum LispType {
    Symbol,
    Misc,
    Int0,
    Cons,
    String,
    Vectorlike,
    Int1,
    Float,
}

/// The numeric code of a type tag, as stored in the low bits of a word.
pub open spec fn type_code(t: LispType) -> u64 {
    match t {
        LispType::Symbol => 0,
        LispType::Misc => 1,
        LispType::Int0 => 2,
        LispType::Cons => 3,
        LispType::String => 4,
        LispType::Vectorlike => 5,
        LispType::Int1 => 6,
        LispType::Float => 7,
    }
}

/// The tag code held in the low bits of a word.
pub open spec fn word_tag(w: i64) -> u64 {
    (w as u64) & 7
}

/// The word of `nil`, zero, has the tag zero.
pub proof fn lemma_nil_tag()
    ensures
        word_tag(0) == 0,
{
    assert(((0i64 as u64) & 7) == 0) by (bit_vector);
}

/// The untagged part of a word: the word with its tag bits cleared.
pub open spec fn word_address(w: i64) -> u64 {
    (w as u64) & 0xffff_ffff_ffff_fff8
}

/// Whether a word holds a fixnum.
pub open spec fn is_fixnum_word(w: i64) -> bool {
    word_tag(w) == 2 || word_tag(w) == 6
}

/// The integer held by a fixnum word (an arithmetic shift by the tag width).
pub open spec fn fixnum_value(w: i64) -> int {
    (w as int) / 4
}

/// Whether an integer is in the fixnum range.
pub open spec fn in_fixnum_range(n: int) -> bool {
    MOST_NEGATIVE_FIXNUM <= n <= MOST_POSITIVE_FIXNUM
}

/// The word that represents the fixnum `n` (for `n` in range).
pub open spec fn fixnum_word(n: int) -> i64 {
    (n * 4 + 2) as i64
}

/// `n` reduced into the fixnum range, keeping its low 62 bits.
pub open spec fn wrap_fixnum(n: int) -> int {
    (n + 0x2000_0000_0000_0000) % 0x4000_0000_0000_0000 - 0x2000_0000_0000_0000
}

/// The numeric code of a type tag.
pub fn lisp_type_code(t: LispType) -> (code: u64)
    ensures
        code == type_code(t),
        code < 8,
{
    match t {
        LispType::Symbol => 0,
        LispType::Misc => 1,
        LispType::Int0 => 2,
        LispType::Cons => 3,
        LispType::String => 4,
        LispType::Vectorlike => 5,
        LispType::Int1 => 6,
        LispType::Float => 7,
    }
}

/// The type tag with the given code.
pub fn lisp_type_from_code(code: u64) -> (t: LispType)
    requires
        code < 8,
    ensures
        type_code(t) == code,
{
    if code == 0 {
        LispType::Symbol
    } else if code == 1 {
        LispType::Misc
    } else if code == 2 {
        LispType::Int0
    } else if code == 3 {
        LispType::Cons
    } else if code == 4 {
        LispType::String
    } else if code == 5 {
        LispType::Vectorlike
    } else if code == 6 {
        LispType::Int1
    } else {
        LispType::Float
    }
}

/// Two type tags with the same code are the same tag.
pub proof fn lemma_type_code_injective(a: LispType, b: LispType)
    ensures
        type_code(a) == type_code(b) <==> a == b,
{
}

/// A Lisp value: one tagged machine word.
#[derive(PartialEq, Eq, Structural, Clone, Copy, Debug)]
pub struct LispObject(pub i64);

impl LispObject {
    /// Wraps a raw word.
    #[allow(non_snake_case)]
    pub fn from_C(n: i64) -> (o: LispObject)
        ensures
            o.0 == n,
    {
        LispObject(n)
    }

    /// Wraps a raw unsigned word, reinterpreting its bits.
    #[allow(non_snake_case)]
    pub fn from_C_unsigned(n: u64) -> (o: LispObject)
        ensures
            o.0 == n as i64,
    {
        LispObject(n as i64)
    }

    /// The raw word.
    #[allow(non_snake_case)]
    pub fn to_C(self) -> (n: i64)
        ensures
            n == self.0,
    {
        self.0
    }

    /// The raw word, its bits read as unsigned.
    #[allow(non_snake_case)]
    pub fn to_C_unsigned(self) -> (n: u64)
        ensures
            n == self.0 as u64,
    {
        self.0 as u64
    }

    /// The word itself (the identity on words).
    pub fn to_raw(self) -> (o: LispObject)
        ensures
            o == self,
    {
        self
    }

    /// `nil`: the symbol at offset zero of the symbol table.
    pub fn constant_nil() -> (o: LispObject)
        ensures
            o.0 == 0,
            word_tag(o.0) == 0,
    {
        proof {
            lemma_nil_tag();
        }
        LispObject(0)
    }

    /// `t`: the symbol at the second slot of the symbol table.
    pub fn constant_t() -> (o: LispObject)
        ensures
            o.0 == 8,
            word_tag(o.0) == 0,
    {
        assert(((8i64 as u64) & 7) == 0) by (bit_vector);
        LispObject(8)
    }

    /// The marker of an unbound variable: the symbol at the third slot.
    pub fn constant_unbound() -> (o: LispObject)
        ensures
            o.0 == 16,
    {
        LispObject(16)
    }

    /// `t` for true, `nil` for false.
    pub open spec fn from_bool_spec(v: bool) -> LispObject {
        if v {
            LispObject(8)
        } else {
            LispObject(0)
        }
    }

    /// `t` for true, `nil` for false.
    pub fn from_bool(v: bool) -> (o: LispObject)
        ensures
            o.0 == (if v { 8i64 } else { 0i64 }),
            o == LispObject::from_bool_spec(v),
            word_tag(o.0) == 0,
    {
        if v {
            LispObject::constant_t()
        } else {
            LispObject::constant_nil()
        }
    }

    /// The type tag of the word.
    pub fn get_type(self) -> (t: LispType)
        ensures
            type_code(t) == word_tag(self.0),
    {
        let raw = self.0 as u64;
        let res = raw & 7;
        assert(res < 8) by (bit_vector)
            requires
                res == raw & 7,
        ;
        lisp_type_from_code(res)
    }

    /// Tags an 8-aligned address with a type.
    pub fn tag_ptr(addr: u64, ty: LispType) -> (o: LispObject)
        requires
            addr % 8 == 0,
            addr <= i64::MAX - 7,
        ensures
            o.0 == addr + type_code(ty),
            word_tag(o.0) == type_code(ty),
            word_address(o.0) == addr,
    {
        let tag = lisp_type_code(ty);
        let res = (addr + tag) as i64;
        assert(((res as u64) & 7) == tag && ((res as u64) & 0xffff_ffff_ffff_fff8) == addr)
            by (bit_vector)
            requires
                addr % 8 == 0,
                tag < 8,
                addr <= 0x7fff_ffff_ffff_fff8,
                res == (addr + tag) as i64,
        ;
        LispObject(res)
    }

    /// The address part of the word: the word with its tag bits cleared.
    pub fn get_untaggedptr(self) -> (addr: u64)
        ensures
            addr == word_address(self.0),
            addr % 8 == 0,
    {
        let raw = self.0 as u64;
        let a = raw & 0xffff_ffff_ffff_fff8;
        assert(a % 8 == 0) by (bit_vector)
            requires
                a == raw & 0xffff_ffff_ffff_fff8,
        ;
        a
    }

    /// Whether `n` is outside the fixnum range.
    pub fn fixnum_overflow(n: i64) -> (b: bool)
        ensures
            b == !in_fixnum_range(n as int),
    {
        n < MOST_NEGATIVE_FIXNUM || n > MOST_POSITIVE_FIXNUM
    }

    /// The fixnum word of `n`, keeping only the low bits of `n` that fit.
    pub fn from_fixnum_truncated(n: i64) -> (o: LispObject)
        ensures
            is_fixnum_word(o.0),
            in_fixnum_range(n as int) ==> o.0 == fixnum_word(n as int),
            fixnum_value(o.0) == wrap_fixnum(n as int),
    {
        let shifted: u64 = (#[verifier::truncate] (n as u64)) << 2u64;
        assert(shifted + 2 <= u64::MAX) by (bit_vector)
            requires
                shifted == (n as u64) << 2u64,
        ;
        let o = #[verifier::truncate] ((shifted + 2) as i64);
        assert(((o as u64) & 7) == 2 || ((o as u64) & 7) == 6) by (bit_vector)
            requires
                shifted == (n as u64) << 2u64,
                o == (shifted + 2) as i64,
        ;
        assert(in_fixnum_range(n as int) ==> o == n * 4 + 2) by (bit_vector)
            requires
                shifted == (n as u64) << 2u64,
                o == (shifted + 2) as i64,
        ;
        assert((o >> 2u64) as int == ((n as int) + 0x2000_0000_0000_0000) % 0x4000_0000_0000_0000
            - 0x2000_0000_0000_0000) by (bit_vector)
            requires
                shifted == (n as u64) << 2u64,
                o == (shifted + 2) as i64,
        ;
        assert((o >> 2u64) as int == (o as int) / 4) by (bit_vector);
        LispObject(o)
    }

    /// The fixnum word of `n`.
    pub fn from_fixnum(n: i64) -> (o: LispObject)
        requires
            in_fixnum_range(n as int),
        ensures
            o.0 == fixnum_word(n as int),
            is_fixnum_word(o.0),
            fixnum_value(o.0) == n,
    {
        Self::from_fixnum_truncated(n)
    }

    /// The fixnum word of a non-negative `n`.
    pub fn from_natnum(n: i64) -> (o: LispObject)
        requires
            0 <= n <= MOST_POSITIVE_FIXNUM,
        ensures
            o.0 == fixnum_word(n as int),
            is_fixnum_word(o.0),
            fixnum_value(o.0) == n,
    {
        LispObject::from_fixnum_truncated(n)
    }

    /// The integer part of the word (an arithmetic shift by the tag width),
    /// whatever the tag.
    pub fn to_fixnum_unchecked(self) -> (n: i64)
        ensures
            n == fixnum_value(self.0),
            in_fixnum_range(n as int),
    {
        let raw = self.0;
        let n = raw >> 2u64;
        assert((n as int) == (raw as int) / 4) by (bit_vector)
            requires
                n == raw >> 2u64,
        ;
        assert(-0x2000_0000_0000_0000 <= n <= 0x1fff_ffff_ffff_ffff) by (bit_vector)
            requires
                n == raw >> 2u64,
        ;
        n
    }

    /// Whether the word holds a fixnum.
    pub fn is_fixnum(self) -> (b: bool)
        ensures
            b == is_fixnum_word(self.0),
    {
        let ty = lisp_type_code(self.get_type());
        let r = ty & (2u64 | (!6u64 & 0xff)) == 2;
        assert(r == (ty == 2 || ty == 6)) by (bit_vector)
            requires
                ty < 8,
                r == (ty & (2u64 | (!6u64 & 0xff)) == 2),
        ;
        r
    }

    /// The integer held by the word, if it holds a fixnum.
    pub fn as_fixnum(self) -> (r: Option<i64>)
        ensures
            r == (if is_fixnum_word(self.0) { Some(fixnum_value(self.0) as i64) } else { None::<i64> }),
    {
        if self.is_fixnum() {
            Some(self.to_fixnum_unchecked())
        } else {
            None
        }
    }

    /// The integer held by the word, or `wrong-type-argument integerp`.
    pub fn as_fixnum_or_error(self) -> (r: Result<i64, LispError>)
        ensures
            r == (if is_fixnum_word(self.0) {
                Ok::<i64, LispError>(fixnum_value(self.0) as i64)
            } else {
                Err::<i64, LispError>(LispError::WrongType(TypePredicate::Integerp, self))
            }),
    {
        if self.is_fixnum() {
            Ok(self.to_fixnum_unchecked())
        } else {
            Err(LispError::WrongType(TypePredicate::Integerp, self))
        }
    }

    /// Whether the word holds an integer (only fixnums exist).
    pub fn is_integer(self) -> (b: bool)
        ensures
            b == is_fixnum_word(self.0),
    {
        self.is_fixnum()
    }

    /// Whether the word holds a non-negative fixnum.
    pub fn is_natnum(self) -> (b: bool)
        ensures
            b == (is_fixnum_word(self.0) && fixnum_value(self.0) >= 0),
    {
        match self.as_fixnum() {
            Some(i) => i >= 0,
            None => false,
        }
    }

    /// The non-negative integer held by the word, or
    /// `wrong-type-argument wholenump`.
    pub fn as_natnum_or_error(self) -> (r: Result<u64, LispError>)
        ensures
            r == (if is_fixnum_word(self.0) && fixnum_value(self.0) >= 0 {
                Ok::<u64, LispError>(fixnum_value(self.0) as u64)
            } else {
                Err::<u64, LispError>(LispError::WrongType(TypePredicate::Wholenump, self))
            }),
    {
        if self.is_natnum() {
            Ok(self.to_fixnum_unchecked() as u64)
        } else {
            Err(LispError::WrongType(TypePredicate::Wholenump, self))
        }
    }

    /// Whether the word is `nil`.
    pub fn is_nil(self) -> (b: bool)
        ensures
            b == (self.0 == 0),
    {
        self.0 == 0
    }

    /// Whether the word is not `nil`.
    pub fn is_not_nil(self) -> (b: bool)
        ensures
            b == (self.0 != 0),
    {
        self.0 != 0
    }

    /// Whether the word is `t`.
    pub fn is_t(self) -> (b: bool)
        ensures
            b == (self.0 == 8),
    {
        self.0 == 8
    }

    /// Whether the word is tagged as a symbol.
    pub fn is_symbol(self) -> (b: bool)
        ensures
            b == (word_tag(self.0) == 0),
    {
        lisp_type_code(self.get_type()) == 0
    }

    /// Whether the word is tagged as a miscellaneous object.
    pub fn is_misc(self) -> (b: bool)
        ensures
            b == (word_tag(self.0) == 1),
    {
        lisp_type_code(self.get_type()) == 1
    }

    /// Whether the word is tagged as a cons cell.
    pub fn is_cons(self) -> (b: bool)
        ensures
            b == (word_tag(self.0) == 3),
    {
        lisp_type_code(self.get_type()) == 3
    }

    /// Whether the word is tagged as a string.
    pub fn is_string(self) -> (b: bool)
        ensures
            b == (word_tag(self.0) == 4),
    {
        lisp_type_code(self.get_type()) == 4
    }

    /// Whether the word is tagged as a vector-like object.
    pub fn is_vectorlike(self) -> (b: bool)
        ensures
            b == (word_tag(self.0) == 5),
    {
        lisp_type_code(self.get_type()) == 5
    }

    /// Whether the word is tagged as a float.
    pub fn is_float(self) -> (b: bool)
        ensures
            b == (word_tag(self.0) == 7),
    {
        lisp_type_code(self.get_type()) == 7
    }

    /// Whether the word is a cons cell or `nil`.
    pub fn is_list(self) -> (b: bool)
        ensures
            b == (word_tag(self.0) == 3 || self.0 == 0),
    {
        self.is_cons() || self.is_nil()
    }

    /// Whether the word holds a character code: a fixnum in `0..=MAX_CHAR`.
    pub fn is_character(self) -> (b: bool)
        ensures
            b == (is_fixnum_word(self.0) && 0 <= fixnum_value(self.0) <= MAX_CHAR),
    {
        match self.as_fixnum() {
            Some(i) => 0 <= i && i <= MAX_CHAR,
            None => false,
        }
    }

    /// The character code held by the word, or
    /// `wrong-type-argument characterp`.
    pub fn as_character_or_error(self) -> (r: Result<u32, LispError>)
        ensures
            r == (if is_fixnum_word(self.0) && 0 <= fixnum_value(self.0) <= MAX_CHAR {
                Ok::<u32, LispError>(fixnum_value(self.0) as u32)
            } else {
                Err::<u32, LispError>(LispError::WrongType(TypePredicate::Characterp, self))
            }),
    {
        if !self.is_character() {
            return Err(LispError::WrongType(TypePredicate::Characterp, self));
        }
        Ok(self.to_fixnum_unchecked() as u32)
    }

    /// `eq`: the same word.
    pub fn eq(self, other: LispObject) -> (b: bool)
        ensures
            b == (self.0 == other.0),
    {
        self.0 == other.0
    }

    /// `eq` on raw words.
    pub fn eq_raw(self, other: LispObject) -> (b: bool)
        ensures
            b == (self.0 == other.0),
    {
        self.0 == other.0
    }

    /// Not `eq`.
    pub fn ne(self, other: LispObject) -> (b: bool)
        ensures
            b == (self.0 != other.0),
    {
        self.0 != other.0
    }
}

/// Decoding the word of a fixnum gives the fixnum back, and the word is
/// tagged as a fixnum.
pub proof fn lemma_fixnum_roundtrip(n: int)
    requires
        in_fixnum_range(n),
    ensures
        is_fixnum_word(fixnum_word(n)),
        fixnum_value(fixnum_word(n)) == n,
{
    let m = n as i64;
    let w = fixnum_word(n);
    assert(((m * 4 + 2) as i64 >> 2u64) as int == m as int && (((m * 4 + 2) as i64 as u64) & 3) == 2)
        by (bit_vector)
        requires
            -0x2000_0000_0000_0000 <= m <= 0x1fff_ffff_ffff_ffff,
    ;
    assert((w >> 2u64) as int == (w as int) / 4) by (bit_vector);
    assert((((w as u64) & 7) == 2 || ((w as u64) & 7) == 6) <== (((w as u64) & 3) == 2)) by (bit_vector);
}

/// Every fixnum word is the word of the fixnum it holds.
pub proof fn lemma_fixnum_word_unique(w: i64)
    requires
        is_fixnum_word(w),
    ensures
        in_fixnum_range(fixnum_value(w)),
        fixnum_word(fixnum_value(w)) == w,
{
    assert((w >> 2u64) as int == (w as int) / 4) by (bit_vector);
    assert(((w >> 2u64) * 4 + 2) as i64 == w && -0x2000_0000_0000_0000 <= (w >> 2u64) <= 0x1fff_ffff_ffff_ffff)
        by (bit_vector)
        requires
            ((w as u64) & 7) == 2 || ((w as u64) & 7) == 6,
    ;
}

/// A non-negative integer, checked in the way of `CHECK_NATNUM`.
pub trait IsLispNatnum {
    /// `wrong-type-argument wholenump` when the value is negative.
    fn check_natnum(self) -> (r: Result<(), LispError>);
}

impl IsLispNatnum for i64 {
    fn check_natnum(self) -> (r: Result<(), LispError>)
        ensures
            self < 0 ==> (r matches Err(LispError::WrongType(p, o)) && p == TypePredicate::Wholenump
                && is_fixnum_word(o.0) && fixnum_value(o.0) == wrap_fixnum(self as int)),
            self >= 0 ==> r == Ok::<(), LispError>(()),
    {
        if self < 0 {
            return Err(LispError::WrongType(TypePredicate::Wholenump, LispObject::from_fixnum_truncated(self)));
        }
        Ok(())
    }
}


} // verus!
