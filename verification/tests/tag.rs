use remacs::error::{LispError, TypePredicate};
use remacs::tag::{LispObject, LispType, IsLispNatnum};

#[test]
fn fixnums_round_trip() {
    for n in [0i64, 1, -1, 12345, -98765, 0x1fff_ffff_ffff_ffff, -0x2000_0000_0000_0000] {
        let o = LispObject::from_fixnum(n);
        assert!(o.is_fixnum());
        assert_eq!(o.as_fixnum(), Some(n));
    }
}

#[test]
fn fixnum_word_layout() {
    assert_eq!(LispObject::from_fixnum(0).0, 2);
    assert_eq!(LispObject::from_fixnum(1).0, 6);
    assert_eq!(LispObject::from_fixnum(-1).0, -2);
}

#[test]
fn fixnum_overflow_bounds() {
    assert!(!LispObject::fixnum_overflow(0x1fff_ffff_ffff_ffff));
    assert!(LispObject::fixnum_overflow(0x2000_0000_0000_0000));
    assert!(LispObject::fixnum_overflow(-0x2000_0000_0000_0001));
}

#[test]
fn nil_and_t_words() {
    assert!(LispObject::constant_nil().is_nil());
    assert!(LispObject::constant_t().is_t());
    assert!(LispObject::constant_nil().is_symbol());
    assert!(LispObject::constant_nil().is_list());
    assert_eq!(LispObject::from_bool(true), LispObject::constant_t());
    assert_eq!(LispObject::from_bool(false), LispObject::constant_nil());
}

#[test]
fn natnum_checks() {
    assert_eq!(LispObject::from_fixnum(5).as_natnum_or_error(), Ok(5));
    let neg = LispObject::from_fixnum(-5);
    assert_eq!(neg.as_natnum_or_error(), Err(LispError::WrongType(TypePredicate::Wholenump, neg)));
    assert!(7i64.check_natnum().is_ok());
    assert!((-7i64).check_natnum().is_err());
}

#[test]
fn characters() {
    assert!(LispObject::from_fixnum(0x3f_ffff).is_character());
    assert!(!LispObject::from_fixnum(0x40_0000).is_character());
    assert!(!LispObject::from_fixnum(-1).is_character());
}

#[test]
fn tags_of_words() {
    assert_eq!(LispObject(3).get_type(), LispType::Cons);
    assert_eq!(LispObject(4).get_type(), LispType::String);
    assert_eq!(LispObject(5).get_type(), LispType::Vectorlike);
    assert_eq!(LispObject(2).get_type(), LispType::Int0);
}
