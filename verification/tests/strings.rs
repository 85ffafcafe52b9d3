use remacs::chartab::{CharTables, ChartabSlot, LispCharTable};
use remacs::error::{LispError, TypePredicate};
use remacs::heap::LispHeap;
use remacs::strings::{category_table_p, characterp, eq, max_char, null, string_bytes, stringp};
use remacs::tag::LispObject;

fn fix(n: i64) -> LispObject {
    LispObject::from_fixnum(n)
}

fn nil() -> LispObject {
    LispObject::constant_nil()
}

fn t() -> LispObject {
    LispObject::constant_t()
}

const CATEGORY_TABLE: LispObject = LispObject(64);

fn table(purpose: LispObject) -> LispCharTable {
    LispCharTable {
        size: 68 + 3,
        defalt: nil(),
        parent: nil(),
        purpose,
        ascii: ChartabSlot::Value(nil()),
        contents: (0..64).map(|_| ChartabSlot::Value(nil())).collect(),
        extras: vec![nil(), nil(), nil()],
    }
}

#[test]
fn stringp_on_strings_and_others() {
    let mut h = LispHeap::new();
    let s = h.make_string(b"abc".to_vec(), 3);
    let c = h.cons(fix(1), nil());
    assert_eq!(stringp(&h, s), t());
    assert_eq!(stringp(&h, c), nil());
    assert_eq!(stringp(&h, fix(3)), nil());
}

#[test]
fn eq_and_null() {
    assert_eq!(eq(fix(3), fix(3)), t());
    assert_eq!(eq(fix(3), fix(4)), nil());
    assert_eq!(null(nil()), t());
    assert_eq!(null(fix(0)), nil());
}

#[test]
fn string_bytes_counts_bytes_not_characters() {
    let mut h = LispHeap::new();
    let s = h.make_string("hé€".as_bytes().to_vec(), 3);
    assert_eq!(string_bytes(&h, s), Ok(fix(6)));
    let empty = h.make_string(Vec::new(), 0);
    assert_eq!(string_bytes(&h, empty), Ok(fix(0)));
    assert_eq!(string_bytes(&h, fix(1)), Err(LispError::WrongType(TypePredicate::Stringp, fix(1))));
}

#[test]
fn characters_run_up_to_max_char() {
    assert_eq!(max_char(), fix(0x3F_FFFF));
    assert_eq!(characterp(fix(65)), t());
    assert_eq!(characterp(fix(0)), t());
    assert_eq!(characterp(fix(0x3F_FFFF)), t());
    assert_eq!(characterp(fix(0x40_0000)), nil());
    assert_eq!(characterp(fix(-1)), nil());
    assert_eq!(characterp(nil()), nil());
}

#[test]
fn category_tables_are_char_tables_with_that_purpose() {
    let mut tabs = CharTables::new(LispObject(40), LispObject(48));
    let cat = tabs.push(table(CATEGORY_TABLE));
    let other = tabs.push(table(LispObject(72)));
    assert!(category_table_p(&tabs, cat.as_obj(), CATEGORY_TABLE));
    assert!(!category_table_p(&tabs, other.as_obj(), CATEGORY_TABLE));
    assert!(!category_table_p(&tabs, fix(1), CATEGORY_TABLE));
}

#[test]
fn array_lengths() {
    let mut h = LispHeap::new();
    let s = h.make_string("hé".as_bytes().to_vec(), 2);
    let v = h.make_vector(vec![fix(1), fix(2), fix(3)]);
    assert_eq!(h.as_vector_or_string_length(s), Ok(2));
    assert_eq!(h.as_vector_or_string_length(v), Ok(3));
    assert_eq!(h.as_vector_or_string_length(fix(1)), Err(LispError::WrongType(TypePredicate::Arrayp, fix(1))));
}
