use remacs::error::{LispError, TypePredicate};
use remacs::heap::LispHeap;
use remacs::lists::{car, cdr};
use remacs::tag::LispObject;
use remacs::undo::{prepare_record, undo_boundary, UndoState};

fn fix(n: i64) -> LispObject {
    LispObject::from_fixnum(n)
}

fn nil() -> LispObject {
    LispObject::constant_nil()
}

#[test]
fn boundary_goes_before_a_change() {
    let mut h = LispHeap::new();
    let mut st = UndoState { pending_boundary: nil() };
    let mut list = h.cons(fix(5), nil());
    let old = list;
    assert_eq!(undo_boundary(&mut h, &mut st, &mut list), Ok(nil()));
    assert_eq!(car(&h, list), Ok(nil()));
    assert_eq!(cdr(&h, list), Ok(old));
}

#[test]
fn no_second_boundary() {
    let mut h = LispHeap::new();
    let mut st = UndoState { pending_boundary: nil() };
    let mut list = h.cons(nil(), nil());
    let before = list;
    let cells = h.cons_count();
    assert_eq!(undo_boundary(&mut h, &mut st, &mut list), Ok(nil()));
    assert_eq!(list, before);
    assert_eq!(h.cons_count(), cells);
    let mut empty = nil();
    assert_eq!(undo_boundary(&mut h, &mut st, &mut empty), Ok(nil()));
    assert_eq!(empty, nil());
}

#[test]
fn disabled_undo_is_left_alone() {
    let mut h = LispHeap::new();
    let mut st = UndoState { pending_boundary: nil() };
    let mut list = LispObject::constant_t();
    assert_eq!(undo_boundary(&mut h, &mut st, &mut list), Ok(nil()));
    assert_eq!(list, LispObject::constant_t());
}

#[test]
fn a_non_list_is_an_error() {
    let mut h = LispHeap::new();
    let mut st = UndoState { pending_boundary: nil() };
    let mut list = fix(3);
    assert_eq!(undo_boundary(&mut h, &mut st, &mut list), Err(LispError::WrongType(TypePredicate::Consp, fix(3))));
}

#[test]
fn the_prepared_cell_is_used() {
    let mut h = LispHeap::new();
    let mut st = UndoState { pending_boundary: nil() };
    prepare_record(&mut h, &mut st);
    let prepared = st.pending_boundary;
    assert_ne!(prepared, nil());
    prepare_record(&mut h, &mut st);
    assert_eq!(st.pending_boundary, prepared);
    let mut list = h.cons(fix(1), nil());
    let old = list;
    assert_eq!(undo_boundary(&mut h, &mut st, &mut list), Ok(nil()));
    assert_eq!(list, prepared);
    assert_eq!(cdr(&h, list), Ok(old));
    assert_eq!(st.pending_boundary, nil());
}
