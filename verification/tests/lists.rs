use remacs::error::{LispError, TypePredicate};
use remacs::heap::LispHeap;
use remacs::lists::{
    assoc, assq, car, car_safe, cdr, consp, delq, lax_plist_get, lax_plist_put, listp, member, memq, nth,
    nthcdr, plist_get, plist_member, plist_put, rassoc, rassq, setcar, setcdr,
};
use remacs::chartab::CharTables;
use remacs::equal::equal;
use remacs::fns::{length, quote};
use remacs::tag::LispObject;

fn fix(n: i64) -> LispObject {
    LispObject::from_fixnum(n)
}

fn nil() -> LispObject {
    LispObject::constant_nil()
}

fn sym(i: i64) -> LispObject {
    LispObject(i * 8)
}

/// Builds the proper list of the given elements.
fn list(h: &mut LispHeap, elts: &[LispObject]) -> LispObject {
    let mut l = nil();
    for e in elts.iter().rev() {
        l = h.cons(*e, l);
    }
    l
}

#[test]
fn car_and_cdr_of_cons_and_nil() {
    let mut h = LispHeap::new();
    let c = h.cons(fix(1), fix(2));
    assert_eq!(car(&h, c), Ok(fix(1)));
    assert_eq!(cdr(&h, c), Ok(fix(2)));
    assert_eq!(car(&h, nil()), Ok(nil()));
    assert_eq!(car(&h, fix(3)), Err(LispError::WrongType(TypePredicate::Consp, fix(3))));
    assert_eq!(car_safe(&h, fix(3)), nil());
}

#[test]
fn predicates_on_lists() {
    let mut h = LispHeap::new();
    let c = h.cons(fix(1), nil());
    assert_eq!(consp(c), LispObject::constant_t());
    assert_eq!(consp(nil()), nil());
    assert_eq!(listp(nil()), LispObject::constant_t());
    assert_eq!(listp(fix(1)), nil());
}

#[test]
fn memq_finds_the_tail() {
    let mut h = LispHeap::new();
    let l = list(&mut h, &[sym(3), sym(4), sym(5)]);
    let t = memq(&h, sym(4), l).unwrap();
    assert_eq!(car(&h, t), Ok(sym(4)));
    assert_eq!(memq(&h, sym(9), l), Ok(nil()));
}

#[test]
fn memq_signals_on_a_dotted_list() {
    let mut h = LispHeap::new();
    let l = h.cons(sym(3), fix(7));
    assert_eq!(memq(&h, sym(9), l), Err(LispError::WrongType(TypePredicate::Listp, l)));
}

#[test]
fn memq_signals_on_a_circular_list() {
    let mut h = LispHeap::new();
    let a = h.cons(sym(3), nil());
    let b = h.cons(sym(4), a);
    let a_cons = h.as_cons(a).unwrap();
    h.set_cdr(a_cons, b);
    match memq(&h, sym(9), b) {
        Err(LispError::CircularList(_)) => {}
        other => panic!("expected circular-list, got {:?}", other),
    }
}

#[test]
fn assq_and_rassq() {
    let mut h = LispHeap::new();
    let p1 = h.cons(sym(3), fix(30));
    let p2 = h.cons(sym(4), fix(40));
    let l = list(&mut h, &[p1, p2]);
    assert_eq!(assq(&h, sym(4), l), Ok(p2));
    assert_eq!(rassq(&h, fix(30), l), Ok(p1));
    assert_eq!(assq(&h, sym(5), l), Ok(nil()));
}

#[test]
fn member_and_assoc_compare_with_equal() {
    let mut h = LispHeap::new();
    let tabs = CharTables::new(LispObject(40), LispObject(48));
    let s1 = h.make_string(b"abc".to_vec(), 3);
    let s2 = h.make_string(b"abc".to_vec(), 3);
    let l = list(&mut h, &[fix(1), s1]);
    let t = member(&h, &tabs, s2, l).unwrap();
    assert_eq!(car(&h, t), Ok(s1));
    assert_eq!(memq(&h, s2, l), Ok(nil()));
    let p = h.cons(s1, fix(5));
    let al = list(&mut h, &[p]);
    assert_eq!(assoc(&h, &tabs, s2, al), Ok(p));
    let q = h.cons(fix(7), s2);
    let al2 = list(&mut h, &[p, q]);
    assert_eq!(rassoc(&h, &tabs, s1, al2), Ok(q));
    assert_eq!(member(&h, &tabs, fix(9), l), Ok(nil()));
}

#[test]
fn equal_on_strings_and_lists() {
    let mut h = LispHeap::new();
    let s1 = h.make_string(b"xy".to_vec(), 2);
    let s2 = h.make_string(b"xy".to_vec(), 2);
    let s3 = h.make_string(b"xz".to_vec(), 2);
    assert_eq!(equal(&h, s1, s2), Ok(true));
    assert_eq!(equal(&h, s1, s3), Ok(false));
    let l1 = list(&mut h, &[fix(1), s1]);
    let l2 = list(&mut h, &[fix(1), s2]);
    assert_eq!(equal(&h, l1, l2), Ok(true));
    assert_eq!(equal(&h, l1, l1), Ok(true));
}

#[test]
fn equal_on_lists_of_different_lengths() {
    let mut h = LispHeap::new();
    let short = list(&mut h, &[fix(1), fix(2)]);
    let long = list(&mut h, &[fix(1), fix(2), fix(3)]);
    assert_eq!(equal(&h, short, long), Ok(false));
    assert_eq!(equal(&h, long, short), Ok(false));
    let empty = list(&mut h, &[]);
    assert_eq!(equal(&h, empty, short), Ok(false));
    // Dotted lists: (1 2 . 3) against (1 2 3).
    let tail = h.cons(fix(2), fix(3));
    let dotted = h.cons(fix(1), tail);
    assert_eq!(equal(&h, dotted, long), Ok(false));
    let tail2 = h.cons(fix(2), fix(3));
    let dotted2 = h.cons(fix(1), tail2);
    assert_eq!(equal(&h, dotted, dotted2), Ok(true));
    // Lists that share their tail.
    let shared = list(&mut h, &[fix(2), fix(3)]);
    let a = h.cons(fix(1), shared);
    let b = h.cons(fix(1), shared);
    assert_eq!(equal(&h, a, b), Ok(true));
}

#[test]
fn nth_and_nthcdr() {
    let mut h = LispHeap::new();
    let l = list(&mut h, &[sym(3), sym(4), sym(5)]);
    assert_eq!(nth(&h, fix(1), l), Ok(sym(4)));
    assert_eq!(nth(&h, fix(5), l), Ok(nil()));
    let t = nthcdr(&h, fix(2), l).unwrap();
    assert_eq!(car(&h, t), Ok(sym(5)));
    assert_eq!(nthcdr(&h, fix(0), l), Ok(l));
    assert_eq!(nthcdr(&h, fix(-1), l), Ok(l));
}

#[test]
fn plist_get_and_member() {
    let mut h = LispHeap::new();
    let pl = list(&mut h, &[sym(3), fix(1), sym(4), fix(2)]);
    assert_eq!(plist_get(&h, pl, sym(4)), fix(2));
    assert_eq!(plist_get(&h, pl, sym(5)), nil());
    assert_eq!(plist_get(&h, pl, fix(1)), nil());
    let t = plist_member(&h, pl, sym(4)).unwrap();
    assert_eq!(car(&h, t), Ok(sym(4)));
    let odd = list(&mut h, &[sym(3), fix(1), sym(4)]);
    assert_eq!(plist_get(&h, odd, sym(4)), nil());
}

#[test]
fn plist_put_replaces_or_appends() {
    let mut h = LispHeap::new();
    let pl = list(&mut h, &[sym(3), fix(1), sym(4), fix(2)]);
    assert_eq!(plist_put(&mut h, pl, sym(4), fix(9)), Ok(pl));
    assert_eq!(plist_get(&h, pl, sym(4)), fix(9));
    assert_eq!(plist_put(&mut h, pl, sym(5), fix(7)), Ok(pl));
    assert_eq!(plist_get(&h, pl, sym(5)), fix(7));
    assert_eq!(plist_get(&h, pl, sym(3)), fix(1));
    let fresh = plist_put(&mut h, nil(), sym(6), fix(8)).unwrap();
    assert_eq!(plist_get(&h, fresh, sym(6)), fix(8));
}

#[test]
fn lax_plist_compares_with_equal() {
    let mut h = LispHeap::new();
    let tabs = CharTables::new(LispObject(40), LispObject(48));
    let k1 = h.make_string(b"k".to_vec(), 1);
    let k2 = h.make_string(b"k".to_vec(), 1);
    let pl = list(&mut h, &[k1, fix(1)]);
    assert_eq!(lax_plist_get(&h, &tabs, pl, k2), Ok(fix(1)));
    assert_eq!(plist_get(&h, pl, k2), nil());
    assert_eq!(lax_plist_put(&mut h, &tabs, pl, k2, fix(5)), Ok(pl));
    assert_eq!(lax_plist_get(&h, &tabs, pl, k1), Ok(fix(5)));
}

#[test]
fn setcar_and_setcdr_change_the_cell() {
    let mut h = LispHeap::new();
    let c = h.cons(fix(1), fix(2));
    assert_eq!(setcar(&mut h, c, fix(3)), Ok(fix(3)));
    assert_eq!(setcdr(&mut h, c, fix(4)), Ok(fix(4)));
    assert_eq!(car(&h, c), Ok(fix(3)));
    assert_eq!(cdr(&h, c), Ok(fix(4)));
    assert_eq!(setcar(&mut h, nil(), fix(3)), Err(LispError::WrongType(TypePredicate::Consp, nil())));
}

#[test]
fn quote_and_length() {
    let mut h = LispHeap::new();
    let one = list(&mut h, &[fix(5)]);
    let q = LispObject(64);
    assert_eq!(quote(&h, q, h.as_cons(one).unwrap()), Ok(fix(5)));
    let two = list(&mut h, &[fix(5), fix(6)]);
    assert_eq!(quote(&h, q, h.as_cons(two).unwrap()), Err(LispError::WrongNumberOfArguments(q, fix(2))));
    assert_eq!(length(&h, two), Ok(fix(2)));
    assert_eq!(length(&h, nil()), Ok(fix(0)));
    let dotted = h.cons(fix(1), fix(2));
    assert_eq!(length(&h, dotted), Err(LispError::WrongType(TypePredicate::Listp, dotted)));
}

#[test]
fn plist_get_reads_what_plist_put_wrote() {
    let mut h = LispHeap::new();
    let pl = list(&mut h, &[sym(3), fix(1), sym(4), fix(2)]);
    let pl = plist_put(&mut h, pl, sym(4), fix(7)).unwrap();
    assert_eq!(plist_get(&h, pl, sym(4)), fix(7));
    let pl = plist_put(&mut h, pl, sym(5), fix(8)).unwrap();
    assert_eq!(plist_get(&h, pl, sym(5)), fix(8));
    assert_eq!(plist_get(&h, pl, sym(3)), fix(1));
    let fresh = plist_put(&mut h, nil(), sym(6), fix(9)).unwrap();
    assert_eq!(plist_get(&h, fresh, sym(6)), fix(9));
}

/// The elements of a proper list.
fn elements(h: &LispHeap, l: LispObject) -> Vec<LispObject> {
    let mut out = Vec::new();
    let mut t = l;
    while t != nil() {
        out.push(car(h, t).unwrap());
        t = cdr(h, t).unwrap();
    }
    out
}

#[test]
fn delq_removes_every_occurrence() {
    let mut h = LispHeap::new();
    let l = list(&mut h, &[sym(3), sym(4), sym(3), sym(5), sym(3)]);
    let r = delq(&mut h, sym(3), l).unwrap();
    assert_eq!(elements(&h, r), vec![sym(4), sym(5)]);
    let l = list(&mut h, &[sym(4), sym(3), sym(3), sym(5)]);
    let r = delq(&mut h, sym(3), l).unwrap();
    assert_eq!(r, l);
    assert_eq!(elements(&h, l), vec![sym(4), sym(5)]);
}

#[test]
fn delq_of_all_and_of_none() {
    let mut h = LispHeap::new();
    let l = list(&mut h, &[sym(3), sym(3)]);
    assert_eq!(delq(&mut h, sym(3), l), Ok(nil()));
    let l = list(&mut h, &[sym(4), sym(5)]);
    assert_eq!(delq(&mut h, sym(3), l), Ok(l));
    assert_eq!(elements(&h, l), vec![sym(4), sym(5)]);
    assert_eq!(delq(&mut h, sym(3), nil()), Ok(nil()));
}

#[test]
fn delq_checks_the_end_of_the_list() {
    let mut h = LispHeap::new();
    let tail = h.cons(sym(3), fix(7));
    let l = h.cons(sym(4), tail);
    assert_eq!(delq(&mut h, sym(3), l), Err(LispError::WrongType(TypePredicate::Listp, l)));
    assert_eq!(cdr(&h, l), Ok(fix(7)));
    let c = h.cons(sym(3), nil());
    setcdr(&mut h, c, c).unwrap();
    assert!(matches!(delq(&mut h, sym(3), c), Err(LispError::CircularList(_))));
    assert_eq!(cdr(&h, c), Ok(c));
    assert_eq!(delq(&mut h, sym(3), fix(1)), Err(LispError::WrongType(TypePredicate::Listp, fix(1))));
}
