use remacs::casetab::{case_table_p, init_casetab_once, LispCaseTable};
use remacs::chartab::{
    char_table_parent, char_table_subtype, chartab_idx, chartab_size, is_ascii, set_char_table_parent, CharLookup,
    CharTables, ChartabSlot, LispCharTable, LispSubCharTable, LispSubCharTableAsciiRef,
};
use remacs::equal::{equal, equal_in, rust_internal_equal, EqualKind};
use remacs::error::{ErrorMessage, LispError, TypePredicate};
use remacs::heap::LispHeap;
use remacs::lists::member;
use remacs::tag::LispObject;

fn fix(n: i64) -> LispObject {
    LispObject::from_fixnum(n)
}

fn nil() -> LispObject {
    LispObject::constant_nil()
}

const PROPERTY_SYM: LispObject = LispObject(40);
const CASE_SYM: LispObject = LispObject(48);

fn empty_table(parent: LispObject, defalt: LispObject) -> LispCharTable {
    LispCharTable {
        size: 68 + 3,
        defalt,
        parent,
        purpose: LispObject(56),
        ascii: ChartabSlot::Value(nil()),
        contents: (0..64).map(|_| ChartabSlot::Value(nil())).collect(),
        extras: vec![nil(), nil(), nil()],
    }
}

/// A bottom-level sub table for the codes from `min` on, each mapped by `f`.
fn bottom(min: i32, f: impl Fn(i64) -> LispObject) -> LispSubCharTable {
    LispSubCharTable {
        depth: 3,
        min_char: min,
        contents: (0..128).map(|i| ChartabSlot::Value(f(min as i64 + i))).collect(),
    }
}

#[test]
fn sizes_of_each_depth() {
    assert_eq!(chartab_size(0), 64);
    assert_eq!(chartab_size(1), 16);
    assert_eq!(chartab_size(2), 32);
    assert_eq!(chartab_size(3), 128);
}

#[test]
fn indices_of_each_depth() {
    assert_eq!(chartab_idx(0x10000, 0, 0), Ok(1));
    assert_eq!(chartab_idx(0x12345, 1, 0x10000), Ok(2));
    assert_eq!(chartab_idx(0x12345, 2, 0x12000), Ok(6));
    assert_eq!(chartab_idx(0x12345, 3, 0x12300), Ok(0x45));
    assert_eq!(chartab_idx(5, 4, 0), Err(LispError::Error(ErrorMessage::InvalidCharTableDepth)));
    assert!(is_ascii(127));
    assert!(!is_ascii(128));
}

#[test]
fn ascii_sub_table_lookup() {
    let s = bottom(0, |c| fix(c + 1));
    assert_eq!(LispSubCharTableAsciiRef(&s).get(65), fix(66));
}

#[test]
fn sub_table_lookup_goes_down_the_levels() {
    let h = LispHeap::new();
    let d3 = bottom(0x10000, |c| fix(c * 2));
    let mut d2c: Vec<ChartabSlot> = (0..32).map(|_| ChartabSlot::Value(fix(7))).collect();
    d2c[0] = ChartabSlot::Sub(d3);
    let d2 = LispSubCharTable { depth: 2, min_char: 0x10000, contents: d2c };
    let mut d1c: Vec<ChartabSlot> = (0..16).map(|_| ChartabSlot::Value(fix(9))).collect();
    d1c[0] = ChartabSlot::Sub(d2);
    let d1 = LispSubCharTable { depth: 1, min_char: 0x10000, contents: d1c };
    assert_eq!(d1.get(&h, 0x10005, false), CharLookup::Found(fix(0x2000a)));
    assert_eq!(d1.get(&h, 0x10085, false), CharLookup::Found(fix(7)));
    assert_eq!(d1.get(&h, 0x11000, false), CharLookup::Found(fix(9)));
}

#[test]
fn uniprop_compressed_slot_is_reported() {
    let mut h = LispHeap::new();
    let packed = h.make_string(vec![1, 5, 6], 3);
    let d3 = bottom(0x10000, |_| packed);
    let mut d2c: Vec<ChartabSlot> = (0..32).map(|_| ChartabSlot::Value(nil())).collect();
    d2c[0] = ChartabSlot::Sub(d3);
    let d2 = LispSubCharTable { depth: 2, min_char: 0x10000, contents: d2c };
    assert_eq!(
        d2.get(&h, 0x10003, true),
        CharLookup::Compressed { depth: 3, min_char: 0x10000, idx: 3 }
    );
    assert_eq!(d2.get(&h, 0x10003, false), CharLookup::Found(packed));
}

#[test]
fn get_uses_own_value_then_default_then_parent() {
    let h = LispHeap::new();
    let mut tabs = CharTables::new(PROPERTY_SYM, CASE_SYM);
    let mut p = empty_table(nil(), nil());
    p.ascii = ChartabSlot::Sub(bottom(0, |c| fix(c + 100)));
    let parent = tabs.push(p);
    let mut child = empty_table(parent.as_obj(), nil());
    child.contents[1] = ChartabSlot::Value(fix(5));
    let child = tabs.push(child);
    assert_eq!(child.get(&tabs, &h, 0x10001), Ok(CharLookup::Found(fix(5))));
    assert_eq!(child.get(&tabs, &h, 65), Ok(CharLookup::Found(fix(165))));
    assert_eq!(parent.get(&tabs, &h, 0x20000), Ok(CharLookup::Found(nil())));
    let with_default = tabs.push(empty_table(parent.as_obj(), fix(42)));
    assert_eq!(with_default.get(&tabs, &h, 65), Ok(CharLookup::Found(fix(42))));
    assert_eq!(
        child.get(&tabs, &h, 0x40_0000),
        Err(LispError::Error(ErrorMessage::IndexOutOfRange))
    );
}

#[test]
fn set_parent_refuses_a_cycle() {
    let mut tabs = CharTables::new(PROPERTY_SYM, CASE_SYM);
    let a = tabs.push(empty_table(nil(), nil()));
    let b = tabs.push(empty_table(a.as_obj(), nil()));
    let c = tabs.push(empty_table(b.as_obj(), nil()));
    assert_eq!(
        set_char_table_parent(&mut tabs, a, Some(c)),
        Err(LispError::Error(ErrorMessage::OwnParentCharTable))
    );
    assert_eq!(char_table_parent(&tabs, a), None);
    assert_eq!(
        set_char_table_parent(&mut tabs, a, Some(a)),
        Err(LispError::Error(ErrorMessage::OwnParentCharTable))
    );
    assert_eq!(set_char_table_parent(&mut tabs, c, Some(a)), Ok(()));
    assert_eq!(char_table_parent(&tabs, c), Some(a));
    assert_eq!(set_char_table_parent(&mut tabs, b, None), Ok(()));
    assert_eq!(char_table_parent(&tabs, b), None);
    assert_eq!(char_table_subtype(&tabs, b), LispObject(56));
}

#[test]
fn extra_slots_and_uniprop() {
    let mut tabs = CharTables::new(PROPERTY_SYM, CASE_SYM);
    let mut t = empty_table(nil(), nil());
    t.purpose = PROPERTY_SYM;
    t.size = 69;
    t.extras = vec![nil()];
    let r = tabs.push(t);
    assert_eq!(r.extra_slots(&tabs), 5);
    assert!(r.is_uniprop(&tabs));
    let plain = tabs.push(empty_table(nil(), nil()));
    assert_eq!(plain.extra_slots(&tabs), 7);
    assert!(!plain.is_uniprop(&tabs));
}

#[test]
fn case_tables_are_recognised() {
    let mut tabs = CharTables::new(PROPERTY_SYM, CASE_SYM);
    let other = tabs.push(empty_table(nil(), nil()));
    let mut ct = empty_table(nil(), nil());
    ct.purpose = CASE_SYM;
    let up = tabs.push({
        let mut u = empty_table(nil(), nil());
        u.purpose = CASE_SYM;
        u
    });
    ct.extras = vec![up.as_obj(), nil(), nil()];
    let case = tabs.push(ct);
    assert!(case_table_p(&tabs, Some(case)));
    assert!(!case_table_p(&tabs, Some(other)));
    assert!(!case_table_p(&tabs, None));
    let mut bad = empty_table(nil(), nil());
    bad.purpose = CASE_SYM;
    bad.extras = vec![nil(), nil(), up.as_obj()];
    let bad = tabs.push(bad);
    assert!(!case_table_p(&tabs, Some(bad)));
    let obj = bad.as_obj();
    assert_eq!(
        LispCaseTable::from_object(&tabs, obj).map(|_| ()),
        Err(LispError::WrongType(TypePredicate::CaseTableP, obj))
    );
    let c = LispCaseTable::from_object(&tabs, case.as_obj()).unwrap();
    assert_eq!(c.extras(&tabs), (up.as_obj(), nil(), nil()));
}

#[test]
fn case_table_extras_can_be_set() {
    let mut tabs = CharTables::new(PROPERTY_SYM, CASE_SYM);
    let mut ct = empty_table(nil(), nil());
    ct.purpose = CASE_SYM;
    let t = tabs.push(ct);
    let mut c = LispCaseTable::from_char_table(t);
    c.set_extras(&mut tabs, 2, fix(3));
    assert_eq!(c.extras(&tabs), (nil(), nil(), fix(3)));
}

#[test]
fn char_table_equality() {
    let mut h = LispHeap::new();
    let s1 = h.make_string(b"v".to_vec(), 1);
    let s2 = h.make_string(b"v".to_vec(), 1);
    let mut tabs = CharTables::new(PROPERTY_SYM, CASE_SYM);
    let mut a = empty_table(nil(), nil());
    a.contents[3] = ChartabSlot::Value(s1);
    a.ascii = ChartabSlot::Sub(bottom(0, |c| fix(c)));
    let mut b = empty_table(nil(), nil());
    b.contents[3] = ChartabSlot::Value(s2);
    b.ascii = ChartabSlot::Sub(bottom(0, |c| fix(c)));
    let mut c = empty_table(nil(), nil());
    c.ascii = ChartabSlot::Sub(bottom(0, |c| fix(c + 1)));
    let a = tabs.push(a);
    let b = tabs.push(b);
    let c = tabs.push(c);
    assert_eq!(a.equal(&tabs, &h, a, EqualKind::Plain, 0), Ok(true));
    assert_eq!(a.equal(&tabs, &h, b, EqualKind::Plain, 0), Ok(true));
    assert_eq!(a.equal(&tabs, &h, c, EqualKind::Plain, 0), Ok(false));
    let mut short = empty_table(nil(), nil());
    short.size = 68;
    short.extras = vec![];
    let short = tabs.push(short);
    assert_eq!(a.equal(&tabs, &h, short, EqualKind::Plain, 0), Ok(false));
    assert_eq!(
        a.equal(&tabs, &h, b, EqualKind::Plain, 200),
        Err(LispError::Error(ErrorMessage::StackOverflowInEqual))
    );
}

#[test]
fn char_tables_or_errors() {
    let mut tabs = CharTables::new(PROPERTY_SYM, CASE_SYM);
    let t = tabs.push(empty_table(nil(), nil()));
    assert_eq!(tabs.as_char_table_or_error(t.as_obj()), Ok(t));
    assert_eq!(tabs.as_char_table_or_error(fix(2)), Err(LispError::WrongType(TypePredicate::CharTableP, fix(2))));
}

#[test]
fn made_char_tables_hold_their_initial_value() {
    let h = LispHeap::new();
    let mut tabs = CharTables::new(PROPERTY_SYM, CASE_SYM);
    let t = tabs.make_char_table(CASE_SYM, fix(7), 3);
    assert_eq!(t.extra_slots(&tabs), 7);
    assert_eq!(char_table_subtype(&tabs, t), CASE_SYM);
    assert_eq!(t.get(&tabs, &h, 65), Ok(CharLookup::Found(fix(7))));
    assert_eq!(t.get(&tabs, &h, 0x20000), Ok(CharLookup::Found(fix(7))));
    let c = LispCaseTable::from_char_table(t);
    assert_eq!(c.extras(&tabs), (fix(7), fix(7), fix(7)));
}

#[test]
fn setting_an_ascii_code_changes_only_that_code() {
    let h = LispHeap::new();
    let mut tabs = CharTables::new(PROPERTY_SYM, CASE_SYM);
    let t = tabs.make_char_table(LispObject(56), nil(), 0);
    tabs.set_ascii_char(t, 65, fix(97));
    assert_eq!(t.get(&tabs, &h, 65), Ok(CharLookup::Found(fix(97))));
    assert_eq!(t.get(&tabs, &h, 66), Ok(CharLookup::Found(nil())));
    assert_eq!(t.get(&tabs, &h, 300), Ok(CharLookup::Found(nil())));
    tabs.set_ascii_char(t, 66, fix(98));
    assert_eq!(t.get(&tabs, &h, 65), Ok(CharLookup::Found(fix(97))));
    assert_eq!(t.get(&tabs, &h, 66), Ok(CharLookup::Found(fix(98))));
}

#[test]
fn the_standard_case_table_maps_ascii_letters() {
    let h = LispHeap::new();
    let mut tabs = CharTables::new(PROPERTY_SYM, CASE_SYM);
    let down = init_casetab_once(&mut tabs, &h);
    let t = down.as_obj(&tabs);
    let table = tabs.as_char_table(t);
    assert!(case_table_p(&tabs, table));
    let (up, canon, eqv) = down.extras(&tabs);
    let up = tabs.as_char_table(up).unwrap();
    let canon = tabs.as_char_table(canon).unwrap();
    let eqv_t = tabs.as_char_table(eqv).unwrap();
    assert_eq!(down.get(&tabs, &h, 'A' as isize), Ok(CharLookup::Found(fix('a' as i64))));
    assert_eq!(down.get(&tabs, &h, 'z' as isize), Ok(CharLookup::Found(fix('z' as i64))));
    assert_eq!(down.get(&tabs, &h, '!' as isize), Ok(CharLookup::Found(fix('!' as i64))));
    assert_eq!(up.get(&tabs, &h, 'q' as isize), Ok(CharLookup::Found(fix('Q' as i64))));
    assert_eq!(up.get(&tabs, &h, 'Q' as isize), Ok(CharLookup::Found(fix('Q' as i64))));
    assert_eq!(canon.get(&tabs, &h, 'M' as isize), Ok(CharLookup::Found(fix('m' as i64))));
    assert_eq!(eqv_t.get(&tabs, &h, 'M' as isize), Ok(CharLookup::Found(fix('m' as i64))));
    assert_eq!(eqv_t.get(&tabs, &h, 'm' as isize), Ok(CharLookup::Found(fix('M' as i64))));
    assert_eq!(eqv_t.get(&tabs, &h, '5' as isize), Ok(CharLookup::Found(fix('5' as i64))));
    let canon_case = LispCaseTable::from_char_table(canon);
    assert_eq!(canon_case.extras(&tabs).2, eqv);
}

#[test]
fn equal_compares_char_tables_inside_lists_and_vectors() {
    let mut h = LispHeap::new();
    let mut tabs = CharTables::new(PROPERTY_SYM, CASE_SYM);
    let mut a = empty_table(nil(), nil());
    a.ascii = ChartabSlot::Sub(bottom(0, |c| fix(c)));
    let mut b = empty_table(nil(), nil());
    b.ascii = ChartabSlot::Sub(bottom(0, |c| fix(c)));
    let mut c = empty_table(nil(), nil());
    c.ascii = ChartabSlot::Sub(bottom(0, |c| fix(c + 1)));
    let a = tabs.push(a).as_obj();
    let b = tabs.push(b).as_obj();
    let c = tabs.push(c).as_obj();
    // Two tables with the same contents are `equal`, also inside lists.
    assert_eq!(equal_in(&h, &tabs, a, b), Ok(true));
    assert_eq!(equal_in(&h, &tabs, a, c), Ok(false));
    let la = h.cons(a, nil());
    let la = h.cons(fix(1), la);
    let lb = h.cons(b, nil());
    let lb = h.cons(fix(1), lb);
    let lc = h.cons(c, nil());
    let lc = h.cons(fix(1), lc);
    assert_eq!(equal_in(&h, &tabs, la, lb), Ok(true));
    assert_eq!(equal_in(&h, &tabs, la, lc), Ok(false));
    let va = h.make_vector(vec![a, fix(2)]);
    let vb = h.make_vector(vec![b, fix(2)]);
    assert_eq!(rust_internal_equal(&h, &tabs, va, vb, EqualKind::Plain, 0), Ok(true));
    // Without the store of tables, distinct tables are only `eq`-compared.
    assert_eq!(equal(&h, la, lb), Ok(false));
    assert_eq!(equal(&h, la, la), Ok(true));
    // `member` finds a table by `equal`.
    assert_eq!(member(&h, &tabs, b, la), Ok(h.cdr(h.as_cons(la).unwrap())));
}
