use remacs::error::{LispError, TypePredicate};
use remacs::heap::LispHeap;
use remacs::symbols::{
    boundp, fboundp, fmakunbound, indirect_variable_lisp, keywordp, setplist, symbol_function, symbol_plist,
    symbol_or_string_as_string, symbolp, LispSymbol, LispSymbolRef, SymbolRedirect, Symbols,
};
use remacs::tag::LispObject;

const UNBOUND: LispObject = LispObject(0x7ff8);

fn symbol(name: LispObject, redirect: SymbolRedirect, value: LispObject) -> LispSymbol {
    LispSymbol {
        name,
        function: LispObject::constant_nil(),
        plist: LispObject::constant_nil(),
        redirect,
        alias: 0,
        value,
        interned_in_initial_obarray: true,
        constant: false,
    }
}

/// nil, t, :key, `a` (bound to 5), `b` alias of `a`, `c` alias of `b`,
/// `d` and `e` aliases of each other, `f` unbound, `g` forwarded, `h`
/// buffer-local.
fn store(h: &mut LispHeap) -> (Symbols, Vec<LispSymbolRef>) {
    let mut syms = Symbols::new();
    let mut refs = Vec::new();
    let names: Vec<&[u8]> = vec![b"nil", b"t", b":key", b"a", b"b", b"c", b"d", b"e", b"f", b"g", b"h"];
    for n in names {
        let name = h.make_string(n.to_vec(), n.len());
        let mut s = symbol(name, SymbolRedirect::PlainVal, UNBOUND);
        if n == b"a" {
            s.value = LispObject::from_fixnum(5);
        }
        if n == b"g" {
            s.redirect = SymbolRedirect::Forwarded;
        }
        if n == b"h" {
            s.redirect = SymbolRedirect::Localized;
        }
        if n == b"nil" || n == b"t" || n == b":key" {
            s.constant = true;
        }
        refs.push(syms.push(s));
    }
    syms.set_alias(refs[4], refs[3]);
    syms.set_alias(refs[5], refs[4]);
    syms.set_alias(refs[6], refs[7]);
    syms.set_alias(refs[7], refs[6]);
    (syms, refs)
}

#[test]
fn symbol_words() {
    let mut h = LispHeap::new();
    let (_syms, refs) = store(&mut h);
    assert_eq!(refs[0].as_lisp_obj(), LispObject::constant_nil());
    assert_eq!(refs[1].as_lisp_obj(), LispObject::constant_t());
    assert_eq!(refs[3].as_lisp_obj(), LispObject(24));
    assert!(symbolp(LispObject(24)));
    assert!(!symbolp(LispObject::from_fixnum(3)));
}

#[test]
fn alias_chains() {
    let mut h = LispHeap::new();
    let (syms, refs) = store(&mut h);
    assert_eq!(refs[5].get_indirect_variable(&syms), Ok(refs[3]));
    assert_eq!(refs[3].get_indirect_variable(&syms), Ok(refs[3]));
    assert_eq!(indirect_variable_lisp(&syms, LispObject(40)), Ok(LispObject(24)));
    assert_eq!(indirect_variable_lisp(&syms, LispObject::from_fixnum(7)), Ok(LispObject::from_fixnum(7)));
    let cyclic = refs[6].get_indirect_variable(&syms);
    assert!(matches!(cyclic, Err(LispError::CyclicVariableIndirection(_))));
    assert!(matches!(indirect_variable_lisp(&syms, LispObject(56)), Err(LispError::CyclicVariableIndirection(_))));
}

#[test]
fn cyclic_chain_reports_the_meeting_symbol() {
    let mut h = LispHeap::new();
    let (syms, refs) = store(&mut h);
    // From d: the hare goes e, d; the tortoise e; at step 2 the hare is at
    // d and the tortoise at e; at step 4 both are at d.
    assert_eq!(refs[6].get_indirect_variable(&syms), Err(LispError::CyclicVariableIndirection(LispObject(48))));
}

#[test]
fn bound_variables() {
    let mut h = LispHeap::new();
    let (syms, refs) = store(&mut h);
    assert_eq!(boundp(&syms, refs[3], UNBOUND), Ok(Some(true)));
    assert_eq!(boundp(&syms, refs[5], UNBOUND), Ok(Some(true)));
    assert_eq!(boundp(&syms, refs[8], UNBOUND), Ok(Some(false)));
    assert_eq!(boundp(&syms, refs[9], UNBOUND), Ok(Some(true)));
    assert_eq!(boundp(&syms, refs[10], UNBOUND), Ok(None));
    assert!(matches!(boundp(&syms, refs[7], UNBOUND), Err(LispError::CyclicVariableIndirection(_))));
}

#[test]
fn function_and_property_cells() {
    let mut h = LispHeap::new();
    let (mut syms, refs) = store(&mut h);
    assert!(!fboundp(&syms, refs[3]));
    syms.set_function(refs[3], LispObject(32));
    assert!(fboundp(&syms, refs[3]));
    assert_eq!(symbol_function(&syms, refs[3]), LispObject(32));
    let plist = h.cons(LispObject(16), LispObject::from_fixnum(1));
    assert_eq!(setplist(&mut syms, refs[3], plist), plist);
    assert_eq!(symbol_plist(&syms, refs[3]), plist);
    assert_eq!(symbol_plist(&syms, refs[4]), LispObject::constant_nil());
    assert_eq!(fmakunbound(&mut syms, LispObject(24)), Ok(refs[3]));
    assert!(!fboundp(&syms, refs[3]));
    assert_eq!(symbol_plist(&syms, refs[3]), plist);
    assert_eq!(fmakunbound(&mut syms, LispObject(8)), Err(LispError::SettingConstant(LispObject(8))));
    assert_eq!(fmakunbound(&mut syms, LispObject::constant_nil()), Err(LispError::SettingConstant(LispObject(0))));
    let n = LispObject::from_fixnum(3);
    assert_eq!(fmakunbound(&mut syms, n), Err(LispError::WrongType(TypePredicate::Symbolp, n)));
}

#[test]
fn keywords() {
    let mut h = LispHeap::new();
    let (syms, refs) = store(&mut h);
    assert!(keywordp(&syms, &h, LispObject(16)));
    assert!(!keywordp(&syms, &h, LispObject(24)));
    assert!(!keywordp(&syms, &h, LispObject::from_fixnum(2)));
    assert!(refs[2].is_constant(&syms));
    assert!(!refs[3].is_constant(&syms));
    assert_eq!(refs[3].get_value(&syms), LispObject::from_fixnum(5));
    assert_eq!(refs[9].get_redirect(&syms), SymbolRedirect::Forwarded);
}

#[test]
fn names_of_symbols_and_strings() {
    let mut h = LispHeap::new();
    let (syms, refs) = store(&mut h);
    let a = refs[3].as_lisp_obj();
    let name = symbol_or_string_as_string(&syms, &h, a).unwrap();
    assert_eq!(h.string_len_bytes(name), 1);
    assert_eq!(h.string_byte_at(name, 0), b'a');
    let s = h.make_string(b"xyz".to_vec(), 3);
    assert_eq!(symbol_or_string_as_string(&syms, &h, s), Ok(s));
    let n = LispObject::from_fixnum(4);
    assert_eq!(symbol_or_string_as_string(&syms, &h, n), Err(LispError::WrongType(TypePredicate::Stringp, n)));
}

#[test]
fn symbols_or_errors() {
    let mut h = LispHeap::new();
    let (syms, refs) = store(&mut h);
    assert_eq!(syms.as_symbol_or_error(refs[3].as_lisp_obj()), Ok(refs[3]));
    let n = LispObject::from_fixnum(1);
    assert_eq!(syms.as_symbol_or_error(n), Err(LispError::WrongType(TypePredicate::Symbolp, n)));
}

#[test]
fn interned_in_the_initial_obarray() {
    let mut h = LispHeap::new();
    let (syms, refs) = store(&mut h);
    assert!(refs[3].is_interned_in_initial_obarray(&syms));
}

#[test]
fn put_sets_a_property() {
    let mut h = LispHeap::new();
    let (mut syms, refs) = store(&mut h);
    let prop = LispObject(0x400);
    assert_eq!(remacs::symbols::put(&mut syms, &mut h, refs[3], prop, LispObject::from_fixnum(7)), Ok(LispObject::from_fixnum(7)));
    let plist = symbol_plist(&syms, refs[3]);
    assert_eq!(remacs::lists::plist_get(&h, plist, prop), LispObject::from_fixnum(7));
    assert_eq!(remacs::symbols::put(&mut syms, &mut h, refs[3], prop, LispObject::from_fixnum(8)), Ok(LispObject::from_fixnum(8)));
    assert_eq!(remacs::lists::plist_get(&h, symbol_plist(&syms, refs[3]), prop), LispObject::from_fixnum(8));
}
