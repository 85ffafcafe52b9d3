use remacs::error::{ErrorMessage, LispError, TypePredicate};
use remacs::fns::{
    featurep, provide, require_begin, require_finish, require_from_file, require_history_entry, FeatureState,
    FeatureSymbols, RequireStep,
};
use remacs::heap::LispHeap;
use remacs::lists::{car, cdr};
use remacs::tag::LispObject;

fn nil() -> LispObject {
    LispObject::constant_nil()
}

fn sym(i: i64) -> LispObject {
    LispObject(i * 8)
}

fn state() -> FeatureState {
    FeatureState {
        features: nil(),
        autoload_queue: nil(),
        current_load_list: nil(),
        after_load_alist: nil(),
        load_history: nil(),
        require_nesting_list: nil(),
        load_in_progress: false,
        purify_flag: nil(),
    }
}

fn syms() -> FeatureSymbols {
    FeatureSymbols { provide: sym(40), require: sym(41) }
}

#[test]
fn provide_then_featurep() {
    let mut h = LispHeap::new();
    let mut st = state();
    assert_eq!(featurep(&h, &st, sym(50), nil(), nil()), Ok(false));
    let out = provide(&mut h, &mut st, &syms(), sym(50), nil()).unwrap();
    assert_eq!(out.feature, sym(50));
    assert!(out.load_hooks.is_none());
    assert!(out.put_subfeatures.is_none());
    assert_eq!(featurep(&h, &st, sym(50), nil(), nil()), Ok(true));
    assert_eq!(car(&h, st.features), Ok(sym(50)));
    let entry = car(&h, st.current_load_list).unwrap();
    assert_eq!(car(&h, entry), Ok(sym(40)));
    assert_eq!(cdr(&h, entry), Ok(sym(50)));
    let before = st.features;
    provide(&mut h, &mut st, &syms(), sym(50), nil()).unwrap();
    assert_eq!(st.features, before);
}

#[test]
fn provide_checks_its_arguments_and_runs_hooks() {
    let mut h = LispHeap::new();
    let mut st = state();
    let n = LispObject::from_fixnum(1);
    assert_eq!(
        provide(&mut h, &mut st, &syms(), n, nil()).err(),
        Some(LispError::WrongType(TypePredicate::Symbolp, n))
    );
    assert_eq!(
        provide(&mut h, &mut st, &syms(), sym(50), n).err(),
        Some(LispError::WrongType(TypePredicate::Listp, n))
    );
    let hooks = h.cons(sym(60), nil());
    let entry = h.cons(sym(50), hooks);
    st.after_load_alist = h.cons(entry, nil());
    let subs = h.cons(sym(70), nil());
    let out = provide(&mut h, &mut st, &syms(), sym(50), subs).unwrap();
    assert_eq!(out.load_hooks, Some(hooks));
    assert_eq!(out.put_subfeatures, Some(subs));
    assert_eq!(featurep(&h, &st, sym(50), sym(70), subs), Ok(true));
    assert_eq!(featurep(&h, &st, sym(50), sym(71), subs), Ok(false));
}

#[test]
fn provide_records_in_an_active_autoload_queue() {
    let mut h = LispHeap::new();
    let mut st = state();
    st.autoload_queue = LispObject::constant_t();
    provide(&mut h, &mut st, &syms(), sym(50), nil()).unwrap();
    let first = car(&h, st.autoload_queue).unwrap();
    assert_eq!(car(&h, first), Ok(LispObject::from_fixnum(0)));
    assert_eq!(cdr(&h, first), Ok(nil()));
    assert_eq!(cdr(&h, st.autoload_queue), Ok(LispObject::constant_t()));
}

#[test]
fn require_of_a_provided_feature() {
    let mut h = LispHeap::new();
    let mut st = state();
    provide(&mut h, &mut st, &syms(), sym(50), nil()).unwrap();
    match require_begin(&mut h, &mut st, sym(50), nil(), nil()) {
        Ok(RequireStep::Provided(f)) => assert_eq!(f, sym(50)),
        _ => panic!("expected the feature to be provided"),
    }
}

#[test]
fn require_loads_and_finishes() {
    let mut h = LispHeap::new();
    let mut st = state();
    let (saved_nesting, saved_queue) = match require_begin(&mut h, &mut st, sym(50), nil(), nil()) {
        Ok(RequireStep::Load { file, saved_nesting, saved_queue, .. }) => {
            assert_eq!(file, None);
            (saved_nesting, saved_queue)
        }
        _ => panic!("expected a load"),
    };
    assert_eq!(st.autoload_queue, LispObject::constant_t());
    assert_eq!(car(&h, st.require_nesting_list), Ok(sym(50)));
    provide(&mut h, &mut st, &syms(), sym(50), nil()).unwrap();
    let end = require_finish(&h, &mut st, sym(50), true, saved_nesting, saved_queue);
    assert_eq!(end.result, Ok(sym(50)));
    assert!(end.unwind_queue.is_none());
    assert_eq!(st.require_nesting_list, nil());
    assert_eq!(st.autoload_queue, nil());
}

#[test]
fn require_errors() {
    let mut h = LispHeap::new();
    let mut st = state();
    st.purify_flag = LispObject::constant_t();
    assert_eq!(
        require_begin(&mut h, &mut st, sym(50), nil(), nil()).err(),
        Some(LispError::ErrorWith(ErrorMessage::RequireWhileDumping, sym(50), nil()))
    );
    let mut st = state();
    let mut l = nil();
    for _ in 0..4 {
        l = h.cons(sym(50), l);
    }
    st.require_nesting_list = l;
    assert_eq!(
        require_begin(&mut h, &mut st, sym(50), nil(), nil()).err(),
        Some(LispError::ErrorWith(ErrorMessage::RecursiveRequire, sym(50), nil()))
    );
    let mut st = state();
    let end = require_finish(&h, &mut st, sym(50), true, nil(), nil());
    assert_eq!(end.result, Err(LispError::WrongType(TypePredicate::Stringp, sym(50))));
    assert_eq!(end.unwind_queue, Some(nil()));
    let end = require_finish(&h, &mut st, sym(50), false, nil(), nil());
    assert_eq!(end.result, Ok(nil()));
}

#[test]
fn require_history_entries() {
    let mut h = LispHeap::new();
    let mut st = state();
    assert!(!require_from_file(&h, &st));
    let file = h.make_string(b"f.el".to_vec(), 4);
    st.current_load_list = h.cons(file, nil());
    assert!(require_from_file(&h, &st));
    let entry = require_history_entry(&mut h, &st, &syms(), sym(50)).unwrap().unwrap();
    assert_eq!(car(&h, entry), Ok(sym(41)));
    st.current_load_list = h.cons(entry, st.current_load_list);
    assert_eq!(require_history_entry(&mut h, &st, &syms(), sym(50)), Ok(None));
}
