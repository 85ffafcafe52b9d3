use remacs::error::{ErrorMessage, LispError, TypePredicate};
use remacs::heap::LispHeap;
use remacs::kbd_macros::{
    begin_defining, call_last_kbd_macro, cancel_kbd_macro_events, end_kbd_macro_lisp, finalize_kbd_macro_chars,
    start_kbd_macro, store_kbd_macro_char, store_kbd_macro_event, CommandState, KBoard, KbdMacroRun, KbdMacroStart,
};
use remacs::tag::LispObject;

fn fix(n: i64) -> LispObject {
    LispObject::from_fixnum(n)
}

fn nil() -> LispObject {
    LispObject::constant_nil()
}

#[test]
fn record_and_end_a_macro() {
    let mut h = LispHeap::new();
    let mut kb = KBoard::new();
    assert_eq!(start_kbd_macro(&mut kb, &h, nil(), false), Ok(KbdMacroStart::Defining));
    assert!(kb.is_defining());
    assert_eq!(kb.bufsize(), 30);
    store_kbd_macro_char(&mut kb, fix(97)).unwrap();
    finalize_kbd_macro_chars(&mut kb);
    store_kbd_macro_event(&mut kb, fix(98)).unwrap();
    cancel_kbd_macro_events(&mut kb);
    store_kbd_macro_char(&mut kb, fix(99)).unwrap();
    finalize_kbd_macro_chars(&mut kb);
    assert_eq!(end_kbd_macro_lisp(&mut kb, &mut h, 1), Ok(None));
    assert!(!kb.is_defining());
    let m = kb.last_kbd_macro();
    assert_eq!(h.vector_len(m), 2);
    assert_eq!(h.vector_ref(m, 0), fix(97));
    assert_eq!(h.vector_ref(m, 1), fix(99));
}

#[test]
fn errors_of_definition() {
    let mut h = LispHeap::new();
    let mut kb = KBoard::new();
    assert_eq!(
        end_kbd_macro_lisp(&mut kb, &mut h, 1),
        Err(LispError::Error(ErrorMessage::NotDefiningKbdMacro))
    );
    start_kbd_macro(&mut kb, &h, nil(), false).unwrap();
    assert_eq!(
        start_kbd_macro(&mut kb, &h, nil(), false),
        Err(LispError::Error(ErrorMessage::AlreadyDefiningKbdMacro))
    );
}

#[test]
fn store_outside_definition_does_nothing() {
    let mut kb = KBoard::new();
    assert_eq!(store_kbd_macro_char(&mut kb, fix(1)), Ok(()));
    assert_eq!(kb.bufsize(), 0);
}

#[test]
fn buffer_grows_by_half() {
    let h = LispHeap::new();
    let mut kb = KBoard::new();
    start_kbd_macro(&mut kb, &h, nil(), false).unwrap();
    for i in 0..31 {
        store_kbd_macro_char(&mut kb, fix(i)).unwrap();
    }
    assert_eq!(kb.bufsize(), 45);
}

#[test]
fn repeat_counts_after_definition() {
    for (count, expected) in [(0i64, Some(0i64)), (1, None), (3, Some(2)), (-2, None)] {
        let mut h = LispHeap::new();
        let mut kb = KBoard::new();
        start_kbd_macro(&mut kb, &h, nil(), false).unwrap();
        assert_eq!(end_kbd_macro_lisp(&mut kb, &mut h, count), Ok(expected));
    }
}

#[test]
fn append_copies_a_string_macro_with_meta_chars() {
    let mut h = LispHeap::new();
    let mut kb = KBoard::new();
    let s = h.make_string(vec![b'a', 0x80 | b'x'], 2);
    kb.set_last_kbd_macro(s);
    assert_eq!(start_kbd_macro(&mut kb, &h, LispObject::constant_t(), true), Ok(KbdMacroStart::Appending));
    store_kbd_macro_char(&mut kb, fix(7)).unwrap();
    finalize_kbd_macro_chars(&mut kb);
    end_kbd_macro_lisp(&mut kb, &mut h, 1).unwrap();
    let m = kb.last_kbd_macro();
    assert_eq!(h.vector_len(m), 3);
    assert_eq!(h.vector_ref(m, 0), fix(97));
    assert_eq!(h.vector_ref(m, 1), fix(0x800_0000 + 0x78));
    assert_eq!(h.vector_ref(m, 2), fix(7));
}

#[test]
fn append_with_reexecution_starts_after_the_run() {
    let mut h = LispHeap::new();
    let mut kb = KBoard::new();
    let v = h.make_vector(vec![fix(1), fix(2)]);
    kb.set_last_kbd_macro(v);
    assert_eq!(
        start_kbd_macro(&mut kb, &h, LispObject::constant_t(), false),
        Ok(KbdMacroStart::ReexecuteThenAppend)
    );
    assert!(!kb.is_defining());
    begin_defining(&mut kb);
    assert!(kb.is_defining());
}

#[test]
fn append_needs_an_array() {
    let h = LispHeap::new();
    let mut kb = KBoard::new();
    kb.set_last_kbd_macro(fix(3));
    assert_eq!(
        start_kbd_macro(&mut kb, &h, LispObject::constant_t(), true),
        Err(LispError::WrongType(TypePredicate::Arrayp, fix(3)))
    );
}

#[test]
fn calling_the_last_macro() {
    let mut h = LispHeap::new();
    let mut kb = KBoard::new();
    let mut cmd = CommandState { this_command: fix(1), real_this_command: fix(2), last_command: fix(3) };
    assert_eq!(call_last_kbd_macro(&kb, &mut cmd), Err(LispError::Error(ErrorMessage::NoKbdMacroDefined)));
    assert_eq!(cmd.this_command, fix(3));
    let v = h.make_vector(vec![fix(1)]);
    kb.set_last_kbd_macro(v);
    assert_eq!(call_last_kbd_macro(&kb, &mut cmd), Ok(v));
    assert_eq!(cmd.real_this_command, v);
    start_kbd_macro(&mut kb, &h, nil(), false).unwrap();
    assert_eq!(
        call_last_kbd_macro(&kb, &mut cmd),
        Err(LispError::Error(ErrorMessage::AnonymousMacroWhileDefining))
    );
}

#[test]
fn execution_repeats_and_stops() {
    let mut h = LispHeap::new();
    let v = h.make_vector(vec![fix(1)]);
    assert!(KbdMacroRun::start(&h, fix(1), 1).is_err());
    let mut run = KbdMacroRun::start(&h, v, 2).unwrap();
    assert!(run.after_iteration(&h, v));
    assert!(!run.after_iteration(&h, v));
    assert_eq!(run.iterations, 2);
    let mut forever = KbdMacroRun::start(&h, v, 0).unwrap();
    assert!(forever.after_iteration(&h, v));
    assert!(!forever.after_iteration(&h, fix(1)));
}

#[test]
fn saved_macro_state_is_restored() {
    let mut h = LispHeap::new();
    let s = remacs::kbd_macros::SavedMacroState {
        executing: LispObject(0x300),
        index: 7,
        real_this_command: LispObject(0x308),
    };
    let info = remacs::kbd_macros::save_kbd_macro_state(&mut h, s);
    assert_eq!(remacs::kbd_macros::pop_kbd_macro(&h, info), Ok(s));
}

#[test]
fn a_malformed_record_is_an_error() {
    let mut h = LispHeap::new();
    let bad = h.cons(LispObject(0x300), LispObject::from_fixnum(1));
    assert_eq!(
        remacs::kbd_macros::pop_kbd_macro(&h, bad),
        Err(LispError::WrongType(TypePredicate::Consp, LispObject::from_fixnum(1)))
    );
    let rest = h.cons(LispObject(0x300), LispObject(0x308));
    let bad_index = h.cons(LispObject(0x300), rest);
    assert_eq!(
        remacs::kbd_macros::pop_kbd_macro(&h, bad_index),
        Err(LispError::WrongType(TypePredicate::Integerp, LispObject(0x300)))
    );
}

#[test]
fn saved_state_survives_allocation() {
    let mut h = LispHeap::new();
    let s = remacs::kbd_macros::SavedMacroState {
        executing: LispObject::constant_nil(),
        index: -3,
        real_this_command: LispObject(0x310),
    };
    let info = remacs::kbd_macros::save_kbd_macro_state(&mut h, s);
    for i in 0..10 {
        h.cons(fix(i), LispObject::constant_nil());
    }
    assert_eq!(remacs::kbd_macros::pop_kbd_macro(&h, info), Ok(s));
}

#[test]
fn appending_to_a_multibyte_string_macro() {
    let mut h = LispHeap::new();
    let mut kb = KBoard::new();
    let s = h.make_string("aé€Ā".as_bytes().to_vec(), 4);
    kb.set_last_kbd_macro(s);
    assert_eq!(start_kbd_macro(&mut kb, &h, LispObject::constant_t(), true), Ok(KbdMacroStart::Appending));
    assert_eq!(end_kbd_macro_lisp(&mut kb, &mut h, 1), Ok(None));
    let m = kb.last_kbd_macro();
    assert_eq!(h.vector_len(m), 4);
    assert_eq!(h.vector_ref(m, 0), fix(97));
    // U+00E9 has the bit 0x80 set: it moves to the meta bit.
    assert_eq!(h.vector_ref(m, 1), fix(0x800_0000 | 0x69));
    // U+20AC (0x20AC) has it set too.
    assert_eq!(h.vector_ref(m, 2), fix(0x800_0000 | 0x202C));
    // U+0100 has it clear.
    assert_eq!(h.vector_ref(m, 3), fix(0x100));
}

#[test]
fn appending_to_a_unibyte_string_macro_with_meta() {
    let mut h = LispHeap::new();
    let mut kb = KBoard::new();
    let s = h.make_string(vec![b'x', 0xE1], 2);
    kb.set_last_kbd_macro(s);
    assert_eq!(
        start_kbd_macro(&mut kb, &h, LispObject::constant_t(), false),
        Ok(KbdMacroStart::ReexecuteThenAppend)
    );
    assert!(!kb.is_defining());
    begin_defining(&mut kb);
    assert_eq!(end_kbd_macro_lisp(&mut kb, &mut h, 1), Ok(None));
    let m = kb.last_kbd_macro();
    assert_eq!(h.vector_ref(m, 0), fix(b'x' as i64));
    assert_eq!(h.vector_ref(m, 1), fix(0x800_0000 | 0x61));
}

#[test]
fn a_large_buffer_is_cut_back_when_a_new_macro_starts() {
    let mut h = LispHeap::new();
    let mut kb = KBoard::new();
    start_kbd_macro(&mut kb, &h, nil(), false).unwrap();
    for i in 0..31 {
        store_kbd_macro_char(&mut kb, fix(i)).unwrap();
    }
    end_kbd_macro_lisp(&mut kb, &mut h, 1).unwrap();
    assert_eq!(kb.bufsize(), 45);
    start_kbd_macro(&mut kb, &h, nil(), false).unwrap();
    assert_eq!(kb.bufsize(), 45);
    for i in 0..250 {
        store_kbd_macro_char(&mut kb, fix(i)).unwrap();
    }
    end_kbd_macro_lisp(&mut kb, &mut h, 1).unwrap();
    assert!(kb.bufsize() > 200);
    start_kbd_macro(&mut kb, &h, nil(), false).unwrap();
    assert_eq!(kb.bufsize(), 30);
}
