use remacs::buffers::{nsberror, string_equal};
use remacs::editfns::LispBuffer;
use remacs::error::{ErrorMessage, LispError, TypePredicate};
use remacs::heap::LispHeap;
use remacs::marker::Buffers;
use remacs::tag::LispObject;

fn buffer(name: LispObject, text: &[u8]) -> LispBuffer {
    let z = text.len() as isize + 1;
    LispBuffer {
        pt: 1,
        pt_byte: 1,
        begv: 1,
        begv_byte: 1,
        zv: z,
        zv_byte: z,
        z,
        z_byte: z,
        text: text.to_vec(),
        mark: None,
        mark_active: false,
        gpt: z,
        gpt_byte: z,
        modiff: 3,
        is_cached: false,
        cached_modiff: 0,
        cached_charpos: 1,
        cached_bytepos: 1,
        markers: Vec::new(),
        name,
        filename: LispObject::constant_nil(),
        save_modiff: 3,
        chars_modiff: 2,
        truename: LispObject::constant_nil(),
        position_markers: None,
    }
}

/// Buffers "*scratch*" (visiting /tmp/a), "notes" (killed, also named
/// "*scratch*" before) and "notes".
fn world(h: &mut LispHeap) -> Buffers {
    let scratch = h.make_string(b"*scratch*".to_vec(), 9);
    let notes = h.make_string(b"notes".to_vec(), 5);
    let file = h.make_string(b"/tmp/a".to_vec(), 6);
    let mut first = buffer(scratch, b"hello world");
    first.filename = file;
    first.truename = file;
    first.modiff = 5;
    let dead = buffer(LispObject::constant_nil(), b"");
    let second = buffer(notes, b"abc");
    Buffers { buffers: vec![first, dead, second], markers: Vec::new(), current: 0 }
}

#[test]
fn strings_compare_by_characters() {
    let mut h = LispHeap::new();
    let a = h.make_string(b"abc".to_vec(), 3);
    let b = h.make_string(b"abc".to_vec(), 3);
    let c = h.make_string(b"abd".to_vec(), 3);
    assert!(string_equal(&h, a, b));
    assert!(!string_equal(&h, a, c));
    assert!(!string_equal(&h, a, LispObject::constant_nil()));
}

#[test]
fn buffers_by_name() {
    let mut h = LispHeap::new();
    let w = world(&mut h);
    let notes = h.make_string(b"notes".to_vec(), 5);
    let missing = h.make_string(b"missing".to_vec(), 7);
    assert_eq!(w.get_buffer(&h, notes), Ok(w.buffer_obj(2)));
    assert_eq!(w.get_buffer(&h, missing), Ok(LispObject::constant_nil()));
    let b0 = w.buffer_obj(0);
    assert_eq!(w.get_buffer(&h, b0), Ok(b0));
    let n = LispObject::from_fixnum(1);
    assert_eq!(w.get_buffer(&h, n), Err(LispError::WrongType(TypePredicate::Stringp, n)));
    let file = h.make_string(b"/tmp/a".to_vec(), 6);
    assert_eq!(w.get_file_buffer(&h, file), Ok(Some(0)));
    assert_eq!(w.get_file_buffer(&h, notes), Ok(None));
    assert_eq!(w.get_truename_buffer(&h, file), b0);
    assert_eq!(w.get_truename_buffer(&h, notes), LispObject::constant_nil());
}

#[test]
fn buffer_properties() {
    let mut h = LispHeap::new();
    let w = world(&mut h);
    let nil = LispObject::constant_nil();
    assert_eq!(w.current_buffer(), w.buffer_obj(0));
    assert!(w.buffer_live_p(w.buffer_obj(0)));
    assert!(!w.buffer_live_p(w.buffer_obj(1)));
    assert!(!w.buffer_live_p(LispObject::from_fixnum(3)));
    assert_eq!(w.buffer_modified_p(nil), Ok(true));
    assert_eq!(w.buffer_modified_p(w.buffer_obj(2)), Ok(false));
    assert_eq!(w.buffer_modified_tick(nil), Ok(5));
    assert_eq!(w.buffer_chars_modified_tick(nil), Ok(2));
    assert_eq!(w.buffer_name(w.buffer_obj(1)), Ok(nil));
    assert_eq!(w.buffer_file_name(nil), Ok(w.buffers[0].filename));
    let t = LispObject::constant_t();
    assert_eq!(w.buffer_name(t), Err(LispError::WrongType(TypePredicate::BufferP, t)));
}

#[test]
fn making_buffers_current() {
    let mut h = LispHeap::new();
    let mut w = world(&mut h);
    let notes = h.make_string(b"notes".to_vec(), 5);
    assert_eq!(w.set_buffer(&h, notes), Ok(w.buffer_obj(2)));
    assert_eq!(w.current, 2);
    let dead = w.buffer_obj(1);
    assert_eq!(w.set_buffer(&h, dead), Err(LispError::Error(ErrorMessage::SelectingDeletedBuffer)));
    let missing = h.make_string(b"missing".to_vec(), 7);
    assert_eq!(
        w.set_buffer(&h, missing),
        Err(LispError::ErrorWith(ErrorMessage::NoBufferNamed, missing, LispObject::constant_nil()))
    );
    assert_eq!(nsberror(&h, LispObject::from_fixnum(1)), LispError::Error(ErrorMessage::InvalidBufferArgument));
    let b0 = w.buffer_obj(0);
    assert_eq!(w.set_buffer(&h, b0), Ok(b0));
    assert_eq!(w.current, 0);
}

#[test]
fn validating_regions() {
    let mut h = LispHeap::new();
    let mut w = world(&mut h);
    let fix = LispObject::from_fixnum;
    assert_eq!(w.validate_region(fix(8), fix(3)), Ok((fix(3), fix(8))));
    assert_eq!(
        w.validate_region(fix(0), fix(3)),
        Err(LispError::ArgsOutOfRange3(w.buffer_obj(0), fix(0), fix(3)))
    );
    let m = w.make_marker();
    let mw = LispObject(m as i64 * 8 + 1);
    assert_eq!(w.validate_region(mw, fix(3)), Err(LispError::Error(ErrorMessage::MarkerDoesNotPointAnywhere)));
    w.set_marker(mw, fix(10), LispObject::constant_nil()).unwrap();
    assert_eq!(w.validate_region(mw, fix(3)), Ok((fix(3), fix(10))));
    let t = LispObject::constant_t();
    assert_eq!(w.validate_region(t, fix(3)), Err(LispError::WrongType(TypePredicate::IntegerOrMarkerP, t)));
}

#[test]
fn position_markers_round_trip() {
    let mut h = LispHeap::new();
    let mut w = world(&mut h);
    let p = w.make_marker();
    let b = w.make_marker();
    let z = w.make_marker();
    w.buffers[0].position_markers = Some((p, b, z));
    w.buffers[0].pt = 4;
    w.buffers[0].pt_byte = 4;
    w.buffers[0].begv = 2;
    w.buffers[0].begv_byte = 2;
    w.buffers[0].zv = 9;
    w.buffers[0].zv_byte = 9;
    w.record_buffer_markers(0);
    assert_eq!(w.marker_position_lisp(p), Some(4));
    assert_eq!(w.marker_position_lisp(b), Some(2));
    assert_eq!(w.marker_position_lisp(z), Some(9));
    w.buffers[0].pt = 1;
    w.buffers[0].pt_byte = 1;
    w.buffers[0].begv = 1;
    w.buffers[0].begv_byte = 1;
    w.buffers[0].zv = 12;
    w.buffers[0].zv_byte = 12;
    w.fetch_buffer_markers(0);
    assert_eq!((w.buffers[0].pt, w.buffers[0].begv, w.buffers[0].zv), (4, 2, 9));
    assert_eq!((w.buffers[0].pt_byte, w.buffers[0].begv_byte, w.buffers[0].zv_byte), (4, 2, 9));
}

#[test]
fn largest_buffer_is_one_below_the_largest_fixnum() {
    assert_eq!(remacs::buffers::buf_bytes_max(), 0x1fff_ffff_ffff_fffe);
}

/// The elements of a proper list.
fn elements(h: &LispHeap, l: LispObject) -> Vec<LispObject> {
    let mut out = Vec::new();
    let mut t = l;
    while t != LispObject::constant_nil() {
        out.push(remacs::lists::car(h, t).unwrap());
        t = remacs::lists::cdr(h, t).unwrap();
    }
    out
}

#[test]
fn buffer_list_holds_the_live_buffers() {
    let mut h = LispHeap::new();
    let w = world(&mut h);
    let b0 = w.buffer_obj(0);
    let b2 = w.buffer_obj(2);
    let l = w.buffer_list(&mut h, None);
    assert_eq!(elements(&h, l), vec![b0, b2]);
}

#[test]
fn buffer_list_of_a_frame() {
    let mut h = LispHeap::new();
    let w = world(&mut h);
    let b0 = w.buffer_obj(0);
    let b2 = w.buffer_obj(2);
    let shown = vec![b2];
    let buried: Vec<LispObject> = Vec::new();
    let l = w.buffer_list(&mut h, Some((&shown, &buried)));
    assert_eq!(elements(&h, l), vec![b2, b0, b2]);
    let buried = vec![b0, b2];
    let l = w.buffer_list(&mut h, Some((&shown, &buried)));
    assert_eq!(elements(&h, l), vec![b2, b0, b2, b0]);
}
