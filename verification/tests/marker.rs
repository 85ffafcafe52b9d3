use remacs::editfns::LispBuffer;
use remacs::error::{ErrorMessage, LispError, TypePredicate};
use remacs::chartab::CharTables;
use remacs::equal::EqualKind;
use remacs::heap::LispHeap;
use remacs::marker::{equal_with_markers, Buffers, LispMarker};
use remacs::tag::LispObject;

/// A buffer holding TEXT of NCHARS characters, point at character PT
/// (byte PT_BYTE), the whole text accessible.
fn buffer(text: &[u8], nchars: isize, pt: isize, pt_byte: isize) -> LispBuffer {
    let z = nchars + 1;
    let z_byte = text.len() as isize + 1;
    LispBuffer {
        pt,
        pt_byte,
        begv: 1,
        begv_byte: 1,
        zv: z,
        zv_byte: z_byte,
        z,
        z_byte,
        text: text.to_vec(),
        mark: None,
        mark_active: false,
        gpt: z,
        gpt_byte: z_byte,
        modiff: 1,
        is_cached: false,
        cached_modiff: 0,
        cached_charpos: 1,
        cached_bytepos: 1,
        markers: Vec::new(),
        name: LispObject(0x104),
        filename: LispObject::constant_nil(),
        save_modiff: 1,
        chars_modiff: 1,
        truename: LispObject::constant_nil(),
        position_markers: None,
    }
}

/// "aé€b": characters of one, two, three and one bytes.
fn world() -> Buffers {
    let text = "aé€b".as_bytes();
    Buffers { buffers: vec![buffer(text, 4, 3, 4), buffer(b"plain", 5, 1, 1)], markers: Vec::new(), current: 0 }
}

fn fix(n: i64) -> LispObject {
    LispObject::from_fixnum(n)
}

fn marker_word(m: usize) -> LispObject {
    LispObject(m as i64 * 8 + 1)
}

#[test]
fn char_to_byte_positions() {
    let mut w = world();
    let expected = [1, 2, 4, 7, 8];
    for c in 1..=5isize {
        assert_eq!(w.buf_charpos_to_bytepos(0, c), expected[(c - 1) as usize]);
    }
    // A buffer with as many characters as bytes.
    for c in 1..=6isize {
        assert_eq!(w.buf_charpos_to_bytepos(1, c), c);
    }
}

#[test]
fn byte_to_char_positions() {
    let mut w = world();
    let starts = [(1, 1), (2, 2), (4, 3), (7, 4), (8, 5)];
    for (bp, c) in starts {
        assert_eq!(w.buf_bytepos_to_charpos(0, bp), c);
    }
    // Inside a character: that character or the next.
    let inside = w.buf_bytepos_to_charpos(0, 3);
    assert!(inside == 2 || inside == 3);
    let inside = w.buf_bytepos_to_charpos(0, 6);
    assert!(inside == 3 || inside == 4);
    for bp in 1..=6isize {
        assert_eq!(w.buf_bytepos_to_charpos(1, bp), bp);
    }
}

#[test]
fn bytes_inside_a_character_follow_the_scan() {
    // Point is at character 3, byte 4; the buffer ends at character 5,
    // byte 8.  Byte 3 (inside 'é') is nearer point: the scan goes down
    // and gives 'é' itself.
    assert_eq!(world().buf_bytepos_to_charpos(0, 3), 2);
    // Byte 5 (inside '€') is nearer point below: the scan goes up and
    // gives the next character.
    assert_eq!(world().buf_bytepos_to_charpos(0, 5), 4);
    // Byte 6 is as far from point as from the end: the scan goes down
    // and gives '€'.
    assert_eq!(world().buf_bytepos_to_charpos(0, 6), 3);
}

#[test]
fn round_trip_conversions() {
    let mut w = world();
    for c in 1..=5isize {
        let bp = w.buf_charpos_to_bytepos(0, c);
        assert_eq!(w.buf_bytepos_to_charpos(0, bp), c);
    }
}

#[test]
fn long_scans_leave_a_marker_and_a_cache() {
    let mut text = Vec::new();
    for _ in 0..12000 {
        text.extend_from_slice("é".as_bytes());
    }
    let mut w = Buffers { buffers: vec![buffer(&text, 12000, 1, 1)], markers: Vec::new(), current: 0 };
    assert_eq!(w.buf_charpos_to_bytepos(0, 6000), 11999);
    assert_eq!(w.markers.len(), 1);
    assert_eq!(w.markers[0], LispMarker { buffer: Some(0), charpos: 6000, bytepos: 11999, insertion_type: false });
    assert_eq!(w.buffers[0].markers, vec![0]);
    assert!(w.buffers[0].is_cached);
    assert_eq!((w.buffers[0].cached_charpos, w.buffers[0].cached_bytepos), (6000, 11999));
    // The remembered places answer at once, and agree.
    assert_eq!(w.buf_bytepos_to_charpos(0, 11999), 6000);
    assert_eq!(w.buf_charpos_to_bytepos(0, 6001), 12001);
    assert_eq!(w.buf_bytepos_to_charpos(0, 12001), 6001);
    w.clear_charpos_cache(0);
    assert!(!w.buffers[0].is_cached);
    assert_eq!(w.buf_charpos_to_bytepos(0, 100), 199);
}

#[test]
fn setting_markers() {
    let mut w = world();
    let m = w.make_marker();
    let mw = marker_word(m);
    assert!(w.markerp(mw));
    assert!(!w.markerp(fix(1)));
    assert_eq!(w.marker_position_lisp(m), None);
    assert_eq!(w.set_marker(mw, fix(4), LispObject::constant_nil()), Ok(mw));
    assert_eq!(w.marker_position(mw), Ok(4));
    assert_eq!(w.marker_byte_position(mw), Ok(7));
    assert_eq!(w.marker_buffer(m), Some(0));
    assert_eq!(w.buffers[0].markers, vec![m]);
    // Clipped into the buffer.
    assert_eq!(w.set_marker(mw, fix(100), LispObject::constant_nil()), Ok(mw));
    assert_eq!(w.marker_position(mw), Ok(5));
    assert_eq!(w.set_marker(mw, fix(-3), LispObject::constant_nil()), Ok(mw));
    assert_eq!(w.marker_position(mw), Ok(1));
    // Into another buffer: it leaves the chain of the first.
    let other = w.buffer_obj(1);
    assert_eq!(w.set_marker(mw, fix(3), other), Ok(mw));
    assert_eq!(w.marker_buffer(m), Some(1));
    assert!(w.buffers[0].markers.is_empty());
    assert_eq!(w.buffers[1].markers, vec![m]);
    // Nowhere.
    assert_eq!(w.set_marker(mw, LispObject::constant_nil(), LispObject::constant_nil()), Ok(mw));
    assert_eq!(w.marker_buffer(m), None);
    assert!(w.buffers[1].markers.is_empty());
    assert_eq!(w.marker_position(mw), Err(LispError::Error(ErrorMessage::MarkerDoesNotPointAnywhere)));
}

#[test]
fn set_marker_errors() {
    let mut w = world();
    let m = w.make_marker();
    let mw = marker_word(m);
    let s = LispObject(0x104);
    assert_eq!(w.set_marker(mw, fix(1), s), Err(LispError::WrongType(TypePredicate::BufferP, s)));
    assert_eq!(w.set_marker(fix(1), fix(1), LispObject::constant_nil()), Err(LispError::WrongType(TypePredicate::Markerp, fix(1))));
    assert_eq!(
        w.set_marker(mw, LispObject::constant_t(), LispObject::constant_nil()),
        Err(LispError::WrongType(TypePredicate::IntegerOrMarkerP, LispObject::constant_t()))
    );
    assert_eq!(w.marker_position(fix(2)), Err(LispError::WrongType(TypePredicate::Markerp, fix(2))));
}

#[test]
fn restricted_markers_and_dead_buffers() {
    let mut w = world();
    w.buffers[0].begv = 2;
    w.buffers[0].begv_byte = 2;
    w.buffers[0].zv = 4;
    w.buffers[0].zv_byte = 7;
    let m = w.make_marker();
    let mw = marker_word(m);
    assert_eq!(w.set_marker_restricted(mw, fix(5), LispObject::constant_nil()), Ok(mw));
    assert_eq!(w.marker_position(mw), Ok(4));
    assert_eq!(w.marker_byte_position(mw), Ok(7));
    w.buffers[1].name = LispObject::constant_nil();
    let other = w.buffer_obj(1);
    assert_eq!(w.set_marker(mw, fix(2), other), Ok(mw));
    assert_eq!(w.marker_buffer(m), None);
}

#[test]
fn markers_from_markers() {
    let mut w = world();
    let p = w.point_marker();
    assert_eq!(w.marker_position(marker_word(p)), Ok(3));
    assert_eq!(w.marker_byte_position(marker_word(p)), Ok(4));
    let lo = w.point_min_marker();
    let hi = w.point_max_marker();
    assert_eq!(w.marker_position(marker_word(lo)), Ok(1));
    assert_eq!(w.marker_position(marker_word(hi)), Ok(5));
    assert_eq!(w.buffers[0].markers, vec![hi, lo, p]);
    let c = w.copy_marker(marker_word(p), LispObject::constant_t()).unwrap();
    assert_eq!(w.marker_position(c), Ok(3));
    assert_eq!(w.marker_byte_position(c), Ok(4));
    let cm = (c.0 / 8) as usize;
    assert!(w.marker_insertion_type(cm));
    assert!(!w.marker_insertion_type(p));
    let n = w.copy_marker(fix(2), LispObject::constant_nil()).unwrap();
    assert_eq!(w.marker_byte_position(n), Ok(2));
    let nowhere = w.copy_marker(LispObject::constant_nil(), LispObject::constant_nil()).unwrap();
    assert_eq!(w.marker_position(nowhere), Err(LispError::Error(ErrorMessage::MarkerDoesNotPointAnywhere)));
    assert_eq!(
        w.copy_marker(LispObject::constant_t(), LispObject::constant_nil()),
        Err(LispError::WrongType(TypePredicate::IntegerOrMarkerP, LispObject::constant_t()))
    );
    assert_eq!(
        w.copy_marker(nowhere, LispObject::constant_nil()),
        Err(LispError::Error(ErrorMessage::MarkerDoesNotPointAnywhere))
    );
    assert!(w.buffer_has_markers_at(3));
    assert!(w.buffer_has_markers_at(100));
    assert!(!w.buffer_has_markers_at(4));
    assert_eq!(w.set_marker_insertion_type(p, LispObject::constant_t()), LispObject::constant_t());
    assert!(w.marker_insertion_type(p));
}

#[test]
fn point_from_markers() {
    let mut w = world();
    let m = w.make_marker();
    let mw = marker_word(m);
    w.set_marker(mw, fix(4), LispObject::constant_nil()).unwrap();
    assert_eq!(w.set_point_from_marker(mw), Ok((4, 7)));
    // A marker of another buffer: its position, converted here.
    let other = w.buffer_obj(1);
    w.set_marker(mw, fix(3), other).unwrap();
    assert_eq!(w.set_point_from_marker(mw), Ok((3, 4)));
    assert_eq!(w.set_marker_both(mw, LispObject::constant_nil(), 2, 2), Ok(mw));
    assert_eq!(w.marker_position(mw), Ok(2));
    assert_eq!(w.marker_buffer(m), Some(0));
    assert_eq!(w.set_point_from_marker(fix(1)), Err(LispError::WrongType(TypePredicate::Markerp, fix(1))));
}

#[test]
fn restricted_both_clips_to_the_accessible_region() {
    let mut w = world();
    w.buffers[0].begv = 2;
    w.buffers[0].begv_byte = 2;
    w.buffers[0].zv = 4;
    w.buffers[0].zv_byte = 7;
    let m = w.make_marker();
    let mw = marker_word(m);
    assert_eq!(w.set_marker_restricted_both(mw, LispObject::constant_nil(), 5, 8), Ok(mw));
    assert_eq!(w.marker_position(mw), Ok(4));
    assert_eq!(w.marker_byte_position(mw), Ok(7));
    assert_eq!(w.set_marker_restricted_both(mw, LispObject::constant_nil(), 1, 1), Ok(mw));
    assert_eq!(w.marker_position(mw), Ok(2));
    assert_eq!(w.marker_byte_position(mw), Ok(2));
    assert_eq!(
        w.set_marker_restricted_both(fix(1), LispObject::constant_nil(), 2, 2),
        Err(LispError::WrongType(TypePredicate::Markerp, fix(1)))
    );
}

#[test]
fn markers_are_equal_by_buffer_and_byte_position() {
    let mut w = world();
    let h = LispHeap::new();
    let tabs = CharTables::new(LispObject(40), LispObject(48));
    let a = w.make_marker();
    let b = w.make_marker();
    let c = w.make_marker();
    let (aw, bw, cw) = (marker_word(a), marker_word(b), marker_word(c));
    // Both point nowhere.
    assert!(w.markers_equal(a, b));
    assert_eq!(equal_with_markers(&w, &tabs, &h, aw, bw, EqualKind::Plain), Ok(true));
    w.set_marker(aw, fix(3), LispObject::constant_nil()).unwrap();
    assert!(!w.markers_equal(a, b));
    w.set_marker(bw, fix(3), LispObject::constant_nil()).unwrap();
    assert!(w.markers_equal(a, b));
    assert_eq!(equal_with_markers(&w, &tabs, &h, aw, bw, EqualKind::Plain), Ok(true));
    // Same position, another buffer.
    let other = w.buffer_obj(1);
    w.set_marker(cw, fix(3), other).unwrap();
    assert_eq!(equal_with_markers(&w, &tabs, &h, aw, cw, EqualKind::Plain), Ok(false));
    // Another position in the same buffer.
    w.set_marker(bw, fix(4), LispObject::constant_nil()).unwrap();
    assert_eq!(equal_with_markers(&w, &tabs, &h, aw, bw, EqualKind::Plain), Ok(false));
    // A marker and a number.
    assert_eq!(equal_with_markers(&w, &tabs, &h, aw, fix(3), EqualKind::Plain), Ok(false));
    assert_eq!(equal_with_markers(&w, &tabs, &h, fix(3), fix(3), EqualKind::Plain), Ok(true));
}
