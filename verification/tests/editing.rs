use remacs::cmds::{
    backward_char, delete_char, end_of_line_step, forward_char, forward_line, forward_point, self_insert_command,
    DeleteOp, EndOfLineStep, PointMove, SelfInsert,
};
use remacs::editfns::{
    bobp, bolp, buffer_size, clip_to_bounds, eobp, eolp, goto_char, point, point_max, point_min, propertize,
    region_limit, LispBuffer,
};
use remacs::heap::LispHeap;
use remacs::lists::{car, cdr};
use remacs::error::{ErrorMessage, LispError, TypePredicate};
use remacs::tag::LispObject;

/// "ab\ncd" with point after "ab" (position 3), the whole text accessible.
fn buffer() -> LispBuffer {
    LispBuffer {
        pt: 3,
        pt_byte: 3,
        begv: 1,
        begv_byte: 1,
        zv: 6,
        zv_byte: 6,
        z: 6,
        z_byte: 6,
        text: b"ab\ncd".to_vec(),
        mark: Some(5),
        mark_active: true,
        gpt: 6,
        gpt_byte: 6,
        modiff: 1,
        is_cached: false,
        cached_modiff: 0,
        cached_charpos: 1,
        cached_bytepos: 1,
        markers: Vec::new(),
        name: LispObject(0x104),
        filename: LispObject::constant_nil(),
        save_modiff: 1,
        chars_modiff: 1,
        truename: LispObject::constant_nil(),
        position_markers: None,
    }
}

fn fix(n: i64) -> LispObject {
    LispObject::from_fixnum(n)
}

#[test]
fn positions_of_the_buffer() {
    let b = buffer();
    assert_eq!(point(&b).as_fixnum(), Some(3));
    assert_eq!(point_min(&b).as_fixnum(), Some(1));
    assert_eq!(point_max(&b).as_fixnum(), Some(6));
    assert_eq!(buffer_size(&b).as_fixnum(), Some(5));
    assert_eq!(bobp(&b), LispObject::constant_nil());
    assert_eq!(eobp(&b), LispObject::constant_nil());
    assert_eq!(eolp(&b), LispObject::constant_t());
    assert_eq!(bolp(&b), LispObject::constant_nil());
    let mut b2 = buffer();
    b2.pt = 4;
    b2.pt_byte = 4;
    assert_eq!(bolp(&b2), LispObject::constant_t());
    assert_eq!(eolp(&b2), LispObject::constant_nil());
    b2.pt = 6;
    b2.pt_byte = 6;
    assert_eq!(eobp(&b2), LispObject::constant_t());
    assert_eq!(eolp(&b2), LispObject::constant_t());
}

#[test]
fn clipping() {
    assert_eq!(clip_to_bounds(1, -4, 10), 1);
    assert_eq!(clip_to_bounds(1, 40, 10), 10);
    assert_eq!(clip_to_bounds(1, 7, 10), 7);
}

#[test]
fn region_limits() {
    let b = buffer();
    assert_eq!(region_limit(&b, true, false, false).unwrap().as_fixnum(), Some(3));
    assert_eq!(region_limit(&b, false, false, false).unwrap().as_fixnum(), Some(5));
    let mut inactive = buffer();
    inactive.mark_active = false;
    assert_eq!(region_limit(&inactive, true, true, false), Err(LispError::MarkInactive));
    assert_eq!(region_limit(&inactive, true, true, true).unwrap().as_fixnum(), Some(3));
    let mut unset = buffer();
    unset.mark = None;
    assert_eq!(region_limit(&unset, true, false, false), Err(LispError::Error(ErrorMessage::MarkNotSet)));
    let mut narrowed = buffer();
    narrowed.zv = 4;
    narrowed.zv_byte = 4;
    assert_eq!(region_limit(&narrowed, false, false, false).unwrap().as_fixnum(), Some(4));
}

#[test]
fn goto_char_clips() {
    let b = buffer();
    assert_eq!(goto_char(&b, fix(100), false), Ok(Some(6)));
    assert_eq!(goto_char(&b, fix(-3), false), Ok(Some(1)));
    assert_eq!(goto_char(&b, fix(2), false), Ok(Some(2)));
    assert_eq!(goto_char(&b, fix(2), true), Ok(None));
    let s = LispObject(0x1003);
    assert_eq!(goto_char(&b, s, false), Err(LispError::WrongType(TypePredicate::IntegerOrMarkerP, s)));
}

#[test]
fn moving_by_characters() {
    let b = buffer();
    assert_eq!(forward_char(&b, LispObject::constant_nil()), Ok(PointMove { new_point: 4, signal: None }));
    assert_eq!(forward_char(&b, fix(2)), Ok(PointMove { new_point: 5, signal: None }));
    assert_eq!(
        forward_char(&b, fix(10)),
        Ok(PointMove { new_point: 6, signal: Some(LispError::EndOfBuffer) })
    );
    assert_eq!(
        backward_char(&b, fix(5)),
        Ok(PointMove { new_point: 1, signal: Some(LispError::BeginningOfBuffer) })
    );
    assert_eq!(backward_char(&b, fix(-1)), Ok(PointMove { new_point: 4, signal: None }));
    let s = LispObject(0x1003);
    assert_eq!(forward_char(&b, s), Err(LispError::WrongType(TypePredicate::Integerp, s)));
    assert_eq!(forward_point(&b, 2), 5);
}

#[test]
fn forward_line_shortage() {
    let b = buffer();
    assert_eq!(forward_line(&b, 3, 2, 1, b'c'), 1);
    assert_eq!(forward_line(&b, 3, 2, 3, b'c'), 2);
    assert_eq!(forward_line(&b, 3, 2, 1, b'\n'), 2);
    assert_eq!(forward_line(&b, -2, 1, 3, b'c'), 0);
    assert_eq!(forward_line(&b, 0, 0, 3, b'c'), 0);
    assert_eq!(forward_line(&b, -4, 3, 3, b'c'), -2);
}

#[test]
fn end_of_line_steps() {
    let b = buffer();
    assert_eq!(end_of_line_step(&b, 3, 4, 10, 10), EndOfLineStep::SetPointAndStop(3));
    assert_eq!(end_of_line_step(&b, 3, 4, 98, 99), EndOfLineStep::Continue);
    assert_eq!(end_of_line_step(&b, 3, 3, 98, 99), EndOfLineStep::Stop);
    assert_eq!(end_of_line_step(&b, 3, 6, 98, 99), EndOfLineStep::Stop);
}

#[test]
fn deleting_characters() {
    let b = buffer();
    let d = delete_char(&b, 1, false);
    assert!(d.amalgamate);
    assert_eq!(d.op, Ok(DeleteOp::Delete(3, 4)));
    let d = delete_char(&b, -2, false);
    assert!(!d.amalgamate);
    assert_eq!(d.op, Ok(DeleteOp::Delete(1, 3)));
    assert_eq!(delete_char(&b, -3, false).op, Err(LispError::BeginningOfBuffer));
    assert_eq!(delete_char(&b, 4, false).op, Err(LispError::EndOfBuffer));
    assert_eq!(delete_char(&b, 4, true).op, Ok(DeleteOp::Kill(4)));
}

#[test]
fn self_insert() {
    assert_eq!(
        self_insert_command(-1, fix(97)),
        Err(LispError::ErrorNum(ErrorMessage::NegativeRepetition, -1))
    );
    assert_eq!(self_insert_command(1, fix(97)), Ok((true, SelfInsert::Insert { character: 97, n: 1 })));
    assert_eq!(self_insert_command(3, fix(97)), Ok((false, SelfInsert::Insert { character: 97, n: 3 })));
    assert_eq!(self_insert_command(1, LispObject::constant_nil()), Ok((true, SelfInsert::Beep)));
    assert_eq!(self_insert_command(1, fix(-5)), Ok((true, SelfInsert::Beep)));
}

#[test]
fn propertize_lists_the_last_pair_first() {
    let mut h = LispHeap::new();
    let s = h.make_string(b"foo".to_vec(), 3);
    let face = LispObject(0x200);
    let help = LispObject(0x208);
    let args = vec![s, face, LispObject::from_fixnum(1), help, LispObject::from_fixnum(2)];
    let l = propertize(&mut h, &args).unwrap();
    assert_eq!(car(&h, l), Ok(help));
    let l = cdr(&h, l).unwrap();
    assert_eq!(car(&h, l), Ok(LispObject::from_fixnum(2)));
    let l = cdr(&h, l).unwrap();
    assert_eq!(car(&h, l), Ok(face));
    let l = cdr(&h, l).unwrap();
    assert_eq!(car(&h, l), Ok(LispObject::from_fixnum(1)));
    assert_eq!(cdr(&h, l), Ok(LispObject::constant_nil()));
}

#[test]
fn propertize_errors() {
    let mut h = LispHeap::new();
    let s = h.make_string(b"foo".to_vec(), 3);
    assert_eq!(
        propertize(&mut h, &vec![s, LispObject(0x200)]),
        Err(LispError::Error(ErrorMessage::WrongNumberOfArguments))
    );
    let one = LispObject::from_fixnum(1);
    assert_eq!(propertize(&mut h, &vec![one]), Err(LispError::WrongType(TypePredicate::Stringp, one)));
    assert_eq!(propertize(&mut h, &vec![s]), Ok(LispObject::constant_nil()));
}
