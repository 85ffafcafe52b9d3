use remacs::editfns::LispBuffer;
use remacs::error::{ErrorMessage, LispError, TypePredicate};
use remacs::marker::{Buffers, LispMarker};
use remacs::math::{fmod, mod_integers, ModResult};
use remacs::tag::LispObject;

fn fix(n: i64) -> LispObject {
    LispObject::from_fixnum(n)
}

fn buffer() -> LispBuffer {
    LispBuffer {
        pt: 1,
        pt_byte: 1,
        begv: 1,
        begv_byte: 1,
        zv: 11,
        zv_byte: 11,
        z: 11,
        z_byte: 11,
        text: b"0123456789".to_vec(),
        mark: None,
        mark_active: false,
        gpt: 11,
        gpt_byte: 11,
        modiff: 1,
        is_cached: false,
        cached_modiff: 0,
        cached_charpos: 1,
        cached_bytepos: 1,
        markers: Vec::new(),
        name: LispObject(0x104),
        filename: LispObject::constant_nil(),
        save_modiff: 1,
        chars_modiff: 1,
        truename: LispObject::constant_nil(),
        position_markers: None,
    }
}

/// One buffer with a marker at position 8, and a marker pointing nowhere.
fn world() -> Buffers {
    let mut b = buffer();
    b.markers = vec![0];
    Buffers {
        buffers: vec![b],
        markers: vec![
            LispMarker { buffer: Some(0), charpos: 8, bytepos: 8, insertion_type: false },
            LispMarker { buffer: None, charpos: 0, bytepos: 0, insertion_type: false },
        ],
        current: 0,
    }
}

#[test]
fn mod_takes_the_sign_of_the_divisor() {
    assert_eq!(mod_integers(7, 2), 1);
    assert_eq!(mod_integers(-7, 2), 1);
    assert_eq!(mod_integers(7, -2), -1);
    assert_eq!(mod_integers(-7, -2), -1);
    assert_eq!(mod_integers(6, -3), 0);
    assert_eq!(mod_integers(-9, 4), 3);
}

#[test]
fn fmod_on_integers_and_markers() {
    let w = world();
    assert_eq!(fmod(&w, fix(13), fix(5)), Ok(ModResult::Integer(fix(3))));
    assert_eq!(fmod(&w, fix(-13), fix(5)), Ok(ModResult::Integer(fix(2))));
    assert_eq!(fmod(&w, LispObject(1), fix(3)), Ok(ModResult::Integer(fix(2))));
}

#[test]
fn fmod_errors() {
    let w = world();
    assert_eq!(fmod(&w, fix(1), fix(0)), Err(LispError::ArithError));
    assert_eq!(
        fmod(&w, LispObject(9), fix(3)),
        Err(LispError::Error(ErrorMessage::MarkerDoesNotPointAnywhere))
    );
    let nil = LispObject::constant_nil();
    assert_eq!(fmod(&w, fix(1), nil), Err(LispError::WrongType(TypePredicate::NumberOrMarkerP, nil)));
}

#[test]
fn fmod_leaves_floats_to_the_caller() {
    let w = world();
    assert_eq!(fmod(&w, LispObject(7), fix(3)), Ok(ModResult::Float));
    assert_eq!(fmod(&w, fix(3), LispObject(7)), Ok(ModResult::Float));
}
