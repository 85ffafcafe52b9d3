use remacs::editfns::LispBuffer;
use remacs::error::{ErrorMessage, LispError, TypePredicate};
use remacs::external_ptr::ExternalPtr;
use remacs::frames::{Frames, LispFrame, LispFrameOrSelected, LispWindow, OutputMethod, WindowContents};
use remacs::heap::LispHeap;
use remacs::marker::Buffers;
use remacs::tag::LispObject;
use remacs::windows::{
    as_minibuffer_or_error, frame_first_window, frame_position, frame_root_window, frame_selected_window,
    minibuffer_selected_window, selected_window, set_frame_selected_window, set_window_combination_limit,
    window_buffer, window_combination_limit, window_frame_live_or_selected, window_frame_live_or_selected_with_action,
    window_live_p, window_margins, window_minibuffer_p, window_point, window_start, window_valid_p, windowp,
    FrameWindowChoice,
};

fn frame(terminal: usize) -> LispFrame {
    LispFrame {
        terminal: ExternalPtr::new(terminal),
        visible: 1,
        iconified: false,
        pointer_invisible: false,
        output_method: OutputMethod::OutputTermcap,
        left_fringe_width: 0,
        right_fringe_width: 0,
        left_pos: 10,
        top_pos: 20,
        text_cols: 80,
        text_lines: 24,
        total_cols: 80,
        total_lines: 24,
        text_width: 80,
        text_height: 24,
        internal_border_width: 0,
        right_divider_width: 0,
        bottom_divider_width: 0,
        root_window: 0,
        selected_window: 0,
    }
}

fn window(contents: WindowContents, pointm: usize, start: usize) -> LispWindow {
    LispWindow {
        frame: 0,
        contents,
        pointm,
        start,
        mini: false,
        left_margin_cols: 2,
        right_margin_cols: 0,
        combination_limit: LispObject::constant_nil(),
    }
}

fn buffers() -> Buffers {
    let text = b"hello world";
    let z = text.len() as isize + 1;
    let b = LispBuffer {
        pt: 5,
        pt_byte: 5,
        begv: 1,
        begv_byte: 1,
        zv: z,
        zv_byte: z,
        z,
        z_byte: z,
        text: text.to_vec(),
        mark: None,
        mark_active: false,
        gpt: z,
        gpt_byte: z,
        modiff: 1,
        is_cached: false,
        cached_modiff: 0,
        cached_charpos: 1,
        cached_bytepos: 1,
        markers: Vec::new(),
        name: LispObject(0x104),
        filename: LispObject::constant_nil(),
        save_modiff: 1,
        chars_modiff: 1,
        truename: LispObject::constant_nil(),
        position_markers: None,
    };
    let mut w = Buffers { buffers: vec![b], markers: Vec::new(), current: 0 };
    w.build_marker(0, 3, 3);
    w.build_marker(0, 1, 1);
    w.make_marker();
    w
}

/// Frame 0 with its live root window 0; window 1, live, on frame 0; frame
/// 1 whose root window 2 is internal, over window 1; a dead frame 2 with
/// window 3; a deleted window 4.
fn frames() -> Frames {
    let mut f = Frames::new(frame(0x10), window(WindowContents::Buffer(0), 0, 1));
    let mut w1 = window(WindowContents::Buffer(0), 1, 0);
    w1.mini = true;
    f.push_window(w1);
    f.push(frame(0x20), window(WindowContents::Window(1), 0, 1));
    f.push(frame(0), window(WindowContents::Buffer(0), 0, 1));
    f.push_window(window(WindowContents::Nothing, 0, 1));
    f
}

fn word(f: &Frames, w: usize) -> LispObject {
    f.window_obj(w)
}

#[test]
fn window_predicates() {
    let f = frames();
    let t = LispObject::constant_t();
    let nil = LispObject::constant_nil();
    assert_eq!(windowp(&f, word(&f, 2)), t);
    assert_eq!(windowp(&f, LispObject::from_fixnum(1)), nil);
    assert_eq!(window_live_p(&f, word(&f, 0)), t);
    assert_eq!(window_live_p(&f, word(&f, 2)), nil);
    assert_eq!(window_valid_p(&f, word(&f, 2)), t);
    assert_eq!(window_valid_p(&f, word(&f, 4)), nil);
    assert_eq!(selected_window(&f), word(&f, 0));
    assert_eq!(window_minibuffer_p(&f, word(&f, 1)), Ok(t));
    assert_eq!(window_minibuffer_p(&f, nil), Ok(nil));
    assert_eq!(as_minibuffer_or_error(&f, word(&f, 1)), Ok(1));
    assert_eq!(as_minibuffer_or_error(&f, word(&f, 0)), Err(LispError::Error(ErrorMessage::NotAMinibufferWindow)));
    assert_eq!(as_minibuffer_or_error(&f, t), Err(LispError::WrongType(TypePredicate::Windowp, t)));
}

#[test]
fn window_positions_and_buffers() {
    let f = frames();
    let b = buffers();
    let nil = LispObject::constant_nil();
    assert_eq!(window_buffer(&f, &b, nil), Ok(b.buffer_obj(0)));
    assert_eq!(window_buffer(&f, &b, word(&f, 2)), Ok(nil));
    assert_eq!(window_point(&f, &b, nil), Ok(LispObject::from_fixnum(5)));
    assert_eq!(window_point(&f, &b, word(&f, 1)), Ok(LispObject::from_fixnum(1)));
    assert_eq!(
        window_point(&f, &b, word(&f, 2)),
        Err(LispError::WrongType(TypePredicate::WindowLiveP, word(&f, 2)))
    );
    assert_eq!(window_start(&f, &b, nil), Ok(LispObject::from_fixnum(1)));
    assert_eq!(window_start(&f, &b, word(&f, 1)), Ok(LispObject::from_fixnum(3)));
    let mut f2 = frames();
    let mut w = window(WindowContents::Buffer(0), 2, 2);
    w.frame = 0;
    let n = f2.push_window(w);
    assert_eq!(
        window_start(&f2, &b, word(&f2, n)),
        Err(LispError::Error(ErrorMessage::MarkerDoesNotPointAnywhere))
    );
}

#[test]
fn margins_and_combination_limits() {
    let mut f = frames();
    let mut h = LispHeap::new();
    let m = window_margins(&f, &mut h, LispObject::constant_nil()).unwrap();
    let c = h.as_cons(m).unwrap();
    assert_eq!(h.car(c), LispObject::from_fixnum(2));
    assert_eq!(h.cdr(c), LispObject::constant_nil());
    assert_eq!(
        window_combination_limit(&f, word(&f, 0)),
        Err(LispError::Error(ErrorMessage::CombinationLimitInternalOnly))
    );
    assert_eq!(window_combination_limit(&f, word(&f, 2)), Ok(LispObject::constant_nil()));
    let t = LispObject::constant_t();
    let w2 = word(&f, 2);
    assert_eq!(set_window_combination_limit(&mut f, w2, t), Ok(t));
    assert_eq!(window_combination_limit(&f, w2), Ok(t));
}

#[test]
fn frames_of_windows() {
    let f = frames();
    let nil = LispObject::constant_nil();
    let f0 = window_frame_live_or_selected(&f, nil).unwrap();
    assert_eq!(f0.index_of(), 0);
    let f1 = f.as_frame(LispObject(((2 * 0x400_0000 + 1) * 8 + 5) as i64)).unwrap();
    assert_eq!(window_frame_live_or_selected(&f, f1.as_lisp_obj()), Ok(f1));
    assert_eq!(window_frame_live_or_selected(&f, word(&f, 3)).unwrap().index_of(), 2);
    let dead = f.as_frame(LispObject(((2 * 0x400_0000 + 2) * 8 + 5) as i64)).unwrap();
    assert_eq!(
        window_frame_live_or_selected(&f, dead.as_lisp_obj()),
        Err(LispError::WrongType(TypePredicate::FrameLiveP, dead.as_lisp_obj()))
    );
    assert_eq!(window_frame_live_or_selected_with_action(&f, nil), Ok((Some(0), f0)));
    assert_eq!(window_frame_live_or_selected_with_action(&f, f1.as_lisp_obj()), Ok((None, f1)));
    assert_eq!(
        window_frame_live_or_selected_with_action(&f, word(&f, 2)),
        Err(LispError::WrongType(TypePredicate::WindowLiveP, word(&f, 2)))
    );
    assert_eq!(
        window_frame_live_or_selected_with_action(&f, word(&f, 3)),
        Err(LispError::WrongType(TypePredicate::FrameLiveP, dead.as_lisp_obj()))
    );
    assert_eq!(frame_selected_window(&f, nil), Ok(0));
    assert_eq!(frame_root_window(&f, f1.as_lisp_obj()), Ok(word(&f, 2)));
    assert_eq!(frame_first_window(&f, f1.as_lisp_obj()), Ok(1));
    assert_eq!(frame_first_window(&f, nil), Ok(0));
}

#[test]
fn selecting_windows_of_frames() {
    let mut f = frames();
    let w1 = word(&f, 1);
    assert_eq!(
        set_frame_selected_window(&mut f, LispFrameOrSelected::Selected, w1),
        Ok(FrameWindowChoice::Select(1))
    );
    let f1 = f.as_frame(LispObject(((2 * 0x400_0000 + 1) * 8 + 5) as i64)).unwrap();
    let w0 = word(&f, 0);
    assert_eq!(
        set_frame_selected_window(&mut f, LispFrameOrSelected::Frame(f1), w0),
        Err(LispError::Error(ErrorMessage::WindowNotOnFrame))
    );
    let mut w = window(WindowContents::Buffer(0), 0, 1);
    w.frame = 1;
    let n = f.push_window(w);
    let wn = word(&f, n);
    assert_eq!(
        set_frame_selected_window(&mut f, LispFrameOrSelected::Frame(f1), wn),
        Ok(FrameWindowChoice::SetOnFrame(n))
    );
    assert_eq!(frame_selected_window(&f, f1.as_lisp_obj()), Ok(n));
}

#[test]
fn minibuffer_windows_and_positions() {
    let mut f = frames();
    assert_eq!(minibuffer_selected_window(&f), LispObject::constant_nil());
    f.set_minibuffer(1, 0);
    assert_eq!(minibuffer_selected_window(&f), LispObject::constant_nil());
    let mut h = LispHeap::new();
    let p = frame_position(&f, &mut h, LispFrameOrSelected::Selected).unwrap();
    let c = h.as_cons(p).unwrap();
    assert_eq!(h.car(c), LispObject::from_fixnum(10));
    assert_eq!(h.cdr(c), LispObject::from_fixnum(20));
}
