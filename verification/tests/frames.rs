use remacs::error::{LispError, TypePredicate};
use remacs::external_ptr::ExternalPtr;
use remacs::fonts::{fontp, FontExtraType, FontSymbols, LispFontRef};
use remacs::frames::{
    frame_bottom_divider_width, frame_internal_border_width, frame_live_p, frame_pointer_visible_p,
    frame_right_divider_width, frame_text_cols, frame_text_height, frame_text_lines, frame_text_width,
    frame_total_cols, frame_total_lines, frame_visible_p, framep, selected_frame, window_system, FrameSymbols,
    Frames, LispFrame, LispFrameOrSelected, LispWindow, OutputMethod, WindowContents,
};
use remacs::tag::LispObject;
use remacs::unexec_alloc::{AllocErr, Layout, OsxUnexecAlloc};

fn syms() -> FrameSymbols {
    FrameSymbols {
        t: LispObject::constant_t(),
        x: LispObject(200),
        w32: LispObject(208),
        pc: LispObject(216),
        ns: LispObject(224),
        icon: LispObject(232),
    }
}

fn frame(terminal: usize, method: OutputMethod, visible: i32, iconified: bool) -> LispFrame {
    LispFrame {
        terminal: ExternalPtr::new(terminal),
        visible,
        iconified,
        pointer_invisible: false,
        output_method: method,
        left_fringe_width: 8,
        right_fringe_width: 10,
        left_pos: 0,
        top_pos: 0,
        text_cols: 80,
        text_lines: 24,
        total_cols: 82,
        total_lines: 26,
        text_width: 640,
        text_height: 384,
        internal_border_width: 1,
        right_divider_width: 2,
        bottom_divider_width: 3,
        root_window: 0,
        selected_window: 0,
    }
}

fn window(contents: WindowContents) -> LispWindow {
    LispWindow {
        frame: 0,
        contents,
        pointm: 0,
        start: 1,
        mini: false,
        left_margin_cols: 0,
        right_margin_cols: 0,
        combination_limit: LispObject::constant_nil(),
    }
}

#[test]
fn external_pointers() {
    let p: ExternalPtr<u32> = ExternalPtr::new(0);
    assert!(p.is_null());
    let mut q: ExternalPtr<u32> = ExternalPtr::new(0x1000);
    assert!(!q.is_null());
    assert_eq!(q.as_ptr(), 0x1000);
    assert_eq!(q.as_mut(), 0x1000);
}

#[test]
fn external_pointers_copy_and_compare_by_address() {
    let p: ExternalPtr<u32> = ExternalPtr::new(0x2000);
    let c = p.clone();
    assert_eq!(c.as_ptr(), 0x2000);
    let d = p;
    assert_eq!(d.as_ptr(), p.as_ptr());
    assert!(p == ExternalPtr::new(0x2000));
    assert!(p != ExternalPtr::new(0x2008));
}

#[test]
fn frame_predicates() {
    let s = syms();
    let mut frames = Frames::new(frame(0x10, OutputMethod::OutputTermcap, 1, false), window(WindowContents::Buffer(0)));
    let x = frames.push(frame(0x20, OutputMethod::OutputXWindow, 0, true), window(WindowContents::Buffer(0)));
    let dead = frames.push(frame(0, OutputMethod::OutputNs, 0, false), window(WindowContents::Buffer(0)));
    let first = selected_frame(&frames);
    assert!(first.is_live(&frames));
    assert!(!dead.is_live(&frames));
    assert_eq!(first.total_fringe_width(&frames), 18);
    assert_eq!(framep(&frames, &s, Some(x)), LispObject(200));
    assert_eq!(framep(&frames, &s, None), LispObject::constant_nil());
    assert_eq!(frame_live_p(&frames, &s, Some(dead)), LispObject::constant_nil());
    assert_eq!(frame_live_p(&frames, &s, Some(first)), LispObject::constant_t());
    assert_eq!(frame_visible_p(&frames, &s, first), LispObject::constant_t());
    assert_eq!(frame_visible_p(&frames, &s, x), LispObject(232));
    assert_eq!(frame_visible_p(&frames, &s, dead), LispObject::constant_nil());
    assert!(frame_pointer_visible_p(&frames, LispFrameOrSelected::Selected));
}

#[test]
fn live_frames_and_window_systems() {
    let s = syms();
    let mut frames = Frames::new(frame(0x10, OutputMethod::OutputTermcap, 1, false), window(WindowContents::Buffer(0)));
    let x = frames.push(frame(0x20, OutputMethod::OutputXWindow, 1, false), window(WindowContents::Buffer(0)));
    let dead = frames.push(frame(0, OutputMethod::OutputNs, 0, false), window(WindowContents::Buffer(0)));
    assert_eq!(window_system(&frames, &s, LispFrameOrSelected::Selected), Ok(LispObject::constant_nil()));
    assert_eq!(window_system(&frames, &s, LispFrameOrSelected::Frame(x)), Ok(LispObject(200)));
    assert_eq!(LispFrameOrSelected::Frame(x).live_or_error(&frames), Ok(x));
    assert_eq!(
        LispFrameOrSelected::Frame(dead).live_or_error(&frames),
        Err(LispError::WrongType(TypePredicate::FrameLiveP, dead.as_lisp_obj()))
    );
    assert_eq!(frames.as_frame(x.as_lisp_obj()), Some(x));
    assert_eq!(frames.as_frame(LispObject::from_fixnum(1)), None);
}

#[test]
fn font_kinds() {
    let s = FontSymbols { font_spec: LispObject(300), font_entity: LispObject(308), font_object: LispObject(316) };
    let spec = LispFontRef { pseudovector_size: 13 };
    assert_eq!(fontp(&s, Some(spec), LispObject::constant_nil()), Ok(true));
    assert_eq!(fontp(&s, Some(LispFontRef { pseudovector_size: 13 }), LispObject(300)), Ok(true));
    assert_eq!(fontp(&s, Some(LispFontRef { pseudovector_size: 13 }), LispObject(316)), Ok(false));
    assert_eq!(fontp(&s, None, LispObject(999)), Ok(false));
    assert_eq!(
        fontp(&s, Some(LispFontRef { pseudovector_size: 17 }), LispObject(999)),
        Err(LispError::WrongType(TypePredicate::FontExtraType, LispObject(999)))
    );
    assert_eq!(FontExtraType::from_symbol_or_error(&s, LispObject(308)), Ok(FontExtraType::Entity));
}

#[test]
fn allocator_answers() {
    let a = OsxUnexecAlloc;
    let l = Layout { size: 32, align: 16 };
    assert_eq!(a.allocate(0x1000, l), Ok(0x1000));
    assert_eq!(a.allocate(0, l), Err(AllocErr::Exhausted { request: l }));
    assert_eq!(a.deallocate(0x2000, l), 0x2000);
    let l2 = Layout { size: 64, align: 8 };
    assert_eq!(a.reallocate(0, l, l2), Err(AllocErr::Exhausted { request: l2 }));
    assert_eq!(a.reallocate(0x3008, l, l2), Ok(0x3008));
}

#[test]
fn frame_sizes() {
    let frames = Frames::new(frame(0x10, OutputMethod::OutputTermcap, 1, false), window(WindowContents::Buffer(0)));
    let s = LispFrameOrSelected::Selected;
    assert_eq!(frame_text_cols(&frames, s), 80);
    assert_eq!(frame_text_lines(&frames, s), 24);
    assert_eq!(frame_total_cols(&frames, s), 82);
    assert_eq!(frame_total_lines(&frames, s), 26);
    assert_eq!(frame_text_width(&frames, s), 640);
    assert_eq!(frame_text_height(&frames, s), 384);
    assert_eq!(frame_internal_border_width(&frames, s), 1);
    assert_eq!(frame_right_divider_width(&frames, s), 2);
    assert_eq!(frame_bottom_divider_width(&frames, s), 3);
}
