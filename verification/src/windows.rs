//! Windows: their predicates and positions, and the frame a window
//! argument designates.
use vstd::prelude::*;

use crate::error::{ErrorMessage, LispError, TypePredicate};
use crate::frames::{
    down, frame_word, is_internal, lemma_frame_word_injective, resolved, selected_frame, window_word, Frames,
    LispFrame, LispFrameOrSelected, LispFrameRef, LispWindow, WindowContents,
};
use crate::heap::{LispHeap, MAX_OBJECTS};
use crate::marker::{buffer_word, marker_word, Buffers};
use crate::tag::{fixnum_value, is_fixnum_word, word_tag, LispObject};

verus! {

/// Whether the window shows a buffer.
pub open spec fn is_live_window(w: LispWindow) -> bool {
    w.contents is Buffer
}

/// Whether the window has not been deleted.
pub open spec fn is_valid_window(w: LispWindow) -> bool {
    !(w.contents is Nothing)
}

/// The windows show buffers of the store, and their markers are markers
/// of the store.
pub open spec fn windows_in(frames: &Frames, bufs: &Buffers) -> bool {
    forall|i: int|
        #![trigger frames.windows()[i]]
        0 <= i < frames.windows().len() ==> {
            let w = frames.windows()[i];
            &&& w.contents matches WindowContents::Buffer(b) ==> b < bufs.buffers@.len()
            &&& w.pointm < bufs.markers@.len()
            &&& w.start < bufs.markers@.len()
        }
}

/// `t` for true, `nil` for false.
pub open spec fn lisp_bool(b: bool) -> LispObject {
    if b {
        LispObject(8)
    } else {
        LispObject(0)
    }
}

/// Whether OBJECT is a window.
pub fn windowp(frames: &Frames, object: LispObject) -> (r: LispObject)
    requires
        frames.wf(),
    ensures
        r == lisp_bool(frames.window_of(object) is Some),
{
    LispObject::from_bool(frames.as_window(object).is_some())
}

/// Whether OBJECT is a live window (one showing a buffer).
pub fn window_live_p(frames: &Frames, object: LispObject) -> (r: LispObject)
    requires
        frames.wf(),
    ensures
        r == lisp_bool(frames.window_of(object) matches Some(w) && is_live_window(frames.windows()[w])),
{
    match frames.as_window(object) {
        Some(w) => LispObject::from_bool(matches!(frames.window_at(w).contents, WindowContents::Buffer(_))),
        None => LispObject::constant_nil(),
    }
}

/// Whether OBJECT is a window that has not been deleted.
pub fn window_valid_p(frames: &Frames, object: LispObject) -> (r: LispObject)
    requires
        frames.wf(),
    ensures
        r == lisp_bool(frames.window_of(object) matches Some(w) && is_valid_window(frames.windows()[w])),
{
    match frames.as_window(object) {
        Some(w) => LispObject::from_bool(!matches!(frames.window_at(w).contents, WindowContents::Nothing)),
        None => LispObject::constant_nil(),
    }
}

/// The selected window.
pub fn selected_window(frames: &Frames) -> (r: LispObject)
    requires
        frames.wf(),
    ensures
        r == window_word(frames.selected_window_index()),
        frames.window_of(r) == Some(frames.selected_window_index()),
{
    frames.window_obj(frames.selected_window())
}

/// The window that WINDOW designates (the selected one for `nil`).
pub open spec fn designated_window(frames: &Frames, window: LispObject) -> Option<int> {
    if window.0 == 0 {
        Some(frames.selected_window_index())
    } else {
        frames.window_of(window)
    }
}

/// The window OBJECT, or `wrong-type-argument windowp`.
pub fn as_window_or_error(frames: &Frames, object: LispObject) -> (r: Result<usize, LispError>)
    requires
        frames.wf(),
    ensures
        r == match frames.window_of(object) {
            Some(w) => Ok(w as usize),
            None => Err(LispError::WrongType(TypePredicate::Windowp, object)),
        },
{
    match frames.as_window(object) {
        Some(w) => Ok(w),
        None => Err(LispError::WrongType(TypePredicate::Windowp, object)),
    }
}

/// The live window OBJECT, or `wrong-type-argument window-live-p`.
pub fn as_live_window_or_error(frames: &Frames, object: LispObject) -> (r: Result<usize, LispError>)
    requires
        frames.wf(),
    ensures
        r == match frames.window_of(object) {
            Some(w) => if is_live_window(frames.windows()[w]) {
                Ok(w as usize)
            } else {
                Err(LispError::WrongType(TypePredicate::WindowLiveP, object))
            },
            None => Err(LispError::WrongType(TypePredicate::WindowLiveP, object)),
        },
{
    match frames.as_window(object) {
        Some(w) => {
            if matches!(frames.window_at(w).contents, WindowContents::Buffer(_)) {
                Ok(w)
            } else {
                Err(LispError::WrongType(TypePredicate::WindowLiveP, object))
            }
        },
        None => Err(LispError::WrongType(TypePredicate::WindowLiveP, object)),
    }
}

/// The minibuffer window OBJECT: not a window is `wrong-type-argument
/// windowp`, another window an error.
pub fn as_minibuffer_or_error(frames: &Frames, object: LispObject) -> (r: Result<usize, LispError>)
    requires
        frames.wf(),
    ensures
        r == match frames.window_of(object) {
            Some(w) => if frames.windows()[w].mini {
                Ok(w as usize)
            } else {
                Err(LispError::Error(ErrorMessage::NotAMinibufferWindow))
            },
            None => Err(LispError::WrongType(TypePredicate::Windowp, object)),
        },
{
    let w = as_window_or_error(frames, object)?;
    if !frames.window_at(w).mini {
        return Err(LispError::Error(ErrorMessage::NotAMinibufferWindow));
    }
    Ok(w)
}

/// The buffer WINDOW (`nil` the selected one) shows, `nil` for a window
/// that shows none.
pub fn window_buffer(frames: &Frames, bufs: &Buffers, window: LispObject) -> (r: Result<LispObject, LispError>)
    requires
        frames.wf(),
        bufs.wf(),
        windows_in(frames, bufs),
    ensures
        r == match designated_window(frames, window) {
            Some(w) => Ok(
                match frames.windows()[w].contents {
                    WindowContents::Buffer(b) => buffer_word(b as int),
                    _ => LispObject(0),
                },
            ),
            None => Err(LispError::WrongType(TypePredicate::Windowp, window)),
        },
{
    let w = if window.is_nil() {
        frames.selected_window()
    } else {
        as_window_or_error(frames, window)?
    };
    proof {
        assert(frames.windows()[w as int] == frames.windows()[w as int]);
    }
    match frames.window_at(w).contents {
        WindowContents::Buffer(b) => Ok(bufs.buffer_obj(b)),
        _ => Ok(LispObject::constant_nil()),
    }
}

/// The value of point in WINDOW: point of the current buffer for the
/// selected window (or `nil`), else the position of the window's point
/// marker.
pub fn window_point(frames: &Frames, bufs: &Buffers, window: LispObject) -> (r: Result<LispObject, LispError>)
    requires
        frames.wf(),
        bufs.wf(),
        windows_in(frames, bufs),
    ensures
        window.0 == 0 || window == window_word(frames.selected_window_index()) ==> (r matches Ok(o) && is_fixnum_word(
            o.0,
        ) && fixnum_value(o.0) == bufs.buffers@[bufs.current as int].pt),
        !(window.0 == 0 || window == window_word(frames.selected_window_index())) ==> match frames.window_of(window) {
            Some(w) => if is_live_window(frames.windows()[w]) {
                let m = frames.windows()[w].pointm as int;
                if bufs.markers@[m].buffer is Some {
                    (r matches Ok(o) && is_fixnum_word(o.0) && fixnum_value(o.0) == bufs.markers@[m].charpos)
                } else {
                    r == Err::<LispObject, LispError>(LispError::Error(ErrorMessage::MarkerDoesNotPointAnywhere))
                }
            } else {
                r == Err::<LispObject, LispError>(LispError::WrongType(TypePredicate::WindowLiveP, window))
            },
            None => r == Err::<LispObject, LispError>(LispError::WrongType(TypePredicate::WindowLiveP, window)),
        },
{
    if window.is_nil() || window.eq(selected_window(frames)) {
        proof {
            assert(bufs.buffer_ok(bufs.current as int));
        }
        return Ok(LispObject::from_natnum(bufs.buffers[bufs.current].pt as i64));
    }
    let w = as_live_window_or_error(frames, window)?;
    proof {
        assert(frames.windows()[w as int] == frames.windows()[w as int]);
    }
    let m = frames.window_at(w).pointm;
    let p = bufs.charpos_or_error(m)?;
    proof {
        lemma_marker_position_fits(bufs, m as int);
    }
    Ok(LispObject::from_natnum(p as i64))
}

/// Markers point at positions of their buffers.
pub(crate) proof fn lemma_marker_position_fits(bufs: &Buffers, m: int)
    requires
        bufs.wf(),
        0 <= m < bufs.markers@.len(),
        bufs.markers@[m].buffer is Some,
    ensures
        1 <= bufs.markers@[m].charpos <= crate::editfns::BUF_MAX,
{
    let b = bufs.markers@[m].buffer->0 as int;
    assert(bufs.buffer_ok(b));
    let k = choose|k: int| 0 <= k < bufs.buffers@[b].markers@.len() && bufs.buffers@[b].markers@[k] == m as usize;
    assert(bufs.buffers@[b].markers@[k] == m as usize);
}

/// The position where WINDOW (`nil` the selected one) starts showing
/// its buffer.
pub fn window_start(frames: &Frames, bufs: &Buffers, window: LispObject) -> (r: Result<LispObject, LispError>)
    requires
        frames.wf(),
        bufs.wf(),
        windows_in(frames, bufs),
    ensures
        match designated_window(frames, window) {
            Some(w) => if is_live_window(frames.windows()[w]) {
                let m = frames.windows()[w].start as int;
                if bufs.markers@[m].buffer is Some {
                    (r matches Ok(o) && is_fixnum_word(o.0) && fixnum_value(o.0) == bufs.markers@[m].charpos)
                } else {
                    r == Err::<LispObject, LispError>(LispError::Error(ErrorMessage::MarkerDoesNotPointAnywhere))
                }
            } else {
                r == Err::<LispObject, LispError>(
                    LispError::WrongType(TypePredicate::WindowLiveP, window_word(frames.selected_window_index())),
                ) && window.0 == 0 || r == Err::<LispObject, LispError>(
                    LispError::WrongType(TypePredicate::WindowLiveP, window),
                ) && window.0 != 0
            },
            None => r == Err::<LispObject, LispError>(LispError::WrongType(TypePredicate::WindowLiveP, window)),
        },
{
    let win = if window.is_nil() {
        selected_window(frames)
    } else {
        window
    };
    let w = as_live_window_or_error(frames, win)?;
    proof {
        assert(frames.windows()[w as int] == frames.windows()[w as int]);
    }
    let m = frames.window_at(w).start;
    let p = bufs.charpos_or_error(m)?;
    proof {
        lemma_marker_position_fits(bufs, m as int);
    }
    Ok(LispObject::from_natnum(p as i64))
}

/// Whether WINDOW (`nil` the selected one) is a minibuffer window.
pub fn window_minibuffer_p(frames: &Frames, window: LispObject) -> (r: Result<LispObject, LispError>)
    requires
        frames.wf(),
    ensures
        r == match designated_window(frames, window) {
            Some(w) => Ok(lisp_bool(frames.windows()[w].mini)),
            None => Err(LispError::WrongType(TypePredicate::Windowp, window)),
        },
{
    let w = if window.is_nil() {
        frames.selected_window()
    } else {
        as_window_or_error(frames, window)?
    };
    Ok(LispObject::from_bool(frames.window_at(w).mini))
}

/// A margin as Lisp shows it: the width, `nil` for none.
pub open spec fn margin_value(m: i32) -> LispObject {
    if m != 0 {
        LispObject((m * 4 + 2) as i64)
    } else {
        LispObject(0)
    }
}

/// A margin as Lisp shows it: the width, `nil` for none.
fn margin_as_object(margin: i32) -> (o: LispObject)
    ensures
        o == margin_value(margin),
        o.0 == 0 || is_fixnum_word(o.0),
{
    if margin != 0 {
        LispObject::from_fixnum(margin as i64)
    } else {
        LispObject::constant_nil()
    }
}

/// The widths of the left and right margins of the live window WINDOW
/// (`nil` the selected one), as a cons; a zero width is `nil`.
pub fn window_margins(frames: &Frames, h: &mut LispHeap, window: LispObject) -> (r: Result<LispObject, LispError>)
    requires
        frames.wf(),
        old(h).wf(),
        old(h).cells().len() < MAX_OBJECTS,
    ensures
        final(h).wf(),
        match designated_window(frames, window) {
            Some(w) => if is_live_window(frames.windows()[w]) {
                &&& (r matches Ok(o) && final(h).is_cons(o))
                &&& final(h).car_of(r->Ok_0) == margin_value(frames.windows()[w].left_margin_cols)
                &&& final(h).cdr_of(r->Ok_0) == margin_value(frames.windows()[w].right_margin_cols)
                &&& final(h).cells().drop_last() == old(h).cells()
            } else {
                r is Err && *final(h) == *old(h)
            },
            None => r is Err && *final(h) == *old(h),
        },
{
    let win = if window.is_nil() {
        selected_window(frames)
    } else {
        window
    };
    let w = as_live_window_or_error(frames, win)?;
    let left = margin_as_object(frames.window_at(w).left_margin_cols);
    let right = margin_as_object(frames.window_at(w).right_margin_cols);
    proof {
        lemma_fixnum_or_nil_valid(h, left);
        lemma_fixnum_or_nil_valid(h, right);
    }
    let o = h.cons(left, right);
    proof {
        assert(h.cells().drop_last() =~= old(h).cells());
    }
    Ok(o)
}

/// Fixnums and `nil` are valid words of any heap.
proof fn lemma_fixnum_or_nil_valid(h: &LispHeap, o: LispObject)
    requires
        o.0 == 0 || is_fixnum_word(o.0),
    ensures
        h.valid(o),
{
    crate::tag::lemma_nil_tag();
}

/// The combination limit of the internal window WINDOW.
pub fn window_combination_limit(frames: &Frames, window: LispObject) -> (r: Result<LispObject, LispError>)
    requires
        frames.wf(),
    ensures
        r == match frames.window_of(window) {
            Some(w) => if is_internal(frames.windows(), w) {
                Ok(frames.windows()[w].combination_limit)
            } else {
                Err(LispError::Error(ErrorMessage::CombinationLimitInternalOnly))
            },
            None => Err(LispError::WrongType(TypePredicate::Windowp, window)),
        },
{
    let w = as_window_or_error(frames, window)?;
    if !matches!(frames.window_at(w).contents, WindowContents::Window(_)) {
        return Err(LispError::Error(ErrorMessage::CombinationLimitInternalOnly));
    }
    Ok(frames.window_at(w).combination_limit)
}

/// Sets the combination limit of the internal window WINDOW to LIMIT;
/// returns LIMIT.
pub fn set_window_combination_limit(frames: &mut Frames, window: LispObject, limit: LispObject) -> (r: Result<
    LispObject,
    LispError,
>)
    requires
        old(frames).wf(),
    ensures
        final(frames).wf(),
        final(frames).view() == old(frames).view(),
        match old(frames).window_of(window) {
            Some(w) => if is_internal(old(frames).windows(), w) {
                r == Ok::<LispObject, LispError>(limit) && final(frames).windows() == old(frames).windows().update(
                    w,
                    (LispWindow { combination_limit: limit, ..old(frames).windows()[w] }),
                )
            } else {
                r == Err::<LispObject, LispError>(LispError::Error(ErrorMessage::CombinationLimitInternalOnly))
                    && final(frames).windows() == old(frames).windows()
            },
            None => r == Err::<LispObject, LispError>(LispError::WrongType(TypePredicate::Windowp, window))
                && final(frames).windows() == old(frames).windows(),
        },
{
    let w = as_window_or_error(frames, window)?;
    if !matches!(frames.window_at(w).contents, WindowContents::Window(_)) {
        return Err(LispError::Error(ErrorMessage::CombinationLimitInternalOnly));
    }
    frames.set_combination_limit(w, limit);
    Ok(limit)
}

/// The window that was selected when the minibuffer was entered, while
/// a minibuffer is active in the selected window and that window is
/// live; else `nil`.
pub fn minibuffer_selected_window(frames: &Frames) -> (r: LispObject)
    requires
        frames.wf(),
    ensures
        r == (if frames.minibuf_depth() > 0 && frames.windows()[frames.selected_window_index()].mini
            && is_live_window(frames.windows()[frames.minibuf_window_index()]) {
            window_word(frames.minibuf_window_index())
        } else {
            LispObject(0)
        }),
{
    let level = frames.minibuf_level();
    let current = frames.minibuf_selected_window();
    if level > 0 && frames.window_at(frames.selected_window()).mini && matches!(frames.window_at(current).contents, WindowContents::Buffer(_)) {
        frames.window_obj(current)
    } else {
        LispObject::constant_nil()
    }
}

/// Whether the frame numbered `f` is live.
pub open spec fn frame_is_live(frames: &Frames, f: int) -> bool {
    frames.view()[f].terminal.addr() != 0
}

/// The live frame OBJECT, or `wrong-type-argument frame-live-p`.
pub fn as_live_frame_or_error(frames: &Frames, object: LispObject) -> (r: Result<LispFrameRef, LispError>)
    requires
        frames.wf(),
    ensures
        match frames.frame_of(object) {
            Some(f) => if frame_is_live(frames, f) {
                r matches Ok(fr) && fr.index() == f
            } else {
                r == Err::<LispFrameRef, LispError>(LispError::WrongType(TypePredicate::FrameLiveP, object))
            },
            None => r == Err::<LispFrameRef, LispError>(LispError::WrongType(TypePredicate::FrameLiveP, object)),
        },
{
    match frames.as_frame(object) {
        Some(f) => {
            proof {
                let i = choose|i: int| 0 <= i < frames.view().len() && object == frame_word(i);
                lemma_frame_word_injective(i, f.index());
            }
            if f.is_live(frames) {
                Ok(f)
            } else {
                Err(LispError::WrongType(TypePredicate::FrameLiveP, object))
            }
        },
        None => Err(LispError::WrongType(TypePredicate::FrameLiveP, object)),
    }
}

/// The frame OBJECT designates: the selected frame for `nil`, the frame
/// of a window that has not been deleted, or a live frame.
pub open spec fn window_frame_designated(frames: &Frames, object: LispObject) -> Result<int, LispError> {
    if object.0 == 0 {
        Ok(frames.selected_index())
    } else if frames.window_of(object) matches Some(w) && is_valid_window(frames.windows()[w]) {
        Ok(frames.windows()[frames.window_of(object)->0].frame as int)
    } else if frames.frame_of(object) matches Some(f) && frame_is_live(frames, f) {
        Ok(frames.frame_of(object)->0)
    } else {
        Err(LispError::WrongType(TypePredicate::FrameLiveP, object))
    }
}

/// The frame OBJECT designates (see `window_frame_designated`).
pub fn window_frame_live_or_selected(frames: &Frames, object: LispObject) -> (r: Result<LispFrameRef, LispError>)
    requires
        frames.wf(),
    ensures
        match window_frame_designated(frames, object) {
            Ok(f) => r matches Ok(fr) && fr.index() == f && frames.has(fr),
            Err(e) => r == Err::<LispFrameRef, LispError>(e),
        },
{
    if object.is_nil() {
        return Ok(selected_frame(frames));
    }
    match frames.as_window(object) {
        Some(w) => {
            if !matches!(frames.window_at(w).contents, WindowContents::Nothing) {
                return Ok(frames.frame_of_window(w));
            }
        },
        None => {},
    }
    as_live_frame_or_error(frames, object)
}

/// The live frame OBJECT designates: the selected window's frame for
/// `nil`, a live window's frame (the window is given back, for the
/// caller's action on it), or a live frame.
pub fn window_frame_live_or_selected_with_action(frames: &Frames, object: LispObject) -> (r: Result<
    (Option<usize>, LispFrameRef),
    LispError,
>)
    requires
        frames.wf(),
    ensures
        ({
            let obj = if object.0 == 0 {
                window_word(frames.selected_window_index())
            } else {
                object
            };
            match frames.window_of(obj) {
                Some(w) => if is_live_window(frames.windows()[w]) {
                    let f = frames.windows()[w].frame as int;
                    if frame_is_live(frames, f) {
                        r matches Ok(p) && p.0 == Some(w as usize) && p.1.index() == f
                    } else {
                        r == Err::<(Option<usize>, LispFrameRef), LispError>(
                            LispError::WrongType(TypePredicate::FrameLiveP, frame_word(f)),
                        )
                    }
                } else {
                    r == Err::<(Option<usize>, LispFrameRef), LispError>(
                        LispError::WrongType(TypePredicate::WindowLiveP, obj),
                    )
                },
                None => match frames.frame_of(obj) {
                    Some(f) => if frame_is_live(frames, f) {
                        r matches Ok(p) && p.0 is None && p.1.index() == f
                    } else {
                        r == Err::<(Option<usize>, LispFrameRef), LispError>(
                            LispError::WrongType(TypePredicate::FrameLiveP, obj),
                        )
                    },
                    None => r == Err::<(Option<usize>, LispFrameRef), LispError>(
                        LispError::WrongType(TypePredicate::FrameLiveP, obj),
                    ),
                },
            }
        }),
{
    let object = if object.is_nil() {
        selected_window(frames)
    } else {
        object
    };
    match frames.as_window(object) {
        Some(_) => {
            let w = as_live_window_or_error(frames, object)?;
            let f = frames.frame_of_window(w);
            let fo = f.as_lisp_obj();
            proof {
                assert(frames.frame_of(fo) == Some(f.index())) by {
                    let i = choose|i: int| 0 <= i < frames.view().len() && fo == frame_word(i);
                    lemma_frame_word_injective(i, f.index());
                }
            }
            let fr = as_live_frame_or_error(frames, fo)?;
            Ok((Some(w), fr))
        },
        None => {
            let fr = as_live_frame_or_error(frames, object)?;
            Ok((None, fr))
        },
    }
}

/// The selected window of the frame FRAME_OR_WINDOW designates (see
/// `window_frame_designated`).
pub fn frame_selected_window(frames: &Frames, frame_or_window: LispObject) -> (r: Result<usize, LispError>)
    requires
        frames.wf(),
    ensures
        match window_frame_designated(frames, frame_or_window) {
            Ok(f) => r == Ok::<usize, LispError>(frames.view()[f].selected_window),
            Err(e) => r == Err::<usize, LispError>(e),
        },
{
    let f = window_frame_live_or_selected(frames, frame_or_window)?;
    Ok(frames.frame_at(f).selected_window)
}

/// The root window of the frame FRAME_OR_WINDOW designates (see
/// `window_frame_designated`).
pub fn frame_root_window(frames: &Frames, frame_or_window: LispObject) -> (r: Result<LispObject, LispError>)
    requires
        frames.wf(),
    ensures
        match window_frame_designated(frames, frame_or_window) {
            Ok(f) => r == Ok::<LispObject, LispError>(window_word(frames.view()[f].root_window as int)),
            Err(e) => r == Err::<LispObject, LispError>(e),
        },
{
    let f = window_frame_live_or_selected(frames, frame_or_window)?;
    Ok(frames.window_obj(frames.frame_at(f).root_window))
}

/// The top-left live window of the frame FRAME_OR_WINDOW designates: down
/// from its root window through the first child of each internal window.
pub fn frame_first_window(frames: &Frames, frame_or_window: LispObject) -> (r: Result<usize, LispError>)
    requires
        frames.wf(),
    ensures
        match window_frame_designated(frames, frame_or_window) {
            Ok(f) => {
                let d = down(frames.windows(), frames.view()[f].root_window as int, frames.windows().len());
                &&& r == Ok::<usize, LispError>(d as usize)
                &&& !is_internal(frames.windows(), d)
            },
            Err(e) => r == Err::<usize, LispError>(e),
        },
{
    let f = window_frame_live_or_selected(frames, frame_or_window)?;
    let root = frames.frame_at(f).root_window;
    let ghost ws = frames.windows();
    let n = frames.window_count();
    let mut window = root;
    let mut k: usize = 0;
    while matches!(frames.window_at(window).contents, WindowContents::Window(_))
        invariant
            frames.wf(),
            ws == frames.windows(),
            n == ws.len(),
            root < ws.len(),
            window < ws.len(),
            k <= n,
            window == down(ws, root as int, k as nat),
        decreases n - k,
    {
        proof {
            if k == n {
                assert(!is_internal(ws, down(ws, root as int, n as nat)));
            }
        }
        let c = match frames.window_at(window).contents {
            WindowContents::Window(c) => c,
            _ => window,
        };
        proof {
            assert(down(ws, root as int, (k + 1) as nat) == c);
        }
        window = c;
        k = k + 1;
    }
    proof {
        lemma_down_settles(ws, root as int, k as nat, n as nat);
    }
    Ok(window)
}

/// Once going down reaches a window that is not internal, it stays.
proof fn lemma_down_settles(ws: Seq<LispWindow>, i: int, k: nat, m: nat)
    requires
        k <= m,
        !is_internal(ws, down(ws, i, k)),
    ensures
        down(ws, i, m) == down(ws, i, k),
    decreases m,
{
    if m > k {
        lemma_down_settles(ws, i, k, (m - 1) as nat);
    }
}

/// What `set-frame-selected-window` does: select the window (when its
/// frame is the selected frame, through `select-window`), or make it
/// the frame's selected window.
#[derive(PartialEq, Eq, Structural, Clone, Copy, Debug)]
pub enum FrameWindowChoice {
    /// Select the window, as `select-window` does.
    Select(usize),
    /// The window was made the frame's selected window.
    SetOnFrame(usize),
}

/// Makes the live window WINDOW the selected window of the live frame
/// FRAME (the selected frame by default); the window must be on the frame.
pub fn set_frame_selected_window(frames: &mut Frames, frame: LispFrameOrSelected, window: LispObject) -> (r: Result<
    FrameWindowChoice,
    LispError,
>)
    requires
        old(frames).wf(),
        frame matches LispFrameOrSelected::Frame(f) ==> old(frames).has(f),
    ensures
        final(frames).wf(),
        final(frames).windows() == old(frames).windows(),
        ({
            let o = old(frames);
            let f = resolved(o, frame);
            if !frame_is_live(o, f) {
                r == Err::<FrameWindowChoice, LispError>(LispError::WrongType(TypePredicate::FrameLiveP, frame_word(f)))
                    && final(frames).view() == o.view()
            } else {
                match o.window_of(window) {
                    Some(w) => if !is_live_window(o.windows()[w]) {
                        r == Err::<FrameWindowChoice, LispError>(LispError::WrongType(TypePredicate::WindowLiveP, window))
                            && final(frames).view() == o.view()
                    } else if o.windows()[w].frame != f {
                        r == Err::<FrameWindowChoice, LispError>(LispError::Error(ErrorMessage::WindowNotOnFrame))
                            && final(frames).view() == o.view()
                    } else if f == o.selected_index() {
                        r == Ok::<FrameWindowChoice, LispError>(FrameWindowChoice::Select(w as usize))
                            && final(frames).view() == o.view()
                    } else {
                        r == Ok::<FrameWindowChoice, LispError>(FrameWindowChoice::SetOnFrame(w as usize))
                            && final(frames).view() == o.view().update(
                            f,
                            (LispFrame { selected_window: w as usize, ..o.view()[f] }),
                        )
                    },
                    None => r == Err::<FrameWindowChoice, LispError>(LispError::WrongType(TypePredicate::WindowLiveP, window))
                        && final(frames).view() == o.view(),
                }
            }
        }),
{
    let f = frame.live_or_error(frames)?;
    let w = as_live_window_or_error(frames, window)?;
    let wf = frames.frame_of_window(w);
    if f.index_of() != wf.index_of() {
        return Err(LispError::Error(ErrorMessage::WindowNotOnFrame));
    }
    let sel = selected_frame(frames);
    if f.index_of() == sel.index_of() {
        Ok(FrameWindowChoice::Select(w))
    } else {
        frames.set_selected_window_of(f, w);
        Ok(FrameWindowChoice::SetOnFrame(w))
    }
}

/// The position of the top left corner of the live frame FRAME (the
/// selected one by default), as a cons of pixels.
pub fn frame_position(frames: &Frames, h: &mut LispHeap, frame: LispFrameOrSelected) -> (r: Result<LispObject, LispError>)
    requires
        frames.wf(),
        frame matches LispFrameOrSelected::Frame(f) ==> frames.has(f),
        old(h).wf(),
        old(h).cells().len() < MAX_OBJECTS,
    ensures
        final(h).wf(),
        ({
            let f = resolved(frames, frame);
            if frame_is_live(frames, f) {
                &&& (r matches Ok(o) && final(h).is_cons(o))
                &&& final(h).car_of(r->Ok_0) == LispObject((frames.view()[f].left_pos * 4 + 2) as i64)
                &&& final(h).cdr_of(r->Ok_0) == LispObject((frames.view()[f].top_pos * 4 + 2) as i64)
                &&& final(h).cells().drop_last() == old(h).cells()
            } else {
                r == Err::<LispObject, LispError>(LispError::WrongType(TypePredicate::FrameLiveP, frame_word(f)))
                    && *final(h) == *old(h)
            }
        }),
{
    let f = frame.live_or_error(frames)?;
    let x = LispObject::from_fixnum(frames.frame_at(f).left_pos as i64);
    let y = LispObject::from_fixnum(frames.frame_at(f).top_pos as i64);
    proof {
        lemma_fixnum_or_nil_valid(h, x);
        lemma_fixnum_or_nil_valid(h, y);
    }
    let o = h.cons(x, y);
    proof {
        assert(h.cells().drop_last() =~= old(h).cells());
    }
    Ok(o)
}

} // verus!
