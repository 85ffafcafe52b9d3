//! Frames: the windows of the display system that Emacs draws into, and
//! the predicates and queries on them.
use vstd::prelude::*;

use crate::error::{LispError, TypePredicate};
use crate::external_ptr::ExternalPtr;
use crate::heap::MAX_OBJECTS;
use crate::tag::{word_tag, LispObject};

verus! {

/// The terminal a frame is displayed on.
pub struct Terminal {
    pub id: i32,
}

/// How a frame is displayed.
#[derive(PartialEq, Eq, Structural, Clone, Copy, Debug)]
pub enum OutputMethod {
    OutputInitial,
    OutputTermcap,
    OutputXWindow,
    OutputW32,
    OutputMsdosRaw,
    OutputNs,
}

/// A frame, with the fields that the frame primitives read.
pub struct LispFrame {
    /// The terminal; null once the frame has been deleted.
    pub terminal: ExternalPtr<Terminal>,
    /// Nonzero when the frame is visible.
    pub visible: i32,
    pub iconified: bool,
    pub pointer_invisible: bool,
    pub output_method: OutputMethod,
    pub left_fringe_width: i32,
    pub right_fringe_width: i32,
    pub left_pos: i32,
    pub top_pos: i32,
    pub text_cols: i32,
    pub text_lines: i32,
    pub total_cols: i32,
    pub total_lines: i32,
    pub text_width: i32,
    pub text_height: i32,
    pub internal_border_width: i32,
    pub right_divider_width: i32,
    pub bottom_divider_width: i32,
    /// The root window and the selected window of the frame (numbers of
    /// windows of the store).
    pub root_window: usize,
    pub selected_window: usize,
}

/// What a window shows: a buffer (a live window), other windows (an
/// internal window), or nothing (a deleted window).
#[derive(PartialEq, Eq, Structural, Clone, Copy, Debug)]
pub enum WindowContents {
    Buffer(usize),
    Window(usize),
    Nothing,
}

/// A window, with the fields that the window primitives read.
pub struct LispWindow {
    /// The frame of the window (a number of the store).
    pub frame: usize,
    pub contents: WindowContents,
    /// The markers of point and of the start of the window (numbers of
    /// markers of the buffers' store).
    pub pointm: usize,
    pub start: usize,
    /// Whether this is a minibuffer window.
    pub mini: bool,
    pub left_margin_cols: i32,
    pub right_margin_cols: i32,
    pub combination_limit: LispObject,
}

/// The symbols that the frame predicates answer with.
pub struct FrameSymbols {
    pub t: LispObject,
    pub x: LispObject,
    pub w32: LispObject,
    pub pc: LispObject,
    pub ns: LispObject,
    pub icon: LispObject,
}

/// A reference to a frame of a `Frames` store.
#[derive(PartialEq, Eq, Structural, Clone, Copy, Debug)]
pub struct LispFrameRef(usize);

/// The frames and their windows, the selected frame and window, and the
/// window selected before a minibuffer was entered.
pub struct Frames {
    frames: Vec<LispFrame>,
    selected: usize,
    windows: Vec<LispWindow>,
    selected_window: usize,
    minibuf_selected_window: usize,
    /// The depth of recursive minibuffers.
    minibuf_level: i32,
}

/// The window reached from window `i` by going `k` times into the first
/// child of an internal window (staying at a window that is not one).
pub open spec fn down(ws: Seq<LispWindow>, i: int, k: nat) -> int
    decreases k,
{
    if k == 0 {
        i
    } else {
        let j = down(ws, i, (k - 1) as nat);
        if 0 <= j < ws.len() {
            match ws[j].contents {
                WindowContents::Window(c) => c as int,
                _ => j,
            }
        } else {
            j
        }
    }
}

/// Whether window `i` is an internal window.
pub open spec fn is_internal(ws: Seq<LispWindow>, i: int) -> bool {
    0 <= i < ws.len() && ws[i].contents is Window
}

/// The word of the window number `i`.
pub open spec fn window_word(i: int) -> LispObject {
    LispObject(((4 * MAX_OBJECTS + i) * 8 + 5) as i64)
}

/// The word of the frame number `i`: a vectorlike word above the heap's
/// vectors and the char tables.
pub open spec fn frame_word(i: int) -> LispObject {
    LispObject(((2 * MAX_OBJECTS + i) * 8 + 5) as i64)
}

impl LispFrameRef {
    /// The number of the frame in its store.
    pub closed spec fn index(self) -> int {
        self.0 as int
    }

    /// The word of the frame.
    pub fn as_lisp_obj(self) -> (o: LispObject)
        requires
            0 <= self.index() < MAX_OBJECTS,
        ensures
            o == frame_word(self.index()),
    {
        LispObject(((2 * MAX_OBJECTS + self.0) * 8 + 5) as i64)
    }

    /// Whether the frame has not been deleted: it still has a terminal.
    pub fn is_live(self, frames: &Frames) -> (b: bool)
        requires
            frames.has(self),
        ensures
            b == (frames.view()[self.index()].terminal.addr() != 0),
    {
        !frames.frames[self.0].terminal.is_null()
    }

    /// Whether the frame is visible.
    pub fn is_visible(self, frames: &Frames) -> (b: bool)
        requires
            frames.has(self),
        ensures
            b == (frames.view()[self.index()].visible != 0),
    {
        frames.frames[self.0].visible != 0
    }

    /// The width of the left and right fringes together, in pixels.
    pub fn total_fringe_width(self, frames: &Frames) -> (w: i32)
        requires
            frames.has(self),
            i32::MIN <= frames.view()[self.index()].left_fringe_width + frames.view()[self.index()].right_fringe_width
                <= i32::MAX,
        ensures
            w == frames.view()[self.index()].left_fringe_width + frames.view()[self.index()].right_fringe_width,
    {
        frames.frames[self.0].left_fringe_width + frames.frames[self.0].right_fringe_width
    }
}

impl Frames {
    /// The frames of the store.
    pub closed spec fn view(&self) -> Seq<LispFrame> {
        self.frames@
    }

    /// The number of the selected frame.
    pub closed spec fn selected_index(&self) -> int {
        self.selected as int
    }

    /// The windows of the store.
    pub closed spec fn windows(&self) -> Seq<LispWindow> {
        self.windows@
    }

    /// The number of the selected window.
    pub closed spec fn selected_window_index(&self) -> int {
        self.selected_window as int
    }

    /// The depth of recursive minibuffers.
    pub closed spec fn minibuf_depth(&self) -> int {
        self.minibuf_level as int
    }

    /// The number of the window that was selected when the minibuffer
    /// was entered.
    pub closed spec fn minibuf_window_index(&self) -> int {
        self.minibuf_selected_window as int
    }

    /// Well-formedness: the selected frame and windows are of the store,
    /// the store fits the address space, frames and windows name each
    /// other within it, and going down into internal windows ends.
    pub open spec fn wf(&self) -> bool {
        let ws = self.windows();
        &&& 0 <= self.selected_index() < self.view().len() <= MAX_OBJECTS
        &&& ws.len() <= MAX_OBJECTS
        &&& 0 <= self.selected_window_index() < ws.len()
        &&& 0 <= self.minibuf_window_index() < ws.len()
        &&& forall|i: int|
            0 <= i < self.view().len() ==> #[trigger] self.view()[i].root_window < ws.len()
                && self.view()[i].selected_window < ws.len()
        &&& forall|i: int|
            #![trigger ws[i]]
            0 <= i < ws.len() ==> ws[i].frame < self.view().len() && (ws[i].contents matches WindowContents::Window(
                c,
            ) ==> c < ws.len())
        &&& forall|i: int| 0 <= i < ws.len() ==> !is_internal(ws, #[trigger] down(ws, i, ws.len()))
    }

    /// Whether the reference names a frame of this store.
    pub open spec fn has(&self, f: LispFrameRef) -> bool {
        0 <= f.index() < self.view().len()
    }

    /// A store of one frame with its window, both selected.
    pub fn new(first: LispFrame, window: LispWindow) -> (s: Frames)
        requires
            !(window.contents is Window),
        ensures
            s.wf(),
            s.view() == seq![LispFrame { root_window: 0, selected_window: 0, ..first }],
            s.windows() == seq![LispWindow { frame: 0, ..window }],
            s.selected_index() == 0,
            s.selected_window_index() == 0,
            s.minibuf_window_index() == 0,
            s.minibuf_depth() == 0,
    {
        let mut frames: Vec<LispFrame> = Vec::new();
        frames.push(LispFrame { root_window: 0, selected_window: 0, ..first });
        let mut windows: Vec<LispWindow> = Vec::new();
        windows.push(LispWindow { frame: 0, ..window });
        let s = Frames { frames, selected: 0, windows, selected_window: 0, minibuf_selected_window: 0, minibuf_level: 0 };
        proof {
            let ws = s.windows();
            assert(down(ws, 0, 0) == 0);
            assert(down(ws, 0, 1) == 0);
        }
        s
    }

    /// Adds a frame with its root window, which is also its selected
    /// window.
    pub fn push(&mut self, f: LispFrame, window: LispWindow) -> (r: LispFrameRef)
        requires
            old(self).wf(),
            old(self).view().len() < MAX_OBJECTS,
            old(self).windows().len() < MAX_OBJECTS,
            window.contents matches WindowContents::Window(c) ==> c < old(self).windows().len(),
        ensures
            final(self).wf(),
            final(self).view() == old(self).view().push(
                LispFrame {
                    root_window: old(self).windows().len() as usize,
                    selected_window: old(self).windows().len() as usize,
                    ..f
                },
            ),
            final(self).windows() == old(self).windows().push(
                LispWindow { frame: old(self).view().len() as usize, ..window },
            ),
            final(self).selected_index() == old(self).selected_index(),
            final(self).selected_window_index() == old(self).selected_window_index(),
            final(self).minibuf_window_index() == old(self).minibuf_window_index(),
            final(self).minibuf_depth() == old(self).minibuf_depth(),
            r.index() == old(self).view().len(),
    {
        let n = self.frames.len();
        let wn = self.windows.len();
        self.frames.push(LispFrame { root_window: wn, selected_window: wn, ..f });
        self.windows.push(LispWindow { frame: n, ..window });
        proof {
            let o = old(self).windows();
            let ws = self.windows();
            assert forall|i: int| 0 <= i < ws.len() implies !is_internal(ws, #[trigger] down(ws, i, ws.len())) by {
                if i < o.len() {
                    lemma_down_extend(o, ws, i, o.len());
                    lemma_down_stays(ws, i, o.len(), ws.len());
                } else {
                    match window.contents {
                        WindowContents::Window(c) => {
                            lemma_down_extend(o, ws, c as int, o.len());
                            lemma_down_stays(ws, c as int, o.len(), (ws.len() - 1) as nat);
                            lemma_down_shift(ws, i, (ws.len() - 1) as nat);
                        },
                        _ => {
                            lemma_down_stays(ws, i, 0, ws.len());
                        },
                    }
                }
            }
        }
        LispFrameRef(n)
    }

    /// Adds a window of frame FRAME (when a window is split); its number.
    pub fn push_window(&mut self, window: LispWindow) -> (r: usize)
        requires
            old(self).wf(),
            old(self).windows().len() < MAX_OBJECTS,
            window.frame < old(self).view().len(),
            window.contents matches WindowContents::Window(c) ==> c < old(self).windows().len(),
        ensures
            final(self).wf(),
            final(self).view() == old(self).view(),
            final(self).windows() == old(self).windows().push(window),
            final(self).selected_index() == old(self).selected_index(),
            final(self).selected_window_index() == old(self).selected_window_index(),
            final(self).minibuf_window_index() == old(self).minibuf_window_index(),
            final(self).minibuf_depth() == old(self).minibuf_depth(),
            r == old(self).windows().len(),
    {
        let wn = self.windows.len();
        self.windows.push(window);
        proof {
            let o = old(self).windows();
            let ws = self.windows();
            assert forall|i: int| 0 <= i < ws.len() implies !is_internal(ws, #[trigger] down(ws, i, ws.len())) by {
                if i < o.len() {
                    lemma_down_extend(o, ws, i, o.len());
                    lemma_down_stays(ws, i, o.len(), ws.len());
                } else {
                    match window.contents {
                        WindowContents::Window(c) => {
                            lemma_down_extend(o, ws, c as int, o.len());
                            lemma_down_stays(ws, c as int, o.len(), (ws.len() - 1) as nat);
                            lemma_down_shift(ws, i, (ws.len() - 1) as nat);
                        },
                        _ => {
                            lemma_down_stays(ws, i, 0, ws.len());
                        },
                    }
                }
            }
        }
        wn
    }

    /// Makes a frame the selected one.
    pub fn select(&mut self, f: LispFrameRef)
        requires
            old(self).wf(),
            old(self).has(f),
        ensures
            final(self).wf(),
            final(self).view() == old(self).view(),
            final(self).selected_index() == f.index(),
    {
        self.selected = f.0;
    }

    /// The frame a word refers to, if any.
    pub fn as_frame(&self, o: LispObject) -> (r: Option<LispFrameRef>)
        requires
            self.wf(),
        ensures
            r is Some == (exists|i: int| 0 <= i < self.view().len() && o == frame_word(i)),
            r matches Some(f) ==> self.has(f) && o == frame_word(f.index()),
    {
        if o.is_vectorlike() {
            let addr = o.get_untaggedptr();
            let a = addr / 8;
            assert(addr == a * 8);
            let base = 2 * MAX_OBJECTS as u64;
            if base <= a && a - base < self.frames.len() as u64 {
                let i = (a - base) as usize;
                proof {
                    let v: i64 = o.0;
                    assert(a < 0x1000_0000);
                    assert((v as u64) & 7 == 5 && (v as u64) & 0xffff_ffff_ffff_fff8 == a * 8 && a < 0x1000_0000
                        ==> v == (a * 8 + 5) as i64) by (bit_vector);
                    assert(o.0 == ((2 * MAX_OBJECTS + i) * 8 + 5) as i64);
                    assert(o == frame_word(i as int));
                }
                return Some(LispFrameRef(i));
            }
        }
        proof {
            assert forall|i: int| 0 <= i < self.view().len() implies o != frame_word(i) by {
                if o == frame_word(i) {
                    let y: u64 = (2 * MAX_OBJECTS + i) as u64;
                    let x: u64 = ((2 * MAX_OBJECTS + i) * 8 + 5) as u64;
                    assert(x & 7 == 5 && x & 0xffff_ffff_ffff_fff8 == y * 8) by (bit_vector)
                        requires
                            x == y * 8 + 5,
                            y < 0x1000_0000,
                    ;
                }
            }
        }
        None
    }
}

/// The frame that is now selected.
pub fn selected_frame(frames: &Frames) -> (f: LispFrameRef)
    requires
        frames.wf(),
    ensures
        f.index() == frames.selected_index(),
        frames.has(f),
{
    LispFrameRef(frames.selected)
}

/// A frame argument: a given frame, or the selected one (for `nil`).
#[derive(PartialEq, Eq, Structural, Clone, Copy, Debug)]
pub enum LispFrameOrSelected {
    Frame(LispFrameRef),
    Selected,
}

/// The frame that a frame argument names.
pub open spec fn resolved(frames: &Frames, f: LispFrameOrSelected) -> int {
    match f {
        LispFrameOrSelected::Frame(r) => r.index(),
        LispFrameOrSelected::Selected => frames.selected_index(),
    }
}

impl LispFrameOrSelected {
    /// The frame named, selected frame for `Selected`.
    pub fn resolve(self, frames: &Frames) -> (r: LispFrameRef)
        requires
            frames.wf(),
            self matches LispFrameOrSelected::Frame(f) ==> frames.has(f),
        ensures
            r.index() == resolved(frames, self),
            frames.has(r),
    {
        match self {
            LispFrameOrSelected::Frame(f) => f,
            LispFrameOrSelected::Selected => selected_frame(frames),
        }
    }

    /// The frame named, which must be live: else `wrong-type-argument
    /// frame-live-p` with the frame.
    pub fn live_or_error(self, frames: &Frames) -> (r: Result<LispFrameRef, LispError>)
        requires
            frames.wf(),
            self matches LispFrameOrSelected::Frame(f) ==> frames.has(f),
        ensures
            frames.view()[resolved(frames, self)].terminal.addr() != 0 ==> (r matches Ok(f) && f.index() == resolved(
                frames,
                self,
            )),
            frames.view()[resolved(frames, self)].terminal.addr() == 0 ==> r == Err::<LispFrameRef, LispError>(
                LispError::WrongType(TypePredicate::FrameLiveP, frame_word(resolved(frames, self))),
            ),
    {
        let frame = self.resolve(frames);
        if frame.is_live(frames) {
            Ok(frame)
        } else {
            Err(LispError::WrongType(TypePredicate::FrameLiveP, frame.as_lisp_obj()))
        }
    }
}

/// The symbol for a frame's kind of display: `t` for a terminal, `x`,
/// `w32`, `pc` or `ns`.
pub open spec fn display_symbol(syms: &FrameSymbols, m: OutputMethod) -> LispObject {
    match m {
        OutputMethod::OutputInitial | OutputMethod::OutputTermcap => syms.t,
        OutputMethod::OutputXWindow => syms.x,
        OutputMethod::OutputW32 => syms.w32,
        OutputMethod::OutputMsdosRaw => syms.pc,
        OutputMethod::OutputNs => syms.ns,
    }
}

/// The symbol for the frame's kind of display.
pub fn framep_1(frames: &Frames, syms: &FrameSymbols, frame: LispFrameRef) -> (o: LispObject)
    requires
        frames.has(frame),
    ensures
        o == display_symbol(syms, frames.view()[frame.index()].output_method),
{
    match frames.frames[frame.0].output_method {
        OutputMethod::OutputInitial | OutputMethod::OutputTermcap => syms.t,
        OutputMethod::OutputXWindow => syms.x,
        OutputMethod::OutputW32 => syms.w32,
        OutputMethod::OutputMsdosRaw => syms.pc,
        OutputMethod::OutputNs => syms.ns,
    }
}

/// `nil` if not a frame, else the symbol for its kind of display.
pub fn framep(frames: &Frames, syms: &FrameSymbols, frame: Option<LispFrameRef>) -> (o: LispObject)
    requires
        frame matches Some(f) ==> frames.has(f),
    ensures
        o == match frame {
            Some(f) => display_symbol(syms, frames.view()[f.index()].output_method),
            None => LispObject(0),
        },
{
    match frame {
        Some(f) => framep_1(frames, syms, f),
        None => LispObject::constant_nil(),
    }
}

/// `nil` if not a live frame, else the symbol for its kind of display.
pub fn frame_live_p(frames: &Frames, syms: &FrameSymbols, frame: Option<LispFrameRef>) -> (o: LispObject)
    requires
        frame matches Some(f) ==> frames.has(f),
    ensures
        o == match frame {
            Some(f) => if frames.view()[f.index()].terminal.addr() != 0 {
                display_symbol(syms, frames.view()[f.index()].output_method)
            } else {
                LispObject(0)
            },
            None => LispObject(0),
        },
{
    match frame {
        Some(f) => {
            if f.is_live(frames) {
                framep_1(frames, syms, f)
            } else {
                LispObject::constant_nil()
            }
        },
        None => LispObject::constant_nil(),
    }
}

/// The window system of the frame: `nil` for a terminal, else the
/// symbol for its kind of display.
pub fn window_system(frames: &Frames, syms: &FrameSymbols, frame: LispFrameOrSelected) -> (r: Result<LispObject, LispError>)
    requires
        frames.wf(),
        frame matches LispFrameOrSelected::Frame(f) ==> frames.has(f),
    ensures
        ({
            let ws = display_symbol(syms, frames.view()[resolved(frames, frame)].output_method);
            r == if ws == LispObject(0) {
                Err(LispError::WrongType(TypePredicate::Framep, frame_word(resolved(frames, frame))))
            } else if ws == syms.t {
                Ok(LispObject(0))
            } else {
                Ok(ws)
            }
        }),
{
    let frame = frame.resolve(frames);
    let window_system = framep_1(frames, syms, frame);
    if window_system.is_nil() {
        Err(LispError::WrongType(TypePredicate::Framep, frame.as_lisp_obj()))
    } else if window_system.eq(syms.t) {
        Ok(LispObject::constant_nil())
    } else {
        Ok(window_system)
    }
}

/// `t` if the frame is visible, `icon` if it is iconified, else `nil`.
pub fn frame_visible_p(frames: &Frames, syms: &FrameSymbols, frame: LispFrameRef) -> (o: LispObject)
    requires
        frames.has(frame),
    ensures
        o == (if frames.view()[frame.index()].visible != 0 {
            syms.t
        } else if frames.view()[frame.index()].iconified {
            syms.icon
        } else {
            LispObject(0)
        }),
{
    if frame.is_visible(frames) {
        syms.t
    } else if frames.frames[frame.0].iconified {
        syms.icon
    } else {
        LispObject::constant_nil()
    }
}

/// Whether the mouse pointer is visible on the frame.
pub fn frame_pointer_visible_p(frames: &Frames, frame: LispFrameOrSelected) -> (b: bool)
    requires
        frames.wf(),
        frame matches LispFrameOrSelected::Frame(f) ==> frames.has(f),
    ensures
        b == !frames.view()[resolved(frames, frame)].pointer_invisible,
{
    let f = frame.resolve(frames);
    !frames.frames[f.0].pointer_invisible
}

/// The fringe width of the frame, in pixels.
pub fn frame_fringe_width(frames: &Frames, frame: LispFrameOrSelected) -> (w: i32)
    requires
        frames.wf(),
        frame matches LispFrameOrSelected::Frame(f) ==> frames.has(f),
        i32::MIN <= frames.view()[resolved(frames, frame)].left_fringe_width + frames.view()[resolved(
            frames,
            frame,
        )].right_fringe_width <= i32::MAX,
    ensures
        w == frames.view()[resolved(frames, frame)].left_fringe_width + frames.view()[resolved(
            frames,
            frame,
        )].right_fringe_width,
{
    let f = frame.resolve(frames);
    f.total_fringe_width(frames)
}

/// Going down from a window that is not internal stays there.
proof fn lemma_down_stays(ws: Seq<LispWindow>, i: int, k: nat, m: nat)
    requires
        k <= m,
        !is_internal(ws, down(ws, i, k)),
    ensures
        down(ws, i, m) == down(ws, i, k),
    decreases m,
{
    if m > k {
        lemma_down_stays(ws, i, k, (m - 1) as nat);
    }
}

/// Going down from an old window is the same after a window is added.
proof fn lemma_down_extend(o: Seq<LispWindow>, ws: Seq<LispWindow>, i: int, k: nat)
    requires
        0 <= i < o.len(),
        ws.len() == o.len() + 1,
        forall|j: int| 0 <= j < o.len() ==> #[trigger] ws[j] == o[j],
        forall|j: int| #![trigger o[j]] 0 <= j < o.len() ==> (o[j].contents matches WindowContents::Window(c) ==> c < o.len()),
    ensures
        down(ws, i, k) == down(o, i, k),
        0 <= down(o, i, k) < o.len(),
    decreases k,
{
    if k > 0 {
        lemma_down_extend(o, ws, i, (k - 1) as nat);
    }
}

/// Going down `k + 1` times from an internal window is going down `k`
/// times from its first child.
proof fn lemma_down_shift(ws: Seq<LispWindow>, i: int, k: nat)
    requires
        is_internal(ws, i),
    ensures
        down(ws, i, k + 1) == down(ws, ws[i].contents->Window_0 as int, k),
    decreases k,
{
    let c = ws[i].contents->Window_0 as int;
    if k > 0 {
        lemma_down_shift(ws, i, (k - 1) as nat);
        assert(down(ws, i, k) == down(ws, c, (k - 1) as nat));
        assert(down(ws, i, k + 1) == down(ws, c, k));
    } else {
        assert(down(ws, i, 0) == i);
        assert(down(ws, i, 1) == c);
        assert(down(ws, c, 0) == c);
    }
}

impl Frames {
    /// The window numbered `i`.
    pub fn window_at(&self, i: usize) -> (w: &LispWindow)
        requires
            i < self.windows().len(),
        ensures
            *w == self.windows()[i as int],
    {
        &self.windows[i]
    }

    /// The frame `f`.
    pub fn frame_at(&self, f: LispFrameRef) -> (r: &LispFrame)
        requires
            self.has(f),
        ensures
            *r == self.view()[f.index()],
    {
        &self.frames[f.0]
    }

    /// The frame of window `i`.
    pub fn frame_of_window(&self, i: usize) -> (f: LispFrameRef)
        requires
            self.wf(),
            i < self.windows().len(),
        ensures
            f.index() == self.windows()[i as int].frame,
            self.has(f),
    {
        LispFrameRef(self.windows[i].frame)
    }

    /// The number of the selected window.
    pub fn selected_window(&self) -> (w: usize)
        ensures
            w == self.selected_window_index(),
    {
        self.selected_window
    }

    /// The window that was selected when the minibuffer was entered.
    pub fn minibuf_selected_window(&self) -> (w: usize)
        ensures
            w == self.minibuf_window_index(),
    {
        self.minibuf_selected_window
    }

    /// The depth of recursive minibuffers.
    pub fn minibuf_level(&self) -> (n: i32)
        ensures
            n == self.minibuf_depth(),
    {
        self.minibuf_level
    }

    /// Enters or leaves a minibuffer: sets the depth, and the window that
    /// was selected when it was entered.
    pub fn set_minibuffer(&mut self, level: i32, window: usize)
        requires
            old(self).wf(),
            window < old(self).windows().len(),
        ensures
            final(self).wf(),
            final(self).view() == old(self).view(),
            final(self).windows() == old(self).windows(),
            final(self).selected_index() == old(self).selected_index(),
            final(self).selected_window_index() == old(self).selected_window_index(),
            final(self).minibuf_depth() == level,
            final(self).minibuf_window_index() == window,
    {
        self.minibuf_level = level;
        self.minibuf_selected_window = window;
    }

    /// The window a word refers to, if any.
    pub open spec fn window_of(&self, o: LispObject) -> Option<int> {
        if word_tag(o.0) == 5 && 4 * MAX_OBJECTS <= o.0 / 8 < 4 * MAX_OBJECTS + self.windows().len() {
            Some(o.0 / 8 - 4 * MAX_OBJECTS)
        } else {
            None
        }
    }

    /// The window a word refers to, if any.
    pub fn as_window(&self, o: LispObject) -> (r: Option<usize>)
        requires
            self.wf(),
        ensures
            r matches Some(w) ==> self.window_of(o) == Some(w as int),
            r is None ==> self.window_of(o) is None,
    {
        let base: i64 = 4 * (MAX_OBJECTS as i64);
        if o.is_vectorlike() && o.0 >= 0 && o.0 / 8 >= base && o.0 / 8 - base < self.windows.len() as i64 {
            Some((o.0 / 8 - base) as usize)
        } else {
            None
        }
    }

    /// The word of window W.
    pub fn window_obj(&self, w: usize) -> (o: LispObject)
        requires
            self.wf(),
            w < self.windows().len(),
        ensures
            o == window_word(w as int),
            self.window_of(o) == Some(w as int),
    {
        let x: i64 = (4 * MAX_OBJECTS + w) as i64;
        let v: i64 = x * 8 + 5;
        assert(((v as u64) & 7) == 5) by (bit_vector)
            requires
                v == x * 8 + 5,
                0 <= x < 0x1400_0000,
        ;
        assert(v / 8 == x);
        LispObject(v)
    }

    /// Makes window W the selected window of frame F.
    pub fn set_selected_window_of(&mut self, f: LispFrameRef, w: usize)
        requires
            old(self).wf(),
            old(self).has(f),
            w < old(self).windows().len(),
        ensures
            final(self).wf(),
            final(self).view() == old(self).view().update(
                f.index(),
                (LispFrame { selected_window: w, ..old(self).view()[f.index()] }),
            ),
            final(self).windows() == old(self).windows(),
            final(self).selected_index() == old(self).selected_index(),
            final(self).selected_window_index() == old(self).selected_window_index(),
            final(self).minibuf_depth() == old(self).minibuf_depth(),
            final(self).minibuf_window_index() == old(self).minibuf_window_index(),
    {
        let mut fr = self.frames.remove(f.0);
        fr.selected_window = w;
        self.frames.insert(f.0, fr);
        proof {
            assert(self.frames@ =~= old(self).frames@.update(f.index(), fr));
        }
    }

    /// Sets the combination limit of window W.
    pub fn set_combination_limit(&mut self, w: usize, limit: LispObject)
        requires
            old(self).wf(),
            w < old(self).windows().len(),
        ensures
            final(self).wf(),
            final(self).view() == old(self).view(),
            final(self).windows() == old(self).windows().update(
                w as int,
                (LispWindow { combination_limit: limit, ..old(self).windows()[w as int] }),
            ),
            final(self).selected_index() == old(self).selected_index(),
            final(self).selected_window_index() == old(self).selected_window_index(),
            final(self).minibuf_depth() == old(self).minibuf_depth(),
            final(self).minibuf_window_index() == old(self).minibuf_window_index(),
    {
        let mut win = self.windows.remove(w);
        win.combination_limit = limit;
        self.windows.insert(w, win);
        proof {
            let o = old(self).windows();
            let ws = self.windows();
            assert(ws =~= o.update(w as int, win));
            assert forall|i: int| 0 <= i < ws.len() implies !is_internal(ws, #[trigger] down(ws, i, ws.len())) by {
                lemma_down_same_shape(o, ws, i, ws.len());
            }
        }
    }
}

/// Going down only reads what windows show.
proof fn lemma_down_same_shape(o: Seq<LispWindow>, ws: Seq<LispWindow>, i: int, k: nat)
    requires
        ws.len() == o.len(),
        forall|j: int| 0 <= j < o.len() ==> #[trigger] ws[j].contents == o[j].contents,
    ensures
        down(ws, i, k) == down(o, i, k),
        is_internal(ws, down(ws, i, k)) == is_internal(o, down(o, i, k)),
    decreases k,
{
    if k > 0 {
        lemma_down_same_shape(o, ws, i, (k - 1) as nat);
    }
}

impl Frames {
    /// The frame a word refers to, if any.
    pub open spec fn frame_of(&self, o: LispObject) -> Option<int> {
        if exists|i: int| 0 <= i < self.view().len() && o == frame_word(i) {
            Some(choose|i: int| 0 <= i < self.view().len() && o == frame_word(i))
        } else {
            None
        }
    }
}

/// Different frames have different words.
pub proof fn lemma_frame_word_injective(i: int, j: int)
    requires
        0 <= i < MAX_OBJECTS,
        0 <= j < MAX_OBJECTS,
        frame_word(i) == frame_word(j),
    ensures
        i == j,
{
}

/// The width in columns of the frame's text area.
pub fn frame_text_cols(frames: &Frames, frame: LispFrameOrSelected) -> (r: i32)
    requires
        frames.wf(),
        frame matches LispFrameOrSelected::Frame(f) ==> frames.has(f),
    ensures
        r == frames.view()[resolved(frames, frame)].text_cols,
{
    frames.frame_at(frame.resolve(frames)).text_cols
}

/// The height in lines of the frame's text area.
pub fn frame_text_lines(frames: &Frames, frame: LispFrameOrSelected) -> (r: i32)
    requires
        frames.wf(),
        frame matches LispFrameOrSelected::Frame(f) ==> frames.has(f),
    ensures
        r == frames.view()[resolved(frames, frame)].text_lines,
{
    frames.frame_at(frame.resolve(frames)).text_lines
}

/// The number of columns of the frame.
pub fn frame_total_cols(frames: &Frames, frame: LispFrameOrSelected) -> (r: i32)
    requires
        frames.wf(),
        frame matches LispFrameOrSelected::Frame(f) ==> frames.has(f),
    ensures
        r == frames.view()[resolved(frames, frame)].total_cols,
{
    frames.frame_at(frame.resolve(frames)).total_cols
}

/// The number of lines of the frame.
pub fn frame_total_lines(frames: &Frames, frame: LispFrameOrSelected) -> (r: i32)
    requires
        frames.wf(),
        frame matches LispFrameOrSelected::Frame(f) ==> frames.has(f),
    ensures
        r == frames.view()[resolved(frames, frame)].total_lines,
{
    frames.frame_at(frame.resolve(frames)).total_lines
}

/// The width of the frame's text area, in pixels.
pub fn frame_text_width(frames: &Frames, frame: LispFrameOrSelected) -> (r: i32)
    requires
        frames.wf(),
        frame matches LispFrameOrSelected::Frame(f) ==> frames.has(f),
    ensures
        r == frames.view()[resolved(frames, frame)].text_width,
{
    frames.frame_at(frame.resolve(frames)).text_width
}

/// The height of the frame's text area, in pixels.
pub fn frame_text_height(frames: &Frames, frame: LispFrameOrSelected) -> (r: i32)
    requires
        frames.wf(),
        frame matches LispFrameOrSelected::Frame(f) ==> frames.has(f),
    ensures
        r == frames.view()[resolved(frames, frame)].text_height,
{
    frames.frame_at(frame.resolve(frames)).text_height
}

/// The width of the frame's internal border, in pixels.
pub fn frame_internal_border_width(frames: &Frames, frame: LispFrameOrSelected) -> (r: i32)
    requires
        frames.wf(),
        frame matches LispFrameOrSelected::Frame(f) ==> frames.has(f),
    ensures
        r == frames.view()[resolved(frames, frame)].internal_border_width,
{
    frame.resolve(frames).internal_border_width(frames)
}

/// The width of the frame's vertical window dividers, in pixels.
pub fn frame_right_divider_width(frames: &Frames, frame: LispFrameOrSelected) -> (r: i32)
    requires
        frames.wf(),
        frame matches LispFrameOrSelected::Frame(f) ==> frames.has(f),
    ensures
        r == frames.view()[resolved(frames, frame)].right_divider_width,
{
    frames.frame_at(frame.resolve(frames)).right_divider_width
}

/// The width of the frame's horizontal window dividers, in pixels.
pub fn frame_bottom_divider_width(frames: &Frames, frame: LispFrameOrSelected) -> (r: i32)
    requires
        frames.wf(),
        frame matches LispFrameOrSelected::Frame(f) ==> frames.has(f),
    ensures
        r == frames.view()[resolved(frames, frame)].bottom_divider_width,
{
    frames.frame_at(frame.resolve(frames)).bottom_divider_width
}

impl LispFrameRef {
    /// The width of the frame's internal border, in pixels.
    pub fn internal_border_width(self, frames: &Frames) -> (w: i32)
        requires
            frames.has(self),
        ensures
            w == frames.view()[self.index()].internal_border_width,
    {
        frames.frames[self.0].internal_border_width
    }
}

impl Frames {
    /// The number of windows.
    pub fn window_count(&self) -> (n: usize)
        ensures
            n == self.windows().len(),
    {
        self.windows.len()
    }
}

impl LispFrameRef {
    /// The number of the frame.
    pub fn index_of(self) -> (i: usize)
        ensures
            i == self.index(),
    {
        self.0
    }
}

} // verus!
