//! Keyboard macros: recording the events of a macro as it is defined,
//! and deciding how a recorded macro is re-executed.
//!
//! The events are recorded into a buffer of `bufsize` slots: those before
//! `end` belong to the macro, those between `end` and `ptr` were recorded
//! for the command that runs now and join the macro when the command ends.
use vstd::prelude::*;

use crate::error::{ErrorMessage, LispError, TypePredicate};
use crate::heap::{is_cons_word, obj_index, LispHeap, MAX_OBJECTS};
use crate::multibyte::{char_bytes, char_start, decode_char, string_char_at};
use crate::tag::{fixnum_value, fixnum_word, in_fixnum_range, is_fixnum_word, LispObject};

verus! {

/// The modifier bit of a meta character.
pub const CHAR_META: i64 = 0x800_0000;

/// The slots that a fresh buffer gets, and that are kept free beyond a
/// copied macro.
pub const KBD_MACRO_INCR: usize = 30;

/// A buffer larger than this is shrunk when a new macro starts.
pub const KBD_MACRO_LIMIT_EXISTING: usize = 200;

/// The most slots the buffer can have: the largest array of words that
/// the address space allows (the largest signed size over the 8 bytes of
/// a word, which is the largest unsigned size over 16).
pub const KBD_MACRO_MAX_SLOTS: usize = usize::MAX / 16;

/// The keyboard state that macro definition uses.
pub struct KBoard {
    defining_kbd_macro: bool,
    allocated: bool,
    kbd_macro_buffer: Vec<LispObject>,
    kbd_macro_ptr: usize,
    kbd_macro_end: usize,
    last_kbd_macro: LispObject,
}

/// The size that the buffer grows to when it needs `incr_min` more slots:
/// half again as large, and at least `incr_min` more.
pub open spec fn grown_size(n: int, incr_min: int) -> int {
    if n / 2 >= incr_min {
        n + n / 2
    } else {
        n + incr_min
    }
}

/// A recorded character with its meta bit (0x80) moved to `CHAR_META`.
pub open spec fn meta_event(c: u8) -> int {
    if c >= 0x80 {
        CHAR_META + (c - 0x80)
    } else {
        c as int
    }
}

/// The event of a character of a macro string: a character with the
/// bit 0x80 set has that bit moved to `CHAR_META`.
pub open spec fn kbd_char_event(c: int) -> int {
    if (c / 128) % 2 == 1 {
        CHAR_META + (c - 128)
    } else {
        c
    }
}

/// The events that a macro value holds: the characters of a string (with
/// the meta bit converted; a string of as many bytes as characters holds
/// one character per byte, another is decoded as multibyte text) or the
/// elements of a vector.
pub open spec fn macro_events(h: &LispHeap, m: LispObject) -> Seq<LispObject> {
    if h.is_string(m) {
        let bytes = h.string_bytes_of(m);
        if h.string_chars_of(m) == bytes.len() {
            Seq::new(bytes.len(), |i: int| LispObject(fixnum_word(meta_event(bytes[i]))))
        } else {
            Seq::new(
                h.string_chars_of(m),
                |i: int| LispObject(fixnum_word(kbd_char_event(decode_char(bytes, char_start(bytes, i as nat) - 1)))),
            )
        }
    } else {
        h.vector_of(m)
    }
}

/// The slots of the buffer once `start_kbd_macro` has made sure that
/// there is one.
pub open spec fn start_slots(kb: &KBoard) -> int {
    if kb.has_buffer() {
        kb.slots().len() as int
    } else {
        KBD_MACRO_INCR as int
    }
}

/// Whether copying a macro of `len` events into the buffer, with
/// `KBD_MACRO_INCR` slots to spare, needs more slots than can be had.
pub open spec fn append_exhausts(kb: &KBoard, len: int) -> bool {
    let n = start_slots(kb);
    len > n - KBD_MACRO_INCR && grown_size(n, len - (n - KBD_MACRO_INCR)) > KBD_MACRO_MAX_SLOTS
}

/// What `start_kbd_macro` asks of the command loop: re-execute the last
/// macro before definition starts, or nothing; and the message to show.
#[derive(PartialEq, Eq, Structural, Clone, Copy, Debug)]
pub enum KbdMacroStart {
    /// Show "Defining kbd macro..."; definition has started.
    Defining,
    /// Show "Appending to kbd macro..."; definition has started.
    Appending,
    /// Execute the last macro once, then call `begin_defining` and show
    /// "Appending to kbd macro...".
    ReexecuteThenAppend,
}

impl KBoard {
    /// Whether a macro is being defined.
    pub closed spec fn defining(&self) -> bool {
        self.defining_kbd_macro
    }

    /// The last macro defined: `nil`, a string or a vector.
    pub closed spec fn last_macro(&self) -> LispObject {
        self.last_kbd_macro
    }

    /// Whether the buffer has been allocated.
    pub closed spec fn has_buffer(&self) -> bool {
        self.allocated
    }

    /// The slots of the buffer.
    pub closed spec fn slots(&self) -> Seq<LispObject> {
        self.kbd_macro_buffer@
    }

    /// The offset of the next event to record.
    pub closed spec fn ptr(&self) -> int {
        self.kbd_macro_ptr as int
    }

    /// The offset of the end of the macro proper.
    pub closed spec fn end(&self) -> int {
        self.kbd_macro_end as int
    }

    /// The events recorded for the macro so far.
    pub open spec fn events(&self) -> Seq<LispObject> {
        self.slots().subrange(0, self.end())
    }

    /// The events recorded for the command that runs now.
    pub open spec fn pending(&self) -> Seq<LispObject> {
        self.slots().subrange(self.end(), self.ptr())
    }

    /// Well-formedness: the offsets lie inside the buffer, and a buffer
    /// that was never allocated has no slots.
    pub open spec fn wf(&self) -> bool {
        &&& 0 <= self.end() <= self.ptr() <= self.slots().len()
        &&& self.slots().len() <= KBD_MACRO_MAX_SLOTS
        &&& !self.has_buffer() ==> self.slots().len() == 0
        &&& self.has_buffer() ==> self.slots().len() >= KBD_MACRO_INCR
        &&& self.defining() ==> self.has_buffer()
    }

    /// A keyboard with no buffer, not defining a macro.
    pub fn new() -> (k: KBoard)
        ensures
            k.wf(),
            !k.defining(),
            !k.has_buffer(),
            k.last_macro() == LispObject(0),
    {
        KBoard {
            defining_kbd_macro: false,
            allocated: false,
            kbd_macro_buffer: Vec::new(),
            kbd_macro_ptr: 0,
            kbd_macro_end: 0,
            last_kbd_macro: LispObject::constant_nil(),
        }
    }

    /// Whether a macro is being defined.
    pub fn is_defining(&self) -> (b: bool)
        ensures
            b == self.defining(),
    {
        self.defining_kbd_macro
    }

    /// The last macro defined.
    pub fn last_kbd_macro(&self) -> (m: LispObject)
        ensures
            m == self.last_macro(),
    {
        self.last_kbd_macro
    }

    /// Sets the last macro, as Lisp code may do.
    pub fn set_last_kbd_macro(&mut self, m: LispObject)
        ensures
            final(self).last_macro() == m,
            final(self).defining() == old(self).defining(),
            final(self).has_buffer() == old(self).has_buffer(),
            final(self).slots() == old(self).slots(),
            final(self).ptr() == old(self).ptr(),
            final(self).end() == old(self).end(),
    {
        self.last_kbd_macro = m;
    }

    /// The number of slots of the buffer.
    pub fn bufsize(&self) -> (n: usize)
        ensures
            n == self.slots().len(),
    {
        self.kbd_macro_buffer.len()
    }
}

/// A buffer of `n` slots holding `nil`.
fn nil_slots(n: usize) -> (v: Vec<LispObject>)
    ensures
        v@ == Seq::new(n as nat, |i: int| LispObject(0)),
{
    let mut v: Vec<LispObject> = Vec::new();
    let mut k: usize = 0;
    while k < n
        invariant
            k <= n,
            v@ == Seq::new(k as nat, |i: int| LispObject(0)),
        decreases n - k,
    {
        v.push(LispObject::constant_nil());
        k = k + 1;
        proof {
            assert(v@ =~= Seq::new(k as nat, |i: int| LispObject(0)));
        }
    }
    v
}

/// Grows the buffer so that it has at least `incr_min` more slots,
/// keeping its contents; memory is exhausted when the new size would
/// exceed `KBD_MACRO_MAX_SLOTS`.
fn grow_buffer(kb: &mut KBoard, incr_min: usize) -> (r: Result<(), LispError>)
    requires
        old(kb).wf(),
        old(kb).has_buffer(),
    ensures
        final(kb).wf(),
        r is Ok == (grown_size(old(kb).slots().len() as int, incr_min as int) <= KBD_MACRO_MAX_SLOTS),
        r is Err ==> r == Err::<(), LispError>(LispError::Error(ErrorMessage::MemoryExhausted)) && *final(kb) == *old(kb),
        r is Ok ==> final(kb).slots().len() == grown_size(old(kb).slots().len() as int, incr_min as int),
        final(kb).slots().subrange(0, old(kb).slots().len() as int) == old(kb).slots(),
        final(kb).ptr() == old(kb).ptr(),
        final(kb).end() == old(kb).end(),
        final(kb).defining() == old(kb).defining(),
        final(kb).has_buffer(),
        final(kb).last_macro() == old(kb).last_macro(),
{
    let n0 = kb.kbd_macro_buffer.len();
    let extra = if n0 / 2 >= incr_min {
        n0 / 2
    } else {
        incr_min
    };
    if extra > KBD_MACRO_MAX_SLOTS - n0 {
        proof {
            assert(kb.slots().subrange(0, n0 as int) =~= kb.slots());
        }
        return Err(LispError::Error(ErrorMessage::MemoryExhausted));
    }
    let ghost before = kb.kbd_macro_buffer@;
    let mut k: usize = 0;
    while k < extra
        invariant
            k <= extra,
            n0 + extra <= KBD_MACRO_MAX_SLOTS,
            kb.kbd_macro_buffer@.len() == n0 + k,
            kb.kbd_macro_buffer@.subrange(0, n0 as int) == before,
            before.len() == n0,
            kb.allocated,
            kb.kbd_macro_ptr == old(kb).kbd_macro_ptr,
            kb.kbd_macro_end == old(kb).kbd_macro_end,
            kb.defining_kbd_macro == old(kb).defining_kbd_macro,
            kb.last_kbd_macro == old(kb).last_kbd_macro,
            old(kb).wf(),
            n0 == old(kb).kbd_macro_buffer@.len(),
        decreases extra - k,
    {
        kb.kbd_macro_buffer.push(LispObject::constant_nil());
        k = k + 1;
        proof {
            assert(kb.kbd_macro_buffer@.subrange(0, n0 as int) =~= before);
        }
    }
    Ok(())
}

/// Starts defining a keyboard macro.  With APPEND non-nil, the last
/// macro is copied into the buffer first and definition appends to it;
/// unless NO_EXEC, it is executed once before definition starts.
pub fn start_kbd_macro(kb: &mut KBoard, h: &LispHeap, append: LispObject, no_exec: bool) -> (r: Result<
    KbdMacroStart,
    LispError,
>)
    requires
        old(kb).wf(),
        h.wf(),
    ensures
        final(kb).wf(),
        final(kb).last_macro() == old(kb).last_macro(),
        old(kb).defining() ==> r == Err::<KbdMacroStart, LispError>(
            LispError::Error(ErrorMessage::AlreadyDefiningKbdMacro),
        ) && *final(kb) == *old(kb),
        !old(kb).defining() && append == LispObject(0) ==> r == Ok::<KbdMacroStart, LispError>(
            KbdMacroStart::Defining,
        ) && final(kb).defining() && final(kb).events().len() == 0 && final(kb).pending().len() == 0
            && final(kb).has_buffer() && final(kb).slots().len() == (if !old(kb).has_buffer() || old(kb).slots().len()
            > KBD_MACRO_LIMIT_EXISTING {
            KBD_MACRO_INCR as int
        } else {
            old(kb).slots().len() as int
        }),
        !old(kb).defining() && append != LispObject(0) && !h.is_string(old(kb).last_macro()) && !h.is_vector(
            old(kb).last_macro(),
        ) ==> r == Err::<KbdMacroStart, LispError>(LispError::WrongType(TypePredicate::Arrayp, old(kb).last_macro()))
            && *final(kb) == *old(kb),
        !old(kb).defining() && append != LispObject(0) && (h.is_string(old(kb).last_macro()) || h.is_vector(
            old(kb).last_macro(),
        )) && append_exhausts(old(kb), macro_events(h, old(kb).last_macro()).len() as int) ==> r == Err::<
            KbdMacroStart,
            LispError,
        >(LispError::Error(ErrorMessage::MemoryExhausted)),
        !old(kb).defining() && append != LispObject(0) && (h.is_string(old(kb).last_macro()) || h.is_vector(
            old(kb).last_macro(),
        )) && !append_exhausts(old(kb), macro_events(h, old(kb).last_macro()).len() as int) ==> {
            &&& r == Ok::<KbdMacroStart, LispError>(
                if no_exec {
                    KbdMacroStart::Appending
                } else {
                    KbdMacroStart::ReexecuteThenAppend
                },
            )
            &&& final(kb).defining() == no_exec
            &&& final(kb).events() == macro_events(h, old(kb).last_macro())
            &&& final(kb).pending().len() == 0
            &&& final(kb).has_buffer()
            &&& final(kb).slots().len() == ({
                let n = start_slots(old(kb));
                let len = macro_events(h, old(kb).last_macro()).len() as int;
                if len > n - KBD_MACRO_INCR {
                    grown_size(n, len - (n - KBD_MACRO_INCR))
                } else {
                    n
                }
            })
        },
{
    let incr = KBD_MACRO_INCR;
    let limit_existing = KBD_MACRO_LIMIT_EXISTING;
    if kb.defining_kbd_macro {
        return Err(LispError::Error(ErrorMessage::AlreadyDefiningKbdMacro));
    }
    let m = kb.last_kbd_macro;
    if append.is_not_nil() && !h.is_string_obj(m) && !h.is_vector_obj(m) {
        return Err(LispError::WrongType(TypePredicate::Arrayp, m));
    }
    if !kb.allocated {
        kb.kbd_macro_buffer = nil_slots(incr);
        kb.allocated = true;
        kb.kbd_macro_ptr = 0;
        kb.kbd_macro_end = 0;
    }
    if append.is_nil() {
        if kb.kbd_macro_buffer.len() > limit_existing {
            kb.kbd_macro_buffer.truncate(incr);
        }
        kb.kbd_macro_ptr = 0;
        kb.kbd_macro_end = 0;
        kb.defining_kbd_macro = true;
        return Ok(KbdMacroStart::Defining);
    }
    let is_string = h.is_string_obj(m);
    let len: usize = if is_string {
        h.string_len_chars(m)
    } else {
        h.vector_len(m)
    };
    if kb.kbd_macro_buffer.len() - incr < len {
        let need = len - (kb.kbd_macro_buffer.len() - incr);
        match grow_buffer(kb, need) {
            Ok(()) => {},
            Err(e) => {
                return Err(e);
            },
        }
    }
    let unibyte = !is_string || h.string_len_bytes(m) == len;
    let ghost size = kb.kbd_macro_buffer@.len();
    if !unibyte {
        let n = h.string_len_bytes(m);
        let ghost bytes = h.string_bytes_of(m);
        let mut p: usize = 0;
        let mut i: usize = 0;
        while i < len
            invariant
                i <= len,
                len <= kb.kbd_macro_buffer@.len(),
                kb.kbd_macro_buffer@.len() == size,
                kb.wf(),
                kb.kbd_macro_buffer@.len() <= KBD_MACRO_MAX_SLOTS,
                kb.last_kbd_macro == m,
                !kb.defining_kbd_macro,
                kb.allocated,
                h.wf(),
                h.is_string(m),
                bytes == h.string_bytes_of(m),
                n == bytes.len(),
                len == h.string_chars_of(m),
                len != n,
                p < n ==> p == char_start(bytes, i as nat) - 1,
                p >= n ==> char_start(bytes, i as nat) - 1 >= n,
                forall|j: int| 0 <= j < i ==> #[trigger] kb.kbd_macro_buffer@[j] == macro_events(h, m)[j],
            decreases len - i,
        {
            let c: i64 = if p < n {
                string_char_at(h, m, p)
            } else {
                0
            };
            proof {
                if p >= n {
                    assert(crate::multibyte::byte_or_zero(bytes, char_start(bytes, i as nat) - 1) == 0);
                    crate::multibyte::lemma_mask_bounds(0);
                }
                assert(c == decode_char(bytes, char_start(bytes, i as nat) - 1));
            }
            let e: i64 = if (c / 128) % 2 == 1 {
                CHAR_META + (c - 128)
            } else {
                c
            };
            let value = LispObject::from_fixnum(e);
            proof {
                assert(value == macro_events(h, m)[i as int]);
            }
            kb.kbd_macro_buffer.set(i, value);
            if p < n {
                let nb = char_bytes(h.string_byte_at(m, p));
                if nb < n - p {
                    p = p + nb;
                } else {
                    p = n;
                }
            }
            i = i + 1;
        }
    } else {
        let mut i: usize = 0;
        while i < len
            invariant
                i <= len,
                len <= kb.kbd_macro_buffer@.len(),
                kb.kbd_macro_buffer@.len() == size,
                kb.wf(),
                kb.kbd_macro_buffer@.len() <= KBD_MACRO_MAX_SLOTS,
                kb.last_kbd_macro == m,
                !kb.defining_kbd_macro,
                kb.allocated,
                h.wf(),
                is_string == h.is_string(m),
                is_string ==> len == h.string_bytes_of(m).len() && len == h.string_chars_of(m),
                !is_string ==> h.is_vector(m) && len == h.vector_of(m).len(),
                forall|j: int| 0 <= j < i ==> #[trigger] kb.kbd_macro_buffer@[j] == macro_events(h, m)[j],
            decreases len - i,
        {
            let ghost bytes = h.string_bytes_of(m);
            let value = if is_string {
                let c = h.string_byte_at(m, i);
                assert(c == bytes[i as int]);
                if (c & 0x80) != 0 {
                    let x: i64 = CHAR_META | ((c & 0x7f) as i64);
                    assert(x == 0x800_0000 + (c - 0x80) && c >= 0x80) by (bit_vector)
                        requires
                            x == 0x800_0000i64 | ((c & 0x7f) as i64),
                            c & 0x80 != 0,
                    ;
                    let o = LispObject::from_fixnum(x);
                    assert(o == LispObject(fixnum_word(meta_event(bytes[i as int]))));
                    o
                } else {
                    assert(c < 0x80) by (bit_vector)
                        requires
                            c & 0x80 == 0,
                    ;
                    let o = LispObject::from_fixnum(c as i64);
                    assert(o == LispObject(fixnum_word(meta_event(bytes[i as int]))));
                    o
                }
            } else {
                h.vector_ref(m, i)
            };
            proof {
                if is_string {
                    assert(value == LispObject(fixnum_word(meta_event(bytes[i as int]))));
                    assert(value == macro_events(h, m)[i as int]);
                } else {
                    assert(value == macro_events(h, m)[i as int]);
                }
            }
            kb.kbd_macro_buffer.set(i, value);
            i = i + 1;
        }
    }
    kb.kbd_macro_ptr = len;
    kb.kbd_macro_end = len;
    if !no_exec {
        return Ok(KbdMacroStart::ReexecuteThenAppend);
    }
    kb.defining_kbd_macro = true;
    Ok(KbdMacroStart::Appending)
}

/// Starts definition after the last macro was re-executed (see
/// `KbdMacroStart::ReexecuteThenAppend`).
pub fn begin_defining(kb: &mut KBoard)
    requires
        old(kb).wf(),
        old(kb).has_buffer(),
    ensures
        final(kb).wf(),
        final(kb).defining(),
        final(kb).slots() == old(kb).slots(),
        final(kb).ptr() == old(kb).ptr(),
        final(kb).end() == old(kb).end(),
        final(kb).has_buffer() == old(kb).has_buffer(),
        final(kb).last_macro() == old(kb).last_macro(),
{
    kb.defining_kbd_macro = true;
}

/// Ends the definition: the events recorded for the macro become the
/// last macro, a vector of the heap.
pub fn end_kbd_macro(kb: &mut KBoard, h: &mut LispHeap)
    requires
        old(kb).wf(),
        old(h).wf(),
        old(h).vector_view().len() < MAX_OBJECTS,
        forall|j: int| 0 <= j < old(kb).events().len() ==> old(h).valid(#[trigger] old(kb).events()[j]),
    ensures
        final(kb).wf(),
        !final(kb).defining(),
        final(h).wf(),
        final(h).cells() == old(h).cells(),
        final(h).string_view() == old(h).string_view(),
        final(h).vector_view() == old(h).vector_view().push(old(kb).events()),
        final(h).is_vector(final(kb).last_macro()),
        final(h).vector_of(final(kb).last_macro()) == old(kb).events(),
        final(kb).slots() == old(kb).slots(),
        final(kb).ptr() == old(kb).ptr(),
        final(kb).end() == old(kb).end(),
        final(kb).has_buffer() == old(kb).has_buffer(),
{
    kb.defining_kbd_macro = false;
    let mut events: Vec<LispObject> = Vec::new();
    let mut k: usize = 0;
    while k < kb.kbd_macro_end
        invariant
            kb.wf(),
            k <= kb.kbd_macro_end,
            events@ == kb.events().subrange(0, k as int),
        decreases kb.kbd_macro_end - k,
    {
        events.push(kb.kbd_macro_buffer[k]);
        k = k + 1;
        proof {
            assert(events@ =~= kb.events().subrange(0, k as int));
        }
    }
    proof {
        assert(events@ =~= old(kb).events());
    }
    let m = h.make_vector(events);
    kb.last_kbd_macro = m;
}

/// What `end_kbd_macro_lisp` asks of the command loop after the
/// definition has ended: execute the new macro this many more times
/// (0: until an error), or nothing.
pub open spec fn end_repeat(count: i64) -> Option<i64> {
    if count == 0 {
        Some(0)
    } else if count > 1 {
        Some((count - 1) as i64)
    } else {
        None
    }
}

/// Ends the definition of a keyboard macro (`end-kbd-macro`), and says
/// how many more times to execute it: with COUNT 0, until an error; with
/// COUNT above 1, COUNT less one more times; else none.  Not defining a
/// macro is an error.
pub fn end_kbd_macro_lisp(kb: &mut KBoard, h: &mut LispHeap, count: i64) -> (r: Result<Option<i64>, LispError>)
    requires
        old(kb).wf(),
        old(h).wf(),
        old(h).vector_view().len() < MAX_OBJECTS,
        forall|j: int| 0 <= j < old(kb).events().len() ==> old(h).valid(#[trigger] old(kb).events()[j]),
    ensures
        final(kb).wf(),
        final(h).wf(),
        !old(kb).defining() ==> r == Err::<Option<i64>, LispError>(LispError::Error(ErrorMessage::NotDefiningKbdMacro))
            && *final(kb) == *old(kb) && *final(h) == *old(h),
        old(kb).defining() ==> {
            &&& r == Ok::<Option<i64>, LispError>(end_repeat(count))
            &&& !final(kb).defining()
            &&& final(h).vector_view() == old(h).vector_view().push(old(kb).events())
            &&& final(h).vector_of(final(kb).last_macro()) == old(kb).events()
        },
{
    if !kb.defining_kbd_macro {
        return Err(LispError::Error(ErrorMessage::NotDefiningKbdMacro));
    }
    end_kbd_macro(kb, h);
    if count == 0 {
        Ok(Some(0))
    } else if count == 1 {
        Ok(None)
    } else if count > 1 {
        Ok(Some(count - 1))
    } else {
        Ok(None)
    }
}

/// Declares that the events recorded for the command that just ran
/// belong to the macro.
pub fn finalize_kbd_macro_chars(kb: &mut KBoard)
    requires
        old(kb).wf(),
    ensures
        final(kb).wf(),
        final(kb).events() == old(kb).events() + old(kb).pending(),
        final(kb).pending().len() == 0,
        final(kb).slots() == old(kb).slots(),
        final(kb).defining() == old(kb).defining(),
        final(kb).has_buffer() == old(kb).has_buffer(),
        final(kb).last_macro() == old(kb).last_macro(),
{
    kb.kbd_macro_end = kb.kbd_macro_ptr;
    proof {
        assert(kb.events() =~= old(kb).events() + old(kb).pending());
    }
}

/// Drops the events recorded for the command that runs now.
pub fn cancel_kbd_macro_events(kb: &mut KBoard)
    requires
        old(kb).wf(),
    ensures
        final(kb).wf(),
        final(kb).events() == old(kb).events(),
        final(kb).pending().len() == 0,
        final(kb).slots() == old(kb).slots(),
        final(kb).defining() == old(kb).defining(),
        final(kb).has_buffer() == old(kb).has_buffer(),
        final(kb).last_macro() == old(kb).last_macro(),
{
    kb.kbd_macro_ptr = kb.kbd_macro_end;
}

/// Records the event C for the macro being defined (nothing when no
/// macro is being defined), growing the buffer by half when it is full.
pub fn store_kbd_macro_char(kb: &mut KBoard, c: LispObject) -> (r: Result<(), LispError>)
    requires
        old(kb).wf(),
    ensures
        final(kb).wf(),
        final(kb).defining() == old(kb).defining(),
        final(kb).last_macro() == old(kb).last_macro(),
        final(kb).events() == old(kb).events(),
        !old(kb).defining() ==> r is Ok && *final(kb) == *old(kb),
        old(kb).defining() && r is Ok ==> final(kb).pending() == old(kb).pending().push(c),
        r is Err ==> r == Err::<(), LispError>(LispError::Error(ErrorMessage::MemoryExhausted)) && *final(kb)
            == *old(kb),
        r is Err == (old(kb).defining() && old(kb).ptr() == old(kb).slots().len() && grown_size(
            old(kb).slots().len() as int,
            1,
        ) > KBD_MACRO_MAX_SLOTS),
{
    if !kb.defining_kbd_macro {
        return Ok(());
    }
    if kb.kbd_macro_ptr == kb.kbd_macro_buffer.len() {
        match grow_buffer(kb, 1) {
            Ok(()) => {},
            Err(e) => {
                return Err(e);
            },
        }
    }
    let p = kb.kbd_macro_ptr;
    kb.kbd_macro_buffer.set(p, c);
    kb.kbd_macro_ptr = p + 1;
    proof {
        assert(kb.events() =~= old(kb).events());
        assert(kb.pending() =~= old(kb).pending().push(c));
    }
    Ok(())
}

/// Records EVENT for the macro being defined.
pub fn store_kbd_macro_event(kb: &mut KBoard, event: LispObject) -> (r: Result<(), LispError>)
    requires
        old(kb).wf(),
    ensures
        final(kb).wf(),
        final(kb).defining() == old(kb).defining(),
        final(kb).last_macro() == old(kb).last_macro(),
        final(kb).events() == old(kb).events(),
        !old(kb).defining() ==> r is Ok && *final(kb) == *old(kb),
        old(kb).defining() && r is Ok ==> final(kb).pending() == old(kb).pending().push(event),
        r is Err ==> r == Err::<(), LispError>(LispError::Error(ErrorMessage::MemoryExhausted)) && *final(kb)
            == *old(kb),
        r is Err == (old(kb).defining() && old(kb).ptr() == old(kb).slots().len() && grown_size(
            old(kb).slots().len() as int,
            1,
        ) > KBD_MACRO_MAX_SLOTS),
{
    store_kbd_macro_char(kb, event)
}

/// The command variables that macro execution reads and sets.
pub struct CommandState {
    pub this_command: LispObject,
    pub real_this_command: LispObject,
    pub last_command: LispObject,
}

/// Calls the last macro (`call-last-kbd-macro`): the command variables
/// are set as the command loop expects, then the macro to execute is
/// given back; it is an error to call one while defining one, or when
/// none has been defined.
pub fn call_last_kbd_macro(kb: &KBoard, cmd: &mut CommandState) -> (r: Result<LispObject, LispError>)
    ensures
        final(cmd).this_command == old(cmd).last_command,
        final(cmd).real_this_command == kb.last_macro(),
        final(cmd).last_command == old(cmd).last_command,
        r == (if kb.defining() {
            Err(LispError::Error(ErrorMessage::AnonymousMacroWhileDefining))
        } else if kb.last_macro() == LispObject(0) {
            Err(LispError::Error(ErrorMessage::NoKbdMacroDefined))
        } else {
            Ok(kb.last_macro())
        }),
{
    cmd.this_command = cmd.last_command;
    cmd.real_this_command = kb.last_kbd_macro;
    if kb.defining_kbd_macro {
        Err(LispError::Error(ErrorMessage::AnonymousMacroWhileDefining))
    } else if kb.last_kbd_macro.is_nil() {
        Err(LispError::Error(ErrorMessage::NoKbdMacroDefined))
    } else {
        Ok(kb.last_kbd_macro)
    }
}

/// The state of a running `execute-kbd-macro`: the repetitions left
/// (counting down from 0 means without end) and those done.
pub struct KbdMacroRun {
    pub repeat: i64,
    pub iterations: u64,
}

impl KbdMacroRun {
    /// Starts executing the macro FUNC (a symbol's function already
    /// resolved) COUNT times; a macro that is neither a string nor a
    /// vector is an error.
    pub fn start(h: &LispHeap, func: LispObject, count: i64) -> (r: Result<KbdMacroRun, LispError>)
        requires
            h.wf(),
        ensures
            (h.is_string(func) || h.is_vector(func)) ==> (r matches Ok(run) && run.repeat == count && run.iterations == 0),
            !(h.is_string(func) || h.is_vector(func)) ==> r == Err::<KbdMacroRun, LispError>(
                LispError::Error(ErrorMessage::KbdMacroMustBeStringOrVector),
            ),
    {
        if !(h.is_string_obj(func) || h.is_vector_obj(func)) {
            return Err(LispError::Error(ErrorMessage::KbdMacroMustBeStringOrVector));
        }
        Ok(KbdMacroRun { repeat: count, iterations: 0 })
    }

    /// Counts one run of the command loop over the macro, and says
    /// whether to run it again: while repetitions are left and the macro
    /// being executed is still a string or a vector.
    pub fn after_iteration(&mut self, h: &LispHeap, executing: LispObject) -> (again: bool)
        requires
            h.wf(),
        ensures
            final(self).iterations == (if old(self).iterations == u64::MAX {
                0
            } else {
                old(self).iterations + 1
            }),
            final(self).repeat == (if old(self).repeat == i64::MIN {
                i64::MAX
            } else {
                (old(self).repeat - 1) as i64
            }),
            again == (final(self).repeat != 0 && (h.is_string(executing) || h.is_vector(executing))),
    {
        self.iterations = self.iterations.wrapping_add(1);
        self.repeat = self.repeat.wrapping_sub(1);
        !(self.repeat == 0 || !(h.is_string_obj(executing) || h.is_vector_obj(executing)))
    }
}

/// Whether the runs of `execute-kbd-macro` stop before the next one: its
/// loop function, when there is one, returned `nil` (RESULT).
pub fn loopfunc_stops(loopfunc: LispObject, result: Option<LispObject>) -> (stop: bool)
    ensures
        stop == (loopfunc.0 != 0 && (result matches Some(v) && v.0 == 0)),
{
    if loopfunc.is_nil() {
        return false;
    }
    match result {
        Some(v) => v.is_nil(),
        None => false,
    }
}

/// A law of macro recording: with no events pending, recording an event
/// (`store_kbd_macro_char`) and then declaring the pending events part of
/// the macro (`finalize_kbd_macro_chars`) appends that one event to the
/// macro.
pub proof fn lemma_record_then_finalize(before: KBoard, mid: KBoard, after: KBoard, c: LispObject)
    requires
        before.wf(),
        before.pending().len() == 0,
        mid.events() == before.events(),
        mid.pending() == before.pending().push(c),
        after.events() == mid.events() + mid.pending(),
    ensures
        after.events() == before.events().push(c),
{
    assert(mid.pending() =~= seq![c]);
    assert(before.events() + seq![c] =~= before.events().push(c));
}


/// What `execute-kbd-macro` saves before a run and puts back after it:
/// the macro that was executing, the index reached in it, and the
/// command that was running.
#[derive(PartialEq, Eq, Structural, Clone, Copy, Debug)]
pub struct SavedMacroState {
    pub executing: LispObject,
    pub index: i64,
    pub real_this_command: LispObject,
}

/// The state that the record INFO, `(EXECUTING INDEX . COMMAND)`, holds;
/// a record of another shape is an error.
pub open spec fn saved_state(h: &LispHeap, info: LispObject) -> Result<SavedMacroState, LispError> {
    if !is_cons_word(info.0) {
        Err(LispError::WrongType(TypePredicate::Consp, info))
    } else {
        let rest = h.cdr_of(info);
        if !is_cons_word(rest.0) {
            Err(LispError::WrongType(TypePredicate::Consp, rest))
        } else {
            let index = h.car_of(rest);
            if !is_fixnum_word(index.0) {
                Err(LispError::WrongType(TypePredicate::Integerp, index))
            } else {
                Ok(
                    SavedMacroState {
                        executing: h.car_of(info),
                        index: fixnum_value(index.0) as i64,
                        real_this_command: h.cdr_of(rest),
                    },
                )
            }
        }
    }
}

/// Records S as the list `(EXECUTING INDEX . COMMAND)`, to be restored
/// by `pop_kbd_macro` when the run ends.
pub fn save_kbd_macro_state(h: &mut LispHeap, s: SavedMacroState) -> (info: LispObject)
    requires
        old(h).wf(),
        old(h).valid(s.executing),
        old(h).valid(s.real_this_command),
        in_fixnum_range(s.index as int),
        old(h).cells().len() + 2 <= MAX_OBJECTS,
    ensures
        final(h).wf(),
        final(h).valid(info),
        saved_state(final(h), info) == Ok::<SavedMacroState, LispError>(s),
        final(h).cells().len() == old(h).cells().len() + 2,
        forall|i: int| 0 <= i < old(h).cells().len() ==> #[trigger] final(h).cells()[i] == old(h).cells()[i],
        final(h).string_view() == old(h).string_view(),
        final(h).vector_view() == old(h).vector_view(),
{
    let index = LispObject::from_fixnum(s.index);
    let rest = h.cons(index, s.real_this_command);
    let info = h.cons(s.executing, rest);
    proof {
        crate::tag::lemma_fixnum_word_unique(index.0);
    }
    info
}

/// Reads back the state that `save_kbd_macro_state` recorded in INFO
/// (running `kbd-macro-termination-hook` after restoring it is the
/// caller's).
pub fn pop_kbd_macro(h: &LispHeap, info: LispObject) -> (r: Result<SavedMacroState, LispError>)
    requires
        h.wf(),
        h.valid(info),
    ensures
        r == saved_state(h, info),
{
    let c = h.as_cons_or_error(info)?;
    let executing = h.car(c);
    let rest_obj = h.cdr(c);
    let rest = h.as_cons_or_error(rest_obj)?;
    let index = h.car(rest).as_fixnum_or_error()?;
    let command = h.cdr(rest);
    Ok(SavedMacroState { executing, index, real_this_command: command })
}


/// A law of the saved record: a record that holds a state still holds
/// it in any later heap that keeps the cells and only adds new ones, so
/// the run of a macro, which allocates, leaves it to be restored.
pub proof fn lemma_saved_state_kept(h1: &LispHeap, h2: &LispHeap, info: LispObject)
    requires
        h1.wf(),
        h1.valid(info),
        saved_state(h1, info) is Ok,
        h1.cells().len() <= h2.cells().len(),
        forall|i: int| 0 <= i < h1.cells().len() ==> #[trigger] h2.cells()[i] == h1.cells()[i],
    ensures
        saved_state(h2, info) == saved_state(h1, info),
{
    let k = obj_index(info.0);
    assert(h2.cells()[k] == h1.cells()[k]);
    let rest = h1.cdr_of(info);
    assert(h1.valid(h1.cells()[k].1));
    assert(h2.cells()[obj_index(rest.0)] == h1.cells()[obj_index(rest.0)]);
}

} // verus!
