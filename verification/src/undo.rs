//! Undo boundaries: the `nil` entries that separate the changes of one
//! command from those of the next in a buffer's undo list.
use vstd::prelude::*;

use crate::error::{LispError, TypePredicate};
use crate::heap::{is_cons_word, obj_index, LispHeap, MAX_OBJECTS};
use crate::tag::LispObject;

verus! {

/// The undo state kept between changes: a cons cell prepared to become
/// the next boundary, or `nil`.
pub struct UndoState {
    pub pending_boundary: LispObject,
}

impl UndoState {
    /// The pending boundary is `nil` or a cons cell of the heap.
    pub open spec fn wf(&self, h: &LispHeap) -> bool {
        self.pending_boundary.0 == 0 || h.is_cons(self.pending_boundary)
    }
}

/// Prepares a cons cell for the next boundary, when none is pending.
pub fn prepare_record(h: &mut LispHeap, st: &mut UndoState)
    requires
        old(h).wf(),
        old(st).wf(old(h)),
        old(h).cells().len() < MAX_OBJECTS,
    ensures
        final(h).wf(),
        final(st).wf(final(h)),
        old(st).pending_boundary.0 != 0 ==> *final(h) == *old(h) && *final(st) == *old(st),
        old(st).pending_boundary.0 == 0 ==> {
            &&& final(h).cells() == old(h).cells().push((LispObject(0), LispObject(0)))
            &&& final(h).is_cons(final(st).pending_boundary)
            &&& obj_index(final(st).pending_boundary.0) == old(h).cells().len()
        },
{
    if st.pending_boundary.is_nil() {
        let nil = LispObject::constant_nil();
        proof {
            crate::tag::lemma_nil_tag();
        }
        st.pending_boundary = h.cons(nil, nil);
    }
}

/// Puts a boundary at the head of the undo list UNDO_LIST (unless undo
/// is disabled, `t`, or the list already starts with a boundary): the
/// pending cell, or a new one.  Returns `nil`.
pub fn undo_boundary(h: &mut LispHeap, st: &mut UndoState, undo_list: &mut LispObject) -> (r: Result<
    LispObject,
    LispError,
>)
    requires
        old(h).wf(),
        old(st).wf(old(h)),
        old(h).valid(*old(undo_list)),
        old(h).cells().len() < MAX_OBJECTS,
    ensures
        final(h).wf(),
        final(st).wf(final(h)),
        final(h).valid(*final(undo_list)),
        ({
            let l = *old(undo_list);
            if l.0 == 8 {
                r == Ok::<LispObject, LispError>(LispObject(0)) && *final(h) == *old(h) && *final(st) == *old(st)
                    && *final(undo_list) == l
            } else if l.0 != 0 && !is_cons_word(l.0) {
                r == Err::<LispObject, LispError>(LispError::WrongType(TypePredicate::Consp, l)) && *final(h)
                    == *old(h) && *final(st) == *old(st) && *final(undo_list) == l
            } else if l.0 == 0 || old(h).car_of(l).0 == 0 {
                r == Ok::<LispObject, LispError>(LispObject(0)) && *final(h) == *old(h) && *final(st) == *old(st)
                    && *final(undo_list) == l
            } else {
                let p = old(st).pending_boundary;
                &&& r == Ok::<LispObject, LispError>(LispObject(0))
                &&& final(st).pending_boundary.0 == 0
                &&& if p.0 != 0 {
                    &&& *final(undo_list) == p
                    &&& final(h).cells() == old(h).cells().update(obj_index(p.0), (old(h).car_of(p), l))
                } else {
                    &&& final(h).is_cons(*final(undo_list))
                    &&& final(h).cells() == old(h).cells().push((LispObject(0), l))
                    &&& obj_index(final(undo_list).0) == old(h).cells().len()
                }
            }
        }),
{
    if undo_list.is_t() {
        return Ok(LispObject::constant_nil());
    }
    let tem = crate::lists::car(h, *undo_list)?;
    if tem.is_not_nil() {
        proof {
            crate::tag::lemma_nil_tag();
        }
        match h.as_cons(st.pending_boundary) {
            Some(boundary) => {
                h.set_cdr(boundary, *undo_list);
                *undo_list = st.pending_boundary;
                st.pending_boundary = LispObject::constant_nil();
            },
            None => {
                let nil = LispObject::constant_nil();
                proof {
                    crate::tag::lemma_nil_tag();
                }
                *undo_list = h.cons(nil, *undo_list);
            },
        }
    }
    Ok(LispObject::constant_nil())
}

} // verus!
