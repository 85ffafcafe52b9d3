//! Operations on lists.
use vstd::prelude::*;

use crate::error::{LispError, TypePredicate};
use crate::heap::{is_cons_word, lemma_tail_valid, step, tail_at, LispCons, LispHeap};
use crate::chartab::{tabs_values_ok, CharTables, LispCharTable};
use crate::equal::{equal_in, equal_in_spec};
use crate::tag::{fixnum_value, is_fixnum_word, LispObject};
use crate::tails::{lemma_walk_stops, reset_pos, 
    conses_before, detected_at, is_cons_at, iter_tails, iter_tails_safe, lemma_stop_unique, no_detection,
    stops_at, TailsIter,
};

verus! {

/// The `car` of the tail at position `m` of `l`.
pub open spec fn car_at(h: &LispHeap, l: LispObject, m: nat) -> LispObject {
    h.car_of(tail_at(h.cdrs(), l, m))
}

/// Position `m` is the first of the walk (of `len` tails) whose tail
/// satisfies `p`.
pub open spec fn found_at(h: &LispHeap, l: LispObject, len: nat, m: nat, p: spec_fn(nat, LispObject) -> bool) -> bool {
    &&& m < len
    &&& p(m, tail_at(h.cdrs(), l, m))
    &&& forall|i: nat| i < m ==> !p(i, #[trigger] tail_at(h.cdrs(), l, i))
}

/// No tail of the walk (of `len` tails) satisfies `p`.
pub open spec fn none_found(h: &LispHeap, l: LispObject, len: nat, p: spec_fn(nat, LispObject) -> bool) -> bool {
    forall|i: nat| i < len ==> !p(i, #[trigger] tail_at(h.cdrs(), l, i))
}

/// How a walk over `l` that found nothing ends: `nil` at a proper end,
/// `wrong-type-argument` with `pred` at an improper end, and
/// `circular-list` with the tail after the detecting step on a cycle.
pub open spec fn walk_end(h: &LispHeap, l: LispObject, len: nat, pred: Option<TypePredicate>) -> Result<LispObject, LispError> {
    let t = tail_at(h.cdrs(), l, len);
    if pred is None {
        Ok(LispObject(0))
    } else if is_cons_at(h.cdrs(), t) {
        Err(LispError::CircularList(tail_at(h.cdrs(), l, len + 1)))
    } else if t.0 == 0 {
        Ok(LispObject(0))
    } else {
        Err(LispError::WrongType(pred.unwrap(), l))
    }
}

/// The result of a search along the walk over `l`: `f` of the first tail
/// satisfying `p`, or the end of the walk when there is none.
pub open spec fn search_result(
    h: &LispHeap,
    l: LispObject,
    p: spec_fn(nat, LispObject) -> bool,
    f: spec_fn(LispObject) -> LispObject,
    pred: Option<TypePredicate>,
    r: Result<LispObject, LispError>,
) -> bool {
    forall|len: nat|
        #![trigger stops_at(h.cdrs(), l, len)]
        stops_at(h.cdrs(), l, len) ==> {
            &&& forall|m: nat| #[trigger] found_at(h, l, len, m, p) ==> r == Ok::<LispObject, LispError>(f(tail_at(h.cdrs(), l, m)))
            &&& none_found(h, l, len, p) ==> r == walk_end(h, l, len, pred)
        }
}

/// The tails whose `car` is `elt` (by `eq`).
pub open spec fn car_is(h: &LispHeap, elt: LispObject) -> spec_fn(nat, LispObject) -> bool {
    |m: nat, t: LispObject| h.car_of(t) == elt
}

/// The identity on tails.
pub open spec fn the_tail() -> spec_fn(LispObject) -> LispObject {
    |t: LispObject| t
}

/// The tails whose `car` is a cons cell with `car` `key` (by `eq`).
pub open spec fn caar_is(h: &LispHeap, key: LispObject) -> spec_fn(nat, LispObject) -> bool {
    |m: nat, t: LispObject| is_cons_word(h.car_of(t).0) && h.car_of(h.car_of(t)) == key
}

/// The tails whose `car` is a cons cell with `cdr` `key` (by `eq`).
pub open spec fn cdar_is(h: &LispHeap, key: LispObject) -> spec_fn(nat, LispObject) -> bool {
    |m: nat, t: LispObject| is_cons_word(h.car_of(t).0) && h.cdr_of(h.car_of(t)) == key
}

/// The tails at even positions whose `car` is `prop` (by `eq`).
pub open spec fn prop_is(h: &LispHeap, prop: LispObject) -> spec_fn(nat, LispObject) -> bool {
    |m: nat, t: LispObject| m % 2 == 0 && h.car_of(t) == prop
}

/// The `car` of a tail.
pub open spec fn car_of_tail(h: &LispHeap) -> spec_fn(LispObject) -> LispObject {
    |t: LispObject| h.car_of(t)
}

/// The tails where `plist-get` stops: an even position whose `car` is
/// `prop` (by `eq`), or a tail whose `cdr` is not a cons cell.
pub open spec fn plist_stop(h: &LispHeap, prop: LispObject) -> spec_fn(nat, LispObject) -> bool {
    |m: nat, t: LispObject| !is_cons_word(h.cdr_of(t).0) || (m % 2 == 0 && h.car_of(t) == prop)
}

/// What `plist-get` returns at the tail where it stops: the value after
/// the property, or `nil` when the list has no value there.
pub open spec fn plist_value(h: &LispHeap) -> spec_fn(LispObject) -> LispObject {
    |t: LispObject| if is_cons_word(h.cdr_of(t).0) { h.car_of(h.cdr_of(t)) } else { LispObject(0) }
}

/// Position `m` is the first of the positions `0..num` whose tail is not a
/// cons cell.
pub open spec fn first_end_before(h: &LispHeap, l: LispObject, num: int, m: nat) -> bool {
    &&& m < num
    &&& !is_cons_word(tail_at(h.cdrs(), l, m).0)
    &&& forall|i: nat| i < m ==> is_cons_word(#[trigger] tail_at(h.cdrs(), l, i).0)
}

/// The result of `nthcdr` for the fixnum count `num`.
pub open spec fn nthcdr_result(h: &LispHeap, num: int, l: LispObject, r: Result<LispObject, LispError>) -> bool {
    &&& forall|m: nat| #[trigger] first_end_before(h, l, num, m) ==> r == (if tail_at(h.cdrs(), l, m).0 == 0 {
        Ok::<LispObject, LispError>(LispObject(0))
    } else {
        Err::<LispObject, LispError>(LispError::WrongType(TypePredicate::Listp, l))
    })
    &&& (forall|i: nat| i < num ==> is_cons_word(#[trigger] tail_at(h.cdrs(), l, i).0)) ==> r == Ok::<
        LispObject,
        LispError,
    >(if num <= 0 { l } else { tail_at(h.cdrs(), l, num as nat) })
}

/// The result of a search along the walk over `l` whose answer at the
/// first tail satisfying `p` is `f` of that tail (`None`: the end of the
/// walk), and the end of the walk when no tail satisfies `p`.
pub open spec fn search_outcome(
    h: &LispHeap,
    l: LispObject,
    p: spec_fn(nat, LispObject) -> bool,
    f: spec_fn(LispObject) -> Option<Result<LispObject, LispError>>,
    pred: Option<TypePredicate>,
    r: Result<LispObject, LispError>,
) -> bool {
    forall|len: nat|
        #![trigger stops_at(h.cdrs(), l, len)]
        stops_at(h.cdrs(), l, len) ==> {
            &&& forall|m: nat| #[trigger] found_at(h, l, len, m, p) ==> r == (match f(tail_at(h.cdrs(), l, m)) {
                Some(x) => x,
                None => walk_end(h, l, len, pred),
            })
            &&& none_found(h, l, len, p) ==> r == walk_end(h, l, len, pred)
        }
}

/// The tails whose `car` is not known to differ from `elt` by `equal`:
/// `equal` holds or signals.
pub open spec fn car_equal(h: &LispHeap, tabs: Seq<LispCharTable>, elt: LispObject) -> spec_fn(nat, LispObject) -> bool {
    |m: nat, t: LispObject| equal_in_spec(h, tabs, elt, h.car_of(t), 0) != Ok::<bool, LispError>(false)
}

/// The answer of `member` at a tail where it stops.
pub open spec fn member_answer(h: &LispHeap, tabs: Seq<LispCharTable>, elt: LispObject) -> spec_fn(LispObject) -> Option<Result<LispObject, LispError>> {
    |t: LispObject| match equal_in_spec(h, tabs, elt, h.car_of(t), 0) {
        Err(e) => Some(Err(e)),
        _ => Some(Ok(t)),
    }
}

/// The tails whose `car` is a cons cell whose `car` (`cdr` when `use_cdr`)
/// is not known to differ from `key` by `equal`.
pub open spec fn assoc_hit(h: &LispHeap, tabs: Seq<LispCharTable>, key: LispObject, use_cdr: bool) -> spec_fn(nat, LispObject) -> bool {
    |m: nat, t: LispObject| is_cons_word(h.car_of(t).0) && equal_in_spec(
        h,
        tabs,
        key,
        if use_cdr { h.cdr_of(h.car_of(t)) } else { h.car_of(h.car_of(t)) },
        0,
    ) != Ok::<bool, LispError>(false)
}

/// The answer of `assoc`/`rassoc` at a tail where it stops.
pub open spec fn assoc_answer(h: &LispHeap, tabs: Seq<LispCharTable>, key: LispObject, use_cdr: bool) -> spec_fn(LispObject) -> Option<Result<LispObject, LispError>> {
    |t: LispObject| match equal_in_spec(h, tabs, key, if use_cdr { h.cdr_of(h.car_of(t)) } else { h.car_of(h.car_of(t)) }, 0) {
        Err(e) => Some(Err(e)),
        _ => Some(Ok(h.car_of(t))),
    }
}

/// The tails where `lax-plist-get` stops: a tail whose `cdr` is not a
/// cons cell, or an even position whose `car` is not known to differ from
/// `prop` by `equal`.
pub open spec fn lax_plist_stop(h: &LispHeap, tabs: Seq<LispCharTable>, prop: LispObject) -> spec_fn(nat, LispObject) -> bool {
    |m: nat, t: LispObject| !is_cons_word(h.cdr_of(t).0) || (m % 2 == 0 && equal_in_spec(h, tabs, h.car_of(t), prop, 0)
        != Ok::<bool, LispError>(false))
}

/// The answer of `lax-plist-get` at a tail where it stops: the end of the
/// walk when the list has no value there, else the value or the error.
pub open spec fn lax_plist_answer(h: &LispHeap, tabs: Seq<LispCharTable>, prop: LispObject) -> spec_fn(LispObject) -> Option<Result<LispObject, LispError>> {
    |t: LispObject| if !is_cons_word(h.cdr_of(t).0) {
        None
    } else {
        match equal_in_spec(h, tabs, h.car_of(t), prop, 0) {
            Err(e) => Some(Err(e)),
            _ => Some(Ok(h.car_of(h.cdr_of(t)))),
        }
    }
}

/// The comparison of `plist-put` (`eq`) and `lax-plist-put` (`equal`).
pub open spec fn put_compare(h: &LispHeap, tabs: Seq<LispCharTable>, lax: bool, a: LispObject, b: LispObject) -> Result<bool, LispError> {
    if lax {
        equal_in_spec(h, tabs, a, b, 0)
    } else {
        Ok(a == b)
    }
}

/// The tails where `plist-put` stops: an even position whose `cdr` is not
/// a cons cell, or whose `car` is not known to differ from `prop`.
pub open spec fn put_stop(h: &LispHeap, tabs: Seq<LispCharTable>, prop: LispObject, lax: bool) -> spec_fn(nat, LispObject) -> bool {
    |m: nat, t: LispObject| m % 2 == 0 && (!is_cons_word(h.cdr_of(t).0) || put_compare(h, tabs, lax, h.car_of(t), prop)
        != Ok::<bool, LispError>(false))
}

/// What `plist-put` does: `r` and the heap `h2` after the call, from the
/// heap `h` before it.
pub open spec fn plist_put_result(
    h: &LispHeap,
    h2: &LispHeap,
    tabs: Seq<LispCharTable>,
    plist: LispObject,
    prop: LispObject,
    val: LispObject,
    lax: bool,
    r: Result<LispObject, LispError>,
) -> bool {
    let cdrs = h.cdrs();
    let n = h.cells().len();
    forall|len: nat|
        #![trigger stops_at(cdrs, plist, len)]
        stops_at(cdrs, plist, len) ==> {
            &&& forall|m: nat|
                #[trigger] found_at(h, plist, len, m, put_stop(h, tabs, prop, lax)) ==> {
                    let t = tail_at(cdrs, plist, m);
                    let d = h.cdr_of(t);
                    if !is_cons_word(d.0) {
                        r == Err::<LispObject, LispError>(LispError::WrongType(TypePredicate::Listp, plist))
                            && h2.cells() == h.cells()
                    } else {
                        match put_compare(h, tabs, lax, h.car_of(t), prop) {
                            Err(e) => r == Err::<LispObject, LispError>(e) && h2.cells() == h.cells(),
                            _ => r == Ok::<LispObject, LispError>(plist) && h2.cells() == h.cells().update(
                                crate::heap::obj_index(d.0),
                                (val, h.cdr_of(d)),
                            ),
                        }
                    }
                }
            &&& none_found(h, plist, len, put_stop(h, tabs, prop, lax)) ==> match walk_end(h, plist, len, Some(TypePredicate::Listp)) {
                Err(e) => r == Err::<LispObject, LispError>(e) && h2.cells() == h.cells(),
                Ok(_) => if len == 0 {
                    r == Ok::<LispObject, LispError>(crate::heap::cons_word(n as int + 1)) && h2.cells() == h.cells().push(
                        (val, LispObject(0)),
                    ).push((prop, crate::heap::cons_word(n as int)))
                } else {
                    let c = tail_at(cdrs, plist, (len - 1) as nat);
                    r == Ok::<LispObject, LispError>(plist) && h2.cells() == h.cells().push(
                        (val, tail_at(cdrs, plist, len)),
                    ).push((prop, crate::heap::cons_word(n as int))).update(
                        crate::heap::obj_index(c.0),
                        (h.car_of(c), crate::heap::cons_word(n as int + 1)),
                    )
                },
            }
        }
}

/// A tail that the walk has yielded comes before the stop.
pub(crate) proof fn lemma_before_stop(h: &LispHeap, l: LispObject, k: nat, len: nat)
    requires
        conses_before(h.cdrs(), l, k + 1),
        no_detection(h.cdrs(), l, k + 1),
        stops_at(h.cdrs(), l, len),
    ensures
        k < len,
{
    if len <= k {
        assert(is_cons_at(h.cdrs(), tail_at(h.cdrs(), l, len)));
        assert(!detected_at(h.cdrs(), l, len + 1));
    }
}

/// `t` if OBJECT is not a cons cell (this includes `nil`).
pub fn atom(object: LispObject) -> (r: LispObject)
    ensures
        r == LispObject::from_bool_spec(!is_cons_word(object.0)),
{
    LispObject::from_bool(!object.is_cons())
}

/// `t` if OBJECT is a cons cell.
pub fn consp(object: LispObject) -> (r: LispObject)
    ensures
        r == LispObject::from_bool_spec(is_cons_word(object.0)),
{
    LispObject::from_bool(object.is_cons())
}

/// `t` if OBJECT is a list: a cons cell or `nil`.
pub fn listp(object: LispObject) -> (r: LispObject)
    ensures
        r == LispObject::from_bool_spec(is_cons_word(object.0) || object.0 == 0),
{
    LispObject::from_bool(object.is_cons() || object.is_nil())
}

/// `t` if OBJECT is not a list.
pub fn nlistp(object: LispObject) -> (r: LispObject)
    ensures
        r == LispObject::from_bool_spec(!(is_cons_word(object.0) || object.0 == 0)),
{
    LispObject::from_bool(!(object.is_cons() || object.is_nil()))
}

/// Sets the `car` of CELL to NEWCAR and returns NEWCAR.
pub fn setcar(h: &mut LispHeap, cell: LispObject, newcar: LispObject) -> (r: Result<LispObject, LispError>)
    requires
        old(h).wf(),
        old(h).valid(cell),
        old(h).valid(newcar),
    ensures
        final(h).wf(),
        is_cons_word(cell.0) ==> r == Ok::<LispObject, LispError>(newcar)
            && final(h).cells() == old(h).cells().update(crate::heap::obj_index(cell.0), (newcar, old(h).cdr_of(cell)))
            && final(h).cdrs() == old(h).cdrs(),
        !is_cons_word(cell.0) ==> r == Err::<LispObject, LispError>(LispError::WrongType(TypePredicate::Consp, cell))
            && final(h).cells() == old(h).cells(),
        final(h).string_view() == old(h).string_view(),
        final(h).vector_view() == old(h).vector_view(),
{
    let c = match h.as_cons_or_error(cell) {
        Ok(c) => c,
        Err(e) => return Err(e),
    };
    h.set_car(c, newcar);
    Ok(newcar)
}

/// Sets the `cdr` of CELL to NEWCDR and returns NEWCDR.
pub fn setcdr(h: &mut LispHeap, cell: LispObject, newcdr: LispObject) -> (r: Result<LispObject, LispError>)
    requires
        old(h).wf(),
        old(h).valid(cell),
        old(h).valid(newcdr),
    ensures
        final(h).wf(),
        is_cons_word(cell.0) ==> r == Ok::<LispObject, LispError>(newcdr)
            && final(h).cells() == old(h).cells().update(crate::heap::obj_index(cell.0), (old(h).car_of(cell), newcdr))
            && final(h).cdrs() == old(h).cdrs().update(crate::heap::obj_index(cell.0), newcdr),
        !is_cons_word(cell.0) ==> r == Err::<LispObject, LispError>(LispError::WrongType(TypePredicate::Consp, cell))
            && final(h).cells() == old(h).cells(),
        final(h).string_view() == old(h).string_view(),
        final(h).vector_view() == old(h).vector_view(),
{
    let c = match h.as_cons_or_error(cell) {
        Ok(c) => c,
        Err(e) => return Err(e),
    };
    h.set_cdr(c, newcdr);
    Ok(newcdr)
}

/// The `car` of LIST; `nil` for `nil`; `wrong-type-argument consp` otherwise.
pub fn car(h: &LispHeap, object: LispObject) -> (r: Result<LispObject, LispError>)
    requires
        h.wf(),
        h.valid(object),
    ensures
        r == (if object.0 == 0 {
            Ok::<LispObject, LispError>(LispObject(0))
        } else if is_cons_word(object.0) {
            Ok::<LispObject, LispError>(h.car_of(object))
        } else {
            Err::<LispObject, LispError>(LispError::WrongType(TypePredicate::Consp, object))
        }),
        r matches Ok(o) ==> h.valid(o),
{
    if object.is_nil() {
        Ok(LispObject::constant_nil())
    } else {
        match h.as_cons_or_error(object) {
            Ok(c) => Ok(h.car(c)),
            Err(e) => Err(e),
        }
    }
}

/// The `cdr` of LIST; `nil` for `nil`; `wrong-type-argument consp` otherwise.
pub fn cdr(h: &LispHeap, object: LispObject) -> (r: Result<LispObject, LispError>)
    requires
        h.wf(),
        h.valid(object),
    ensures
        r == (if object.0 == 0 {
            Ok::<LispObject, LispError>(LispObject(0))
        } else if is_cons_word(object.0) {
            Ok::<LispObject, LispError>(h.cdr_of(object))
        } else {
            Err::<LispObject, LispError>(LispError::WrongType(TypePredicate::Consp, object))
        }),
        r matches Ok(o) ==> h.valid(o),
{
    if object.is_nil() {
        Ok(LispObject::constant_nil())
    } else {
        match h.as_cons_or_error(object) {
            Ok(c) => Ok(h.cdr(c)),
            Err(e) => Err(e),
        }
    }
}

/// The `car` of OBJECT if it is a cons cell, else `nil`.
pub fn car_safe(h: &LispHeap, object: LispObject) -> (r: LispObject)
    requires
        h.wf(),
        h.valid(object),
    ensures
        r == (if is_cons_word(object.0) { h.car_of(object) } else { LispObject(0) }),
        h.valid(r),
{
    match h.as_cons(object) {
        Some(c) => h.car(c),
        None => LispObject::constant_nil(),
    }
}

/// The `cdr` of OBJECT if it is a cons cell, else `nil`.
pub fn cdr_safe(h: &LispHeap, object: LispObject) -> (r: LispObject)
    requires
        h.wf(),
        h.valid(object),
    ensures
        r == (if is_cons_word(object.0) { h.cdr_of(object) } else { LispObject(0) }),
        h.valid(r),
{
    match h.as_cons(object) {
        Some(c) => h.cdr(c),
        None => LispObject::constant_nil(),
    }
}

/// The tail of ELT's first occurrence (by `eq`) as a `car` in LIST, or `nil`.
pub fn memq(h: &LispHeap, elt: LispObject, list: LispObject) -> (r: Result<LispObject, LispError>)
    requires
        h.wf(),
        h.valid(list),
    ensures
        search_result(h, list, car_is(h, elt), the_tail(), Some(TypePredicate::Listp), r),
{
    let mut it = iter_tails(list, Ghost(h.cdrs()));
    loop
        invariant
            h.wf(),
            h.valid(list),
            it.inv(h.cdrs()),
            it.list() == list,
            it.errsym() == Some(TypePredicate::Listp),
            forall|i: nat| i < it.steps() ==> !car_is(h, elt)(i, #[trigger] tail_at(h.cdrs(), list, i)),
        decreases 3 * h.cdrs().len() + 2 - it.steps(),
    {
        proof {
            it.lemma_inv(h.cdrs());
        }
        let ghost k = it.steps();
        match it.next(h) {
            Ok(Some(tail)) => {
                proof {
                    it.lemma_inv(h.cdrs());
                }
                if elt.eq(h.car(tail)) {
                    proof {
                        assert(tail.0 == tail_at(h.cdrs(), list, k));
                        assert(h.car_of(tail.0) == elt);
                        assert(car_is(h, elt)(k, tail_at(h.cdrs(), list, k)));
                        assert forall|len: nat| stops_at(h.cdrs(), list, len) implies found_at(h, list, len, k, car_is(h, elt)) by {
                            lemma_before_stop(h, list, k, len);
                        }
                        assert forall|len: nat| #[trigger] stops_at(h.cdrs(), list, len) implies !none_found(h, list, len, car_is(h, elt)) by {
                            lemma_before_stop(h, list, k, len);
                            assert(car_is(h, elt)(k, tail_at(h.cdrs(), list, k)));
                        }
                    }
                    return Ok(tail.as_obj());
                }
            },
            Ok(None) => {
                proof {
                    assert forall|len: nat| #[trigger] stops_at(h.cdrs(), list, len) implies len == k by {
                        lemma_stop_unique(h.cdrs(), list, len, k);
                    }
                }
                return Ok(LispObject::constant_nil());
            },
            Err(e) => {
                proof {
                    assert forall|len: nat| #[trigger] stops_at(h.cdrs(), list, len) implies len == k by {
                        lemma_stop_unique(h.cdrs(), list, len, k);
                    }
                }
                return Err(e);
            },
        }
    }
}


/// The first element of LIST that is a cons cell whose `car` is KEY (by `eq`), or `nil`.
pub fn assq(h: &LispHeap, key: LispObject, list: LispObject) -> (r: Result<LispObject, LispError>)
    requires
        h.wf(),
        h.valid(list),
    ensures
        search_result(h, list, caar_is(h, key), car_of_tail(h), Some(TypePredicate::Listp), r),
        r matches Ok(o) ==> h.valid(o),
{
    let mut it = iter_tails(list, Ghost(h.cdrs()));
    loop
        invariant
            h.wf(),
            h.valid(list),
            it.inv(h.cdrs()),
            it.list() == list,
            it.errsym() == Some(TypePredicate::Listp),
            forall|i: nat| i < it.steps() ==> !caar_is(h, key)(i, #[trigger] tail_at(h.cdrs(), list, i)),
        decreases 3 * h.cdrs().len() + 2 - it.steps(),
    {
        proof {
            it.lemma_inv(h.cdrs());
        }
        let ghost k = it.steps();
        match it.next(h) {
            Ok(Some(tail)) => {
                proof {
                    it.lemma_inv(h.cdrs());
                    assert(tail.0 == tail_at(h.cdrs(), list, k));
                }
                let item = h.car(tail);
                match h.as_cons(item) {
                    Some(item_cons) => {
                        if key.eq(h.car(item_cons)) {
                                        proof {
                                            assert(caar_is(h, key)(k, tail_at(h.cdrs(), list, k)));
                                            assert forall|len: nat| stops_at(h.cdrs(), list, len) implies found_at(h, list, len, k, caar_is(h, key)) by {
                                                lemma_before_stop(h, list, k, len);
                                            }
                                            assert forall|len: nat| #[trigger] stops_at(h.cdrs(), list, len) implies !none_found(h, list, len, caar_is(h, key)) by {
                                                lemma_before_stop(h, list, k, len);
                                                assert(caar_is(h, key)(k, tail_at(h.cdrs(), list, k)));
                                            }
                                        }
                                        return Ok(item);
                        }
                    },
                    None => {},
                }
            },
            Ok(None) => {
                proof {
                    assert forall|len: nat| #[trigger] stops_at(h.cdrs(), list, len) implies len == k by {
                        lemma_stop_unique(h.cdrs(), list, len, k);
                    }
                }
                return Ok(LispObject::constant_nil());
            },
            Err(e) => {
                proof {
                    assert forall|len: nat| #[trigger] stops_at(h.cdrs(), list, len) implies len == k by {
                        lemma_stop_unique(h.cdrs(), list, len, k);
                    }
                }
                return Err(e);
            },
        }
    }
}

/// The first element of LIST that is a cons cell whose `cdr` is KEY (by `eq`), or `nil`.
pub fn rassq(h: &LispHeap, key: LispObject, list: LispObject) -> (r: Result<LispObject, LispError>)
    requires
        h.wf(),
        h.valid(list),
    ensures
        search_result(h, list, cdar_is(h, key), car_of_tail(h), Some(TypePredicate::Listp), r),
{
    let mut it = iter_tails(list, Ghost(h.cdrs()));
    loop
        invariant
            h.wf(),
            h.valid(list),
            it.inv(h.cdrs()),
            it.list() == list,
            it.errsym() == Some(TypePredicate::Listp),
            forall|i: nat| i < it.steps() ==> !cdar_is(h, key)(i, #[trigger] tail_at(h.cdrs(), list, i)),
        decreases 3 * h.cdrs().len() + 2 - it.steps(),
    {
        proof {
            it.lemma_inv(h.cdrs());
        }
        let ghost k = it.steps();
        match it.next(h) {
            Ok(Some(tail)) => {
                proof {
                    it.lemma_inv(h.cdrs());
                    assert(tail.0 == tail_at(h.cdrs(), list, k));
                }
                let item = h.car(tail);
                match h.as_cons(item) {
                    Some(item_cons) => {
                        if key.eq(h.cdr(item_cons)) {
                                        proof {
                                            assert(cdar_is(h, key)(k, tail_at(h.cdrs(), list, k)));
                                            assert forall|len: nat| stops_at(h.cdrs(), list, len) implies found_at(h, list, len, k, cdar_is(h, key)) by {
                                                lemma_before_stop(h, list, k, len);
                                            }
                                            assert forall|len: nat| #[trigger] stops_at(h.cdrs(), list, len) implies !none_found(h, list, len, cdar_is(h, key)) by {
                                                lemma_before_stop(h, list, k, len);
                                                assert(cdar_is(h, key)(k, tail_at(h.cdrs(), list, k)));
                                            }
                                        }
                                        return Ok(item);
                        }
                    },
                    None => {},
                }
            },
            Ok(None) => {
                proof {
                    assert forall|len: nat| #[trigger] stops_at(h.cdrs(), list, len) implies len == k by {
                        lemma_stop_unique(h.cdrs(), list, len, k);
                    }
                }
                return Ok(LispObject::constant_nil());
            },
            Err(e) => {
                proof {
                    assert forall|len: nat| #[trigger] stops_at(h.cdrs(), list, len) implies len == k by {
                        lemma_stop_unique(h.cdrs(), list, len, k);
                    }
                }
                return Err(e);
            },
        }
    }
}

/// The tail of PLIST whose `car` is the property PROP (by `eq`), or `nil`.
pub fn plist_member(h: &LispHeap, plist: LispObject, prop: LispObject) -> (r: Result<LispObject, LispError>)
    requires
        h.wf(),
        h.valid(plist),
    ensures
        search_result(h, plist, prop_is(h, prop), the_tail(), Some(TypePredicate::Listp), r),
{
    let mut it = iter_tails(plist, Ghost(h.cdrs()));
    let mut prop_item = true;
    loop
        invariant
            h.wf(),
            h.valid(plist),
            it.inv(h.cdrs()),
            it.list() == plist,
            it.errsym() == Some(TypePredicate::Listp),
            prop_item == (it.steps() % 2 == 0),
            forall|i: nat| i < it.steps() ==> !prop_is(h, prop)(i, #[trigger] tail_at(h.cdrs(), plist, i)),
        decreases 3 * h.cdrs().len() + 2 - it.steps(),
    {
        proof {
            it.lemma_inv(h.cdrs());
        }
        let ghost k = it.steps();
        match it.next(h) {
            Ok(Some(tail)) => {
                proof {
                    it.lemma_inv(h.cdrs());
                    assert(tail.0 == tail_at(h.cdrs(), plist, k));
                }
                if prop_item && prop.eq(h.car(tail)) {
                    proof {
                        assert(prop_is(h, prop)(k, tail_at(h.cdrs(), plist, k)));
                        assert forall|len: nat| stops_at(h.cdrs(), plist, len) implies found_at(h, plist, len, k, prop_is(h, prop)) by {
                            lemma_before_stop(h, plist, k, len);
                        }
                        assert forall|len: nat| #[trigger] stops_at(h.cdrs(), plist, len) implies !none_found(h, plist, len, prop_is(h, prop)) by {
                            lemma_before_stop(h, plist, k, len);
                            assert(prop_is(h, prop)(k, tail_at(h.cdrs(), plist, k)));
                        }
                    }
                    return Ok(tail.as_obj());
                }
                prop_item = !prop_item;
            },
            Ok(None) => {
                proof {
                    assert forall|len: nat| #[trigger] stops_at(h.cdrs(), plist, len) implies len == k by {
                        lemma_stop_unique(h.cdrs(), plist, len, k);
                    }
                }
                return Ok(LispObject::constant_nil());
            },
            Err(e) => {
                proof {
                    assert forall|len: nat| #[trigger] stops_at(h.cdrs(), plist, len) implies len == k by {
                        lemma_stop_unique(h.cdrs(), plist, len, k);
                    }
                }
                return Err(e);
            },
        }
    }
}


/// The end of a walk, without its value.
pub open spec fn walk_end_unit(h: &LispHeap, l: LispObject, len: nat, pred: Option<TypePredicate>) -> Result<(), LispError> {
    match walk_end(h, l, len, pred) {
        Ok(_) => Ok(()),
        Err(e) => Err(e),
    }
}

/// Walks the rest of a list to its end, giving the error that the end
/// of the walk signals, if any.
fn finish_walk(h: &LispHeap, it: &mut TailsIter) -> (r: Result<(), LispError>)
    requires
        h.wf(),
        h.valid(old(it).list()),
        old(it).inv(h.cdrs()),
    ensures
        forall|len: nat| #[trigger] stops_at(h.cdrs(), old(it).list(), len) ==> r == walk_end_unit(
            h,
            old(it).list(),
            len,
            old(it).errsym(),
        ),
{
    let ghost l = it.list();
    loop
        invariant
            h.wf(),
            h.valid(l),
            it.inv(h.cdrs()),
            it.list() == l,
            l == old(it).list(),
            it.errsym() == old(it).errsym(),
        decreases 3 * h.cdrs().len() + 2 - it.steps(),
    {
        proof {
            it.lemma_inv(h.cdrs());
        }
        let ghost k = it.steps();
        match it.next(h) {
            Ok(Some(_)) => {
                proof {
                    it.lemma_inv(h.cdrs());
                }
            },
            Ok(None) => {
                proof {
                    assert forall|len: nat| #[trigger] stops_at(h.cdrs(), l, len) implies len == k by {
                        lemma_stop_unique(h.cdrs(), l, len, k);
                    }
                    assert(walk_end(h, l, k, old(it).errsym()) matches Ok(_));
                    assert(walk_end_unit(h, l, k, old(it).errsym()) == Ok::<(), LispError>(()));
                }
                return Ok(());
            },
            Err(e) => {
                proof {
                    assert forall|len: nat| #[trigger] stops_at(h.cdrs(), l, len) implies len == k by {
                        lemma_stop_unique(h.cdrs(), l, len, k);
                    }
                    assert(walk_end(h, l, k, old(it).errsym()) == Err::<LispObject, LispError>(e));
                    assert(walk_end_unit(h, l, k, old(it).errsym()) == Err::<(), LispError>(e));
                }
                return Err(e);
            },
        }
    }
}

/// The value after the property PROP (by `eq`) in the property list PLIST,
/// or `nil`.  Never signals.
pub fn plist_get(h: &LispHeap, plist: LispObject, prop: LispObject) -> (r: LispObject)
    requires
        h.wf(),
        h.valid(plist),
    ensures
        search_result(h, plist, plist_stop(h, prop), plist_value(h), None, Ok::<LispObject, LispError>(r)),
{
    let mut it = iter_tails_safe(plist, Ghost(h.cdrs()));
    let mut prop_item = true;
    loop
        invariant
            h.wf(),
            h.valid(plist),
            it.inv(h.cdrs()),
            it.list() == plist,
            it.errsym() is None,
            prop_item == (it.steps() % 2 == 0),
            forall|i: nat| i < it.steps() ==> !plist_stop(h, prop)(i, #[trigger] tail_at(h.cdrs(), plist, i)),
        decreases 3 * h.cdrs().len() + 2 - it.steps(),
    {
        proof {
            it.lemma_inv(h.cdrs());
        }
        let ghost k = it.steps();
        match it.next(h) {
            Ok(Some(tail)) => {
                proof {
                    it.lemma_inv(h.cdrs());
                    assert(tail.0 == tail_at(h.cdrs(), plist, k));
                }
                let d = h.cdr(tail);
                let stop = match h.as_cons(d) {
                    None => true,
                    Some(_) => prop_item && prop.eq(h.car(tail)),
                };
                if stop {
                    let value = match h.as_cons(d) {
                        None => LispObject::constant_nil(),
                        Some(dc) => h.car(dc),
                    };
                    let _ = finish_walk(h, &mut it);
                    proof {
                        assert(plist_stop(h, prop)(k, tail_at(h.cdrs(), plist, k)));
                        assert forall|len: nat| stops_at(h.cdrs(), plist, len) implies found_at(h, plist, len, k, plist_stop(h, prop)) by {
                            lemma_before_stop(h, plist, k, len);
                        }
                        assert forall|len: nat| #[trigger] stops_at(h.cdrs(), plist, len) implies !none_found(h, plist, len, plist_stop(h, prop)) by {
                            lemma_before_stop(h, plist, k, len);
                            assert(plist_stop(h, prop)(k, tail_at(h.cdrs(), plist, k)));
                        }
                    }
                    return value;
                }
                prop_item = !prop_item;
            },
            Ok(None) => {
                proof {
                    assert forall|len: nat| #[trigger] stops_at(h.cdrs(), plist, len) implies len == k by {
                        lemma_stop_unique(h.cdrs(), plist, len, k);
                    }
                }
                return LispObject::constant_nil();
            },
            Err(e) => {
                return LispObject::constant_nil();
            },
        }
    }
}


/// The cells of the walk over LIST, in order, and how the walk ends:
/// `nil` at a proper end, or the error of an improper end or a cycle.
fn list_cells(h: &LispHeap, list: LispObject) -> (r: (Vec<LispCons>, Result<(), LispError>))
    requires
        h.wf(),
        h.valid(list),
    ensures
        stops_at(h.cdrs(), list, r.0@.len() as nat),
        forall|j: int| 0 <= j < r.0@.len() ==> #[trigger] r.0@[j].0 == tail_at(h.cdrs(), list, j as nat),
        r.1 == walk_end_unit(h, list, r.0@.len() as nat, Some(TypePredicate::Listp)),
{
    let mut cells: Vec<LispCons> = Vec::new();
    let mut it = iter_tails(list, Ghost(h.cdrs()));
    loop
        invariant
            h.wf(),
            h.valid(list),
            it.inv(h.cdrs()),
            it.list() == list,
            it.errsym() == Some(TypePredicate::Listp),
            cells@.len() == it.steps(),
            forall|j: int| 0 <= j < cells@.len() ==> #[trigger] cells@[j].0 == tail_at(h.cdrs(), list, j as nat),
        decreases 3 * h.cdrs().len() + 2 - it.steps(),
    {
        proof {
            it.lemma_inv(h.cdrs());
        }
        let ghost k = it.steps();
        match it.next(h) {
            Ok(Some(c)) => {
                proof {
                    it.lemma_inv(h.cdrs());
                }
                cells.push(c);
            },
            Ok(None) => {
                proof {
                    crate::tag::lemma_nil_tag();
                }
                return (cells, Ok(()));
            },
            Err(e) => {
                return (cells, Err(e));
            },
        }
    }
}

/// The position of the first tail from `i` on whose `car` is not `elt`
/// (by `eq`), or `len`, the end of a walk of `len` tails.
pub open spec fn delq_next(h: &LispHeap, l: LispObject, len: nat, elt: LispObject, i: nat) -> nat
    decreases len - i,
{
    if i >= len {
        len
    } else if h.car_of(tail_at(h.cdrs(), l, i)) != elt {
        i
    } else {
        delq_next(h, l, len, elt, i + 1)
    }
}

/// `delq_next` from `a` is the first kept position from `a` on.
proof fn lemma_delq_next(h: &LispHeap, l: LispObject, len: nat, elt: LispObject, a: nat)
    requires
        a <= len,
    ensures
        a <= delq_next(h, l, len, elt, a) <= len,
        delq_next(h, l, len, elt, a) < len ==> h.car_of(tail_at(h.cdrs(), l, delq_next(h, l, len, elt, a))) != elt,
        forall|j: nat| a <= j < delq_next(h, l, len, elt, a) ==> h.car_of(#[trigger] tail_at(h.cdrs(), l, j)) == elt,
    decreases len - a,
{
    if a < len && h.car_of(tail_at(h.cdrs(), l, a)) == elt {
        lemma_delq_next(h, l, len, elt, a + 1);
        assert forall|j: nat| a <= j < delq_next(h, l, len, elt, a) implies h.car_of(#[trigger] tail_at(h.cdrs(), l, j))
            == elt by {
            if j > a {
            }
        }
    }
}

/// What `delq` leaves in the heap H2, after a walk of `len` tails over
/// L in H that ends without a cycle: each cell whose `car` is not ELT
/// links to the next such cell (or to the end of the walk), and every
/// other cell is as it was.
pub open spec fn delq_cells(h: &LispHeap, h2: &LispHeap, l: LispObject, len: nat, elt: LispObject) -> bool {
    let cdrs = h.cdrs();
    &&& h2.cells().len() == h.cells().len()
    &&& forall|j: nat|
        j < len && h.car_of(tail_at(cdrs, l, j)) != elt ==> #[trigger] h2.cells()[crate::heap::obj_index(
            tail_at(cdrs, l, j).0,
        )] == (h.car_of(tail_at(cdrs, l, j)), tail_at(cdrs, l, delq_next(h, l, len, elt, j + 1)))
    &&& forall|k: int|
        0 <= k < h.cells().len() && (forall|j: nat|
            j < len && h.car_of(tail_at(cdrs, l, j)) != elt ==> crate::heap::obj_index(
                #[trigger] tail_at(cdrs, l, j).0,
            ) != k) ==> #[trigger] h2.cells()[k] == h.cells()[k]
}

/// What `delq` of ELT on LIST does, from the heap H to the heap H2 with
/// the result R: on a cycle, `circular-list` and no change; else the
/// cells are relinked as `delq_cells` says, and R is the first cell kept
/// (the end of the list when none is), or `wrong-type-argument listp`
/// for an improper end.
pub open spec fn delq_result(
    h: &LispHeap,
    h2: &LispHeap,
    list: LispObject,
    elt: LispObject,
    r: Result<LispObject, LispError>,
) -> bool {
    forall|len: nat|
        #![trigger stops_at(h.cdrs(), list, len)]
        stops_at(h.cdrs(), list, len) ==> if is_cons_at(h.cdrs(), tail_at(h.cdrs(), list, len)) {
            r == walk_end(h, list, len, Some(TypePredicate::Listp)) && *h2 == *h
        } else {
            &&& delq_cells(h, h2, list, len, elt)
            &&& r == (if tail_at(h.cdrs(), list, len).0 == 0 {
                Ok::<LispObject, LispError>(tail_at(h.cdrs(), list, delq_next(h, list, len, elt, 0)))
            } else {
                Err::<LispObject, LispError>(LispError::WrongType(TypePredicate::Listp, list))
            })
        }
}

/// The `car`s of the tails of `l` from position `i` to `len` that are
/// not ELT (by `eq`), in order.
pub open spec fn kept_elements(h: &LispHeap, l: LispObject, len: nat, elt: LispObject, i: nat) -> Seq<LispObject>
    decreases len - i,
{
    if i >= len {
        seq![]
    } else if h.car_of(tail_at(h.cdrs(), l, i)) != elt {
        seq![h.car_of(tail_at(h.cdrs(), l, i))] + kept_elements(h, l, len, elt, i + 1)
    } else {
        kept_elements(h, l, len, elt, i + 1)
    }
}

/// Deletes the members of LIST that are ELT (by `eq`): those at the front
/// are skipped, the others unlinked by changing the `cdr` of the member
/// before them; returns the list that is left.  The end of the list is
/// checked: an improper end is `wrong-type-argument listp` (after the
/// changes), a cycle `circular-list` (before any change).
#[verifier::rlimit(50)]
pub fn delq(h: &mut LispHeap, elt: LispObject, list: LispObject) -> (r: Result<LispObject, LispError>)
    requires
        old(h).wf(),
        old(h).valid(list),
    ensures
        final(h).wf(),
        final(h).string_view() == old(h).string_view(),
        final(h).vector_view() == old(h).vector_view(),
        delq_result(old(h), final(h), list, elt, r),
{
    let ghost h0 = *h;
    let ghost cdrs0 = h0.cdrs();
    let (cells, end) = list_cells(h, list);
    let ghost len = cells@.len() as nat;
    proof {
        assert forall|len2: nat| #[trigger] stops_at(cdrs0, list, len2) implies len2 == len by {
            lemma_stop_unique(cdrs0, list, len2, len);
        }
        crate::tag::lemma_nil_tag();
    }
    match end {
        Err(LispError::CircularList(o)) => {
            return Err(LispError::CircularList(o));
        },
        _ => {},
    }
    proof {
        assert(!is_cons_at(cdrs0, tail_at(cdrs0, list, len)));
        lemma_delq_next(&h0, list, len, elt, 0);
    }
    let mut result = list;
    let mut prev: Option<LispCons> = None;
    let ghost mut pj: nat = 0;
    let n = cells.len();
    let mut i: usize = 0;
    while i < n
        invariant
            h.wf(),
            h.string_view() == h0.string_view(),
            h.vector_view() == h0.vector_view(),
            h.cells().len() == h0.cells().len(),
            h0.wf(),
            cdrs0 == h0.cdrs(),
            n == len,
            len == cells@.len(),
            stops_at(cdrs0, list, len),
            !is_cons_at(cdrs0, tail_at(cdrs0, list, len)),
            forall|j: int| 0 <= j < cells@.len() ==> #[trigger] cells@[j].0 == tail_at(cdrs0, list, j as nat),
            i <= n,
            result == tail_at(cdrs0, list, if delq_next(&h0, list, len, elt, 0) < i {
                delq_next(&h0, list, len, elt, 0)
            } else {
                i as nat
            }),
            prev is None ==> delq_next(&h0, list, len, elt, 0) >= i,
            prev matches Some(p) ==> {
                &&& pj < i
                &&& p.0 == tail_at(cdrs0, list, pj)
                &&& h0.car_of(tail_at(cdrs0, list, pj)) != elt
                &&& delq_next(&h0, list, len, elt, pj + 1) >= i
            },
            forall|j: nat|
                j < i && h0.car_of(tail_at(cdrs0, list, j)) != elt ==> #[trigger] h.cells()[crate::heap::obj_index(
                    tail_at(cdrs0, list, j).0,
                )] == (h0.car_of(tail_at(cdrs0, list, j)), tail_at(cdrs0, list, if delq_next(&h0, list, len, elt, j + 1) < i {
                    delq_next(&h0, list, len, elt, j + 1)
                } else {
                    i as nat
                })),
            forall|k: int|
                0 <= k < h0.cells().len() && (forall|j: nat|
                    j < i && h0.car_of(tail_at(cdrs0, list, j)) != elt ==> crate::heap::obj_index(
                        #[trigger] tail_at(cdrs0, list, j).0,
                    ) != k) ==> #[trigger] h.cells()[k] == h0.cells()[k],
        decreases n - i,
    {
        let t = cells[i];
        let ghost ti = tail_at(cdrs0, list, i as nat);
        proof {
            assert(t.0 == ti);
            assert(is_cons_at(cdrs0, ti));
            assert forall|j: nat| j < i && h0.car_of(tail_at(cdrs0, list, j)) != elt implies crate::heap::obj_index(
                #[trigger] tail_at(cdrs0, list, j).0,
            ) != crate::heap::obj_index(ti.0) by {
                crate::plist::lemma_ending_cells_distinct(cdrs0, list, len, j, i as nat);
            }
            assert(h.cells()[crate::heap::obj_index(ti.0)] == h0.cells()[crate::heap::obj_index(ti.0)]);
            assert(tail_at(cdrs0, list, i as nat + 1) == h0.cdr_of(ti));
            lemma_tail_valid(&h0, list, i as nat + 1);
            lemma_delq_next(&h0, list, len, elt, 0);
            lemma_delq_next(&h0, list, len, elt, i as nat);
            lemma_delq_next(&h0, list, len, elt, i as nat + 1);
            if prev is Some {
                lemma_delq_next(&h0, list, len, elt, pj + 1);
            }
        }
        let item = h.car(t);
        if item.eq(elt) {
            let rest = h.cdr(t);
            match prev {
                None => {
                    result = rest;
                },
                Some(p) => {
                    let ghost hb = *h;
                    proof {
                        crate::plist::lemma_ending_cells_distinct(cdrs0, list, len, pj, i as nat);
                    }
                    h.set_cdr(p, rest);
                    proof {
                        assert forall|j: nat|
                            j < i + 1 && h0.car_of(tail_at(cdrs0, list, j)) != elt implies #[trigger] h.cells()[crate::heap::obj_index(
                                tail_at(cdrs0, list, j).0,
                            )] == (h0.car_of(tail_at(cdrs0, list, j)), tail_at(cdrs0, list, if delq_next(&h0, list, len, elt, j + 1) < i + 1 {
                                delq_next(&h0, list, len, elt, j + 1)
                            } else {
                                (i + 1) as nat
                            })) by {
                            if j != pj {
                                lemma_delq_next(&h0, list, len, elt, j + 1);
                                if j < pj {
                                    crate::plist::lemma_ending_cells_distinct(cdrs0, list, len, j, pj);
                                } else {
                                    crate::plist::lemma_ending_cells_distinct(cdrs0, list, len, pj, j);
                                }
                            }
                        }
                        assert forall|k: int|
                            0 <= k < h0.cells().len() && (forall|j: nat|
                                j < i + 1 && h0.car_of(tail_at(cdrs0, list, j)) != elt ==> crate::heap::obj_index(
                                    #[trigger] tail_at(cdrs0, list, j).0,
                                ) != k) implies #[trigger] h.cells()[k] == h0.cells()[k] by {
                            assert(crate::heap::obj_index(tail_at(cdrs0, list, pj).0) != k);
                            assert(hb.cells()[k] == h0.cells()[k]);
                        }
                    }
                },
            }
        } else {
            prev = Some(t);
            proof {
                pj = i as nat;
                assert(h.cells()[crate::heap::obj_index(ti.0)] == (h0.car_of(ti), h0.cdr_of(ti)));
                assert forall|j: nat|
                    j < i + 1 && h0.car_of(tail_at(cdrs0, list, j)) != elt implies #[trigger] h.cells()[crate::heap::obj_index(
                        tail_at(cdrs0, list, j).0,
                    )] == (h0.car_of(tail_at(cdrs0, list, j)), tail_at(cdrs0, list, if delq_next(&h0, list, len, elt, j + 1) < i + 1 {
                        delq_next(&h0, list, len, elt, j + 1)
                    } else {
                        (i + 1) as nat
                    })) by {
                    lemma_delq_next(&h0, list, len, elt, j + 1);
                }
            }
        }
        i = i + 1;
    }
    proof {
        assert forall|j: nat| j < len && h0.car_of(tail_at(cdrs0, list, j)) != elt implies delq_next(
            &h0,
            list,
            len,
            elt,
            j + 1,
        ) <= len by {
            lemma_delq_next(&h0, list, len, elt, j + 1);
        }
    }
    match end {
        Ok(()) => Ok(result),
        Err(e) => Err(e),
    }
}

/// After `delq` on a list that ends at `nil`, the list from the first
/// kept cell at or after position `i` holds the kept members from `i` on.
proof fn lemma_delq_list_from(h: &LispHeap, h2: &LispHeap, l: LispObject, len: nat, elt: LispObject, i: nat)
    requires
        h.wf(),
        stops_at(h.cdrs(), l, len),
        tail_at(h.cdrs(), l, len).0 == 0,
        delq_cells(h, h2, l, len, elt),
        i <= len,
    ensures
        is_list_of(h2, tail_at(h.cdrs(), l, delq_next(h, l, len, elt, i)), kept_elements(h, l, len, elt, i)),
    decreases len - i,
{
    let cdrs = h.cdrs();
    if i < len {
        lemma_delq_list_from(h, h2, l, len, elt, i + 1);
        let t = tail_at(cdrs, l, i);
        if h.car_of(t) != elt {
            assert(is_cons_at(cdrs, t));
            let s = kept_elements(h, l, len, elt, i);
            assert(s.drop_first() =~= kept_elements(h, l, len, elt, i + 1));
            assert(h2.cells()[crate::heap::obj_index(t.0)] == (h.car_of(t), tail_at(cdrs, l, delq_next(h, l, len, elt, i + 1))));
        }
    }
}

/// A law of `delq`: on a list that ends at `nil`, what `delq` returns is
/// a list of the members of LIST that are not ELT, in their order.
pub proof fn lemma_delq_removes(
    h: &LispHeap,
    h2: &LispHeap,
    list: LispObject,
    elt: LispObject,
    r: Result<LispObject, LispError>,
)
    requires
        h.wf(),
        crate::plist::proper_list(h, list),
        delq_result(h, h2, list, elt, r),
    ensures
        forall|len: nat|
            #[trigger] stops_at(h.cdrs(), list, len) ==> (r matches Ok(l2) && is_list_of(
                h2,
                l2,
                kept_elements(h, list, len, elt, 0),
            )),
{
    let cdrs = h.cdrs();
    let len = choose|len: nat| #[trigger] stops_at(cdrs, list, len) && tail_at(cdrs, list, len).0 == 0;
    crate::tag::lemma_nil_tag();
    assert(!is_cons_at(cdrs, tail_at(cdrs, list, len)));
    lemma_delq_list_from(h, h2, list, len, elt, 0);
    assert forall|len2: nat| #[trigger] stops_at(cdrs, list, len2) implies (r matches Ok(l2) && is_list_of(
        h2,
        l2,
        kept_elements(h, list, len2, elt, 0),
    )) by {
        lemma_stop_unique(cdrs, list, len, len2);
    }
}

/// A law of walking a list that ends, `(a1 ... ak . x)`: the quiet walk
/// (`iter_tails_safe`) ends with `nil` after the `k` cells, and the
/// checking walk (`iter_tails`) too when `x` is `nil`, else it signals
/// `wrong-type-argument listp` with the list.
pub proof fn lemma_ending_list_end(h: &LispHeap, l: LispObject, k: nat)
    requires
        conses_before(h.cdrs(), l, k),
        !is_cons_at(h.cdrs(), tail_at(h.cdrs(), l, k)),
    ensures
        stops_at(h.cdrs(), l, k),
        walk_end(h, l, k, None) == Ok::<LispObject, LispError>(LispObject(0)),
        walk_end(h, l, k, Some(TypePredicate::Listp)) == (if tail_at(h.cdrs(), l, k).0 == 0 {
            Ok::<LispObject, LispError>(LispObject(0))
        } else {
            Err::<LispObject, LispError>(LispError::WrongType(TypePredicate::Listp, l))
        }),
{
    crate::tails::lemma_ending_list_walk(h.cdrs(), l, k);
}

/// A law of walking a circular list: the walk stops after finitely many
/// cells; the quiet walk then ends with `nil` and the checking walk
/// signals `circular-list`.
pub proof fn lemma_circular_list_end(h: &LispHeap, l: LispObject) -> (len: nat)
    requires
        crate::tails::is_circular(h.cdrs(), l),
    ensures
        stops_at(h.cdrs(), l, len),
        len <= 3 * h.cdrs().len() + 2,
        walk_end(h, l, len, None) == Ok::<LispObject, LispError>(LispObject(0)),
        walk_end(h, l, len, Some(TypePredicate::Listp)) matches Err(LispError::CircularList(_)),
{
    crate::tails::lemma_circular_list_walk(h.cdrs(), l)
}

/// `CHECK_LIST_END`: `wrong-type-argument listp` with LIST unless the end
/// TAIL of a walk over it is `nil`.
pub fn check_list_end(tail: LispObject, list: LispObject) -> (r: Result<(), LispError>)
    ensures
        r == (if tail.0 == 0 {
            Ok::<(), LispError>(())
        } else {
            Err::<(), LispError>(LispError::WrongType(TypePredicate::Listp, list))
        }),
{
    if tail.is_nil() {
        Ok(())
    } else {
        Err(LispError::WrongType(TypePredicate::Listp, list))
    }
}

/// LIST after N steps along `cdr` links.
pub fn nthcdr(h: &LispHeap, n: LispObject, list: LispObject) -> (r: Result<LispObject, LispError>)
    requires
        h.wf(),
        h.valid(list),
    ensures
        !is_fixnum_word(n.0) ==> r == Err::<LispObject, LispError>(LispError::WrongType(TypePredicate::Integerp, n)),
        is_fixnum_word(n.0) ==> nthcdr_result(h, fixnum_value(n.0), list, r),
        r matches Ok(o) ==> h.valid(o),
{
    if !n.is_fixnum() {
        return Err(LispError::WrongType(TypePredicate::Integerp, n));
    }
    let num = n.to_fixnum_unchecked();
    let mut tail = list;
    let mut i: i64 = 0;
    while i < num
        invariant
            h.wf(),
            h.valid(list),
            num == fixnum_value(n.0),
            is_fixnum_word(n.0),
            0 <= i,
            i <= num || i == 0,
            tail == tail_at(h.cdrs(), list, i as nat),
            forall|j: nat| j < i ==> is_cons_word(#[trigger] tail_at(h.cdrs(), list, j).0),
        decreases num - i,
    {
        proof {
            lemma_tail_valid(h, list, i as nat);
        }
        match h.as_cons(tail) {
            None => {
                let chk = check_list_end(tail, list);
                proof {
                    assert(first_end_before(h, list, num as int, i as nat));
                    assert forall|m: nat| #[trigger] first_end_before(h, list, num as int, m) implies m == i by {
                        if m < i {
                        } else if m > i {
                            assert(is_cons_word(tail_at(h.cdrs(), list, i as nat).0));
                        }
                    }
                }
                match chk {
                    Ok(()) => return Ok(LispObject::constant_nil()),
                    Err(e) => return Err(e),
                }
            },
            Some(c) => {
                tail = h.cdr(c);
            },
        }
        i = i + 1;
    }
    proof {
        lemma_tail_valid(h, list, i as nat);
        assert forall|m: nat| #[trigger] first_end_before(h, list, num as int, m) implies false by {
            assert(m < i);
        }
    }
    Ok(tail)
}

/// The element at position N of LIST (from zero), or `nil` past its end.
pub fn nth(h: &LispHeap, n: LispObject, list: LispObject) -> (r: Result<LispObject, LispError>)
    requires
        h.wf(),
        h.valid(list),
    ensures
        !is_fixnum_word(n.0) ==> r == Err::<LispObject, LispError>(LispError::WrongType(TypePredicate::Integerp, n)),
        is_fixnum_word(n.0) ==> exists|t: Result<LispObject, LispError>| #[trigger] nthcdr_result(h, fixnum_value(n.0), list, t)
            && r == (match t {
                Ok(o) => if o.0 == 0 {
                    Ok::<LispObject, LispError>(LispObject(0))
                } else if is_cons_word(o.0) {
                    Ok::<LispObject, LispError>(h.car_of(o))
                } else {
                    Err::<LispObject, LispError>(LispError::WrongType(TypePredicate::Consp, o))
                },
                Err(e) => Err::<LispObject, LispError>(e),
            }),
{
    let t = nthcdr(h, n, list);
    match t {
        Ok(o) => car(h, o),
        Err(e) => Err(e),
    }
}

/// The tail of ELT's first occurrence (by `eql`) as a `car` in LIST, or
/// `nil`.  The heap holds no floats, so `eql` is `eq` on its values.
pub fn memql(h: &LispHeap, elt: LispObject, list: LispObject) -> (r: Result<LispObject, LispError>)
    requires
        h.wf(),
        h.valid(list),
        h.valid(elt),
    ensures
        search_result(h, list, car_is(h, elt), the_tail(), Some(TypePredicate::Listp), r),
{
    if !elt.is_float() {
        return memq(h, elt, list);
    }
    proof {
        assert(false);
    }
    memq(h, elt, list)
}


/// The tail of ELT's first occurrence (by `equal`, char tables of TABS
/// among the values) as a `car` in LIST, or `nil`.
pub fn member(h: &LispHeap, tabs: &CharTables, elt: LispObject, list: LispObject) -> (r: Result<LispObject, LispError>)
    requires
        h.wf(),
        tabs.wf(),
        tabs_values_ok(tabs, h),
        h.valid(list),
        h.valid(elt),
    ensures
        search_outcome(h, list, car_equal(h, tabs.view(), elt), member_answer(h, tabs.view(), elt), Some(TypePredicate::Listp), r),
{
    let mut it = iter_tails(list, Ghost(h.cdrs()));
    loop
        invariant
            h.wf(),
            tabs.wf(),
            tabs_values_ok(tabs, h),
            h.valid(list),
            h.valid(elt),
            it.inv(h.cdrs()),
            it.list() == list,
            it.errsym() == Some(TypePredicate::Listp),
            forall|i: nat| i < it.steps() ==> !car_equal(h, tabs.view(), elt)(i, #[trigger] tail_at(h.cdrs(), list, i)),
        decreases 3 * h.cdrs().len() + 2 - it.steps(),
    {
        proof {
            it.lemma_inv(h.cdrs());
        }
        let ghost k = it.steps();
        match it.next(h) {
            Ok(Some(tail)) => {
                proof {
                    it.lemma_inv(h.cdrs());
                    assert(tail.0 == tail_at(h.cdrs(), list, k));
                    lemma_tail_valid(h, list, k);
                }
                let c = h.car(tail);
                let eqr = equal_in(h, tabs, elt, c);
                match eqr {
                    Ok(false) => {},
                    _ => {
                    proof {
                        assert(car_equal(h, tabs.view(), elt)(k, tail_at(h.cdrs(), list, k)));
                        assert forall|len: nat| stops_at(h.cdrs(), list, len) implies found_at(h, list, len, k, car_equal(h, tabs.view(), elt)) by {
                            lemma_before_stop(h, list, k, len);
                        }
                        assert forall|len: nat| #[trigger] stops_at(h.cdrs(), list, len) implies !none_found(h, list, len, car_equal(h, tabs.view(), elt)) by {
                            lemma_before_stop(h, list, k, len);
                            assert(car_equal(h, tabs.view(), elt)(k, tail_at(h.cdrs(), list, k)));
                        }
                    }
                    return match eqr { Err(e) => Err(e), _ => Ok(tail.as_obj()) };
                    },
                }
            },
            Ok(None) => {
                proof {
                    assert forall|len: nat| #[trigger] stops_at(h.cdrs(), list, len) implies len == k by {
                        lemma_stop_unique(h.cdrs(), list, len, k);
                    }
                }
                return Ok(LispObject::constant_nil());
            },
            Err(e) => {
                proof {
                    assert forall|len: nat| #[trigger] stops_at(h.cdrs(), list, len) implies len == k by {
                        lemma_stop_unique(h.cdrs(), list, len, k);
                    }
                }
                return Err(e);
            },
        }
    }
}

/// The first element of LIST that is a cons cell whose `car` is `equal` to KEY, or `nil`.
pub fn assoc(h: &LispHeap, tabs: &CharTables, key: LispObject, list: LispObject) -> (r: Result<LispObject, LispError>)
    requires
        h.wf(),
        tabs.wf(),
        tabs_values_ok(tabs, h),
        h.valid(list),
        h.valid(key),
    ensures
        search_outcome(h, list, assoc_hit(h, tabs.view(), key, false), assoc_answer(h, tabs.view(), key, false), Some(TypePredicate::Listp), r),
{
    let mut it = iter_tails(list, Ghost(h.cdrs()));
    loop
        invariant
            h.wf(),
            tabs.wf(),
            tabs_values_ok(tabs, h),
            h.valid(list),
            h.valid(key),
            it.inv(h.cdrs()),
            it.list() == list,
            it.errsym() == Some(TypePredicate::Listp),
            forall|i: nat| i < it.steps() ==> !assoc_hit(h, tabs.view(), key, false)(i, #[trigger] tail_at(h.cdrs(), list, i)),
        decreases 3 * h.cdrs().len() + 2 - it.steps(),
    {
        proof {
            it.lemma_inv(h.cdrs());
        }
        let ghost k = it.steps();
        match it.next(h) {
            Ok(Some(tail)) => {
                proof {
                    it.lemma_inv(h.cdrs());
                    assert(tail.0 == tail_at(h.cdrs(), list, k));
                    lemma_tail_valid(h, list, k);
                }
                let item = h.car(tail);
                match h.as_cons(item) {
                    Some(item_cons) => {
                        let x = h.car(item_cons);
                        let eqr = if key.eq(x) { Ok(true) } else { equal_in(h, tabs, key, x) };
                        proof {
                            crate::equal::lemma_equal_reflexive(h, Seq::<crate::chartab::LispCharTable>::empty(), key, 0);
                        }
                        match eqr {
                            Ok(false) => {},
                            _ => {
                    proof {
                        assert(assoc_hit(h, tabs.view(), key, false)(k, tail_at(h.cdrs(), list, k)));
                        assert forall|len: nat| stops_at(h.cdrs(), list, len) implies found_at(h, list, len, k, assoc_hit(h, tabs.view(), key, false)) by {
                            lemma_before_stop(h, list, k, len);
                        }
                        assert forall|len: nat| #[trigger] stops_at(h.cdrs(), list, len) implies !none_found(h, list, len, assoc_hit(h, tabs.view(), key, false)) by {
                            lemma_before_stop(h, list, k, len);
                            assert(assoc_hit(h, tabs.view(), key, false)(k, tail_at(h.cdrs(), list, k)));
                        }
                    }
                    return match eqr { Err(e) => Err(e), _ => Ok(item) };
                            },
                        }
                    },
                    None => {},
                }
            },
            Ok(None) => {
                proof {
                    assert forall|len: nat| #[trigger] stops_at(h.cdrs(), list, len) implies len == k by {
                        lemma_stop_unique(h.cdrs(), list, len, k);
                    }
                }
                return Ok(LispObject::constant_nil());
            },
            Err(e) => {
                proof {
                    assert forall|len: nat| #[trigger] stops_at(h.cdrs(), list, len) implies len == k by {
                        lemma_stop_unique(h.cdrs(), list, len, k);
                    }
                }
                return Err(e);
            },
        }
    }
}

/// The first element of LIST that is a cons cell whose `cdr` is `equal` to KEY, or `nil`.
pub fn rassoc(h: &LispHeap, tabs: &CharTables, key: LispObject, list: LispObject) -> (r: Result<LispObject, LispError>)
    requires
        h.wf(),
        tabs.wf(),
        tabs_values_ok(tabs, h),
        h.valid(list),
        h.valid(key),
    ensures
        search_outcome(h, list, assoc_hit(h, tabs.view(), key, true), assoc_answer(h, tabs.view(), key, true), Some(TypePredicate::Listp), r),
{
    let mut it = iter_tails(list, Ghost(h.cdrs()));
    loop
        invariant
            h.wf(),
            tabs.wf(),
            tabs_values_ok(tabs, h),
            h.valid(list),
            h.valid(key),
            it.inv(h.cdrs()),
            it.list() == list,
            it.errsym() == Some(TypePredicate::Listp),
            forall|i: nat| i < it.steps() ==> !assoc_hit(h, tabs.view(), key, true)(i, #[trigger] tail_at(h.cdrs(), list, i)),
        decreases 3 * h.cdrs().len() + 2 - it.steps(),
    {
        proof {
            it.lemma_inv(h.cdrs());
        }
        let ghost k = it.steps();
        match it.next(h) {
            Ok(Some(tail)) => {
                proof {
                    it.lemma_inv(h.cdrs());
                    assert(tail.0 == tail_at(h.cdrs(), list, k));
                    lemma_tail_valid(h, list, k);
                }
                let item = h.car(tail);
                match h.as_cons(item) {
                    Some(item_cons) => {
                        let x = h.cdr(item_cons);
                        let eqr = if key.eq(x) { Ok(true) } else { equal_in(h, tabs, key, x) };
                        proof {
                            crate::equal::lemma_equal_reflexive(h, Seq::<crate::chartab::LispCharTable>::empty(), key, 0);
                        }
                        match eqr {
                            Ok(false) => {},
                            _ => {
                    proof {
                        assert(assoc_hit(h, tabs.view(), key, true)(k, tail_at(h.cdrs(), list, k)));
                        assert forall|len: nat| stops_at(h.cdrs(), list, len) implies found_at(h, list, len, k, assoc_hit(h, tabs.view(), key, true)) by {
                            lemma_before_stop(h, list, k, len);
                        }
                        assert forall|len: nat| #[trigger] stops_at(h.cdrs(), list, len) implies !none_found(h, list, len, assoc_hit(h, tabs.view(), key, true)) by {
                            lemma_before_stop(h, list, k, len);
                            assert(assoc_hit(h, tabs.view(), key, true)(k, tail_at(h.cdrs(), list, k)));
                        }
                    }
                    return match eqr { Err(e) => Err(e), _ => Ok(item) };
                            },
                        }
                    },
                    None => {},
                }
            },
            Ok(None) => {
                proof {
                    assert forall|len: nat| #[trigger] stops_at(h.cdrs(), list, len) implies len == k by {
                        lemma_stop_unique(h.cdrs(), list, len, k);
                    }
                }
                return Ok(LispObject::constant_nil());
            },
            Err(e) => {
                proof {
                    assert forall|len: nat| #[trigger] stops_at(h.cdrs(), list, len) implies len == k by {
                        lemma_stop_unique(h.cdrs(), list, len, k);
                    }
                }
                return Err(e);
            },
        }
    }
}

/// The value after the property PROP (by `equal`) in the property list PLIST, or `nil`.
pub fn lax_plist_get(h: &LispHeap, tabs: &CharTables, plist: LispObject, prop: LispObject) -> (r: Result<LispObject, LispError>)
    requires
        h.wf(),
        tabs.wf(),
        tabs_values_ok(tabs, h),
        h.valid(plist),
        h.valid(prop),
    ensures
        search_outcome(h, plist, lax_plist_stop(h, tabs.view(), prop), lax_plist_answer(h, tabs.view(), prop), Some(TypePredicate::Listp), r),
{
    let mut it = iter_tails(plist, Ghost(h.cdrs()));
    let mut prop_item = true;
    loop
        invariant
            h.wf(),
            tabs.wf(),
            tabs_values_ok(tabs, h),
            h.valid(plist),
            h.valid(prop),
            it.inv(h.cdrs()),
            it.list() == plist,
            it.errsym() == Some(TypePredicate::Listp),
            prop_item == (it.steps() % 2 == 0),
            forall|i: nat| i < it.steps() ==> !lax_plist_stop(h, tabs.view(), prop)(i, #[trigger] tail_at(h.cdrs(), plist, i)),
        decreases 3 * h.cdrs().len() + 2 - it.steps(),
    {
        proof {
            it.lemma_inv(h.cdrs());
        }
        let ghost k = it.steps();
        match it.next(h) {
            Ok(Some(tail)) => {
                proof {
                    it.lemma_inv(h.cdrs());
                    assert(tail.0 == tail_at(h.cdrs(), plist, k));
                    lemma_tail_valid(h, plist, k);
                }
                let d = h.cdr(tail);
                match h.as_cons(d) {
                    None => {
                        let fin = finish_walk(h, &mut it);
                        proof {
                            assert(lax_plist_stop(h, tabs.view(), prop)(k, tail_at(h.cdrs(), plist, k)));
                            assert forall|len: nat| stops_at(h.cdrs(), plist, len) implies found_at(h, plist, len, k, lax_plist_stop(h, tabs.view(), prop)) by {
                                lemma_before_stop(h, plist, k, len);
                            }
                            assert forall|len: nat| #[trigger] stops_at(h.cdrs(), plist, len) implies !none_found(h, plist, len, lax_plist_stop(h, tabs.view(), prop)) by {
                                lemma_before_stop(h, plist, k, len);
                                assert(lax_plist_stop(h, tabs.view(), prop)(k, tail_at(h.cdrs(), plist, k)));
                            }
                        }
                        match fin {
                            Ok(()) => return Ok(LispObject::constant_nil()),
                            Err(e) => return Err(e),
                        }
                    },
                    Some(dc) => {
                        if prop_item {
                            let eqr = equal_in(h, tabs, h.car(tail), prop);
                            match eqr {
                                Ok(false) => {},
                                _ => {
                    proof {
                        assert(lax_plist_stop(h, tabs.view(), prop)(k, tail_at(h.cdrs(), plist, k)));
                        assert forall|len: nat| stops_at(h.cdrs(), plist, len) implies found_at(h, plist, len, k, lax_plist_stop(h, tabs.view(), prop)) by {
                            lemma_before_stop(h, plist, k, len);
                        }
                        assert forall|len: nat| #[trigger] stops_at(h.cdrs(), plist, len) implies !none_found(h, plist, len, lax_plist_stop(h, tabs.view(), prop)) by {
                            lemma_before_stop(h, plist, k, len);
                            assert(lax_plist_stop(h, tabs.view(), prop)(k, tail_at(h.cdrs(), plist, k)));
                        }
                    }
                    return match eqr { Err(e) => Err(e), _ => Ok(h.car(dc)) };
                                },
                            }
                        }
                    },
                }
                prop_item = !prop_item;
            },
            Ok(None) => {
                proof {
                    assert forall|len: nat| #[trigger] stops_at(h.cdrs(), plist, len) implies len == k by {
                        lemma_stop_unique(h.cdrs(), plist, len, k);
                    }
                }
                return Ok(LispObject::constant_nil());
            },
            Err(e) => {
                proof {
                    assert forall|len: nat| #[trigger] stops_at(h.cdrs(), plist, len) implies len == k by {
                        lemma_stop_unique(h.cdrs(), plist, len, k);
                    }
                }
                return Err(e);
            },
        }
    }
}


/// Sets the value of PROP in the property list PLIST to VAL, comparing
/// properties with `equal` when LAX, else with `eq`.
fn internal_plist_put(h: &mut LispHeap, tabs: &CharTables, plist: LispObject, prop: LispObject, val: LispObject, lax: bool) -> (r: Result<LispObject, LispError>)
    requires
        old(h).wf(),
        tabs.wf(),
        tabs_values_ok(tabs, old(h)),
        old(h).valid(plist),
        old(h).valid(prop),
        old(h).valid(val),
        old(h).cells().len() + 2 <= crate::heap::MAX_OBJECTS,
    ensures
        final(h).wf(),
        final(h).string_view() == old(h).string_view(),
        final(h).vector_view() == old(h).vector_view(),
        plist_put_result(old(h), final(h), tabs.view(), plist, prop, val, lax, r),
{
    let ghost h0 = *h;
    let ghost cdrs = h.cdrs();
    let mut it = iter_tails(plist, Ghost(h.cdrs()));
    let mut prop_item = true;
    let mut last_cons: Option<LispCons> = None;
    loop
        invariant
            h.wf(),
            tabs.wf(),
            tabs_values_ok(tabs, h),
            *h == h0,
            h0 == *old(h),
            cdrs == h.cdrs(),
            h.valid(plist),
            h.valid(prop),
            h.valid(val),
            h.cells().len() + 2 <= crate::heap::MAX_OBJECTS,
            it.inv(cdrs),
            it.list() == plist,
            it.errsym() == Some(TypePredicate::Listp),
            prop_item == (it.steps() % 2 == 0),
            forall|i: nat| i < it.steps() ==> !put_stop(h, tabs.view(), prop, lax)(i, #[trigger] tail_at(cdrs, plist, i)),
            last_cons matches Some(c) ==> h.is_cons(c.0) && h.is_cons(h.cdr_of(c.0)),
            last_cons matches Some(c) ==> c.0 == tail_at(cdrs, plist, (((it.steps() as int - 1) / 2) * 2) as nat),
            last_cons is None ==> it.steps() == 0,
            last_cons is Some ==> it.steps() >= 1,
        decreases 3 * cdrs.len() + 2 - it.steps(),
    {
        proof {
            it.lemma_inv(cdrs);
        }
        let ghost k = it.steps();
        match it.next(h) {
            Ok(Some(tail)) => {
                proof {
                    it.lemma_inv(cdrs);
                    assert(tail.0 == tail_at(cdrs, plist, k));
                    lemma_tail_valid(h, plist, k);
                }
                if prop_item {
                    let d = h.cdr(tail);
                    match h.as_cons(d) {
                        None => {
                            let chk = check_list_end(tail.as_obj(), plist);
                            proof {
                                assert(put_stop(h, tabs.view(), prop, lax)(k, tail_at(cdrs, plist, k)));
                                assert forall|len: nat| stops_at(cdrs, plist, len) implies found_at(h, plist, len, k, put_stop(h, tabs.view(), prop, lax)) by {
                                    lemma_before_stop(h, plist, k, len);
                                }
                                assert forall|len: nat| #[trigger] stops_at(cdrs, plist, len) implies !none_found(h, plist, len, put_stop(h, tabs.view(), prop, lax)) by {
                                    lemma_before_stop(h, plist, k, len);
                                    assert(put_stop(h, tabs.view(), prop, lax)(k, tail_at(cdrs, plist, k)));
                                }
                                crate::heap::lemma_cons_not_nil(tail.0.0);
                            }
                            match chk {
                                Ok(()) => {
                                    return Ok(plist);
                                },
                                Err(e) => return Err(e),
                            }
                        },
                        Some(tail_cdr_cons) => {
                            let same = if lax {
                                equal_in(h, tabs, h.car(tail), prop)
                            } else {
                                Ok(h.car(tail).eq(prop))
                            };
                            match same {
                                Ok(false) => {},
                                _ => {
                                    proof {
                                        assert(put_stop(h, tabs.view(), prop, lax)(k, tail_at(cdrs, plist, k)));
                                        assert forall|len: nat| stops_at(cdrs, plist, len) implies found_at(h, plist, len, k, put_stop(h, tabs.view(), prop, lax)) by {
                                            lemma_before_stop(h, plist, k, len);
                                        }
                                        assert forall|len: nat| #[trigger] stops_at(cdrs, plist, len) implies !none_found(h, plist, len, put_stop(h, tabs.view(), prop, lax)) by {
                                            lemma_before_stop(h, plist, k, len);
                                            assert(put_stop(h, tabs.view(), prop, lax)(k, tail_at(cdrs, plist, k)));
                                        }
                                    }
                                    match same {
                                        Err(e) => return Err(e),
                                        _ => {
                                            h.set_car(tail_cdr_cons, val);
                                            return Ok(plist);
                                        },
                                    }
                                },
                            }
                            last_cons = Some(tail);
                        },
                    }
                }
                prop_item = !prop_item;
            },
            Ok(None) => {
                proof {
                    assert forall|len: nat| #[trigger] stops_at(cdrs, plist, len) implies len == k by {
                        lemma_stop_unique(cdrs, plist, len, k);
                    }
                }
                proof {
                    let len = k;
                    if len >= 1 && len % 2 == 1 {
                        let m = (len - 1) as nat;
                        assert(!put_stop(h, tabs.view(), prop, lax)(m, tail_at(cdrs, plist, m)));
                        assert(tail_at(cdrs, plist, len) == step(cdrs, tail_at(cdrs, plist, m)));
                        assert(is_cons_at(cdrs, tail_at(cdrs, plist, m)));
                        assert(false);
                    }
                    if len >= 2 {
                        assert((((len as int - 1) / 2) * 2) as nat == (len - 2) as nat);
                        assert(tail_at(cdrs, plist, (len - 1) as nat) == step(cdrs, tail_at(cdrs, plist, (len - 2) as nat)));
                        assert(tail_at(cdrs, plist, len) == step(cdrs, tail_at(cdrs, plist, (len - 1) as nat)));
                        lemma_tail_valid(h, plist, (len - 1) as nat);
                        lemma_tail_valid(h, plist, len);
                    }
                }
                match last_cons {
                    None => {
                        let inner = h.cons(val, LispObject::constant_nil());
                        let newcell = h.cons(prop, inner);
                        return Ok(newcell);
                    },
                    Some(last) => {
                        let last_cdr = h.cdr(last);
                        let last_cons_cdr = match h.as_cons_or_error(last_cdr) {
                            Ok(c) => c,
                            Err(e) => return Err(e),
                        };
                        let rest = h.cdr(last_cons_cdr);
                        let inner = h.cons(val, rest);
                        let newcell = h.cons(prop, inner);
                        h.set_cdr(last_cons_cdr, newcell);
                        return Ok(plist);
                    },
                }
            },
            Err(e) => {
                proof {
                    assert forall|len: nat| #[trigger] stops_at(cdrs, plist, len) implies len == k by {
                        lemma_stop_unique(cdrs, plist, len, k);
                    }
                }
                return Err(e);
            },
        }
    }
}

/// Changes the value of PROP in the property list PLIST to VAL (comparing
/// properties with `eq`), adding the pair at the end when PROP is absent.
pub fn plist_put(h: &mut LispHeap, plist: LispObject, prop: LispObject, val: LispObject) -> (r: Result<LispObject, LispError>)
    requires
        old(h).wf(),
        old(h).valid(plist),
        old(h).valid(prop),
        old(h).valid(val),
        old(h).cells().len() + 2 <= crate::heap::MAX_OBJECTS,
    ensures
        final(h).wf(),
        final(h).string_view() == old(h).string_view(),
        final(h).vector_view() == old(h).vector_view(),
        plist_put_result(old(h), final(h), Seq::<LispCharTable>::empty(), plist, prop, val, false, r),
{
    let tabs = CharTables::new(LispObject(0), LispObject(0));
    internal_plist_put(h, &tabs, plist, prop, val, false)
}

/// Changes the value of PROP in the property list PLIST to VAL (comparing
/// properties with `equal`), adding the pair at the end when PROP is absent.
pub fn lax_plist_put(h: &mut LispHeap, tabs: &CharTables, plist: LispObject, prop: LispObject, val: LispObject) -> (r: Result<LispObject, LispError>)
    requires
        old(h).wf(),
        tabs.wf(),
        tabs_values_ok(tabs, old(h)),
        old(h).valid(plist),
        old(h).valid(prop),
        old(h).valid(val),
        old(h).cells().len() + 2 <= crate::heap::MAX_OBJECTS,
    ensures
        final(h).wf(),
        final(h).string_view() == old(h).string_view(),
        final(h).vector_view() == old(h).vector_view(),
        plist_put_result(old(h), final(h), tabs.view(), plist, prop, val, true, r),
{
    internal_plist_put(h, tabs, plist, prop, val, true)
}

/// Some position of a walk of `len` tails that satisfies `p`, all before
/// `k` failing it, gives a first such position.
pub(crate) proof fn lemma_first_from(h: &LispHeap, l: LispObject, len: nat, p: spec_fn(nat, LispObject) -> bool, k: nat, j: nat) -> (m: nat)
    requires
        k <= j < len,
        p(j, tail_at(h.cdrs(), l, j)),
        forall|i: nat| i < k ==> !p(i, #[trigger] tail_at(h.cdrs(), l, i)),
    ensures
        found_at(h, l, len, m, p),
    decreases j - k,
{
    if p(k, tail_at(h.cdrs(), l, k)) {
        k
    } else {
        assert forall|i: nat| i < k + 1 implies !p(i, #[trigger] tail_at(h.cdrs(), l, i)) by {
            if i < k {
            }
        }
        lemma_first_from(h, l, len, p, k + 1, j)
    }
}

/// A search along a walk has exactly one result.
pub proof fn lemma_search_determined(
    h: &LispHeap,
    l: LispObject,
    p: spec_fn(nat, LispObject) -> bool,
    f: spec_fn(LispObject) -> LispObject,
    pred: Option<TypePredicate>,
) -> (r: Result<LispObject, LispError>)
    ensures
        search_result(h, l, p, f, pred, r),
        forall|r2: Result<LispObject, LispError>| #[trigger] search_result(h, l, p, f, pred, r2) ==> r2 == r,
{
    let cdrs = h.cdrs();
    let len = lemma_walk_stops(cdrs, l);
    let r = if none_found(h, l, len, p) {
        walk_end(h, l, len, pred)
    } else {
        let j = choose|j: nat| j < len && p(j, #[trigger] tail_at(cdrs, l, j));
        let m = lemma_first_from(h, l, len, p, 0, j);
        Ok(f(tail_at(cdrs, l, m)))
    };
    assert forall|len2: nat| #![trigger stops_at(cdrs, l, len2)] stops_at(cdrs, l, len2) implies {
        &&& forall|m: nat| #[trigger] found_at(h, l, len2, m, p) ==> r == Ok::<LispObject, LispError>(f(tail_at(cdrs, l, m)))
        &&& none_found(h, l, len2, p) ==> r == walk_end(h, l, len2, pred)
    } by {
        lemma_stop_unique(cdrs, l, len, len2);
        assert forall|m: nat| #[trigger] found_at(h, l, len2, m, p) implies r == Ok::<LispObject, LispError>(f(tail_at(cdrs, l, m))) by {
            assert(!none_found(h, l, len, p));
            let j = choose|j: nat| j < len && p(j, #[trigger] tail_at(cdrs, l, j));
            let m0 = lemma_first_from(h, l, len, p, 0, j);
            if m0 < m {
                assert(!p(m0, tail_at(cdrs, l, m0)));
            } else if m < m0 {
                assert(!p(m, tail_at(cdrs, l, m)));
            }
        }
    }
    assert forall|r2: Result<LispObject, LispError>| #[trigger] search_result(h, l, p, f, pred, r2) implies r2 == r by {
        assert(stops_at(cdrs, l, len));
        if !none_found(h, l, len, p) {
            let j = choose|j: nat| j < len && p(j, #[trigger] tail_at(cdrs, l, j));
            let m0 = lemma_first_from(h, l, len, p, 0, j);
            assert(found_at(h, l, len, m0, p));
        }
    }
    r
}

/// What `memq` gives: the tail whose `car` is `elt`, `nil`, or the error
/// that ends the walk.
pub open spec fn memq_spec(h: &LispHeap, elt: LispObject, l: LispObject) -> Result<LispObject, LispError> {
    choose|r: Result<LispObject, LispError>| search_result(h, l, car_is(h, elt), the_tail(), Some(TypePredicate::Listp), r)
}

/// What `assq` gives: the first element that is a cons cell with `car`
/// `key`, `nil`, or the error that ends the walk.
pub open spec fn assq_spec(h: &LispHeap, key: LispObject, l: LispObject) -> Result<LispObject, LispError> {
    choose|r: Result<LispObject, LispError>| search_result(h, l, caar_is(h, key), car_of_tail(h), Some(TypePredicate::Listp), r)
}

/// The result of `memq` is `memq_spec`.
pub proof fn lemma_memq_spec(h: &LispHeap, elt: LispObject, l: LispObject, r: Result<LispObject, LispError>)
    requires
        search_result(h, l, car_is(h, elt), the_tail(), Some(TypePredicate::Listp), r),
    ensures
        r == memq_spec(h, elt, l),
{
    let r0 = lemma_search_determined(h, l, car_is(h, elt), the_tail(), Some(TypePredicate::Listp));
    assert(search_result(h, l, car_is(h, elt), the_tail(), Some(TypePredicate::Listp), memq_spec(h, elt, l)));
}

/// The result of `assq` is `assq_spec`.
pub proof fn lemma_assq_spec(h: &LispHeap, key: LispObject, l: LispObject, r: Result<LispObject, LispError>)
    requires
        search_result(h, l, caar_is(h, key), car_of_tail(h), Some(TypePredicate::Listp), r),
    ensures
        r == assq_spec(h, key, l),
{
    let r0 = lemma_search_determined(h, l, caar_is(h, key), car_of_tail(h), Some(TypePredicate::Listp));
    assert(search_result(h, l, caar_is(h, key), car_of_tail(h), Some(TypePredicate::Listp), assq_spec(h, key, l)));
}

/// A heap that keeps the cells of another and adds more walks every value
/// of the smaller heap the same way.
pub proof fn lemma_tail_grow(h1: &LispHeap, h2: &LispHeap, l: LispObject, k: nat)
    requires
        h1.wf(),
        h1.valid(l),
        h1.cells().len() <= h2.cells().len(),
        h2.cells().subrange(0, h1.cells().len() as int) == h1.cells(),
    ensures
        tail_at(h2.cdrs(), l, k) == tail_at(h1.cdrs(), l, k),
        h1.valid(tail_at(h1.cdrs(), l, k)),
    decreases k,
{
    lemma_tail_valid(h1, l, k);
    if k > 0 {
        lemma_tail_grow(h1, h2, l, (k - 1) as nat);
        let t = tail_at(h1.cdrs(), l, (k - 1) as nat);
        lemma_tail_valid(h1, l, (k - 1) as nat);
        if is_cons_word(t.0) && 0 <= crate::heap::obj_index(t.0) < h1.cdrs().len() {
            let i = crate::heap::obj_index(t.0);
            assert(h2.cells()[i] == h2.cells().subrange(0, h1.cells().len() as int)[i]);
        }
    }
}

/// `memq` gives the same in a heap that keeps the cells of the heap that
/// the list belongs to.
pub proof fn lemma_memq_grow(h1: &LispHeap, h2: &LispHeap, elt: LispObject, l: LispObject)
    requires
        h1.wf(),
        h1.valid(l),
        h1.cells().len() <= h2.cells().len(),
        h2.cells().subrange(0, h1.cells().len() as int) == h1.cells(),
    ensures
        memq_spec(h2, elt, l) == memq_spec(h1, elt, l),
{
    let c1 = h1.cdrs();
    let c2 = h2.cdrs();
    let n1 = h1.cells().len() as int;
    let r1 = lemma_search_determined(h1, l, car_is(h1, elt), the_tail(), Some(TypePredicate::Listp));
    lemma_memq_spec(h1, elt, l, r1);
    assert forall|k: nat| #[trigger] tail_at(c2, l, k) == tail_at(c1, l, k) by {
        lemma_tail_grow(h1, h2, l, k);
    }
    assert forall|k: nat| #[trigger] is_cons_at(c2, tail_at(c2, l, k)) == is_cons_at(c1, tail_at(c1, l, k)) by {
        lemma_tail_grow(h1, h2, l, k);
    }
    assert forall|k: nat| is_cons_word(tail_at(c1, l, k).0) implies #[trigger] h2.car_of(tail_at(c1, l, k)) == h1.car_of(
        tail_at(c1, l, k),
    ) by {
        lemma_tail_grow(h1, h2, l, k);
        let i = crate::heap::obj_index(tail_at(c1, l, k).0);
        assert(h2.cells()[i] == h2.cells().subrange(0, n1)[i]);
    }
    assert forall|s: nat| #[trigger] detected_at(c2, l, s) == detected_at(c1, l, s) by {
        if detected_at(c2, l, s) {
            let j = choose|j: nat|
                #![trigger reset_pos(j + 1), tail_at(c2, l, reset_pos(j))]
                reset_pos(j) < s < reset_pos(j + 1) && tail_at(c2, l, s) == tail_at(c2, l, reset_pos(j));
            assert(tail_at(c1, l, reset_pos(j)) == tail_at(c2, l, reset_pos(j)));
        }
        if detected_at(c1, l, s) {
            let j = choose|j: nat|
                #![trigger reset_pos(j + 1), tail_at(c1, l, reset_pos(j))]
                reset_pos(j) < s < reset_pos(j + 1) && tail_at(c1, l, s) == tail_at(c1, l, reset_pos(j));
            assert(tail_at(c2, l, reset_pos(j)) == tail_at(c1, l, reset_pos(j)));
        }
    }
    assert forall|len: nat| #[trigger] stops_at(c2, l, len) == stops_at(c1, l, len) by {
        if conses_before(c1, l, len) {
            assert forall|m: nat| m < len implies is_cons_at(c2, #[trigger] tail_at(c2, l, m)) by {
                assert(is_cons_at(c1, tail_at(c1, l, m)));
                assert(is_cons_at(c2, tail_at(c2, l, m)) == is_cons_at(c1, tail_at(c1, l, m)));
            }
        }
        if conses_before(c2, l, len) {
            assert forall|m: nat| m < len implies is_cons_at(c1, #[trigger] tail_at(c1, l, m)) by {
                assert(is_cons_at(c2, tail_at(c2, l, m)));
                assert(is_cons_at(c2, tail_at(c2, l, m)) == is_cons_at(c1, tail_at(c1, l, m)));
            }
        }
        if no_detection(c1, l, len) {
            assert forall|s: nat| 1 <= s <= len implies !#[trigger] detected_at(c2, l, s) by {
                assert(detected_at(c2, l, s) == detected_at(c1, l, s));
            }
        }
        if no_detection(c2, l, len) {
            assert forall|s: nat| 1 <= s <= len implies !#[trigger] detected_at(c1, l, s) by {
                assert(detected_at(c2, l, s) == detected_at(c1, l, s));
            }
        }
        assert(is_cons_at(c2, tail_at(c2, l, len)) == is_cons_at(c1, tail_at(c1, l, len)));
        assert(detected_at(c2, l, len + 1) == detected_at(c1, l, len + 1));
    }
    assert(search_result(h2, l, car_is(h2, elt), the_tail(), Some(TypePredicate::Listp), r1)) by {
        assert forall|len: nat| #![trigger stops_at(c2, l, len)] stops_at(c2, l, len) implies {
            &&& forall|m: nat| #[trigger] found_at(h2, l, len, m, car_is(h2, elt)) ==> r1 == Ok::<LispObject, LispError>(
                the_tail()(tail_at(c2, l, m)),
            )
            &&& none_found(h2, l, len, car_is(h2, elt)) ==> r1 == walk_end(h2, l, len, Some(TypePredicate::Listp))
        } by {
            assert(stops_at(c1, l, len));
            assert forall|m: nat| #[trigger] found_at(h2, l, len, m, car_is(h2, elt)) implies r1 == Ok::<
                LispObject,
                LispError,
            >(the_tail()(tail_at(c2, l, m))) by {
                assert(is_cons_at(c1, tail_at(c1, l, m)));
                assert forall|i: nat| i < m implies !car_is(h1, elt)(i, #[trigger] tail_at(c1, l, i)) by {
                    assert(is_cons_at(c1, tail_at(c1, l, i)));
                    assert(!car_is(h2, elt)(i, tail_at(c2, l, i)));
                }
                assert(found_at(h1, l, len, m, car_is(h1, elt)));
            }
            if none_found(h2, l, len, car_is(h2, elt)) {
                assert forall|i: nat| i < len implies !car_is(h1, elt)(i, #[trigger] tail_at(c1, l, i)) by {
                    assert(is_cons_at(c1, tail_at(c1, l, i)));
                    assert(!car_is(h2, elt)(i, tail_at(c2, l, i)));
                }
                assert(none_found(h1, l, len, car_is(h1, elt)));
                assert(tail_at(c2, l, len) == tail_at(c1, l, len));
                assert(tail_at(c2, l, len + 1) == tail_at(c1, l, len + 1));
            }
        }
    }
    lemma_memq_spec(h2, elt, l, r1);
}

/// `memq` finds an element at the head of a list that is not its own
/// `cdr`.
pub proof fn lemma_memq_head(h: &LispHeap, elt: LispObject, l: LispObject)
    requires
        h.wf(),
        h.is_cons(l),
        h.car_of(l) == elt,
        h.cdr_of(l) != l,
    ensures
        memq_spec(h, elt, l) == Ok::<LispObject, LispError>(l),
{
    let c = h.cdrs();
    assert(tail_at(c, l, 0) == l);
    assert(search_result(h, l, car_is(h, elt), the_tail(), Some(TypePredicate::Listp), Ok::<LispObject, LispError>(l))) by {
        assert forall|len: nat| #![trigger stops_at(c, l, len)] stops_at(c, l, len) implies {
            &&& forall|m: nat| #[trigger] found_at(h, l, len, m, car_is(h, elt)) ==> Ok::<LispObject, LispError>(l)
                == Ok::<LispObject, LispError>(the_tail()(tail_at(c, l, m)))
            &&& none_found(h, l, len, car_is(h, elt)) ==> Ok::<LispObject, LispError>(l) == walk_end(
                h,
                l,
                len,
                Some(TypePredicate::Listp),
            )
        } by {
            if len == 0 {
                assert(is_cons_at(c, tail_at(c, l, 0)));
                assert(!detected_at(c, l, 1)) by {
                    if detected_at(c, l, 1) {
                        let j = choose|j: nat|
                            #![trigger reset_pos(j + 1), tail_at(c, l, reset_pos(j))]
                            reset_pos(j) < 1 < reset_pos(j + 1) && tail_at(c, l, 1) == tail_at(c, l, reset_pos(j));
                        assert(reset_pos(j) == 0);
                        assert(tail_at(c, l, 1) == step(c, l));
                    }
                }
            }
            assert(car_is(h, elt)(0, tail_at(c, l, 0)));
            assert forall|m: nat| #[trigger] found_at(h, l, len, m, car_is(h, elt)) implies Ok::<LispObject, LispError>(l)
                == Ok::<LispObject, LispError>(the_tail()(tail_at(c, l, m))) by {
                if m > 0 {
                    assert(!car_is(h, elt)(0, tail_at(c, l, 0)));
                }
            }
        }
    }
    lemma_memq_spec(h, elt, l, Ok::<LispObject, LispError>(l));
}

/// L is a proper list of the elements S.
pub open spec fn is_list_of(h: &LispHeap, l: LispObject, s: Seq<LispObject>) -> bool
    decreases s.len(),
{
    if s.len() == 0 {
        l.0 == 0
    } else {
        &&& h.is_cons(l)
        &&& h.car_of(l) == s[0]
        &&& is_list_of(h, h.cdr_of(l), s.drop_first())
    }
}

/// A list stays the same list when cells are added to the heap.
pub proof fn lemma_list_kept(h: &LispHeap, h2: &LispHeap, l: LispObject, s: Seq<LispObject>)
    requires
        is_list_of(h, l, s),
        h.cells().len() <= h2.cells().len(),
        forall|i: int| 0 <= i < h.cells().len() ==> #[trigger] h2.cells()[i] == h.cells()[i],
    ensures
        is_list_of(h2, l, s),
    decreases s.len(),
{
    if s.len() > 0 {
        lemma_list_kept(h, h2, h.cdr_of(l), s.drop_first());
    }
}

} // verus!
