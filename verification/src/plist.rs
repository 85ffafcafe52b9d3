//! What `plist-get` reads back of what `plist-put` wrote.
use vstd::prelude::*;

use crate::error::{LispError, TypePredicate};
use crate::heap::{cons_word, is_cons_word, lemma_obj_word, obj_index, step, tail_at, LispHeap, MAX_OBJECTS};
use crate::lists::{
    found_at, lemma_first_from, none_found, plist_put_result, plist_stop, plist_value, put_stop, search_result,
    walk_end,
};
use crate::tag::LispObject;
use crate::tails::{
    detected_at, is_cons_at, lemma_circular_at, lemma_stop_unique, no_detection, reset_pos, stops_at,
};

verus! {

/// Whether `l` is a proper list: its walk ends at `nil`.
pub open spec fn proper_list(h: &LispHeap, l: LispObject) -> bool {
    exists|len: nat| #[trigger] stops_at(h.cdrs(), l, len) && tail_at(h.cdrs(), l, len).0 == 0
}

/// The tails of a list that ends are all different.
proof fn lemma_ending_distinct(cdrs: Seq<LispObject>, l: LispObject, len: nat, i: nat, j: nat)
    requires
        stops_at(cdrs, l, len),
        !is_cons_at(cdrs, tail_at(cdrs, l, len)),
        i < j <= len,
    ensures
        tail_at(cdrs, l, i) != tail_at(cdrs, l, j),
{
    if tail_at(cdrs, l, i) == tail_at(cdrs, l, j) {
        assert forall|m: nat| m < j implies is_cons_at(cdrs, #[trigger] tail_at(cdrs, l, m)) by {
            assert(m < len);
        }
        lemma_circular_at(cdrs, l, i, (j - i) as nat, j, len);
    }
}

/// The cells of a list that ends are all different.
pub(crate) proof fn lemma_ending_cells_distinct(cdrs: Seq<LispObject>, l: LispObject, len: nat, i: nat, j: nat)
    requires
        stops_at(cdrs, l, len),
        !is_cons_at(cdrs, tail_at(cdrs, l, len)),
        i < j < len,
    ensures
        obj_index(tail_at(cdrs, l, i).0) != obj_index(tail_at(cdrs, l, j).0),
{
    assert(is_cons_at(cdrs, tail_at(cdrs, l, i)));
    assert(is_cons_at(cdrs, tail_at(cdrs, l, j)));
    assert(tail_at(cdrs, l, i + 1) == step(cdrs, tail_at(cdrs, l, i)));
    assert(tail_at(cdrs, l, j + 1) == step(cdrs, tail_at(cdrs, l, j)));
    lemma_ending_distinct(cdrs, l, len, i + 1, j + 1);
}

/// A walk whose first tails are all different detects no cycle among
/// them.
proof fn lemma_distinct_no_detection(cdrs: Seq<LispObject>, l: LispObject, k: nat)
    requires
        forall|a: nat, b: nat|
            a < b <= k ==> #[trigger] tail_at(cdrs, l, a) != #[trigger] tail_at(cdrs, l, b),
    ensures
        no_detection(cdrs, l, k),
{
    assert forall|s: nat| 1 <= s <= k implies !#[trigger] detected_at(cdrs, l, s) by {
        if detected_at(cdrs, l, s) {
            let j = choose|j: nat|
                #![trigger reset_pos(j + 1), tail_at(cdrs, l, reset_pos(j))]
                reset_pos(j) < s < reset_pos(j + 1) && tail_at(cdrs, l, s) == tail_at(cdrs, l, reset_pos(j));
            assert(tail_at(cdrs, l, reset_pos(j)) != tail_at(cdrs, l, s));
        }
    }
}

/// A search that finds position `m` of a walk that stops at `len`
/// gives `f` of that tail.
proof fn lemma_search_finds(
    h: &LispHeap,
    l: LispObject,
    len: nat,
    m: nat,
    p: spec_fn(nat, LispObject) -> bool,
    f: spec_fn(LispObject) -> LispObject,
    pred: Option<TypePredicate>,
)
    requires
        stops_at(h.cdrs(), l, len),
        found_at(h, l, len, m, p),
    ensures
        search_result(h, l, p, f, pred, Ok::<LispObject, LispError>(f(tail_at(h.cdrs(), l, m)))),
{
    let cdrs = h.cdrs();
    let v = f(tail_at(cdrs, l, m));
    assert forall|len2: nat| #![trigger stops_at(cdrs, l, len2)] stops_at(cdrs, l, len2) implies {
        &&& forall|m2: nat| #[trigger] found_at(h, l, len2, m2, p) ==> Ok::<LispObject, LispError>(v)
            == Ok::<LispObject, LispError>(f(tail_at(cdrs, l, m2)))
        &&& none_found(h, l, len2, p) ==> Ok::<LispObject, LispError>(v) == walk_end(h, l, len2, pred)
    } by {
        lemma_stop_unique(cdrs, l, len, len2);
        assert forall|m2: nat| #[trigger] found_at(h, l, len2, m2, p) implies Ok::<LispObject, LispError>(v)
            == Ok::<LispObject, LispError>(f(tail_at(cdrs, l, m2))) by {
            if m2 < m {
                assert(!p(m2, tail_at(cdrs, l, m2)));
            } else if m < m2 {
                assert(!p(m, tail_at(cdrs, l, m)));
            }
        }
        assert(!none_found(h, l, len2, p)) by {
            assert(p(m, tail_at(cdrs, l, m)));
        }
    }
}


/// `plist-get` after `plist-put` replaced the value at position `m`.
proof fn lemma_get_after_replace(
    h: &LispHeap,
    h2: &LispHeap,
    plist: LispObject,
    prop: LispObject,
    val: LispObject,
    len: nat,
    m: nat,
)
    requires
        h.wf(),
        stops_at(h.cdrs(), plist, len),
        tail_at(h.cdrs(), plist, len).0 == 0,
        found_at(h, plist, len, m, put_stop(h, Seq::<crate::chartab::LispCharTable>::empty(), prop, false)),
        is_cons_word(h.cdr_of(tail_at(h.cdrs(), plist, m)).0),
        h.car_of(tail_at(h.cdrs(), plist, m)) == prop,
        h2.cells() == h.cells().update(
            obj_index(h.cdr_of(tail_at(h.cdrs(), plist, m)).0),
            (val, h.cdr_of(h.cdr_of(tail_at(h.cdrs(), plist, m)))),
        ),
    ensures
        search_result(h2, plist, plist_stop(h2, prop), plist_value(h2), None, Ok::<LispObject, LispError>(val)),
{
    let cdrs = h.cdrs();
    let t = tail_at(cdrs, plist, m);
    let d = h.cdr_of(t);
    crate::tag::lemma_nil_tag();
    assert(!is_cons_at(cdrs, tail_at(cdrs, plist, len)));
    assert(is_cons_at(cdrs, t));
    assert(tail_at(cdrs, plist, m + 1) == d);
    assert(m + 1 < len);
    assert(is_cons_at(cdrs, d));
    assert(h2.cdrs() =~= cdrs);
    lemma_ending_cells_distinct(cdrs, plist, len, m, m + 1);
    assert(h2.car_of(t) == prop);
    assert forall|i: nat| i < m implies !plist_stop(h2, prop)(i, #[trigger] tail_at(h2.cdrs(), plist, i)) by {
        let ti = tail_at(cdrs, plist, i);
        assert(is_cons_at(cdrs, ti));
        assert(tail_at(cdrs, plist, i + 1) == h.cdr_of(ti));
        assert(is_cons_at(cdrs, tail_at(cdrs, plist, i + 1)));
        lemma_ending_cells_distinct(cdrs, plist, len, i, m + 1);
        assert(h2.car_of(ti) == h.car_of(ti));
        assert(!put_stop(h, Seq::<crate::chartab::LispCharTable>::empty(), prop, false)(i, ti));
    }
    assert(plist_value(h2)(t) == val);
    assert(found_at(h2, plist, len, m, plist_stop(h2, prop)));
    lemma_search_finds(h2, plist, len, m, plist_stop(h2, prop), plist_value(h2), None);
}

/// The first tails of a list stay the same when the heap grows and only
/// the `cdr` of its last cell changes.
proof fn lemma_tails_kept(
    cdrs: Seq<LispObject>,
    cdrs2: Seq<LispObject>,
    l: LispObject,
    len: nat,
    k: nat,
)
    requires
        stops_at(cdrs, l, len),
        !is_cons_at(cdrs, tail_at(cdrs, l, len)),
        0 < len,
        k < len,
        cdrs.len() <= cdrs2.len(),
        forall|i: int|
            0 <= i < cdrs.len() && i != obj_index(tail_at(cdrs, l, (len - 1) as nat).0) ==> #[trigger] cdrs2[i]
                == cdrs[i],
    ensures
        tail_at(cdrs2, l, k) == tail_at(cdrs, l, k),
    decreases k,
{
    if k > 0 {
        let p = (k - 1) as nat;
        lemma_tails_kept(cdrs, cdrs2, l, len, p);
        let tp = tail_at(cdrs, l, p);
        assert(is_cons_at(cdrs, tp));
        lemma_ending_cells_distinct(cdrs, l, len, p, (len - 1) as nat);
        assert(cdrs2[obj_index(tp.0)] == cdrs[obj_index(tp.0)]);
    }
}

/// `plist-get` after `plist-put` added PROP and VAL at the end of a
/// list of `len` tails.
#[verifier::rlimit(40)]
proof fn lemma_get_after_append(
    h: &LispHeap,
    h2: &LispHeap,
    plist: LispObject,
    prop: LispObject,
    val: LispObject,
    len: nat,
)
    requires
        h.wf(),
        stops_at(h.cdrs(), plist, len),
        tail_at(h.cdrs(), plist, len).0 == 0,
        0 < len,
        none_found(h, plist, len, put_stop(h, Seq::<crate::chartab::LispCharTable>::empty(), prop, false)),
        h.cells().len() + 2 <= MAX_OBJECTS,
        h2.cells() == h.cells().push((val, tail_at(h.cdrs(), plist, len))).push(
            (prop, cons_word(h.cells().len() as int)),
        ).update(
            obj_index(tail_at(h.cdrs(), plist, (len - 1) as nat).0),
            (h.car_of(tail_at(h.cdrs(), plist, (len - 1) as nat)), cons_word(h.cells().len() as int + 1)),
        ),
    ensures
        search_result(h2, plist, plist_stop(h2, prop), plist_value(h2), None, Ok::<LispObject, LispError>(val)),
{
    let cdrs = h.cdrs();
    let cdrs2 = h2.cdrs();
    let n: int = h.cells().len() as int;
    let c = tail_at(cdrs, plist, (len - 1) as nat);
    let nil = tail_at(cdrs, plist, len);
    crate::tag::lemma_nil_tag();
    lemma_obj_word(n, 3);
    lemma_obj_word(n + 1, 3);
    let w0 = cons_word(n);
    let w1 = cons_word(n + 1);
    assert(!is_cons_at(cdrs, nil));
    assert(is_cons_at(cdrs, c));
    assert(step(cdrs, c) == nil);
    assert(len % 2 == 0) by {
        if len % 2 == 1 {
            assert(!put_stop(h, Seq::<crate::chartab::LispCharTable>::empty(), prop, false)((len - 1) as nat, c));
        }
    }
    assert(cdrs2.len() == n + 2);
    assert(cdrs2[n + 1] == w0);
    assert(cdrs2[n] == nil);
    assert(cdrs2[obj_index(c.0)] == w1);
    assert forall|i: int| 0 <= i < cdrs.len() && i != obj_index(c.0) implies #[trigger] cdrs2[i] == cdrs[i] by {}
    assert forall|k: nat| k < len implies #[trigger] tail_at(cdrs2, plist, k) == tail_at(cdrs, plist, k) by {
        lemma_tails_kept(cdrs, cdrs2, plist, len, k);
    }
    assert(tail_at(cdrs2, plist, (len - 1) as nat) == c);
    assert(tail_at(cdrs2, plist, len) == w1);
    assert(tail_at(cdrs2, plist, len + 1) == w0);
    assert(tail_at(cdrs2, plist, len + 2) == nil);
    assert forall|a: nat, b: nat| a < b <= len + 2 implies #[trigger] tail_at(cdrs2, plist, a) != #[trigger] tail_at(
        cdrs2,
        plist,
        b,
    ) by {
        if b < len {
            lemma_ending_distinct(cdrs, plist, len, a, b);
        } else if a < len {
            assert(is_cons_at(cdrs, tail_at(cdrs, plist, a)));
        } else if b == len + 1 {
            assert(a == len);
        }
    }
    lemma_distinct_no_detection(cdrs2, plist, len + 2);
    assert forall|k: nat| k < len + 2 implies is_cons_at(cdrs2, #[trigger] tail_at(cdrs2, plist, k)) by {
        if k < len {
            assert(is_cons_at(cdrs, tail_at(cdrs, plist, k)));
        }
    }
    assert(stops_at(cdrs2, plist, len + 2));
    assert(h2.car_of(w1) == prop);
    assert(h2.cdr_of(w1) == w0);
    assert(h2.car_of(w0) == val);
    assert forall|i: nat| i < len implies !plist_stop(h2, prop)(i, #[trigger] tail_at(cdrs2, plist, i)) by {
        let ti = tail_at(cdrs, plist, i);
        assert(is_cons_at(cdrs, ti));
        assert(h2.cdr_of(ti) == tail_at(cdrs2, plist, i + 1));
        assert(is_cons_at(cdrs2, tail_at(cdrs2, plist, i + 1)));
        assert(h2.car_of(ti) == h.car_of(ti));
        assert(!put_stop(h, Seq::<crate::chartab::LispCharTable>::empty(), prop, false)(i, ti));
    }
    assert(found_at(h2, plist, len + 2, len, plist_stop(h2, prop)));
    lemma_search_finds(h2, plist, len + 2, len, plist_stop(h2, prop), plist_value(h2), None);
}

/// `plist-get` on the list `(PROP VAL)` that `plist-put` made of `nil`.
proof fn lemma_get_after_new(h: &LispHeap, h2: &LispHeap, prop: LispObject, val: LispObject)
    requires
        h.wf(),
        h.cells().len() + 2 <= MAX_OBJECTS,
        h2.cells() == h.cells().push((val, LispObject(0))).push((prop, cons_word(h.cells().len() as int))),
    ensures
        search_result(
            h2,
            cons_word(h.cells().len() as int + 1),
            plist_stop(h2, prop),
            plist_value(h2),
            None,
            Ok::<LispObject, LispError>(val),
        ),
{
    let cdrs2 = h2.cdrs();
    let n: int = h.cells().len() as int;
    crate::tag::lemma_nil_tag();
    lemma_obj_word(n, 3);
    lemma_obj_word(n + 1, 3);
    let w0 = cons_word(n);
    let w1 = cons_word(n + 1);
    assert(tail_at(cdrs2, w1, 0) == w1);
    assert(tail_at(cdrs2, w1, 1) == w0);
    assert(tail_at(cdrs2, w1, 2) == LispObject(0));
    assert forall|a: nat, b: nat| a < b <= 2 implies #[trigger] tail_at(cdrs2, w1, a) != #[trigger] tail_at(
        cdrs2,
        w1,
        b,
    ) by {}
    lemma_distinct_no_detection(cdrs2, w1, 2);
    assert forall|k: nat| k < 2 implies is_cons_at(cdrs2, #[trigger] tail_at(cdrs2, w1, k)) by {}
    assert(stops_at(cdrs2, w1, 2));
    assert(found_at(h2, w1, 2, 0, plist_stop(h2, prop)));
    assert(plist_value(h2)(w1) == val);
    lemma_search_finds(h2, w1, 2, 0, plist_stop(h2, prop), plist_value(h2), None);
}

/// A law of property lists: once `plist-put` of PROP and VAL on a proper
/// property list has returned the new list, `plist-get` of PROP on that
/// list gives VAL.
pub proof fn lemma_plist_get_after_put(
    h: &LispHeap,
    h2: &LispHeap,
    plist: LispObject,
    prop: LispObject,
    val: LispObject,
    r: Result<LispObject, LispError>,
)
    requires
        h.wf(),
        proper_list(h, plist),
        h.cells().len() + 2 <= MAX_OBJECTS,
        plist_put_result(h, h2, Seq::<crate::chartab::LispCharTable>::empty(), plist, prop, val, false, r),
        r is Ok,
    ensures
        r matches Ok(l) && search_result(h2, l, plist_stop(h2, prop), plist_value(h2), None, Ok::<LispObject, LispError>(val)),
{
    let cdrs = h.cdrs();
    let len = choose|len: nat| #[trigger] stops_at(cdrs, plist, len) && tail_at(cdrs, plist, len).0 == 0;
    crate::tag::lemma_nil_tag();
    assert(!is_cons_at(cdrs, tail_at(cdrs, plist, len)));
    let p = put_stop(h, Seq::<crate::chartab::LispCharTable>::empty(), prop, false);
    if exists|j: nat| j < len && p(j, #[trigger] tail_at(cdrs, plist, j)) {
        let j = choose|j: nat| j < len && p(j, #[trigger] tail_at(cdrs, plist, j));
        let m = lemma_first_from(h, plist, len, p, 0, j);
        let t = tail_at(cdrs, plist, m);
        assert(is_cons_word(h.cdr_of(t).0));
        assert(h.car_of(t) == prop);
        lemma_get_after_replace(h, h2, plist, prop, val, len, m);
    } else {
        assert(none_found(h, plist, len, p));
        assert(walk_end(h, plist, len, Some(TypePredicate::Listp)) is Ok);
        if len == 0 {
            assert(plist == tail_at(cdrs, plist, 0));
            lemma_get_after_new(h, h2, prop, val);
        } else {
            lemma_get_after_append(h, h2, plist, prop, val, len);
        }
    }
}

} // verus!
