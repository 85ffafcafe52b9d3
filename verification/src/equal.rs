//! Structural equality of Lisp values (`equal`).
//!
//! Two values are `equal` when they are `eq`, when they are strings with
//! the same characters and bytes, when they are vectors of the same length
//! whose elements are pairwise `equal`, when they are char tables whose
//! slots are pairwise `equal` (`tab_equal`), or when they are conses
//! compared along their tails.  Other objects outside the heap (buffers,
//! frames, windows, processes) are `equal` only when they are `eq`.  Lists are compared by walking both at once: the
//! `car`s at each position are compared one level deeper, the walk stops
//! early when the two `cdr`s are `eq`, two lists of which one ends before
//! the other are not `equal`, and when both walks end at the same step
//! the comparison goes on, one level deeper, with what they ended on (the
//! `cdr` of the cell where a cycle was found).  Past a nesting depth of
//! 200 the comparison signals "Stack overflow in equal".
use vstd::prelude::*;

use crate::chartab::{
    char_table_index, slot_eq, slots_eq, sub_equal, tab_equal, tab_value_eq, tabs_values_ok, values_eq, CharTables,
    ChartabSlot, LispCharTable, LispSubCharTable, PSEUDOVECTOR_SIZE_MASK,
};
use crate::error::{ErrorMessage, LispError};
use crate::heap::{lemma_tail_valid, step, tail_at, LispHeap};
use crate::lists::car_at;
use crate::tag::LispObject;
use crate::tails::{
    conses_before, is_cons_at, iter_tails_safe, lemma_ending_list_walk, lemma_stop_unique, lemma_walk_stops, stops_at,
    TailsIter,
};

verus! {

/// The kinds of `equal`: plain, or also comparing text properties (the
/// strings of the heap carry none, so the two agree on it).
#[derive(PartialEq, Eq, Structural, Clone, Copy, Debug)]
pub enum EqualKind {
    Plain,
    IncludingProperties,
}

/// The number of tails a walk over `l` yields.
pub open spec fn walk_len(cdrs: Seq<LispObject>, l: LispObject) -> nat {
    choose|len: nat| stops_at(cdrs, l, len)
}

/// The walk over `l` yields exactly `walk_len` tails.
pub proof fn lemma_walk_len(cdrs: Seq<LispObject>, l: LispObject)
    ensures
        stops_at(cdrs, l, walk_len(cdrs, l)),
{
    let len = lemma_walk_stops(cdrs, l);
    assert(stops_at(cdrs, l, len));
}

/// The tail a walk over `l` has reached after `m + 1` steps were asked of
/// it (the steps past its end leave it where it stopped).
pub open spec fn rest_after(cdrs: Seq<LispObject>, l: LispObject, m: nat) -> LispObject {
    let len = walk_len(cdrs, l);
    if m < len {
        tail_at(cdrs, l, m + 1)
    } else if is_cons_at(cdrs, tail_at(cdrs, l, len)) {
        tail_at(cdrs, l, len + 1)
    } else {
        tail_at(cdrs, l, len)
    }
}

/// The smaller of two numbers.
pub open spec fn min_nat(a: nat, b: nat) -> nat {
    if a <= b {
        a
    } else {
        b
    }
}

/// `equal` of `o1` and `o2` at nesting depth `depth`, with the char
/// tables `tabs` (char tables are compared as `tab_equal` says).
pub open spec fn equal_in_spec(
    h: &LispHeap,
    tabs: Seq<LispCharTable>,
    o1: LispObject,
    o2: LispObject,
    depth: int,
) -> Result<bool, LispError>
    decreases 201 - depth, 2int, 0int,
{
    if depth > 200 {
        Err(LispError::Error(ErrorMessage::StackOverflowInEqual))
    } else if o1 == o2 {
        Ok(true)
    } else if char_table_index(tabs.len() as int, o1) is Some && char_table_index(tabs.len() as int, o2) is Some {
        tab_equal(
            tabs,
            h,
            char_table_index(tabs.len() as int, o1).unwrap() as int,
            char_table_index(tabs.len() as int, o2).unwrap() as int,
            depth,
        )
    } else if h.is_string(o1) && h.is_string(o2) {
        Ok(h.string_chars_of(o1) == h.string_chars_of(o2) && h.string_bytes_of(o1) == h.string_bytes_of(o2))
    } else if h.is_vector(o1) && h.is_vector(o2) {
        if h.vector_of(o1).len() != h.vector_of(o2).len() {
            Ok(false)
        } else {
            vec_equal_spec(h, tabs, h.vector_of(o1), h.vector_of(o2), 0, depth + 1)
        }
    } else if h.is_cons(o1) && h.is_cons(o2) {
        match cons_loop_spec(h, tabs, o1, o2, depth, 0) {
            Ok(None) => {
                let cdrs = h.cdrs();
                let m = min_nat(walk_len(cdrs, o1), walk_len(cdrs, o2));
                equal_in_spec(h, tabs, step(cdrs, rest_after(cdrs, o1, m)), step(cdrs, rest_after(cdrs, o2, m)), depth + 1)
            },
            Ok(Some(b)) => Ok(b),
            Err(e) => Err(e),
        }
    } else {
        Ok(false)
    }
}

/// The elements from position `i` on of two vectors of the same length are
/// pairwise `equal` at depth `d`, stopping at the first that are not.
pub open spec fn vec_equal_spec(
    h: &LispHeap,
    tabs: Seq<LispCharTable>,
    e1: Seq<LispObject>, e2: Seq<LispObject>, i: nat, d: int) -> Result<bool, LispError>
    decreases 202 - d, 1int, e1.len() - i,
{
    if d > 201 || i >= e1.len() || i >= e2.len() {
        Ok(true)
    } else {
        match equal_in_spec(h, tabs, e1[i as int], e2[i as int], d) {
            Err(e) => Err(e),
            Ok(false) => Ok(false),
            Ok(true) => vec_equal_spec(h, tabs, e1, e2, i + 1, d),
        }
    }
}

/// The joint walk over two lists from position `m` on: `Some` when it
/// decides (a pair of `car`s differ, the `cdr`s are `eq`, or one walk ends
/// while the other still yields a cell), `None` when both walks end at
/// the same step.
pub open spec fn cons_loop_spec(
    h: &LispHeap,
    tabs: Seq<LispCharTable>,
    l1: LispObject, l2: LispObject, depth: int, m: nat) -> Result<Option<bool>, LispError>
    decreases 201 - depth, 1int, walk_len(h.cdrs(), l1) - m,
{
    let cdrs = h.cdrs();
    if depth > 200 {
        Err(LispError::Error(ErrorMessage::StackOverflowInEqual))
    } else if m < walk_len(cdrs, l1) && m < walk_len(cdrs, l2) {
        match equal_in_spec(h, tabs, car_at(h, l1, m), car_at(h, l2, m), depth + 1) {
            Err(e) => Err(e),
            Ok(false) => Ok(Some(false)),
            Ok(true) => if h.cdr_of(tail_at(cdrs, l1, m)) == h.cdr_of(tail_at(cdrs, l2, m)) {
                Ok(Some(true))
            } else {
                cons_loop_spec(h, tabs, l1, l2, depth, m + 1)
            },
        }
    } else if m < walk_len(cdrs, l1) || m < walk_len(cdrs, l2) {
        Ok(Some(false))
    } else {
        Ok(None)
    }
}

/// `equal` of values of the heap alone, with no char table among them.
pub open spec fn equal_spec(h: &LispHeap, o1: LispObject, o2: LispObject, depth: int) -> Result<bool, LispError> {
    equal_in_spec(h, Seq::<LispCharTable>::empty(), o1, o2, depth)
}

/// `equal`: plain structural equality from depth zero, of values of the
/// heap alone (see `equal_in` for values that include char tables).
pub fn equal(h: &LispHeap, o1: LispObject, o2: LispObject) -> (r: Result<bool, LispError>)
    requires
        h.wf(),
        h.valid(o1),
        h.valid(o2),
    ensures
        r == equal_spec(h, o1, o2, 0),
{
    let tabs = CharTables::new(LispObject(0), LispObject(0));
    rust_internal_equal(h, &tabs, o1, o2, EqualKind::Plain, 0)
}

/// `equal`: plain structural equality from depth zero, of values of the
/// heap and char tables of TABS.
pub fn equal_in(h: &LispHeap, tabs: &CharTables, o1: LispObject, o2: LispObject) -> (r: Result<bool, LispError>)
    requires
        h.wf(),
        tabs.wf(),
        tabs_values_ok(tabs, h),
        h.valid(o1),
        h.valid(o2),
    ensures
        r == equal_in_spec(h, tabs.view(), o1, o2, 0),
{
    rust_internal_equal(h, tabs, o1, o2, EqualKind::Plain, 0)
}

/// Whether two strings have the same bytes.
pub(crate) fn same_bytes(h: &LispHeap, s1: LispObject, s2: LispObject) -> (b: bool)
    requires
        h.wf(),
        h.is_string(s1),
        h.is_string(s2),
    ensures
        b == (h.string_bytes_of(s1) == h.string_bytes_of(s2)),
{
    let n = h.string_len_bytes(s1);
    if n != h.string_len_bytes(s2) {
        return false;
    }
    let mut i: usize = 0;
    while i < n
        invariant
            h.wf(),
            h.is_string(s1),
            h.is_string(s2),
            n == h.string_bytes_of(s1).len(),
            n == h.string_bytes_of(s2).len(),
            i <= n,
            forall|k: int| 0 <= k < i ==> h.string_bytes_of(s1)[k] == h.string_bytes_of(s2)[k],
        decreases n - i,
    {
        if h.string_byte_at(s1, i) != h.string_byte_at(s2, i) {
            return false;
        }
        i = i + 1;
    }
    assert(h.string_bytes_of(s1) =~= h.string_bytes_of(s2));
    true
}

/// `equal` at nesting depth DEPTH.
pub fn rust_internal_equal(
    h: &LispHeap,
    tabs: &CharTables,
    o1: LispObject,
    o2: LispObject,
    kind: EqualKind,
    depth: i32,
) -> (r: Result<bool, LispError>)
    requires
        h.wf(),
        tabs.wf(),
        tabs_values_ok(tabs, h),
        h.valid(o1),
        h.valid(o2),
    ensures
        r == equal_in_spec(h, tabs.view(), o1, o2, depth as int),
    decreases 201 - depth, 2int,
{
    if depth > 10 {
        if depth > 200 {
            return Err(LispError::Error(ErrorMessage::StackOverflowInEqual));
        }
    }
    if o1.eq(o2) {
        return Ok(true);
    }
    match (tabs.as_char_table(o1), tabs.as_char_table(o2)) {
        (Some(a), Some(b)) => {
            return a.equal(tabs, h, b, kind, depth);
        },
        _ => {},
    }
    if o1.is_string() && o2.is_string() {
        return Ok(h.string_len_chars(o1) == h.string_len_chars(o2) && same_bytes(h, o1, o2));
    }
    if h.is_vector_obj(o1) && h.is_vector_obj(o2) {
        let n = h.vector_len(o1);
        if n != h.vector_len(o2) {
            return Ok(false);
        }
        proof {
            assert(equal_in_spec(h, tabs.view(), o1, o2, depth as int) == vec_equal_spec(h, tabs.view(), h.vector_of(o1), h.vector_of(o2), 0, depth + 1));
        }
        let mut i: usize = 0;
        while i < n
            invariant
                h.wf(),
                tabs.wf(),
                tabs_values_ok(tabs, h),
                equal_in_spec(h, tabs.view(), o1, o2, depth as int) == vec_equal_spec(h, tabs.view(), h.vector_of(o1), h.vector_of(o2), 0, depth + 1),
                h.is_vector(o1),
                h.is_vector(o2),
                depth <= 200,
                n == h.vector_of(o1).len(),
                n == h.vector_of(o2).len(),
                i <= n,
                vec_equal_spec(h, tabs.view(), h.vector_of(o1), h.vector_of(o2), 0, depth + 1)
                    == vec_equal_spec(h, tabs.view(), h.vector_of(o1), h.vector_of(o2), i as nat, depth + 1),
            decreases n - i,
        {
            let e1 = h.vector_ref(o1, i);
            let e2 = h.vector_ref(o2, i);
            let r = rust_internal_equal(h, tabs, e1, e2, kind, depth + 1);
            proof {
                assert(vec_equal_spec(h, tabs.view(), h.vector_of(o1), h.vector_of(o2), i as nat, depth + 1) == match r {
                    Err(e) => Err(e),
                    Ok(false) => Ok(false),
                    Ok(true) => vec_equal_spec(h, tabs.view(), h.vector_of(o1), h.vector_of(o2), i as nat + 1, depth + 1),
                });
            }
            match r {
                Err(e) => return Err(e),
                Ok(false) => return Ok(false),
                Ok(true) => {},
            }
            i = i + 1;
        }
        return Ok(true);
    }
    if o1.is_cons() && o2.is_cons() {
        let mut it1 = iter_tails_safe(o1, Ghost(h.cdrs()));
        let mut it2 = iter_tails_safe(o2, Ghost(h.cdrs()));
        match internal_equal_cons(h, tabs, &mut it1, &mut it2, kind, depth) {
            Err(e) => return Err(e),
            Ok(Some(v)) => return Ok(v),
            Ok(None) => {
                let rest1 = it1.rest();
                let rest2 = it2.rest();
                let ghost cdrs = h.cdrs();
                proof {
                    lemma_walk_len(cdrs, o1);
                    lemma_walk_len(cdrs, o2);
                    let m = min_nat(walk_len(cdrs, o1), walk_len(cdrs, o2));
                    lemma_tail_valid(h, o1, m + 1);
                    lemma_tail_valid(h, o1, m);
                    lemma_tail_valid(h, o1, walk_len(cdrs, o1) + 1);
                    lemma_tail_valid(h, o1, walk_len(cdrs, o1));
                    lemma_tail_valid(h, o2, m + 1);
                    lemma_tail_valid(h, o2, m);
                    lemma_tail_valid(h, o2, walk_len(cdrs, o2) + 1);
                    lemma_tail_valid(h, o2, walk_len(cdrs, o2));
                }
                let next1 = match h.as_cons(rest1) {
                    None => rest1,
                    Some(c) => h.cdr(c),
                };
                let next2 = match h.as_cons(rest2) {
                    None => rest2,
                    Some(c) => h.cdr(c),
                };
                return rust_internal_equal(h, tabs, next1, next2, kind, depth + 1);
            },
        }
    }
    Ok(false)
}

/// The joint walk over two lists, comparing `car`s one level deeper.
fn internal_equal_cons(h: &LispHeap, tabs: &CharTables, it1: &mut TailsIter, it2: &mut TailsIter, kind: EqualKind, depth: i32) -> (r: Result<Option<bool>, LispError>)
    requires
        h.wf(),
        h.valid(old(it1).list()),
        h.valid(old(it2).list()),
        old(it1).inv(h.cdrs()),
        old(it2).inv(h.cdrs()),
        old(it1).steps() == 0,
        old(it2).steps() == 0,
        old(it1).errsym() is None,
        old(it2).errsym() is None,
        depth <= 200,
        tabs.wf(),
        tabs_values_ok(tabs, h),
    ensures
        r == cons_loop_spec(h, tabs.view(), old(it1).list(), old(it2).list(), depth as int, 0),
        r == Ok::<Option<bool>, LispError>(None) ==> {
            let m = min_nat(walk_len(h.cdrs(), old(it1).list()), walk_len(h.cdrs(), old(it2).list()));
            &&& final(it1).tail() == rest_after(h.cdrs(), old(it1).list(), m)
            &&& final(it2).tail() == rest_after(h.cdrs(), old(it2).list(), m)
        },
    decreases 201 - depth, 0int,
{
    let ghost cdrs = h.cdrs();
    let ghost l1 = it1.list();
    let ghost l2 = it2.list();
    proof {
        lemma_walk_len(cdrs, l1);
        lemma_walk_len(cdrs, l2);
    }
    loop
        invariant
            h.wf(),
            tabs.wf(),
            tabs_values_ok(tabs, h),
            cdrs == h.cdrs(),
            h.valid(l1),
            h.valid(l2),
            it1.inv(cdrs),
            it2.inv(cdrs),
            it1.list() == l1,
            it2.list() == l2,
            l1 == old(it1).list(),
            l2 == old(it2).list(),
            it1.errsym() is None,
            it2.errsym() is None,
            it1.steps() == it2.steps(),
            it1.steps() <= walk_len(cdrs, l1),
            it2.steps() <= walk_len(cdrs, l2),
            stops_at(cdrs, l1, walk_len(cdrs, l1)),
            stops_at(cdrs, l2, walk_len(cdrs, l2)),
            depth <= 200,
            cons_loop_spec(h, tabs.view(), l1, l2, depth as int, 0) == cons_loop_spec(h, tabs.view(), l1, l2, depth as int, it1.steps()),
        decreases walk_len(cdrs, l1) - it1.steps(),
    {
        proof {
            it1.lemma_inv(cdrs);
            it2.lemma_inv(cdrs);
        }
        let ghost m = it1.steps();
        let a = it1.next(h);
        let b = it2.next(h);
        match a {
            Ok(Some(item1)) => {
                proof {
                    it1.lemma_inv(cdrs);
                    lemma_after_yield(cdrs, l1, m, walk_len(cdrs, l1));
                }
                match b {
                    Ok(Some(item2)) => {
                        proof {
                            it2.lemma_inv(cdrs);
                            lemma_after_yield(cdrs, l2, m, walk_len(cdrs, l2));
                            lemma_tail_valid(h, l1, m);
                            lemma_tail_valid(h, l2, m);
                        }
                        let c1 = h.car(item1);
                        let c2 = h.car(item2);
                        match rust_internal_equal(h, tabs, c1, c2, kind, depth + 1) {
                            Err(e) => return Err(e),
                            Ok(false) => return Ok(Some(false)),
                            Ok(true) => {},
                        }
                        if h.cdr(item1).eq(h.cdr(item2)) {
                            return Ok(Some(true));
                        }
                    },
                    _ => {
                        proof {
                            lemma_stop_unique(cdrs, l2, m, walk_len(cdrs, l2));
                        }
                        return Ok(Some(false));
                    },
                }
            },
            _ => {
                proof {
                    lemma_stop_unique(cdrs, l1, m, walk_len(cdrs, l1));
                }
                match b {
                    Ok(Some(_)) => {
                        proof {
                            it2.lemma_inv(cdrs);
                            lemma_after_yield(cdrs, l2, m, walk_len(cdrs, l2));
                        }
                        return Ok(Some(false));
                    },
                    _ => {
                        proof {
                            lemma_stop_unique(cdrs, l2, m, walk_len(cdrs, l2));
                            lemma_break(h, tabs.view(), l1, l2, m, depth as int);
                        }
                        return Ok(None);
                    },
                }
            },
        }
    }
}

/// A yielded position comes before the walk's length.
proof fn lemma_after_yield(cdrs: Seq<LispObject>, l: LispObject, m: nat, len: nat)
    requires
        crate::tails::conses_before(cdrs, l, m + 1),
        crate::tails::no_detection(cdrs, l, m + 1),
        stops_at(cdrs, l, len),
    ensures
        m < len,
{
    if len <= m {
        assert(is_cons_at(cdrs, tail_at(cdrs, l, len)));
        assert(!crate::tails::detected_at(cdrs, l, len + 1));
    }
}

proof fn lemma_break(h: &LispHeap, tabs: Seq<LispCharTable>, l1: LispObject, l2: LispObject, m: nat, depth: int)
    requires
        m == walk_len(h.cdrs(), l1),
        m == walk_len(h.cdrs(), l2),
        depth <= 200,
    ensures
        cons_loop_spec(h, tabs, l1, l2, depth, m) == Ok::<Option<bool>, LispError>(None),
        m == min_nat(walk_len(h.cdrs(), l1), walk_len(h.cdrs(), l2)),
{
}


/// Two lists whose tails coincide at a position coincide from there on.
proof fn lemma_tails_meet(cdrs: Seq<LispObject>, l1: LispObject, l2: LispObject, a: nat, t: nat)
    requires
        tail_at(cdrs, l1, a) == tail_at(cdrs, l2, a),
    ensures
        tail_at(cdrs, l1, a + t) == tail_at(cdrs, l2, a + t),
    decreases t,
{
    if t > 0 {
        lemma_tails_meet(cdrs, l1, l2, a, (t - 1) as nat);
        assert(tail_at(cdrs, l1, a + t) == step(cdrs, tail_at(cdrs, l1, (a + t - 1) as nat)));
        assert(tail_at(cdrs, l2, a + t) == step(cdrs, tail_at(cdrs, l2, (a + t - 1) as nat)));
    }
}

/// The joint walk from position `m` over two lists that end after `k1`
/// and `k2` cells, `k1 != k2`, never finds them equal and never reaches
/// the end of both.
proof fn lemma_loop_unequal(h: &LispHeap, tabs: Seq<LispCharTable>, l1: LispObject, l2: LispObject, d: int, m: nat, k1: nat, k2: nat)
    requires
        k1 != k2,
        conses_before(h.cdrs(), l1, k1),
        !is_cons_at(h.cdrs(), tail_at(h.cdrs(), l1, k1)),
        conses_before(h.cdrs(), l2, k2),
        !is_cons_at(h.cdrs(), tail_at(h.cdrs(), l2, k2)),
        m <= k1,
        m <= k2,
    ensures
        cons_loop_spec(h, tabs, l1, l2, d, m) != Ok::<Option<bool>, LispError>(Some(true)),
        cons_loop_spec(h, tabs, l1, l2, d, m) != Ok::<Option<bool>, LispError>(None),
    decreases k1 + k2 - 2 * m,
{
    let cdrs = h.cdrs();
    lemma_ending_list_walk(cdrs, l1, k1);
    lemma_ending_list_walk(cdrs, l2, k2);
    lemma_walk_len(cdrs, l1);
    lemma_walk_len(cdrs, l2);
    lemma_stop_unique(cdrs, l1, k1, walk_len(cdrs, l1));
    lemma_stop_unique(cdrs, l2, k2, walk_len(cdrs, l2));
    if d <= 200 && m < k1 && m < k2 {
        let t1 = tail_at(cdrs, l1, m);
        let t2 = tail_at(cdrs, l2, m);
        assert(is_cons_at(cdrs, t1));
        assert(is_cons_at(cdrs, t2));
        if h.cdr_of(t1) == h.cdr_of(t2) {
            assert(tail_at(cdrs, l1, m + 1) == step(cdrs, t1));
            assert(tail_at(cdrs, l2, m + 1) == step(cdrs, t2));
            if k1 < k2 {
                lemma_tails_meet(cdrs, l1, l2, m + 1, (k1 - m - 1) as nat);
                assert(is_cons_at(cdrs, tail_at(cdrs, l2, k1)));
            } else {
                lemma_tails_meet(cdrs, l1, l2, m + 1, (k2 - m - 1) as nat);
                assert(is_cons_at(cdrs, tail_at(cdrs, l1, k2)));
            }
        } else {
            lemma_loop_unequal(h, tabs, l1, l2, d, m + 1, k1, k2);
        }
    }
}

/// A law of `equal`: of two lists that end (in `nil` or any other value
/// that is not a cons cell) after different numbers of cells, neither is
/// `equal` to the other; a list is never `equal` to a longer list with
/// the same first elements.  Comparing them gives `false`, or an error
/// met while comparing their elements.
pub proof fn lemma_lists_of_different_lengths_differ(
    h: &LispHeap,
    tabs: Seq<LispCharTable>,
    l1: LispObject,
    l2: LispObject,
    k1: nat,
    k2: nat,
    depth: int,
)
    requires
        k1 != k2,
        conses_before(h.cdrs(), l1, k1),
        !is_cons_at(h.cdrs(), tail_at(h.cdrs(), l1, k1)),
        conses_before(h.cdrs(), l2, k2),
        !is_cons_at(h.cdrs(), tail_at(h.cdrs(), l2, k2)),
    ensures
        equal_in_spec(h, tabs, l1, l2, depth) != Ok::<bool, LispError>(true),
{
    let cdrs = h.cdrs();
    if k1 > 0 && k2 > 0 {
        assert(is_cons_at(cdrs, tail_at(cdrs, l1, 0)));
        assert(is_cons_at(cdrs, tail_at(cdrs, l2, 0)));
        lemma_loop_unequal(h, tabs, l1, l2, depth, 0, k1, k2);
    } else if k1 == 0 {
        assert(is_cons_at(cdrs, tail_at(cdrs, l2, 0)));
    } else {
        assert(is_cons_at(cdrs, tail_at(cdrs, l1, 0)));
    }
}

/// The elements from index `i` on of two sequences of the same length are
/// pairwise `equal` at depth `d` exactly when `vec_equal_spec` says so.
proof fn lemma_vec_equal_all(h: &LispHeap, tabs: Seq<LispCharTable>, e1: Seq<LispObject>, e2: Seq<LispObject>, i: nat, d: int)
    requires
        e1.len() == e2.len(),
        d <= 200,
        i <= e1.len(),
    ensures
        (vec_equal_spec(h, tabs, e1, e2, i, d) == Ok::<bool, LispError>(true)) == (forall|k: int|
            i <= k < e1.len() ==> #[trigger] equal_in_spec(h, tabs, e1[k], e2[k], d) == Ok::<bool, LispError>(true)),
    decreases e1.len() - i,
{
    if i < e1.len() {
        lemma_vec_equal_all(h, tabs, e1, e2, i + 1, d);
        let first = equal_in_spec(h, tabs, e1[i as int], e2[i as int], d);
        if first == Ok::<bool, LispError>(true) {
            // With the first pair equal, all pairs from `i` on are equal
            // when all pairs from `i + 1` on are.
            assert((forall|k: int| i <= k < e1.len() ==> #[trigger] equal_in_spec(h, tabs, e1[k], e2[k], d)
                == Ok::<bool, LispError>(true)) == (forall|k: int|
                i + 1 <= k < e1.len() ==> #[trigger] equal_in_spec(h, tabs, e1[k], e2[k], d) == Ok::<
                    bool,
                    LispError,
                >(true)));
        }
    }
}

/// A law of `equal` on vectors: two vectors of the heap are `equal` (below
/// the depth limit) exactly when they have the same length and the
/// elements at each index are `equal` one level deeper.  So two vectors
/// that differ at any index, the first included, are not `equal`.
pub proof fn lemma_equal_vectors(h: &LispHeap, tabs: Seq<LispCharTable>, v1: LispObject, v2: LispObject, depth: int)
    requires
        h.wf(),
        h.is_vector(v1),
        h.is_vector(v2),
        depth < 200,
    ensures
        (equal_in_spec(h, tabs, v1, v2, depth) == Ok::<bool, LispError>(true)) == (h.vector_of(v1).len()
            == h.vector_of(v2).len() && forall|i: int|
            0 <= i < h.vector_of(v1).len() ==> #[trigger] equal_in_spec(
                h,
                tabs,
                h.vector_of(v1)[i],
                h.vector_of(v2)[i],
                depth + 1,
            ) == Ok::<bool, LispError>(true)),
{
    let e1 = h.vector_of(v1);
    let e2 = h.vector_of(v2);
    assert(char_table_index(tabs.len() as int, v1) is None);
    if v1 == v2 {
        assert forall|i: int| 0 <= i < e1.len() implies #[trigger] equal_in_spec(h, tabs, e1[i], e2[i], depth + 1)
            == Ok::<bool, LispError>(true) by {
            lemma_equal_reflexive(h, tabs, e1[i], depth + 1);
        }
    } else if e1.len() == e2.len() {
        lemma_vec_equal_all(h, tabs, e1, e2, 0, depth + 1);
    }
}

/// A cons cell whose `cdr` is not the cell itself gives its walk at least
/// one cell.
proof fn lemma_walk_len_positive(h: &LispHeap, l: LispObject)
    requires
        h.is_cons(l),
        h.cdr_of(l) != l,
    ensures
        walk_len(h.cdrs(), l) >= 1,
{
    let cdrs = h.cdrs();
    lemma_walk_len(cdrs, l);
    if walk_len(cdrs, l) == 0 {
        assert(is_cons_at(cdrs, tail_at(cdrs, l, 0)));
        assert(tail_at(cdrs, l, 1) == h.cdr_of(l));
        assert(crate::tails::detected_at(cdrs, l, 1));
        let j = choose|j: nat|
            #![trigger crate::tails::reset_pos(j + 1), tail_at(cdrs, l, crate::tails::reset_pos(j))]
            crate::tails::reset_pos(j) < 1 < crate::tails::reset_pos(j + 1) && tail_at(cdrs, l, 1) == tail_at(
                cdrs,
                l,
                crate::tails::reset_pos(j),
            );
        assert(crate::tails::reset_pos(j) == 0);
    }
}

/// A law of `equal` on conses: two cons cells (each not its own `cdr`)
/// are `equal` (below the depth limit) only when their `car`s are `equal`
/// one level deeper; lists that differ in their first element are not
/// `equal`.
pub proof fn lemma_equal_conses_cars(h: &LispHeap, tabs: Seq<LispCharTable>, c1: LispObject, c2: LispObject, depth: int)
    requires
        h.wf(),
        h.is_cons(c1),
        h.is_cons(c2),
        h.cdr_of(c1) != c1,
        h.cdr_of(c2) != c2,
        depth < 200,
    ensures
        equal_in_spec(h, tabs, c1, c2, depth) == Ok::<bool, LispError>(true) ==> equal_in_spec(
            h,
            tabs,
            h.car_of(c1),
            h.car_of(c2),
            depth + 1,
        ) == Ok::<bool, LispError>(true),
{
    if c1 == c2 {
        lemma_equal_reflexive(h, tabs, h.car_of(c1), depth + 1);
    } else {
        lemma_walk_len_positive(h, c1);
        lemma_walk_len_positive(h, c2);
        assert(char_table_index(tabs.len() as int, c1) is None);
        assert(car_at(h, c1, 0) == h.car_of(c1));
        assert(car_at(h, c2, 0) == h.car_of(c2));
        let first = equal_in_spec(h, tabs, h.car_of(c1), h.car_of(c2), depth + 1);
        if first != Ok::<bool, LispError>(true) {
            assert(cons_loop_spec(h, tabs, c1, c2, depth, 0) != Ok::<Option<bool>, LispError>(None));
            assert(cons_loop_spec(h, tabs, c1, c2, depth, 0) != Ok::<Option<bool>, LispError>(Some(true)));
            assert(!h.is_string(c1) && !h.is_vector(c1));
        }
    }
}

/// `equal` of any value with itself holds (within the depth limit).
pub proof fn lemma_equal_reflexive(h: &LispHeap, tabs: Seq<LispCharTable>, o: LispObject, depth: int)
    requires
        depth <= 200,
    ensures
        equal_in_spec(h, tabs, o, o, depth) == Ok::<bool, LispError>(true),
{
}

/// `equal` is symmetric: comparing `a` with `b` gives what comparing `b`
/// with `a` gives, errors included, char tables among the values or not.
pub proof fn lemma_equal_symmetric(h: &LispHeap, tabs: Seq<LispCharTable>, a: LispObject, b: LispObject, depth: int)
    ensures
        equal_in_spec(h, tabs, a, b, depth) == equal_in_spec(h, tabs, b, a, depth),
    decreases 201 - depth, 2int, 0int,
{
    let n = tabs.len() as int;
    if depth > 200 || a == b {
    } else if char_table_index(n, a) is Some && char_table_index(n, b) is Some {
        lemma_tab_equal_symmetric(
            tabs,
            h,
            char_table_index(n, a).unwrap() as int,
            char_table_index(n, b).unwrap() as int,
            depth,
        );
    } else if h.is_string(a) && h.is_string(b) {
    } else if h.is_vector(a) && h.is_vector(b) {
        if h.vector_of(a).len() == h.vector_of(b).len() {
            lemma_vec_equal_symmetric(h, tabs, h.vector_of(a), h.vector_of(b), 0, depth + 1);
        }
    } else if h.is_cons(a) && h.is_cons(b) {
        let cdrs = h.cdrs();
        lemma_cons_loop_symmetric(h, tabs, a, b, depth, 0);
        let m = min_nat(walk_len(cdrs, a), walk_len(cdrs, b));
        assert(m == min_nat(walk_len(cdrs, b), walk_len(cdrs, a)));
        lemma_equal_symmetric(h, tabs, step(cdrs, rest_after(cdrs, a, m)), step(cdrs, rest_after(cdrs, b, m)), depth + 1);
    }
}

proof fn lemma_vec_equal_symmetric(h: &LispHeap, tabs: Seq<LispCharTable>, e1: Seq<LispObject>, e2: Seq<LispObject>, i: nat, d: int)
    requires
        e1.len() == e2.len(),
    ensures
        vec_equal_spec(h, tabs, e1, e2, i, d) == vec_equal_spec(h, tabs, e2, e1, i, d),
    decreases 202 - d, 1int, e1.len() - i,
{
    if d > 201 || i >= e1.len() {
    } else {
        lemma_equal_symmetric(h, tabs, e1[i as int], e2[i as int], d);
        lemma_vec_equal_symmetric(h, tabs, e1, e2, i + 1, d);
    }
}

proof fn lemma_cons_loop_symmetric(h: &LispHeap, tabs: Seq<LispCharTable>, l1: LispObject, l2: LispObject, depth: int, m: nat)
    ensures
        cons_loop_spec(h, tabs, l1, l2, depth, m) == cons_loop_spec(h, tabs, l2, l1, depth, m),
    decreases 201 - depth, 1int, walk_len(h.cdrs(), l1) - m,
{
    let cdrs = h.cdrs();
    if depth > 200 {
    } else if m < walk_len(cdrs, l1) && m < walk_len(cdrs, l2) {
        lemma_equal_symmetric(h, tabs, car_at(h, l1, m), car_at(h, l2, m), depth + 1);
        lemma_cons_loop_symmetric(h, tabs, l1, l2, depth, m + 1);
    }
}

proof fn lemma_tab_equal_symmetric(tabs: Seq<LispCharTable>, h: &LispHeap, a: int, b: int, d: int)
    ensures
        tab_equal(tabs, h, a, b, d) == tab_equal(tabs, h, b, a, d),
    decreases 201 - d, 1int, 0int,
{
    let t1 = tabs[a];
    let t2 = tabs[b];
    let size1 = t1.size & PSEUDOVECTOR_SIZE_MASK;
    let size2 = t2.size & PSEUDOVECTOR_SIZE_MASK;
    if size1 != size2 || d + 1 > 200 {
    } else {
        let extras = if size1 > 68 {
            size1 - 68
        } else {
            0
        };
        let n = if size1 > 68 {
            64
        } else {
            size1 - 4
        };
        lemma_tab_value_eq_symmetric(tabs, h, t1.defalt, t2.defalt, d + 1);
        lemma_tab_value_eq_symmetric(tabs, h, t1.parent, t2.parent, d + 1);
        lemma_tab_value_eq_symmetric(tabs, h, t1.purpose, t2.purpose, d + 1);
        lemma_slot_eq_symmetric(tabs, h, t1.ascii, t2.ascii, d + 1);
        lemma_slots_eq_symmetric(tabs, h, t1.contents@, t2.contents@, 0, n as int, d + 1);
        lemma_values_eq_symmetric(tabs, h, t1.extras@, t2.extras@, 0, extras as int, d + 1);
    }
}

proof fn lemma_tab_value_eq_symmetric(tabs: Seq<LispCharTable>, h: &LispHeap, v1: LispObject, v2: LispObject, d: int)
    ensures
        tab_value_eq(tabs, h, v1, v2, d) == tab_value_eq(tabs, h, v2, v1, d),
    decreases 201 - d, 3int, 0int,
{
    let n = tabs.len() as int;
    if d > 200 || v1 == v2 {
    } else {
        match (char_table_index(n, v1), char_table_index(n, v2)) {
            (Some(a), Some(b)) => {
                lemma_tab_equal_symmetric(tabs, h, a as int, b as int, d);
            },
            (None, None) => {
                lemma_equal_symmetric(h, tabs, v1, v2, d);
            },
            _ => {},
        }
    }
}

proof fn lemma_slot_eq_symmetric(tabs: Seq<LispCharTable>, h: &LispHeap, x: ChartabSlot, y: ChartabSlot, d: int)
    ensures
        slot_eq(tabs, h, x, y, d) == slot_eq(tabs, h, y, x, d),
    decreases 201 - d, 4int, 0int,
{
    match (x, y) {
        (ChartabSlot::Value(v1), ChartabSlot::Value(v2)) => {
            lemma_tab_value_eq_symmetric(tabs, h, v1, v2, d);
        },
        (ChartabSlot::Sub(s1), ChartabSlot::Sub(s2)) => {
            if d <= 200 {
                lemma_sub_equal_symmetric(tabs, h, s1, s2, d);
            }
        },
        _ => {},
    }
}

proof fn lemma_slots_eq_symmetric(
    tabs: Seq<LispCharTable>,
    h: &LispHeap,
    s1: Seq<ChartabSlot>,
    s2: Seq<ChartabSlot>,
    i: int,
    n: int,
    d: int,
)
    ensures
        slots_eq(tabs, h, s1, s2, i, n, d) == slots_eq(tabs, h, s2, s1, i, n, d),
    decreases 201 - d, 5int, n - i,
{
    if i < n {
        lemma_slot_eq_symmetric(tabs, h, s1[i], s2[i], d);
        lemma_slots_eq_symmetric(tabs, h, s1, s2, i + 1, n, d);
    }
}

proof fn lemma_values_eq_symmetric(
    tabs: Seq<LispCharTable>,
    h: &LispHeap,
    e1: Seq<LispObject>,
    e2: Seq<LispObject>,
    i: int,
    n: int,
    d: int,
)
    ensures
        values_eq(tabs, h, e1, e2, i, n, d) == values_eq(tabs, h, e2, e1, i, n, d),
    decreases 201 - d, 5int, n - i,
{
    if i < n {
        lemma_tab_value_eq_symmetric(tabs, h, e1[i], e2[i], d);
        lemma_values_eq_symmetric(tabs, h, e1, e2, i + 1, n, d);
    }
}

proof fn lemma_sub_equal_symmetric(tabs: Seq<LispCharTable>, h: &LispHeap, s1: LispSubCharTable, s2: LispSubCharTable, d: int)
    ensures
        sub_equal(tabs, h, s1, s2, d) == sub_equal(tabs, h, s2, s1, d),
    decreases 201 - d, 1int, 0int,
{
    if s1.contents@.len() != s2.contents@.len() || s1.depth != s2.depth || s1.min_char != s2.min_char || d + 1 > 200 {
    } else {
        lemma_slots_eq_symmetric(tabs, h, s1.contents@, s2.contents@, 0, s1.contents@.len() as int, d + 1);
    }
}

} // verus!
