//! Walking the tails of a list, with Brent's cycle detection.
//!
//! The walk keeps a "tortoise": the tail at the start of the current
//! window.  Windows double in length; at every step of a window but the
//! last, the new tail is compared with the tortoise, and equality means
//! the list is circular.  At the last step the tortoise moves to the
//! current tail and the next window starts.  Window `j` starts at step
//! `2^(j+1) - 2` and lasts `2^(j+1)` steps.
use vstd::prelude::*;

use crate::error::{LispError, TypePredicate};
use crate::heap::{is_cons_word, lemma_tail_valid, obj_index, step, tail_at, LispCons, LispHeap, MAX_OBJECTS};
use crate::tag::{word_address, word_tag, LispObject};

verus! {

/// `2^j`.
pub open spec fn two_pow(j: nat) -> nat
    decreases j,
{
    if j == 0 {
        1
    } else {
        2 * two_pow((j - 1) as nat)
    }
}

/// The step at which window `j` starts (and its tortoise is taken).
pub open spec fn reset_pos(j: nat) -> nat {
    (two_pow(j + 1) - 2) as nat
}

/// Whether `o` refers to a cons cell, given the `cdr`s of the heap.
pub open spec fn is_cons_at(cdrs: Seq<LispObject>, o: LispObject) -> bool {
    is_cons_word(o.0) && 0 <= obj_index(o.0) < cdrs.len()
}

/// Whether step `s` of the walk over `l` is a comparison step that finds
/// the tail equal to the tortoise.
pub open spec fn detected_at(cdrs: Seq<LispObject>, l: LispObject, s: nat) -> bool {
    exists|j: nat|
        #![trigger reset_pos(j + 1), tail_at(cdrs, l, reset_pos(j))]
        reset_pos(j) < s < reset_pos(j + 1) && tail_at(cdrs, l, s) == tail_at(cdrs, l, reset_pos(j))
}

/// No step from 1 to `k` detects a cycle.
pub open spec fn no_detection(cdrs: Seq<LispObject>, l: LispObject, k: nat) -> bool {
    forall|s: nat| 1 <= s <= k ==> !#[trigger] detected_at(cdrs, l, s)
}

/// The tails at positions `0..k` are all cons cells.
pub open spec fn conses_before(cdrs: Seq<LispObject>, l: LispObject, k: nat) -> bool {
    forall|m: nat| m < k ==> is_cons_at(cdrs, #[trigger] tail_at(cdrs, l, m))
}

/// The walk over `l` yields exactly the tails at positions `0..len`: all of
/// them are cons cells and no cycle is detected up to `len`, and then either
/// the tail at `len` is not a cons cell (the list ends there) or the step
/// that leaves it detects a cycle.
pub open spec fn stops_at(cdrs: Seq<LispObject>, l: LispObject, len: nat) -> bool {
    &&& conses_before(cdrs, l, len)
    &&& no_detection(cdrs, l, len)
    &&& (!is_cons_at(cdrs, tail_at(cdrs, l, len)) || detected_at(cdrs, l, len + 1))
}

/// Every tail of `l` is a cons cell: the list never ends.
pub open spec fn is_circular(cdrs: Seq<LispObject>, l: LispObject) -> bool {
    forall|m: nat| is_cons_at(cdrs, #[trigger] tail_at(cdrs, l, m))
}

/// Steps left in the current window, read off the two counters.
pub open spec fn window_left(q: u16, n: isize) -> int {
    if q == 0 {
        65536 * n
    } else if n <= 0 {
        q as int
    } else {
        q + 65536 * (n - 1)
    }
}

proof fn lemma_two_pow_pos(j: nat)
    ensures
        two_pow(j) >= 1,
    decreases j,
{
    if j > 0 {
        lemma_two_pow_pos((j - 1) as nat);
    }
}

proof fn lemma_two_pow_increases(a: nat, b: nat)
    requires
        a < b,
    ensures
        two_pow(a) < two_pow(b),
        2 * two_pow(a) <= two_pow(b),
    decreases b,
{
    lemma_two_pow_pos(a);
    if b > a + 1 {
        lemma_two_pow_increases(a, (b - 1) as nat);
    }
}

proof fn lemma_reset_pos_increases(a: nat, b: nat)
    requires
        a < b,
    ensures
        reset_pos(a + 1) <= reset_pos(b),
        reset_pos(a) < reset_pos(b),
{
    lemma_two_pow_pos(a + 1);
    if a + 1 < b {
        lemma_two_pow_increases(a + 1, b + 1);
    }
    lemma_two_pow_increases(a + 1, b + 1);
}

/// Powers of two from 2^16 on are multiples of 2^16.
proof fn lemma_two_pow_big(j: nat)
    requires
        two_pow(j) >= 65536,
    ensures
        two_pow(j) % 65536 == 0,
        j >= 16,
    decreases j,
{
    reveal_with_fuel(two_pow, 17);
    assert(two_pow(15) == 32768);
    assert(two_pow(16) == 65536);
    if j <= 15 {
        if j < 15 {
            lemma_two_pow_increases(j, 15);
        }
        assert(false);
    } else if j == 16 {
    } else {
        let p = two_pow((j - 1) as nat);
        if j - 1 > 16 {
            lemma_two_pow_increases(16, (j - 1) as nat);
        }
        lemma_two_pow_big((j - 1) as nat);
        assert(two_pow(j) == 2 * p);
    }
}

/// The two window starts around a step are unique: a step lies strictly
/// inside at most one window.
proof fn lemma_window_unique(j1: nat, j2: nat, s: nat)
    requires
        reset_pos(j1) < s < reset_pos(j1 + 1),
        reset_pos(j2) < s < reset_pos(j2 + 1),
    ensures
        j1 == j2,
{
    if j1 < j2 {
        lemma_reset_pos_increases(j1, j2);
    } else if j2 < j1 {
        lemma_reset_pos_increases(j2, j1);
    }
}

/// A window start is inside no window.
proof fn lemma_reset_not_inside(j1: nat, j2: nat)
    ensures
        !(reset_pos(j2) < reset_pos(j1) < reset_pos(j2 + 1)),
{
    if j2 < j1 {
        lemma_reset_pos_increases(j2, j1);
    } else if j1 < j2 {
        lemma_reset_pos_increases(j1, j2);
    }
}

/// Once two tails coincide, the walks from them coincide.
pub proof fn lemma_tail_periodic(cdrs: Seq<LispObject>, l: LispObject, a: nat, b: nat, t: nat)
    requires
        tail_at(cdrs, l, a) == tail_at(cdrs, l, b),
    ensures
        tail_at(cdrs, l, a + t) == tail_at(cdrs, l, b + t),
    decreases t,
{
    if t > 0 {
        lemma_tail_periodic(cdrs, l, a, b, (t - 1) as nat);
        assert(tail_at(cdrs, l, a + t) == step(cdrs, tail_at(cdrs, l, (a + t - 1) as nat)));
        assert(tail_at(cdrs, l, b + t) == step(cdrs, tail_at(cdrs, l, (b + t - 1) as nat)));
    }
}

/// Pigeonhole: `n + 1` values below `n` hold a repetition.
pub(crate) proof fn lemma_pigeonhole(f: spec_fn(nat) -> nat, n: nat) -> (r: (nat, nat))
    requires
        forall|i: nat| i <= n ==> #[trigger] f(i) < n,
    ensures
        r.0 < r.1 <= n,
        f(r.0) == f(r.1),
    decreases n,
{
    if n == 0 {
        assert(f(0) < 0);
        (0, 0)
    } else {
        let v = f(n);
        if exists|i: nat| i < n && #[trigger] f(i) == v {
            let i = choose|i: nat| i < n && #[trigger] f(i) == v;
            (i, n)
        } else {
            let g = |i: nat| if f(i) == (n - 1) as nat { v } else { f(i) };
            assert forall|i: nat| i <= (n - 1) as nat implies #[trigger] g(i) < (n - 1) as nat by {
                assert(f(i) < n);
                if f(i) == (n - 1) as nat {
                    assert(f(i) != v);
                } else {
                    assert(f(i) != v);
                }
            }
            let (a, b) = lemma_pigeonhole(g, (n - 1) as nat);
            if f(a) == (n - 1) as nat && f(b) != (n - 1) as nat {
                assert(f(b) == v);
                assert(false);
            } else if f(b) == (n - 1) as nat && f(a) != (n - 1) as nat {
                assert(f(a) == v);
                assert(false);
            }
            (a, b)
        }
    }
}

/// Two words with the same tag and the same address are the same word.
proof fn lemma_word_eq(a: i64, b: i64)
    requires
        word_tag(a) == word_tag(b),
        word_address(a) == word_address(b),
    ensures
        a == b,
{
    let x = a as u64;
    let y = b as u64;
    assert(x == y) by (bit_vector)
        requires
            x & 7 == y & 7,
            x & 0xffff_ffff_ffff_fff8 == y & 0xffff_ffff_ffff_fff8,
    ;
    assert(a == b) by (bit_vector)
        requires
            (a as u64) == (b as u64),
    ;
}

/// A walk over `N` cons cells that has gone through `N + 1` cons cells
/// has met some cell twice.
proof fn lemma_walk_repeats(cdrs: Seq<LispObject>, l: LispObject) -> (r: (nat, nat))
    requires
        conses_before(cdrs, l, cdrs.len() + 1),
    ensures
        r.0 < r.1 <= cdrs.len(),
        tail_at(cdrs, l, r.0) == tail_at(cdrs, l, r.1),
{
    let n = cdrs.len();
    let f = |m: nat| obj_index(tail_at(cdrs, l, m).0) as nat;
    assert forall|i: nat| i <= n implies #[trigger] f(i) < n by {
        assert(is_cons_at(cdrs, tail_at(cdrs, l, i)));
    }
    let (a, b) = lemma_pigeonhole(f, n);
    let wa = tail_at(cdrs, l, a).0;
    let wb = tail_at(cdrs, l, b).0;
    assert(is_cons_at(cdrs, tail_at(cdrs, l, a)));
    assert(is_cons_at(cdrs, tail_at(cdrs, l, b)));
    assert(word_address(wa) / 8 == word_address(wb) / 8);
    assert(word_address(wa) % 8 == 0 && word_address(wb) % 8 == 0) by {
        assert((wa as u64) & 0xffff_ffff_ffff_fff8 == ((wa as u64) & 0xffff_ffff_ffff_fff8) / 8 * 8)
            by (bit_vector);
        assert((wb as u64) & 0xffff_ffff_ffff_fff8 == ((wb as u64) & 0xffff_ffff_ffff_fff8) / 8 * 8)
            by (bit_vector);
    }
    lemma_word_eq(wa, wb);
    (a, b)
}

/// A power of two between `n` and `2n` (exclusive) for `n >= 1`.
proof fn lemma_find_window(n: nat) -> (j: nat)
    requires
        n >= 2,
    ensures
        n <= two_pow(j + 1) < 2 * n,
    decreases n,
{
    if n <= 2 {
        assert(two_pow(1) == 2) by {
            reveal_with_fuel(two_pow, 2);
        }
        0
    } else {
        let j0 = lemma_find_window(((n + 1) / 2) as nat);
        assert(two_pow(j0 + 2) == 2 * two_pow(j0 + 1));
        if two_pow(j0 + 1) >= n {
            j0
        } else {
            j0 + 1
        }
    }
}

/// The walk cannot go on for more than `3N + 2` steps over a heap of `N`
/// cons cells without detecting a cycle.
pub proof fn lemma_walk_bound(cdrs: Seq<LispObject>, l: LispObject, k: nat)
    requires
        conses_before(cdrs, l, k),
        no_detection(cdrs, l, k),
    ensures
        k <= 3 * cdrs.len() + 2,
{
    let n = cdrs.len();
    if k > n + 1 {
        assert(conses_before(cdrs, l, n + 1)) by {
            assert forall|m: nat| m < n + 1 implies is_cons_at(cdrs, #[trigger] tail_at(cdrs, l, m)) by {
                assert(m < k);
            }
        }
        let (i, i2) = lemma_walk_repeats(cdrs, l);
        let lam = (i2 - i) as nat;
        let j = lemma_find_window(n + 2);
        let r = reset_pos(j);
        assert(r >= n);
        assert(reset_pos(j + 1) == 2 * two_pow(j + 1) - 2);
        let s = r + lam;
        assert(r < s < reset_pos(j + 1));
        lemma_tail_periodic(cdrs, l, i, i2, (r - i) as nat);
        assert(tail_at(cdrs, l, r) == tail_at(cdrs, l, s));
        if s <= k {
            assert(detected_at(cdrs, l, s));
            assert(false);
        }
    }
}

/// A detected cycle is a real one: the list never ends.
pub proof fn lemma_detection_sound(cdrs: Seq<LispObject>, l: LispObject, s: nat)
    requires
        conses_before(cdrs, l, s),
        detected_at(cdrs, l, s),
    ensures
        is_circular(cdrs, l),
{
    let j = choose|j: nat|
        #![trigger reset_pos(j + 1), tail_at(cdrs, l, reset_pos(j))]
        reset_pos(j) < s < reset_pos(j + 1) && tail_at(cdrs, l, s) == tail_at(cdrs, l, reset_pos(j));
    let r = reset_pos(j);
    let lam = (s - r) as nat;
    assert forall|m: nat| is_cons_at(cdrs, #[trigger] tail_at(cdrs, l, m)) by {
        lemma_circular_at(cdrs, l, r, lam, s, m);
    }
}

pub(crate) proof fn lemma_circular_at(cdrs: Seq<LispObject>, l: LispObject, r: nat, lam: nat, s: nat, m: nat)
    requires
        conses_before(cdrs, l, s),
        s == r + lam,
        lam >= 1,
        tail_at(cdrs, l, r) == tail_at(cdrs, l, s),
    ensures
        is_cons_at(cdrs, tail_at(cdrs, l, m)),
    decreases m,
{
    if m >= s {
        let m2 = (m - lam) as nat;
        lemma_circular_at(cdrs, l, r, lam, s, m2);
        lemma_tail_periodic(cdrs, l, r, s, (m2 - r) as nat);
    } else {
        assert(m < s);
    }
}


/// Every walk stops: some position is where it ends or detects a cycle.
pub proof fn lemma_walk_stops(cdrs: Seq<LispObject>, l: LispObject) -> (len: nat)
    ensures
        stops_at(cdrs, l, len),
{
    lemma_walk_stops_from(cdrs, l, 0)
}

proof fn lemma_walk_stops_from(cdrs: Seq<LispObject>, l: LispObject, k: nat) -> (len: nat)
    requires
        conses_before(cdrs, l, k),
        no_detection(cdrs, l, k),
    ensures
        stops_at(cdrs, l, len),
    decreases 3 * cdrs.len() + 3 - k,
{
    lemma_walk_bound(cdrs, l, k);
    if !is_cons_at(cdrs, tail_at(cdrs, l, k)) || detected_at(cdrs, l, k + 1) {
        k
    } else {
        assert(conses_before(cdrs, l, k + 1)) by {
            assert forall|m: nat| m < k + 1 implies is_cons_at(cdrs, #[trigger] tail_at(cdrs, l, m)) by {
                if m < k {
                }
            }
        }
        assert(no_detection(cdrs, l, k + 1));
        lemma_walk_stops_from(cdrs, l, k + 1)
    }
}

/// The position where a walk stops is unique.
pub proof fn lemma_stop_unique(cdrs: Seq<LispObject>, l: LispObject, a: nat, b: nat)
    requires
        stops_at(cdrs, l, a),
        stops_at(cdrs, l, b),
    ensures
        a == b,
{
    if a < b {
        assert(is_cons_at(cdrs, tail_at(cdrs, l, a)));
        assert(!detected_at(cdrs, l, a + 1));
    } else if b < a {
        assert(is_cons_at(cdrs, tail_at(cdrs, l, b)));
        assert(!detected_at(cdrs, l, b + 1));
    }
}


/// A law of the walk over a list that ends, `(a1 ... ak . x)` with `x`
/// not a cons cell: the walk yields exactly its `k` cells, in order, and
/// stops at `x`, never taking it for a cycle.
pub proof fn lemma_ending_list_walk(cdrs: Seq<LispObject>, l: LispObject, k: nat)
    requires
        conses_before(cdrs, l, k),
        !is_cons_at(cdrs, tail_at(cdrs, l, k)),
    ensures
        stops_at(cdrs, l, k),
{
    assert forall|s: nat| 1 <= s <= k implies !#[trigger] detected_at(cdrs, l, s) by {
        if detected_at(cdrs, l, s) {
            assert forall|m: nat| m < s implies is_cons_at(cdrs, #[trigger] tail_at(cdrs, l, m)) by {}
            lemma_detection_sound(cdrs, l, s);
            assert(is_cons_at(cdrs, tail_at(cdrs, l, k)));
        }
    }
}

/// A law of the walk over a circular list: it stops after at most
/// `3N + 2` cells, `N` the cells of the heap, with the cycle detected at
/// the next step.
pub proof fn lemma_circular_list_walk(cdrs: Seq<LispObject>, l: LispObject) -> (len: nat)
    requires
        is_circular(cdrs, l),
    ensures
        stops_at(cdrs, l, len),
        len <= 3 * cdrs.len() + 2,
        is_cons_at(cdrs, tail_at(cdrs, l, len)),
        detected_at(cdrs, l, len + 1),
{
    let len = lemma_walk_stops(cdrs, l);
    assert(is_cons_at(cdrs, tail_at(cdrs, l, len)));
    lemma_walk_bound(cdrs, l, len);
    len
}

/// An iterator over the tails (cons cells) of a list.
pub struct TailsIter {
    list: LispObject,
    errsym: Option<TypePredicate>,
    tail: LispObject,
    tortoise: LispObject,
    max: isize,
    n: isize,
    q: u16,
    steps: Ghost<nat>,
    window: Ghost<nat>,
}

/// What one step of the walk does: from the state `before` to the state
/// `after`, with the result `r`.  A cell is yielded while the walk goes
/// on; at its end the walk stops quietly, or signals when it has an error
/// predicate: `wrong-type-argument` for an improper end, `circular-list`
/// for a detected cycle.
pub open spec fn next_post(
    h: &LispHeap,
    before: TailsIter,
    after: TailsIter,
    r: Result<Option<LispCons>, LispError>,
) -> bool {
    &&& after.list() == before.list()
    &&& after.errsym() == before.errsym()
    &&& match r {
        Ok(Some(c)) => {
            &&& c.0 == before.tail()
            &&& h.is_cons(c.0)
            &&& after.steps() == before.steps() + 1
            &&& after.inv(h.cdrs())
        },
        Ok(None) => {
            &&& stops_at(h.cdrs(), before.list(), before.steps())
            &&& (!h.is_cons(before.tail()) ==> after.tail() == before.tail())
            &&& (h.is_cons(before.tail()) ==> after.tail() == tail_at(
                h.cdrs(),
                before.list(),
                before.steps() + 1,
            ))
            &&& (!h.is_cons(before.tail()) ==> (before.errsym() is None || before.tail().0 == 0))
            &&& (h.is_cons(before.tail()) ==> before.errsym() is None)
        },
        Err(e) => {
            &&& stops_at(h.cdrs(), before.list(), before.steps())
            &&& (!h.is_cons(before.tail()) ==> after.tail() == before.tail())
            &&& (h.is_cons(before.tail()) ==> after.tail() == tail_at(
                h.cdrs(),
                before.list(),
                before.steps() + 1,
            ))
            &&& before.errsym() is Some
            &&& (!h.is_cons(before.tail()) ==> before.tail().0 != 0 && e == LispError::WrongType(
                before.errsym().unwrap(), before.list()))
            &&& (h.is_cons(before.tail()) ==> e == LispError::CircularList(
                tail_at(h.cdrs(), before.list(), before.steps() + 1)))
        },
    }
}

impl TailsIter {
    /// The list being walked.
    pub closed spec fn list(&self) -> LispObject {
        self.list
    }

    /// The predicate to signal on an improper end, or none for a walk
    /// that stops quietly.
    pub closed spec fn errsym(&self) -> Option<TypePredicate> {
        self.errsym
    }

    /// The number of tails yielded so far.
    pub closed spec fn steps(&self) -> nat {
        self.steps@
    }

    /// The current tail.
    pub closed spec fn tail(&self) -> LispObject {
        self.tail
    }

    /// The walk is consistent with the `cdr`s of the heap.
    pub closed spec fn inv(&self, cdrs: Seq<LispObject>) -> bool {
        let k = self.steps@;
        let j = self.window@;
        let max = two_pow(j + 1);
        &&& cdrs.len() <= MAX_OBJECTS
        &&& self.tail == tail_at(cdrs, self.list, k)
        &&& conses_before(cdrs, self.list, k)
        &&& no_detection(cdrs, self.list, k)
        &&& self.max as int == max
        &&& self.tortoise == tail_at(cdrs, self.list, reset_pos(j))
        &&& reset_pos(j) <= k < reset_pos(j + 1)
        &&& window_left(self.q, self.n) == reset_pos(j + 1) - k
        &&& max < 65536 ==> self.n == 0 && self.q >= 1
        &&& max >= 65536 ==> 1 <= self.n <= max / 65536
        &&& k <= 3 * cdrs.len() + 2
    }

    /// What the invariant gives callers.
    pub proof fn lemma_inv(&self, cdrs: Seq<LispObject>)
        requires
            self.inv(cdrs),
        ensures
            self.tail() == tail_at(cdrs, self.list(), self.steps()),
            conses_before(cdrs, self.list(), self.steps()),
            no_detection(cdrs, self.list(), self.steps()),
            self.steps() <= 3 * cdrs.len() + 2,
    {
    }

    fn new(list: LispObject, errsym: Option<TypePredicate>, Ghost(cdrs): Ghost<Seq<LispObject>>) -> (it: TailsIter)
        requires
            cdrs.len() <= MAX_OBJECTS,
        ensures
            it.inv(cdrs),
            it.list() == list,
            it.errsym() == errsym,
            it.steps() == 0,
    {
        let it = TailsIter {
            list,
            errsym,
            tail: list,
            tortoise: list,
            max: 2,
            n: 0,
            q: 2,
            steps: Ghost(0),
            window: Ghost(0),
        };
        proof {
            reveal_with_fuel(two_pow, 3);
            assert(reset_pos(0) == 0);
            assert(reset_pos(1) == 2);
        }
        it
    }

    /// The tail the walk has reached.
    pub fn rest(&self) -> (o: LispObject)
        ensures
            o == self.tail(),
    {
        self.tail
    }

    /// What a detected cycle gives: `circular-list` with the current tail,
    /// or the quiet end of the walk.
    fn circular(&self) -> (r: Result<Option<LispCons>, LispError>)
        ensures
            self.errsym() is Some ==> r == Err::<Option<LispCons>, LispError>(LispError::CircularList(self.tail())),
            self.errsym() is None ==> r == Ok::<Option<LispCons>, LispError>(None),
    {
        if self.errsym.is_some() {
            Err(LispError::CircularList(self.tail))
        } else {
            Ok(None)
        }
    }

    /// One step of the walk (see `next_post`).
    pub fn next(&mut self, h: &LispHeap) -> (r: Result<Option<LispCons>, LispError>)
        requires
            h.wf(),
            h.valid(old(self).list()),
            old(self).inv(h.cdrs()),
        ensures
            next_post(h, *old(self), *final(self), r),
    {
        let ghost cdrs = h.cdrs();
        let ghost l = self.list;
        let ghost k = self.steps@;
        let ghost j = self.window@;
        proof {
            lemma_tail_valid(h, l, k);
        }
        match h.as_cons(self.tail) {
            None => {
                if self.errsym.is_some() && self.tail.is_not_nil() {
                    return Err(LispError::WrongType(self.errsym.unwrap(), self.list));
                }
                Ok(None)
            },
            Some(tail_cons) => {
                self.tail = h.cdr(tail_cons);
                proof {
                    self.steps = Ghost(k + 1);
                    assert(self.tail == tail_at(cdrs, l, k + 1));
                    assert(conses_before(cdrs, l, k + 1)) by {
                        assert forall|m: nat| m < k + 1 implies is_cons_at(cdrs, #[trigger] tail_at(cdrs, l, m)) by {
                            if m < k {
                            }
                        }
                    }
                    lemma_two_pow_pos(j + 1);
                    lemma_two_pow_increases(j + 1, j + 2);
                }
                self.q = self.q.wrapping_sub(1);
                if self.q != 0 {
                    proof {
                        assert(reset_pos(j) < k + 1 < reset_pos(j + 1));
                        self.lemma_check_step(cdrs, l, k + 1, j);
                    }
                    if self.tail.eq(self.tortoise) {
                        proof {
                            assert(detected_at(cdrs, l, k + 1));
                        }
                        return self.circular();
                    }
                } else {
                    self.n = self.n.wrapping_sub(1);
                    if self.n > 0 {
                        proof {
                            assert(reset_pos(j) < k + 1 < reset_pos(j + 1));
                            self.lemma_check_step(cdrs, l, k + 1, j);
                        }
                        if self.tail.eq(self.tortoise) {
                            proof {
                                assert(detected_at(cdrs, l, k + 1));
                            }
                            return self.circular();
                        }
                    } else {
                        proof {
                            assert(k + 1 == reset_pos(j + 1));
                            assert(!detected_at(cdrs, l, k + 1)) by {
                                if detected_at(cdrs, l, k + 1) {
                                    let jj = choose|jj: nat|
                                        #![trigger reset_pos(jj + 1), tail_at(cdrs, l, reset_pos(jj))]
                                        reset_pos(jj) < k + 1 < reset_pos(jj + 1)
                                            && tail_at(cdrs, l, k + 1) == tail_at(cdrs, l, reset_pos(jj));
                                    lemma_reset_not_inside(j + 1, jj);
                                }
                            }
                        }
                        self.max = self.max * 2;
                        let m = self.max;
                        proof {
                            assert(m == two_pow(j + 2));
                            if m >= 65536 {
                                lemma_two_pow_big(j + 2);
                            }
                            assert(m <= 0x4000_0000);
                        }
                        self.q = #[verifier::truncate] (m as u16);
                        self.n = m >> 16u32;
                        proof {
                            let qq = self.q;
                            let nn = self.n;
                            assert(qq as int == m % 65536 && nn as int == m / 65536) by (bit_vector)
                                requires
                                    0 <= m <= 0x4000_0000,
                                    qq == (m as u16),
                                    nn == m >> 16u32,
                            ;
                        }
                        self.tortoise = self.tail;
                        proof {
                            self.window = Ghost(j + 1);
                        }
                    }
                }
                proof {
                    assert(no_detection(cdrs, l, k + 1));
                    lemma_walk_bound(cdrs, l, k + 1);
                }
                Ok(Some(tail_cons))
            },
        }
    }

    proof fn lemma_check_step(&self, cdrs: Seq<LispObject>, l: LispObject, s: nat, j: nat)
        requires
            reset_pos(j) < s < reset_pos(j + 1),
            no_detection(cdrs, l, (s - 1) as nat),
            self.tortoise == tail_at(cdrs, l, reset_pos(j)),
        ensures
            tail_at(cdrs, l, s) == self.tortoise <==> detected_at(cdrs, l, s),
            tail_at(cdrs, l, s) != self.tortoise ==> no_detection(cdrs, l, s),
    {
        if detected_at(cdrs, l, s) {
            let jj = choose|jj: nat|
                #![trigger reset_pos(jj + 1), tail_at(cdrs, l, reset_pos(jj))]
                reset_pos(jj) < s < reset_pos(jj + 1) && tail_at(cdrs, l, s) == tail_at(cdrs, l, reset_pos(jj));
            lemma_window_unique(j, jj, s);
        }
        if tail_at(cdrs, l, s) == self.tortoise {
            assert(detected_at(cdrs, l, s));
        }
    }
}

/// Walks the tails of `list`, signalling `wrong-type-argument listp` on an
/// improper end and `circular-list` on a cycle.
pub fn iter_tails(list: LispObject, Ghost(cdrs): Ghost<Seq<LispObject>>) -> (it: TailsIter)
    requires
        cdrs.len() <= MAX_OBJECTS,
    ensures
        it.inv(cdrs),
        it.list() == list,
        it.errsym() == Some(TypePredicate::Listp),
        it.steps() == 0,
{
    TailsIter::new(list, Some(TypePredicate::Listp), Ghost(cdrs))
}

/// Walks the tails of `list`, stopping quietly at an improper end or a cycle.
pub fn iter_tails_safe(list: LispObject, Ghost(cdrs): Ghost<Seq<LispObject>>) -> (it: TailsIter)
    requires
        cdrs.len() <= MAX_OBJECTS,
    ensures
        it.inv(cdrs),
        it.list() == list,
        it.errsym() is None,
        it.steps() == 0,
{
    TailsIter::new(list, None, Ghost(cdrs))
}

/// Walks the tails of a property list, signalling `wrong-type-argument
/// plistp` on an improper end and `circular-list` on a cycle.
pub fn iter_tails_plist(list: LispObject, Ghost(cdrs): Ghost<Seq<LispObject>>) -> (it: TailsIter)
    requires
        cdrs.len() <= MAX_OBJECTS,
    ensures
        it.inv(cdrs),
        it.list() == list,
        it.errsym() == Some(TypePredicate::Plistp),
        it.steps() == 0,
{
    TailsIter::new(list, Some(TypePredicate::Plistp), Ghost(cdrs))
}

/// Successive calls of `next` from a walk over `l` that has yielded
/// nothing, `n` of them within a walk that stops at `len`, yield the first
/// `n` cells of `l` in order.
proof fn lemma_iterate_walk(
    h: &LispHeap,
    l: LispObject,
    len: nat,
    its: Seq<TailsIter>,
    rs: Seq<Result<Option<LispCons>, LispError>>,
    n: nat,
)
    requires
        h.wf(),
        stops_at(h.cdrs(), l, len),
        its.len() == rs.len() + 1,
        its[0].list() == l,
        its[0].steps() == 0,
        its[0].inv(h.cdrs()),
        forall|i: int| 0 <= i < rs.len() ==> #[trigger] next_post(h, its[i], its[i + 1], rs[i]),
        n <= len,
        n <= rs.len(),
    ensures
        its[n as int].steps() == n,
        its[n as int].inv(h.cdrs()),
        its[n as int].list() == l,
        its[n as int].errsym() == its[0].errsym(),
        forall|i: int|
            0 <= i < n ==> #[trigger] rs[i] == Ok::<Option<LispCons>, LispError>(
                Some(LispCons(tail_at(h.cdrs(), l, i as nat))),
            ),
    decreases n,
{
    if n > 0 {
        let m = (n - 1) as nat;
        lemma_iterate_walk(h, l, len, its, rs, m);
        let cdrs = h.cdrs();
        its[m as int].lemma_inv(cdrs);
        assert(next_post(h, its[m as int], its[m as int + 1], rs[m as int]));
        assert(is_cons_at(cdrs, tail_at(cdrs, l, m)));
        match rs[m as int] {
            Ok(Some(c)) => {
                assert(c == LispCons(c.0));
            },
            _ => {
                lemma_stop_unique(cdrs, l, m, len);
            },
        }
    }
}

/// A law of iterating over a list that ends, `(a1 ... ak . x)` with `x`
/// not a cons cell: successive calls of `next`, from a walk that has
/// yielded nothing, yield its `k` cells in order, and the call after them
/// ends the walk, quietly when the walk has no error predicate or `x` is
/// `nil` (never taking the list for a circular one), else with
/// `wrong-type-argument` of the predicate and the list.
pub proof fn lemma_iterate_ending_list(
    h: &LispHeap,
    l: LispObject,
    k: nat,
    its: Seq<TailsIter>,
    rs: Seq<Result<Option<LispCons>, LispError>>,
)
    requires
        h.wf(),
        conses_before(h.cdrs(), l, k),
        !is_cons_at(h.cdrs(), tail_at(h.cdrs(), l, k)),
        its.len() == rs.len() + 1,
        rs.len() <= k + 1,
        its[0].list() == l,
        its[0].steps() == 0,
        its[0].inv(h.cdrs()),
        forall|i: int| 0 <= i < rs.len() ==> #[trigger] next_post(h, its[i], its[i + 1], rs[i]),
    ensures
        forall|i: int|
            0 <= i < rs.len() && i < k ==> #[trigger] rs[i] == Ok::<Option<LispCons>, LispError>(
                Some(LispCons(tail_at(h.cdrs(), l, i as nat))),
            ),
        rs.len() == k + 1 ==> rs[k as int] == if its[0].errsym() is None || tail_at(h.cdrs(), l, k).0 == 0 {
            Ok::<Option<LispCons>, LispError>(None)
        } else {
            Err::<Option<LispCons>, LispError>(LispError::WrongType(its[0].errsym().unwrap(), l))
        },
{
    let cdrs = h.cdrs();
    lemma_ending_list_walk(cdrs, l, k);
    let n = if rs.len() <= k { rs.len() } else { k };
    lemma_iterate_walk(h, l, k, its, rs, n);
    if rs.len() == k + 1 {
        its[k as int].lemma_inv(cdrs);
        assert(next_post(h, its[k as int], its[k as int + 1], rs[k as int]));
        if rs[k as int] is Ok && rs[k as int]->Ok_0 is Some {
            its[k as int + 1].lemma_inv(cdrs);
            assert(conses_before(cdrs, l, k + 1));
            assert(is_cons_at(cdrs, tail_at(cdrs, l, k)));
        }
    }
}

/// A law of iterating over a circular list: successive calls of `next`,
/// from a walk that has yielded nothing, yield `len` cells in order, `len`
/// at most `3N + 2` for a heap of `N` cells, and the call after them ends
/// the walk, quietly when the walk has no error predicate, else with
/// `circular-list`; the walk never runs forever.
pub proof fn lemma_iterate_circular_list(
    h: &LispHeap,
    l: LispObject,
    its: Seq<TailsIter>,
    rs: Seq<Result<Option<LispCons>, LispError>>,
) -> (len: nat)
    requires
        h.wf(),
        is_circular(h.cdrs(), l),
        its.len() == rs.len() + 1,
        its[0].list() == l,
        its[0].steps() == 0,
        its[0].inv(h.cdrs()),
        forall|i: int| 0 <= i < rs.len() ==> #[trigger] next_post(h, its[i], its[i + 1], rs[i]),
    ensures
        len <= 3 * h.cdrs().len() + 2,
        forall|i: int|
            0 <= i < rs.len() && i < len ==> #[trigger] rs[i] == Ok::<Option<LispCons>, LispError>(
                Some(LispCons(tail_at(h.cdrs(), l, i as nat))),
            ),
        rs.len() > len ==> rs[len as int] == if its[0].errsym() is None {
            Ok::<Option<LispCons>, LispError>(None)
        } else {
            Err::<Option<LispCons>, LispError>(LispError::CircularList(tail_at(h.cdrs(), l, len + 1)))
        },
{
    let cdrs = h.cdrs();
    let len = lemma_circular_list_walk(cdrs, l);
    let n = if rs.len() <= len { rs.len() } else { len };
    lemma_iterate_walk(h, l, len, its, rs, n);
    if rs.len() > len {
        its[len as int].lemma_inv(cdrs);
        assert(next_post(h, its[len as int], its[len as int + 1], rs[len as int]));
        if rs[len as int] is Ok && rs[len as int]->Ok_0 is Some {
            its[len as int + 1].lemma_inv(cdrs);
            assert(no_detection(cdrs, l, len + 1));
            assert(detected_at(cdrs, l, len + 1));
        }
    }
    len
}

} // verus!
