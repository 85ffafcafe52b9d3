//! The Lisp heap: the arena of objects that tagged words point into.
//!
//! A cons cell, string or vector number `i` of its kind lives at address
//! `8 * i`; the word that refers to it is that address plus the tag of
//! the kind.  Symbols and fixnums carry their whole value in the word.
use vstd::prelude::*;

use crate::error::{LispError, TypePredicate};
use crate::tag::{word_address, word_tag, LispObject, LispType};

verus! {

/// Most objects of one kind that a heap holds (a machine limit on addresses).
pub const MAX_OBJECTS: usize = 0x400_0000;

/// The arena index encoded in the address part of a word.
pub open spec fn obj_index(w: i64) -> int {
    (word_address(w) / 8) as int
}

/// The word of the object number `i` of the kind with tag `tag`.
pub open spec fn obj_word(i: int, tag: u64) -> i64 {
    (i * 8 + tag) as i64
}

/// The word of the cons cell number `i`.
pub open spec fn cons_word(i: int) -> LispObject {
    LispObject(obj_word(i, 3))
}

/// Whether the word is tagged as a cons cell.
pub open spec fn is_cons_word(w: i64) -> bool {
    word_tag(w) == 3
}

/// The successor of an object along `cdr` links: the `cdr` of a cons cell,
/// or the object itself when it is not a cons cell of the heap.
pub open spec fn step(cdrs: Seq<LispObject>, o: LispObject) -> LispObject {
    if is_cons_word(o.0) && 0 <= obj_index(o.0) < cdrs.len() {
        cdrs[obj_index(o.0)]
    } else {
        o
    }
}

/// The `k`-th tail of `l`: `l` after `k` steps along `cdr` links.
pub open spec fn tail_at(cdrs: Seq<LispObject>, l: LispObject, k: nat) -> LispObject
    decreases k,
{
    if k == 0 {
        l
    } else {
        step(cdrs, tail_at(cdrs, l, (k - 1) as nat))
    }
}

/// A Lisp string: its bytes and its length in characters.
#[derive(Debug)]
pub struct LispString {
    pub data: Vec<u8>,
    pub nchars: usize,
}

/// The heap of cons cells, strings and vectors.
pub struct LispHeap {
    conses: Vec<(LispObject, LispObject)>,
    strings: Vec<LispString>,
    vectors: Vec<Vec<LispObject>>,
}

/// A word known to refer to a cons cell.
#[derive(PartialEq, Eq, Structural, Clone, Copy, Debug)]
pub struct LispCons(pub LispObject);

impl LispCons {
    /// The word of the cons cell.
    pub fn as_obj(self) -> (o: LispObject)
        ensures
            o == self.0,
    {
        self.0
    }
}

/// The word of object number `i` with tag `tag` carries that tag and
/// that number.
pub proof fn lemma_obj_word(i: int, tag: u64)
    requires
        0 <= i < 0x2000_0000,
        tag < 8,
    ensures
        word_tag(obj_word(i, tag)) == tag,
        word_address(obj_word(i, tag)) == i * 8,
        obj_index(obj_word(i, tag)) == i,
{
    let w: i64 = obj_word(i, tag);
    let x: i64 = i as i64;
    let t: i64 = tag as i64;
    assert(((w as u64) & 7) == (t as u64) && ((w as u64) & 0xffff_ffff_ffff_fff8) == (x as u64) * 8) by (bit_vector)
        requires
            w == x * 8 + t,
            0 <= x < 0x2000_0000,
            0 <= t < 8,
    ;
}

/// A word tagged as a cons cell is not `nil`.
pub proof fn lemma_cons_not_nil(w: i64)
    requires
        is_cons_word(w),
    ensures
        w != 0,
{
    assert(((w as u64) & 7) == 3 ==> w != 0) by (bit_vector);
}

/// Every tail of a value of a well-formed heap is a value of the heap.
pub proof fn lemma_tail_valid(h: &LispHeap, l: LispObject, k: nat)
    requires
        h.wf(),
        h.valid(l),
    ensures
        h.valid(tail_at(h.cdrs(), l, k)),
    decreases k,
{
    if k > 0 {
        lemma_tail_valid(h, l, (k - 1) as nat);
        let t = tail_at(h.cdrs(), l, (k - 1) as nat);
        if is_cons_word(t.0) && 0 <= obj_index(t.0) < h.cdrs().len() {
            assert(h.valid(h.cells()[obj_index(t.0)].1));
        }
    }
}

impl LispHeap {
    /// The cons cells, car and cdr.
    pub closed spec fn cells(&self) -> Seq<(LispObject, LispObject)> {
        self.conses@
    }

    /// The strings: bytes and character count.
    pub closed spec fn string_view(&self) -> Seq<(Seq<u8>, nat)> {
        Seq::new(self.strings@.len(), |i: int| (self.strings@[i].data@, self.strings@[i].nchars as nat))
    }

    /// The vectors, element by element.
    pub closed spec fn vector_view(&self) -> Seq<Seq<LispObject>> {
        Seq::new(self.vectors@.len(), |i: int| self.vectors@[i]@)
    }

    /// The `cdr` of each cons cell.
    pub open spec fn cdrs(&self) -> Seq<LispObject> {
        Seq::new(self.cells().len(), |i: int| self.cells()[i].1)
    }

    /// The `car` of each cons cell.
    pub open spec fn cars(&self) -> Seq<LispObject> {
        Seq::new(self.cells().len(), |i: int| self.cells()[i].0)
    }

    /// Whether a word is a value of this heap: a symbol, a fixnum, or a
    /// reference to an object that the heap holds.
    pub open spec fn valid(&self, o: LispObject) -> bool {
        let t = word_tag(o.0);
        &&& t != 1 && t != 7
        &&& t == 3 ==> obj_index(o.0) < self.cells().len()
        &&& t == 4 ==> obj_index(o.0) < self.string_view().len()
        &&& t == 5 ==> obj_index(o.0) < self.vector_view().len() || obj_index(o.0) >= MAX_OBJECTS
    }

    /// Whether the word refers to a cons cell of this heap.
    pub open spec fn is_cons(&self, o: LispObject) -> bool {
        is_cons_word(o.0) && 0 <= obj_index(o.0) < self.cells().len()
    }

    /// The `car` of the cons cell `o`.
    pub open spec fn car_of(&self, o: LispObject) -> LispObject {
        self.cells()[obj_index(o.0)].0
    }

    /// The `cdr` of the cons cell `o`.
    pub open spec fn cdr_of(&self, o: LispObject) -> LispObject {
        self.cells()[obj_index(o.0)].1
    }

    /// Well-formedness: the arena fits the address space and every
    /// object refers only to objects of the heap.
    pub open spec fn wf(&self) -> bool {
        &&& self.cells().len() <= MAX_OBJECTS
        &&& self.string_view().len() <= MAX_OBJECTS
        &&& self.vector_view().len() <= MAX_OBJECTS
        &&& forall|i: int| 0 <= i < self.cells().len() ==> #[trigger] self.valid(self.cells()[i].0)
        &&& forall|i: int| 0 <= i < self.cells().len() ==> self.valid(#[trigger] self.cells()[i].1)
        &&& forall|i: int, j: int|
            0 <= i < self.vector_view().len() && 0 <= j < self.vector_view()[i].len()
                ==> self.valid(#[trigger] self.vector_view()[i][j])
    }

    /// An empty heap.
    pub fn new() -> (h: LispHeap)
        ensures
            h.wf(),
            h.cells().len() == 0,
            h.string_view().len() == 0,
            h.vector_view().len() == 0,
    {
        let h = LispHeap { conses: Vec::new(), strings: Vec::new(), vectors: Vec::new() };
        assert(h.string_view() =~= Seq::empty());
        assert(h.vector_view() =~= Seq::empty());
        h
    }

    /// The number of cons cells.
    pub fn cons_count(&self) -> (n: usize)
        ensures
            n == self.cells().len(),
    {
        self.conses.len()
    }

    /// Allocates a new cons cell.
    pub fn cons(&mut self, car: LispObject, cdr: LispObject) -> (o: LispObject)
        requires
            old(self).wf(),
            old(self).valid(car),
            old(self).valid(cdr),
            old(self).cells().len() < MAX_OBJECTS,
        ensures
            final(self).wf(),
            final(self).cells() == old(self).cells().push((car, cdr)),
            final(self).string_view() == old(self).string_view(),
            final(self).vector_view() == old(self).vector_view(),
            o.0 == obj_word(old(self).cells().len() as int, 3),
            is_cons_word(o.0),
            obj_index(o.0) == old(self).cells().len(),
            final(self).is_cons(o),
            final(self).car_of(o) == car,
            final(self).cdr_of(o) == cdr,
    {
        let i = self.conses.len();
        let addr = (i as u64) * 8;
        let o = LispObject::tag_ptr(addr, LispType::Cons);
        self.conses.push((car, cdr));
        proof {
            assert(word_address(o.0) / 8 == i);
            assert(self.string_view() =~= old(self).string_view());
            assert(self.vector_view() =~= old(self).vector_view());
            assert forall|k: int| 0 <= k < self.cells().len() implies #[trigger] self.valid(self.cells()[k].0)
                && self.valid(self.cells()[k].1) by {
                if k < i {
                    assert(old(self).valid(old(self).cells()[k].0));
                    assert(old(self).valid(old(self).cells()[k].1));
                }
            }
        }
        o
    }

    /// Allocates a new string with the given bytes and character count.
    pub fn make_string(&mut self, data: Vec<u8>, nchars: usize) -> (o: LispObject)
        requires
            old(self).wf(),
            old(self).string_view().len() < MAX_OBJECTS,
        ensures
            final(self).wf(),
            final(self).cells() == old(self).cells(),
            final(self).vector_view() == old(self).vector_view(),
            final(self).string_view() == old(self).string_view().push((data@, nchars as nat)),
            word_tag(o.0) == 4,
            obj_index(o.0) == old(self).string_view().len(),
            final(self).valid(o),
    {
        let i = self.strings.len();
        let addr = (i as u64) * 8;
        let o = LispObject::tag_ptr(addr, LispType::String);
        self.strings.push(LispString { data, nchars });
        proof {
            assert(self.string_view() =~= old(self).string_view().push((data@, nchars as nat)));
            assert(self.vector_view() =~= old(self).vector_view());
            assert forall|k: int| 0 <= k < self.cells().len() implies #[trigger] self.valid(self.cells()[k].0)
                && self.valid(self.cells()[k].1) by {
                assert(old(self).valid(old(self).cells()[k].0));
                assert(old(self).valid(old(self).cells()[k].1));
            }
            assert forall|a: int, b: int|
                0 <= a < self.vector_view().len() && 0 <= b < self.vector_view()[a].len()
                    implies self.valid(#[trigger] self.vector_view()[a][b]) by {
                assert(old(self).valid(old(self).vector_view()[a][b]));
            }
        }
        o
    }

    /// Allocates a new vector with the given elements.
    pub fn make_vector(&mut self, elts: Vec<LispObject>) -> (o: LispObject)
        requires
            old(self).wf(),
            old(self).vector_view().len() < MAX_OBJECTS,
            forall|j: int| 0 <= j < elts@.len() ==> old(self).valid(#[trigger] elts@[j]),
        ensures
            final(self).wf(),
            final(self).cells() == old(self).cells(),
            final(self).string_view() == old(self).string_view(),
            final(self).vector_view() == old(self).vector_view().push(elts@),
            word_tag(o.0) == 5,
            obj_index(o.0) == old(self).vector_view().len(),
            final(self).valid(o),
    {
        let i = self.vectors.len();
        let addr = (i as u64) * 8;
        let o = LispObject::tag_ptr(addr, LispType::Vectorlike);
        let ghost e = elts@;
        self.vectors.push(elts);
        proof {
            assert(self.string_view() =~= old(self).string_view());
            assert(self.vector_view() =~= old(self).vector_view().push(e));
            assert forall|k: int| 0 <= k < self.cells().len() implies #[trigger] self.valid(self.cells()[k].0)
                && self.valid(self.cells()[k].1) by {
                assert(old(self).valid(old(self).cells()[k].0));
                assert(old(self).valid(old(self).cells()[k].1));
            }
            assert forall|a: int, b: int|
                0 <= a < self.vector_view().len() && 0 <= b < self.vector_view()[a].len()
                    implies self.valid(#[trigger] self.vector_view()[a][b]) by {
                if a < i {
                    assert(old(self).valid(old(self).vector_view()[a][b]));
                } else {
                    assert(old(self).valid(e[b]));
                }
            }
        }
        o
    }

    /// Whether the word refers to a string of this heap.
    pub open spec fn is_string(&self, o: LispObject) -> bool {
        word_tag(o.0) == 4 && 0 <= obj_index(o.0) < self.string_view().len()
    }

    /// Whether the word refers to a vector of this heap.
    pub open spec fn is_vector(&self, o: LispObject) -> bool {
        word_tag(o.0) == 5 && 0 <= obj_index(o.0) < self.vector_view().len()
    }

    /// The bytes of the string `o`.
    pub open spec fn string_bytes_of(&self, o: LispObject) -> Seq<u8> {
        self.string_view()[obj_index(o.0)].0
    }

    /// The length in characters of the string `o`.
    pub open spec fn string_chars_of(&self, o: LispObject) -> nat {
        self.string_view()[obj_index(o.0)].1
    }

    /// The elements of the vector `o`.
    pub open spec fn vector_of(&self, o: LispObject) -> Seq<LispObject> {
        self.vector_view()[obj_index(o.0)]
    }

    /// The length in bytes of a string.
    pub fn string_len_bytes(&self, o: LispObject) -> (n: usize)
        requires
            self.wf(),
            self.is_string(o),
        ensures
            n == self.string_bytes_of(o).len(),
    {
        let i = Self::index_of(o);
        self.strings[i].data.len()
    }

    /// The length in characters of a string.
    pub fn string_len_chars(&self, o: LispObject) -> (n: usize)
        requires
            self.wf(),
            self.is_string(o),
        ensures
            n == self.string_chars_of(o),
    {
        let i = Self::index_of(o);
        self.strings[i].nchars
    }

    /// The byte at position `k` of a string.
    pub fn string_byte_at(&self, o: LispObject, k: usize) -> (b: u8)
        requires
            self.wf(),
            self.is_string(o),
            k < self.string_bytes_of(o).len(),
        ensures
            b == self.string_bytes_of(o)[k as int],
    {
        let i = Self::index_of(o);
        self.strings[i].data[k]
    }

    /// The length of a vector.
    pub fn vector_len(&self, o: LispObject) -> (n: usize)
        requires
            self.wf(),
            self.is_vector(o),
        ensures
            n == self.vector_of(o).len(),
    {
        let i = Self::index_of(o);
        self.vectors[i].len()
    }

    /// The element at position `k` of a vector.
    pub fn vector_ref(&self, o: LispObject, k: usize) -> (e: LispObject)
        requires
            self.wf(),
            self.is_vector(o),
            k < self.vector_of(o).len(),
        ensures
            e == self.vector_of(o)[k as int],
            self.valid(e),
    {
        let i = Self::index_of(o);
        self.vectors[i][k]
    }

    /// The length of an array: the characters of a string, the elements of
    /// a vector; anything else is `wrong-type-argument arrayp`.
    pub fn as_vector_or_string_length(&self, o: LispObject) -> (r: Result<usize, LispError>)
        requires
            self.wf(),
        ensures
            self.is_string(o) ==> r == Ok::<usize, LispError>(self.string_chars_of(o) as usize),
            self.is_vector(o) ==> r == Ok::<usize, LispError>(self.vector_of(o).len() as usize),
            !self.is_string(o) && !self.is_vector(o) ==> r == Err::<usize, LispError>(
                LispError::WrongType(TypePredicate::Arrayp, o),
            ),
    {
        if self.is_string_obj(o) {
            Ok(self.string_len_chars(o))
        } else if self.is_vector_obj(o) {
            Ok(self.vector_len(o))
        } else {
            Err(LispError::WrongType(TypePredicate::Arrayp, o))
        }
    }

    /// Whether a value of the heap is a string.
    pub fn is_string_obj(&self, o: LispObject) -> (b: bool)
        requires
            self.wf(),
        ensures
            b == self.is_string(o),
    {
        if o.is_string() {
            let a = o.get_untaggedptr() / 8;
            a < self.strings.len() as u64
        } else {
            false
        }
    }

    /// Whether a value of the heap is a vector.
    pub fn is_vector_obj(&self, o: LispObject) -> (b: bool)
        requires
            self.wf(),
        ensures
            b == self.is_vector(o),
    {
        if o.is_vectorlike() {
            let a = o.get_untaggedptr() / 8;
            a < self.vectors.len() as u64
        } else {
            false
        }
    }

    /// The arena index of a word known to refer to an object of the heap.
    fn index_of(o: LispObject) -> (i: usize)
        requires
            word_tag(o.0) != 0,
            obj_index(o.0) < MAX_OBJECTS,
        ensures
            i == obj_index(o.0),
    {
        (o.get_untaggedptr() / 8) as usize
    }

    /// The cons cell the word refers to, if it is tagged as one.
    pub fn as_cons(&self, o: LispObject) -> (r: Option<LispCons>)
        requires
            self.wf(),
            self.valid(o),
        ensures
            r == (if is_cons_word(o.0) { Some(LispCons(o)) } else { None::<LispCons> }),
            r is Some ==> self.is_cons(o),
    {
        if o.is_cons() {
            Some(LispCons(o))
        } else {
            None
        }
    }

    /// The cons cell the word refers to, or `wrong-type-argument consp`.
    pub fn as_cons_or_error(&self, o: LispObject) -> (r: Result<LispCons, LispError>)
        requires
            self.wf(),
            self.valid(o),
        ensures
            r == (if is_cons_word(o.0) {
                Ok::<LispCons, LispError>(LispCons(o))
            } else {
                Err::<LispCons, LispError>(LispError::WrongType(TypePredicate::Consp, o))
            }),
            r is Ok ==> self.is_cons(o),
    {
        if o.is_cons() {
            Ok(LispCons(o))
        } else {
            Err(LispError::WrongType(TypePredicate::Consp, o))
        }
    }

    /// The `car` of a cons cell.
    pub fn car(&self, c: LispCons) -> (o: LispObject)
        requires
            self.wf(),
            self.is_cons(c.0),
        ensures
            o == self.car_of(c.0),
            self.valid(o),
    {
        let i = Self::index_of(c.0);
        self.conses[i].0
    }

    /// The `cdr` of a cons cell.
    pub fn cdr(&self, c: LispCons) -> (o: LispObject)
        requires
            self.wf(),
            self.is_cons(c.0),
        ensures
            o == self.cdr_of(c.0),
            o == step(self.cdrs(), c.0),
            self.valid(o),
    {
        let i = Self::index_of(c.0);
        self.conses[i].1
    }

    /// Replaces the `car` of a cons cell.
    pub fn set_car(&mut self, c: LispCons, v: LispObject)
        requires
            old(self).wf(),
            old(self).is_cons(c.0),
            old(self).valid(v),
        ensures
            final(self).wf(),
            final(self).cells() == old(self).cells().update(obj_index(c.0.0), (v, old(self).cdr_of(c.0))),
            final(self).cdrs() == old(self).cdrs(),
            final(self).string_view() == old(self).string_view(),
            final(self).vector_view() == old(self).vector_view(),
    {
        let i = Self::index_of(c.0);
        let d = self.conses[i].1;
        self.conses.set(i, (v, d));
        proof {
            assert(self.cdrs() =~= old(self).cdrs());
            assert(self.string_view() =~= old(self).string_view());
            assert(self.vector_view() =~= old(self).vector_view());
            assert forall|k: int| 0 <= k < self.cells().len() implies #[trigger] self.valid(self.cells()[k].0)
                && self.valid(self.cells()[k].1) by {
                assert(old(self).valid(old(self).cells()[k].0));
                assert(old(self).valid(old(self).cells()[k].1));
            }
        }
    }

    /// Replaces the `cdr` of a cons cell.
    pub fn set_cdr(&mut self, c: LispCons, v: LispObject)
        requires
            old(self).wf(),
            old(self).is_cons(c.0),
            old(self).valid(v),
        ensures
            final(self).wf(),
            final(self).cells() == old(self).cells().update(obj_index(c.0.0), (old(self).car_of(c.0), v)),
            final(self).cdrs() == old(self).cdrs().update(obj_index(c.0.0), v),
            final(self).cars() == old(self).cars(),
            final(self).string_view() == old(self).string_view(),
            final(self).vector_view() == old(self).vector_view(),
    {
        let i = Self::index_of(c.0);
        let a = self.conses[i].0;
        self.conses.set(i, (a, v));
        proof {
            assert(self.cdrs() =~= old(self).cdrs().update(obj_index(c.0.0), v));
            assert(self.cars() =~= old(self).cars());
            assert(self.string_view() =~= old(self).string_view());
            assert(self.vector_view() =~= old(self).vector_view());
            assert forall|k: int| 0 <= k < self.cells().len() implies #[trigger] self.valid(self.cells()[k].0)
                && self.valid(self.cells()[k].1) by {
                assert(old(self).valid(old(self).cells()[k].0));
                assert(old(self).valid(old(self).cells()[k].1));
            }
        }
    }
}

} // verus!
