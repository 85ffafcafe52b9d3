//! Buffers as Lisp sees them: finding them by name or file, their names
//! and modification counts, the current buffer, and the markers that
//! hold the positions of a buffer that is not current.
use vstd::prelude::*;

use crate::editfns::LispBuffer;
use crate::equal::same_bytes;
use crate::error::{ErrorMessage, LispError, TypePredicate};
use crate::heap::LispHeap;
use crate::marker::{
    buffer_word, known, lemma_char_to_byte_mono, lemma_known_bounds, marker_after, same_text_and_positions, Buffers,
};
use crate::tag::{fixnum_value, is_fixnum_word, LispObject, MOST_POSITIVE_FIXNUM};

verus! {

/// Two strings are `string=`: the same characters, byte for byte.
pub open spec fn string_equal_spec(h: &LispHeap, a: LispObject, b: LispObject) -> bool {
    &&& h.is_string(a)
    &&& h.is_string(b)
    &&& h.string_chars_of(a) == h.string_chars_of(b)
    &&& h.string_bytes_of(a) == h.string_bytes_of(b)
}

/// Whether A and B are strings with the same characters.
pub fn string_equal(h: &LispHeap, a: LispObject, b: LispObject) -> (r: bool)
    requires
        h.wf(),
    ensures
        r == string_equal_spec(h, a, b),
{
    h.is_string_obj(a) && h.is_string_obj(b) && h.string_len_chars(a) == h.string_len_chars(b) && same_bytes(h, a, b)
}

/// The largest number of bytes a buffer may hold: one less than the
/// largest fixnum, and no more than the machine's signed sizes allow.
pub fn buf_bytes_max() -> (r: isize)
    ensures
        r == (if MOST_POSITIVE_FIXNUM - 1 <= isize::MAX {
            MOST_POSITIVE_FIXNUM - 1
        } else {
            isize::MAX as int
        }),
{
    let arith_max: i64 = if (isize::MAX as i128) < (i64::MAX as i128) {
        isize::MAX as i64
    } else {
        i64::MAX
    };
    if MOST_POSITIVE_FIXNUM - 1 <= arith_max {
        (MOST_POSITIVE_FIXNUM - 1) as isize
    } else {
        arith_max as isize
    }
}

/// Which name of a buffer a search compares.
#[derive(PartialEq, Eq, Structural, Clone, Copy, Debug)]
pub enum BufferKey {
    Name,
    Filename,
    Truename,
}

/// The name of buffer `b` that KEY selects.
pub open spec fn key_of(b: &LispBuffer, key: BufferKey) -> LispObject {
    match key {
        BufferKey::Name => b.name,
        BufferKey::Filename => b.filename,
        BufferKey::Truename => b.truename,
    }
}

/// Buffer `i` is live and its name selected by KEY is the string S.
pub open spec fn buffer_matches(w: &Buffers, h: &LispHeap, key: BufferKey, s: LispObject, i: int) -> bool {
    &&& w.buffers@[i].name.0 != 0
    &&& string_equal_spec(h, key_of(&w.buffers@[i], key), s)
}

/// The first buffer (in the order of the buffer list) that is live and
/// whose name selected by KEY is the string S.
pub open spec fn first_match(w: &Buffers, h: &LispHeap, key: BufferKey, s: LispObject) -> Option<int> {
    if exists|i: int| 0 <= i < w.buffers@.len() && buffer_matches(w, h, key, s, i) {
        Some(
            choose|i: int|
                0 <= i < w.buffers@.len() && buffer_matches(w, h, key, s, i) && forall|k: int|
                    0 <= k < i ==> !#[trigger] buffer_matches(w, h, key, s, k),
        )
    } else {
        None
    }
}

impl Buffers {
    /// The first live buffer whose name selected by KEY is the string S.
    pub fn find_live_buffer(&self, h: &LispHeap, key: BufferKey, s: LispObject) -> (r: Option<usize>)
        requires
            self.wf(),
            h.wf(),
        ensures
            r matches Some(i) ==> first_match(self, h, key, s) == Some(i as int) && i < self.buffers@.len()
                && buffer_matches(self, h, key, s, i as int),
            r is None ==> first_match(self, h, key, s) is None,
    {
        let mut i: usize = 0;
        while i < self.buffers.len()
            invariant
                self.wf(),
                h.wf(),
                i <= self.buffers@.len(),
                forall|k: int| 0 <= k < i ==> !#[trigger] buffer_matches(self, h, key, s, k),
            decreases self.buffers@.len() - i,
        {
            let b = &self.buffers[i];
            let name = match key {
                BufferKey::Name => b.name,
                BufferKey::Filename => b.filename,
                BufferKey::Truename => b.truename,
            };
            if b.name.is_not_nil() && string_equal(h, name, s) {
                proof {
                    assert(buffer_matches(self, h, key, s, i as int));
                    let c = choose|c: int|
                        0 <= c < self.buffers@.len() && buffer_matches(self, h, key, s, c) && forall|k: int|
                            0 <= k < c ==> !#[trigger] buffer_matches(self, h, key, s, k);
                    if c < i {
                    } else if c > i {
                        assert(!buffer_matches(self, h, key, s, i as int));
                    }
                }
                return Some(i);
            }
            i = i + 1;
        }
        None
    }

    /// Whether OBJECT is a buffer that has not been killed.
    pub fn buffer_live_p(&self, object: LispObject) -> (r: bool)
        requires
            self.wf(),
        ensures
            r == (self.buffer_of(object) matches Some(b) && self.buffers@[b].name.0 != 0),
    {
        match self.as_buffer(object) {
            Some(b) => self.buffers[b].name.is_not_nil(),
            None => false,
        }
    }

    /// The current buffer.
    pub fn current_buffer(&self) -> (r: LispObject)
        requires
            self.wf(),
        ensures
            r == buffer_word(self.current as int),
    {
        self.buffer_obj(self.current)
    }

    /// The buffer BUFFER designates: the current one for `nil`, else it
    /// must be a buffer.
    pub open spec fn designated(&self, buffer: LispObject) -> Option<int> {
        if buffer.0 == 0 {
            Some(self.current as int)
        } else {
            self.buffer_of(buffer)
        }
    }

    /// The name of the file BUFFER (`nil` the current buffer) visits.
    pub fn buffer_file_name(&self, buffer: LispObject) -> (r: Result<LispObject, LispError>)
        requires
            self.wf(),
        ensures
            r == match self.designated(buffer) {
                Some(b) => Ok(self.buffers@[b].filename),
                None => Err(LispError::WrongType(TypePredicate::BufferP, buffer)),
            },
    {
        let b = self.as_buffer_or_current_buffer(buffer)?;
        Ok(self.buffers[b].filename)
    }

    /// Whether BUFFER was modified since its file was last read or saved.
    pub fn buffer_modified_p(&self, buffer: LispObject) -> (r: Result<bool, LispError>)
        requires
            self.wf(),
        ensures
            r == match self.designated(buffer) {
                Some(b) => Ok(self.buffers@[b].save_modiff < self.buffers@[b].modiff),
                None => Err(LispError::WrongType(TypePredicate::BufferP, buffer)),
            },
    {
        let b = self.as_buffer_or_current_buffer(buffer)?;
        Ok(self.buffers[b].save_modiff < self.buffers[b].modiff)
    }

    /// The name of BUFFER, `nil` once it has been killed.
    pub fn buffer_name(&self, buffer: LispObject) -> (r: Result<LispObject, LispError>)
        requires
            self.wf(),
        ensures
            r == match self.designated(buffer) {
                Some(b) => Ok(self.buffers@[b].name),
                None => Err(LispError::WrongType(TypePredicate::BufferP, buffer)),
            },
    {
        let b = self.as_buffer_or_current_buffer(buffer)?;
        Ok(self.buffers[b].name)
    }

    /// The modification count of BUFFER.
    pub fn buffer_modified_tick(&self, buffer: LispObject) -> (r: Result<i64, LispError>)
        requires
            self.wf(),
        ensures
            r == match self.designated(buffer) {
                Some(b) => Ok(self.buffers@[b].modiff),
                None => Err(LispError::WrongType(TypePredicate::BufferP, buffer)),
            },
    {
        let b = self.as_buffer_or_current_buffer(buffer)?;
        Ok(self.buffers[b].modiff)
    }

    /// The modification count of BUFFER at its last change of characters.
    pub fn buffer_chars_modified_tick(&self, buffer: LispObject) -> (r: Result<i64, LispError>)
        requires
            self.wf(),
        ensures
            r == match self.designated(buffer) {
                Some(b) => Ok(self.buffers@[b].chars_modiff),
                None => Err(LispError::WrongType(TypePredicate::BufferP, buffer)),
            },
    {
        let b = self.as_buffer_or_current_buffer(buffer)?;
        Ok(self.buffers[b].chars_modiff)
    }

    /// The buffer BUFFER_OR_NAME: a buffer itself, or the live buffer of
    /// that name (`nil` when there is none); anything else is
    /// `wrong-type-argument stringp`.
    pub fn get_buffer(&self, h: &LispHeap, buffer_or_name: LispObject) -> (r: Result<LispObject, LispError>)
        requires
            self.wf(),
            h.wf(),
        ensures
            self.buffer_of(buffer_or_name) is Some ==> r == Ok::<LispObject, LispError>(buffer_or_name),
            self.buffer_of(buffer_or_name) is None && !h.is_string(buffer_or_name) ==> r == Err::<
                LispObject,
                LispError,
            >(LispError::WrongType(TypePredicate::Stringp, buffer_or_name)),
            self.buffer_of(buffer_or_name) is None && h.is_string(buffer_or_name) ==> r == Ok::<
                LispObject,
                LispError,
            >(
                match first_match(self, h, BufferKey::Name, buffer_or_name) {
                    Some(i) => buffer_word(i),
                    None => LispObject(0),
                },
            ),
    {
        if self.as_buffer(buffer_or_name).is_some() {
            return Ok(buffer_or_name);
        }
        if !h.is_string_obj(buffer_or_name) {
            return Err(LispError::WrongType(TypePredicate::Stringp, buffer_or_name));
        }
        match self.find_live_buffer(h, BufferKey::Name, buffer_or_name) {
            Some(i) => Ok(self.buffer_obj(i)),
            None => Ok(LispObject::constant_nil()),
        }
    }

    /// The live buffer visiting the file FILENAME (already expanded), if
    /// any.
    pub fn get_file_buffer(&self, h: &LispHeap, filename: LispObject) -> (r: Result<Option<usize>, LispError>)
        requires
            self.wf(),
            h.wf(),
        ensures
            !h.is_string(filename) ==> r == Err::<Option<usize>, LispError>(
                LispError::WrongType(TypePredicate::Stringp, filename),
            ),
            h.is_string(filename) ==> r == Ok::<Option<usize>, LispError>(
                match first_match(self, h, BufferKey::Filename, filename) {
                    Some(i) => Some(i as usize),
                    None => None,
                },
            ),
    {
        if !h.is_string_obj(filename) {
            return Err(LispError::WrongType(TypePredicate::Stringp, filename));
        }
        Ok(self.find_live_buffer(h, BufferKey::Filename, filename))
    }

    /// The live buffer whose file has the true name FILENAME, `nil` for
    /// none.
    pub fn get_truename_buffer(&self, h: &LispHeap, filename: LispObject) -> (r: LispObject)
        requires
            self.wf(),
            h.wf(),
        ensures
            r == match first_match(self, h, BufferKey::Truename, filename) {
                Some(i) => buffer_word(i),
                None => LispObject(0),
            },
    {
        match self.find_live_buffer(h, BufferKey::Truename, filename) {
            Some(i) => self.buffer_obj(i),
            None => LispObject::constant_nil(),
        }
    }
}

/// The error for a buffer that cannot be found: `No buffer named SPEC`
/// for a string, else `Invalid buffer argument`.
pub fn nsberror(h: &LispHeap, spec: LispObject) -> (e: LispError)
    requires
        h.wf(),
    ensures
        e == nsberror_spec(h, spec),
{
    if h.is_string_obj(spec) {
        LispError::ErrorWith(ErrorMessage::NoBufferNamed, spec, LispObject::constant_nil())
    } else {
        LispError::Error(ErrorMessage::InvalidBufferArgument)
    }
}

/// The position a fixnum or a marker gives, as `validate-region` reads
/// it (see `as_fixnum_coerce_marker_or_error`).
pub open spec fn coerced_position(w: &Buffers, o: LispObject) -> Result<int, LispError> {
    if is_fixnum_word(o.0) {
        Ok(fixnum_value(o.0))
    } else {
        match w.marker_of(o) {
            Some(m) => if w.markers@[m].buffer is Some {
                Ok(w.markers@[m].charpos as int)
            } else {
                Err(LispError::Error(ErrorMessage::MarkerDoesNotPointAnywhere))
            },
            None => Err(LispError::WrongType(TypePredicate::IntegerOrMarkerP, o)),
        }
    }
}

impl Buffers {
    /// The region from START to STOP (fixnums or markers) of the current
    /// buffer, in order, as fixnums; `args-out-of-range` when it is not
    /// within the accessible region.
    pub fn validate_region(&self, start: LispObject, stop: LispObject) -> (r: Result<(LispObject, LispObject), LispError>)
        requires
            self.wf(),
        ensures
            match (coerced_position(self, start), coerced_position(self, stop)) {
                (Err(e), _) => r == Err::<(LispObject, LispObject), LispError>(e),
                (Ok(_), Err(e)) => r == Err::<(LispObject, LispObject), LispError>(e),
                (Ok(a), Ok(b)) => {
                    let lo = if a <= b { a } else { b };
                    let hi = if a <= b { b } else { a };
                    let buf = &self.buffers@[self.current as int];
                    if buf.begv <= lo && hi <= buf.zv {
                        r matches Ok(p) && is_fixnum_word(p.0.0) && fixnum_value(p.0.0) == lo && is_fixnum_word(p.1.0)
                            && fixnum_value(p.1.0) == hi
                    } else {
                        r == Err::<(LispObject, LispObject), LispError>(
                            LispError::ArgsOutOfRange3(buffer_word(self.current as int), start, stop),
                        )
                    }
                },
            },
    {
        let mut beg = self.as_fixnum_coerce_marker_or_error(start)?;
        let mut end = self.as_fixnum_coerce_marker_or_error(stop)?;
        if beg > end {
            let t = beg;
            beg = end;
            end = t;
        }
        let cur = self.current;
        let begv = self.buffers[cur].begv as i64;
        let zv = self.buffers[cur].zv as i64;
        if !(begv <= beg && end <= zv) {
            return Err(LispError::ArgsOutOfRange3(self.current_buffer(), start, stop));
        }
        proof {
            assert(self.buffer_ok(cur as int));
        }
        Ok((LispObject::from_fixnum(beg), LispObject::from_fixnum(end)))
    }

    /// Makes the buffer BUFFER_OR_NAME (a buffer, or the name of a live
    /// one) current; returns it.
    pub fn set_buffer(&mut self, h: &LispHeap, buffer_or_name: LispObject) -> (r: Result<LispObject, LispError>)
        requires
            old(self).wf(),
            h.wf(),
        ensures
            final(self).wf(),
            final(self).buffers@ == old(self).buffers@,
            final(self).markers@ == old(self).markers@,
            match old(self).buffer_of(buffer_or_name) {
                Some(b) => if old(self).buffers@[b].name.0 != 0 {
                    r == Ok::<LispObject, LispError>(buffer_or_name) && final(self).current == b
                } else {
                    r == Err::<LispObject, LispError>(LispError::Error(ErrorMessage::SelectingDeletedBuffer))
                        && final(self).current == old(self).current
                },
                None => if !h.is_string(buffer_or_name) {
                    r == Err::<LispObject, LispError>(LispError::WrongType(TypePredicate::Stringp, buffer_or_name))
                        && final(self).current == old(self).current
                } else {
                    match first_match(old(self), h, BufferKey::Name, buffer_or_name) {
                        Some(i) => r == Ok::<LispObject, LispError>(buffer_word(i)) && final(self).current == i,
                        None => r == Err::<LispObject, LispError>(nsberror_spec(h, buffer_or_name))
                            && final(self).current == old(self).current,
                    }
                },
            },
    {
        let ghost o = *old(self);
        let (b, buffer) = match self.as_buffer(buffer_or_name) {
            Some(b) => (b, buffer_or_name),
            None => {
                if !h.is_string_obj(buffer_or_name) {
                    return Err(LispError::WrongType(TypePredicate::Stringp, buffer_or_name));
                }
                match self.find_live_buffer(h, BufferKey::Name, buffer_or_name) {
                    Some(i) => (i, self.buffer_obj(i)),
                    None => {
                        return Err(nsberror(h, buffer_or_name));
                    },
                }
            },
        };
        if !self.buffers[b].name.is_not_nil() {
            return Err(LispError::Error(ErrorMessage::SelectingDeletedBuffer));
        }
        self.current = b;
        proof {
            assert forall|i: int| 0 <= i < self.buffers@.len() implies #[trigger] self.buffer_ok(i) by {
                assert(o.buffer_ok(i));
            }
        }
        Ok(buffer)
    }
}

/// The error `nsberror` signals for SPEC.
pub open spec fn nsberror_spec(h: &LispHeap, spec: LispObject) -> LispError {
    if h.is_string(spec) {
        LispError::ErrorWith(ErrorMessage::NoBufferNamed, spec, LispObject(0))
    } else {
        LispError::Error(ErrorMessage::InvalidBufferArgument)
    }
}

/// Where `record_buffer_markers` puts a marker of buffer `b` for the
/// position `c`: there when the buffer is live, else nowhere.
pub open spec fn record_target(w: &Buffers, b: usize, c: isize) -> Option<(usize, int)> {
    if w.buffers@[b as int].name.0 != 0 {
        Some((b, c as int))
    } else {
        None
    }
}

impl Buffers {
    /// Points the position markers of buffer B (if it has them) at its
    /// point and the ends of its accessible region.
    pub fn record_buffer_markers(&mut self, b: usize)
        requires
            old(self).wf(),
            b < old(self).buffers@.len(),
        ensures
            final(self).wf(),
            final(self).current == old(self).current,
            final(self).buffers@.len() == old(self).buffers@.len(),
            forall|i: int| 0 <= i < old(self).buffers@.len() ==> same_text_and_positions(
                &#[trigger] old(self).buffers@[i],
                &final(self).buffers@[i],
            ),
            record_done(old(self), final(self), b),
    {
        let ghost o = *old(self);
        let ms = match self.buffers[b].position_markers {
            Some(ms) => ms,
            None => {
                return;
            },
        };
        proof {
            assert(self.buffer_ok(b as int));
        }
        let buffer = self.buffer_obj(b);
        let pt = self.buffers[b].pt;
        let pt_byte = self.buffers[b].pt_byte;
        let begv = self.buffers[b].begv;
        let begv_byte = self.buffers[b].begv_byte;
        let zv = self.buffers[b].zv;
        let zv_byte = self.buffers[b].zv_byte;
        let m0 = self.marker_obj(ms.0);
        let m1 = self.marker_obj(ms.1);
        let m2 = self.marker_obj(ms.2);
        let _ = self.set_marker_both(m0, buffer, pt, pt_byte);
        let ghost w1 = *self;
        proof {
            assert(same_text_and_positions(&o.buffers@[b as int], &w1.buffers@[b as int]));
            assert(w1.markers@[ms.1 as int] == o.markers@[ms.1 as int]);
            assert(w1.markers@[ms.2 as int] == o.markers@[ms.2 as int]);
        }
        let _ = self.set_marker_both(m1, buffer, begv, begv_byte);
        let ghost w2 = *self;
        proof {
            assert(same_text_and_positions(&w1.buffers@[b as int], &w2.buffers@[b as int]));
            assert(w2.markers@[ms.2 as int] == o.markers@[ms.2 as int]);
            assert(w2.markers@[ms.0 as int] == w1.markers@[ms.0 as int]);
        }
        let _ = self.set_marker_both(m2, buffer, zv, zv_byte);
        proof {
            assert(self.markers@[ms.0 as int] == w1.markers@[ms.0 as int]);
            assert(self.markers@[ms.1 as int] == w2.markers@[ms.1 as int]);
            let ob = &o.buffers@[b as int];
            assert(marker_after(&w1, ms.1 as int, record_target(&w1, b, begv)) == marker_after(
                &o,
                ms.1 as int,
                record_target(&o, b, ob.begv),
            ));
            assert(marker_after(&w2, ms.2 as int, record_target(&w2, b, zv)) == marker_after(
                &o,
                ms.2 as int,
                record_target(&o, b, ob.zv),
            ));
            assert forall|i: int| 0 <= i < o.buffers@.len() implies same_text_and_positions(
                &#[trigger] o.buffers@[i],
                &self.buffers@[i],
            ) by {
                assert(same_text_and_positions(&o.buffers@[i], &w1.buffers@[i]));
                assert(same_text_and_positions(&w1.buffers@[i], &w2.buffers@[i]));
                assert(same_text_and_positions(&w2.buffers@[i], &self.buffers@[i]));
            }
            assert forall|x: int|
                0 <= x < o.markers@.len() && x != ms.0 && x != ms.1 && x != ms.2 implies #[trigger] self.markers@[x]
                == o.markers@[x] by {
                assert(w1.markers@[x] == o.markers@[x]);
                assert(w2.markers@[x] == w1.markers@[x]);
            }
        }
    }

    /// Takes point and the ends of the accessible region of buffer B from
    /// its position markers (if it has them).
    pub fn fetch_buffer_markers(&mut self, b: usize)
        requires
            old(self).wf(),
            b < old(self).buffers@.len(),
            old(self).buffers@[b as int].position_markers matches Some(ms) ==> {
                let m = old(self).markers@;
                &&& ms.0 < m.len() && ms.1 < m.len() && ms.2 < m.len()
                &&& m[ms.0 as int].buffer == Some(b) && m[ms.1 as int].buffer == Some(b) && m[ms.2 as int].buffer
                    == Some(b)
                &&& m[ms.1 as int].charpos <= m[ms.0 as int].charpos <= m[ms.2 as int].charpos
            },
        ensures
            final(self).wf(),
            final(self).current == old(self).current,
            final(self).markers@ == old(self).markers@,
            final(self).buffers@.len() == old(self).buffers@.len(),
            forall|i: int| 0 <= i < old(self).buffers@.len() && i != b ==> #[trigger] final(self).buffers@[i]
                == old(self).buffers@[i],
            fetch_done(old(self), final(self), b),
    {
        let ghost o = *old(self);
        let ms = match self.buffers[b].position_markers {
            Some(ms) => ms,
            None => {
                return;
            },
        };
        let p = self.markers[ms.0];
        let bg = self.markers[ms.1];
        let zv = self.markers[ms.2];
        proof {
            assert(self.buffer_ok(b as int));
            let ob = &o.buffers@[b as int];
            assert(o.markers@[ms.0 as int].buffer is Some);
            assert(o.markers@[ms.1 as int].buffer is Some);
            assert(o.markers@[ms.2 as int].buffer is Some);
            let k0 = choose|k: int| 0 <= k < ob.markers@.len() && ob.markers@[k] == ms.0;
            let k1 = choose|k: int| 0 <= k < ob.markers@.len() && ob.markers@[k] == ms.1;
            let k2 = choose|k: int| 0 <= k < ob.markers@.len() && ob.markers@[k] == ms.2;
            assert(ob.markers@[k0] == ms.0);
            assert(ob.markers@[k1] == ms.1);
            assert(ob.markers@[k2] == ms.2);
            assert(known(ob, p.charpos as int, p.bytepos as int));
            assert(known(ob, bg.charpos as int, bg.bytepos as int));
            assert(known(ob, zv.charpos as int, zv.bytepos as int));
            lemma_char_to_byte_mono(ob, bg.charpos as int, p.charpos as int);
            lemma_char_to_byte_mono(ob, p.charpos as int, zv.charpos as int);
            lemma_known_bounds(ob, zv.charpos as int, zv.bytepos as int);
            lemma_known_bounds(ob, bg.charpos as int, bg.bytepos as int);
        }
        let mut buf = self.buffers.remove(b);
        buf.pt = p.charpos;
        buf.pt_byte = p.bytepos;
        buf.begv = bg.charpos;
        buf.begv_byte = bg.bytepos;
        buf.zv = zv.charpos;
        buf.zv_byte = zv.bytepos;
        self.buffers.insert(b, buf);
        proof {
            assert(self.buffers@ =~= o.buffers@.update(b as int, buf));
            assert forall|i: int| 0 <= i < self.buffers@.len() implies #[trigger] self.buffer_ok(i) by {
                assert(o.buffer_ok(i));
            }
        }
    }
}

/// What `record_buffer_markers` did to buffer `b`'s position markers.
pub open spec fn record_done(before: &Buffers, after: &Buffers, b: usize) -> bool {
    match before.buffers@[b as int].position_markers {
        None => *after == *before,
        Some(ms) => {
            let ob = &before.buffers@[b as int];
            &&& after.markers@[ms.0 as int] == marker_after(before, ms.0 as int, record_target(before, b, ob.pt))
            &&& after.markers@[ms.1 as int] == marker_after(before, ms.1 as int, record_target(before, b, ob.begv))
            &&& after.markers@[ms.2 as int] == marker_after(before, ms.2 as int, record_target(before, b, ob.zv))
            &&& after.markers@.len() == before.markers@.len()
            &&& forall|x: int|
                0 <= x < before.markers@.len() && x != ms.0 && x != ms.1 && x != ms.2
                    ==> #[trigger] after.markers@[x] == before.markers@[x]
        },
    }
}

/// What `fetch_buffer_markers` did to buffer `b`.
pub open spec fn fetch_done(before: &Buffers, after: &Buffers, b: usize) -> bool {
    match before.buffers@[b as int].position_markers {
        None => *after == *before,
        Some(ms) => {
            let m = before.markers@;
            after.buffers@[b as int] == (LispBuffer {
                pt: m[ms.0 as int].charpos,
                pt_byte: m[ms.0 as int].bytepos,
                begv: m[ms.1 as int].charpos,
                begv_byte: m[ms.1 as int].bytepos,
                zv: m[ms.2 as int].charpos,
                zv_byte: m[ms.2 as int].bytepos,
                ..before.buffers@[b as int]
            })
        },
    }
}

/// Recording the positions of a live buffer in its position markers and
/// fetching them back leaves point and the accessible region as they
/// were.
pub proof fn lemma_record_then_fetch(w0: &Buffers, w1: &Buffers, w2: &Buffers, b: usize)
    requires
        w0.wf(),
        b < w0.buffers@.len(),
        w0.buffers@[b as int].name.0 != 0,
        w0.buffers@[b as int].position_markers is Some,
        w1.buffers@.len() == w0.buffers@.len(),
        same_text_and_positions(&w0.buffers@[b as int], &w1.buffers@[b as int]),
        record_done(w0, w1, b),
        fetch_done(w1, w2, b),
    ensures
        w2.buffers@[b as int].pt == w0.buffers@[b as int].pt,
        w2.buffers@[b as int].pt_byte == w0.buffers@[b as int].pt_byte,
        w2.buffers@[b as int].begv == w0.buffers@[b as int].begv,
        w2.buffers@[b as int].begv_byte == w0.buffers@[b as int].begv_byte,
        w2.buffers@[b as int].zv == w0.buffers@[b as int].zv,
        w2.buffers@[b as int].zv_byte == w0.buffers@[b as int].zv_byte,
{
    assert(w0.buffer_ok(b as int));
}


/// The live buffers from number `i` on, in the order of the buffer list.
pub open spec fn live_buffers_from(w: &Buffers, i: nat) -> Seq<LispObject>
    decreases w.buffers@.len() - i,
{
    if i >= w.buffers@.len() {
        seq![]
    } else if w.buffers@[i as int].name.0 != 0 {
        seq![buffer_word(i as int)] + live_buffers_from(w, i + 1)
    } else {
        live_buffers_from(w, i + 1)
    }
}

/// The live buffers from number `i` on that are not in both FRAME_BUFFERS
/// and BURIED.
pub open spec fn other_buffers_from(w: &Buffers, frame_buffers: Seq<LispObject>, buried: Seq<LispObject>, i: nat) -> Seq<
    LispObject,
>
    decreases w.buffers@.len() - i,
{
    if i >= w.buffers@.len() {
        seq![]
    } else if w.buffers@[i as int].name.0 != 0 && !(frame_buffers.contains(buffer_word(i as int)) && buried.contains(
        buffer_word(i as int),
    )) {
        seq![buffer_word(i as int)] + other_buffers_from(w, frame_buffers, buried, i + 1)
    } else {
        other_buffers_from(w, frame_buffers, buried, i + 1)
    }
}

/// The elements of the buffer list: the live buffers in order; for a
/// frame whose buffer list and buried buffer list are FRAME_BUFFERS and
/// BURIED, the frame's buffers first, then the other live buffers except
/// those in both of the frame's lists, then the buried buffers, the last
/// buried first.
pub open spec fn buffer_list_elements(w: &Buffers, frame_lists: Option<(Seq<LispObject>, Seq<LispObject>)>) -> Seq<
    LispObject,
> {
    match frame_lists {
        None => live_buffers_from(w, 0),
        Some((f, b)) => f + other_buffers_from(w, f, b, 0) + b.reverse(),
    }
}

impl Buffers {
    /// The list of live buffers (see `buffer_list_elements`); FRAME_LISTS
    /// holds the buffer list and the buried buffer list of the frame
    /// asked for, if any.
    pub fn buffer_list(&self, h: &mut LispHeap, frame_lists: Option<(&Vec<LispObject>, &Vec<LispObject>)>) -> (r:
        LispObject)
        requires
            self.wf(),
            old(h).wf(),
            frame_lists matches Some((f, b)) ==> {
                &&& forall|k: int| 0 <= k < f@.len() ==> old(h).valid(#[trigger] f@[k])
                &&& forall|k: int| 0 <= k < b@.len() ==> old(h).valid(#[trigger] b@[k])
                &&& old(h).cells().len() + f@.len() + b@.len() + self.buffers@.len() <= crate::heap::MAX_OBJECTS
            },
            frame_lists is None ==> old(h).cells().len() + self.buffers@.len() <= crate::heap::MAX_OBJECTS,
        ensures
            final(h).wf(),
            crate::lists::is_list_of(
                final(h),
                r,
                buffer_list_elements(
                    self,
                    match frame_lists {
                        None => None,
                        Some((f, b)) => Some((f@, b@)),
                    },
                ),
            ),
            final(h).string_view() == old(h).string_view(),
            final(h).vector_view() == old(h).vector_view(),
            old(h).cells().len() <= final(h).cells().len(),
            forall|i: int| 0 <= i < old(h).cells().len() ==> #[trigger] final(h).cells()[i] == old(h).cells()[i],
    {
        let ghost h0 = *old(h);
        let ghost fs: Seq<LispObject> = match frame_lists {
            None => seq![],
            Some((f, _)) => f@,
        };
        let ghost bs: Seq<LispObject> = match frame_lists {
            None => seq![],
            Some((_, b)) => b@,
        };
        let ghost tail_elems: Seq<LispObject> = match frame_lists {
            None => seq![],
            Some((_, b)) => b@.reverse(),
        };
        // The buried buffers, the last first.
        let mut l = LispObject::constant_nil();
        proof {
            crate::tag::lemma_nil_tag();
            assert(bs.subrange(0, 0).reverse() =~= seq![]);
        }
        if let Some((_, buried)) = frame_lists {
            let mut k: usize = 0;
            while k < buried.len()
                invariant
                    h.wf(),
                    bs == buried@,
                    k <= buried@.len(),
                    forall|m: int| 0 <= m < buried@.len() ==> h0.valid(#[trigger] buried@[m]),
                    h.cells().len() == h0.cells().len() + k,
                    h0.cells().len() + fs.len() + buried@.len() + self.buffers@.len() <= crate::heap::MAX_OBJECTS,
                    h.valid(l),
                    crate::lists::is_list_of(h, l, buried@.subrange(0, k as int).reverse()),
                    h.string_view() == h0.string_view(),
                    h.vector_view() == h0.vector_view(),
                    forall|i: int| 0 <= i < h0.cells().len() ==> #[trigger] h.cells()[i] == h0.cells()[i],
                decreases buried@.len() - k,
            {
                let e = buried[k];
                proof {
                    assert(h0.valid(buried@[k as int]));
                }
                let ghost hb = *h;
                let ghost lb = l;
                l = h.cons(e, l);
                proof {
                    crate::lists::lemma_list_kept(&hb, h, lb, buried@.subrange(0, k as int).reverse());
                    let s = buried@.subrange(0, k + 1).reverse();
                    assert(s[0] == e);
                    assert(s.drop_first() =~= buried@.subrange(0, k as int).reverse());
                }
                k = k + 1;
            }
            proof {
                assert(buried@.subrange(0, buried@.len() as int) =~= buried@);
            }
        }
        // The live buffers, last first, each in front.
        let mut j: usize = self.buffers.len();
        let ghost others = match frame_lists {
            None => live_buffers_from(self, 0),
            Some((f, b)) => other_buffers_from(self, f@, b@, 0),
        };
        while j > 0
            invariant
                self.wf(),
                h.wf(),
                j <= self.buffers@.len(),
                h.cells().len() <= h0.cells().len() + bs.len() + (self.buffers@.len() - j),
                h0.cells().len() + fs.len() + bs.len() + self.buffers@.len() <= crate::heap::MAX_OBJECTS,
                h.valid(l),
                frame_lists is None ==> crate::lists::is_list_of(h, l, live_buffers_from(self, j as nat)),
                frame_lists matches Some((f, b)) ==> crate::lists::is_list_of(
                    h,
                    l,
                    other_buffers_from(self, f@, b@, j as nat) + b@.reverse(),
                ),
                h.string_view() == h0.string_view(),
                h.vector_view() == h0.vector_view(),
                h0.cells().len() <= h.cells().len(),
                forall|i: int| 0 <= i < h0.cells().len() ==> #[trigger] h.cells()[i] == h0.cells()[i],
            decreases j,
        {
            j = j - 1;
            let live = self.buffers[j].name.is_not_nil();
            let keep = live && match frame_lists {
                None => true,
                Some((f, b)) => {
                    let w = self.buffer_obj(j);
                    !(contains_word(f, w) && contains_word(b, w))
                },
            };
            let ghost jn = j as nat;
            if keep {
                let w = self.buffer_obj(j);
                proof {
                    crate::process::lemma_store_word_valid(h, 3 * crate::heap::MAX_OBJECTS + j);
                }
                let ghost hb = *h;
                let ghost lb = l;
                l = h.cons(w, l);
                proof {
                    match frame_lists {
                        None => {
                            crate::lists::lemma_list_kept(&hb, h, lb, live_buffers_from(self, jn + 1));
                            let s = live_buffers_from(self, jn);
                            assert(s == seq![w] + live_buffers_from(self, jn + 1));
                            assert(s.drop_first() =~= live_buffers_from(self, jn + 1));
                        },
                        Some((f, b)) => {
                            let rest = other_buffers_from(self, f@, b@, jn + 1) + b@.reverse();
                            crate::lists::lemma_list_kept(&hb, h, lb, rest);
                            let s = other_buffers_from(self, f@, b@, jn) + b@.reverse();
                            assert(other_buffers_from(self, f@, b@, jn) == seq![w] + other_buffers_from(
                                self,
                                f@,
                                b@,
                                jn + 1,
                            ));
                            assert(s.drop_first() =~= rest);
                        },
                    }
                }
            } else {
                proof {
                    match frame_lists {
                        None => {
                            assert(live_buffers_from(self, jn) == live_buffers_from(self, jn + 1));
                        },
                        Some((f, b)) => {
                            assert(other_buffers_from(self, f@, b@, jn) == other_buffers_from(self, f@, b@, jn + 1));
                        },
                    }
                }
            }
        }
        // The frame's buffers in front.
        if let Some((fb, buried)) = frame_lists {
            let mut k: usize = fb.len();
            proof {
                assert(fb@.subrange(fb@.len() as int, fb@.len() as int) + other_buffers_from(self, fb@, buried@, 0)
                    + buried@.reverse() =~= other_buffers_from(self, fb@, buried@, 0) + buried@.reverse());
            }
            while k > 0
                invariant
                    h.wf(),
                    fs == fb@,
                    k <= fb@.len(),
                    forall|m: int| 0 <= m < fb@.len() ==> h0.valid(#[trigger] fb@[m]),
                    h.cells().len() + k <= crate::heap::MAX_OBJECTS,
                    h.valid(l),
                    crate::lists::is_list_of(
                        h,
                        l,
                        fb@.subrange(k as int, fb@.len() as int) + other_buffers_from(self, fb@, buried@, 0)
                            + buried@.reverse(),
                    ),
                    h.string_view() == h0.string_view(),
                    h.vector_view() == h0.vector_view(),
                    h0.cells().len() <= h.cells().len(),
                    forall|i: int| 0 <= i < h0.cells().len() ==> #[trigger] h.cells()[i] == h0.cells()[i],
                decreases k,
            {
                k = k - 1;
                let e = fb[k];
                proof {
                    assert(h0.valid(fb@[k as int]));
                }
                let ghost hb = *h;
                let ghost lb = l;
                let ghost rest = fb@.subrange(k + 1, fb@.len() as int) + other_buffers_from(self, fb@, buried@, 0)
                    + buried@.reverse();
                l = h.cons(e, l);
                proof {
                    crate::lists::lemma_list_kept(&hb, h, lb, rest);
                    let s = fb@.subrange(k as int, fb@.len() as int) + other_buffers_from(self, fb@, buried@, 0)
                        + buried@.reverse();
                    assert(s[0] == e);
                    assert(s.drop_first() =~= rest);
                }
            }
            proof {
                assert(fb@.subrange(0, fb@.len() as int) =~= fb@);
            }
        }
        l
    }
}

/// Whether the word W is among the elements of V.
fn contains_word(v: &Vec<LispObject>, w: LispObject) -> (b: bool)
    ensures
        b == v@.contains(w),
{
    let mut k: usize = 0;
    while k < v.len()
        invariant
            k <= v@.len(),
            forall|m: int| 0 <= m < k ==> v@[m] != w,
        decreases v@.len() - k,
    {
        if v[k].eq(w) {
            proof {
                assert(v@[k as int] == w);
            }
            return true;
        }
        k = k + 1;
    }
    false
}

} // verus!
