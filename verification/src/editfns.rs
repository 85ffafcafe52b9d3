//! Positions in a buffer: point, the accessible region, the mark, and
//! the questions and motions on them.
//!
//! Positions count characters from 1; byte positions count bytes from 1.
//! The text holds the bytes of the buffer, the byte at byte position `p`
//! at index `p - 1`.  Setting point (which runs hooks) is the caller's:
//! the motions here say where point goes.
use vstd::prelude::*;

use crate::error::{ErrorMessage, LispError, TypePredicate};
use crate::heap::{LispHeap, MAX_OBJECTS};
use crate::lists::{is_list_of, lemma_list_kept};
use crate::tag::{fixnum_value, is_fixnum_word, LispObject};

verus! {

/// The positions and text of a buffer.
pub struct LispBuffer {
    pub pt: isize,
    pub pt_byte: isize,
    pub begv: isize,
    pub begv_byte: isize,
    pub zv: isize,
    pub zv_byte: isize,
    pub z: isize,
    pub z_byte: isize,
    pub text: Vec<u8>,
    /// The position of the mark, `None` when the mark is not set.
    pub mark: Option<isize>,
    pub mark_active: bool,
    /// Where the gap is, in characters and bytes.
    pub gpt: isize,
    pub gpt_byte: isize,
    /// The count of modifications of the text.
    pub modiff: i64,
    /// A remembered correspondence of a character and a byte position,
    /// to be trusted while `cached_modiff` is `modiff`.
    pub is_cached: bool,
    pub cached_modiff: i64,
    pub cached_charpos: isize,
    pub cached_bytepos: isize,
    /// The markers of the buffer (their numbers), the newest first.
    pub markers: Vec<usize>,
    /// The name of the buffer, `nil` once it has been killed.
    pub name: LispObject,
    /// The name of the file it visits, `nil` for none.
    pub filename: LispObject,
    /// The modification count when the buffer was last read or saved.
    pub save_modiff: i64,
    /// The modification count at the last change of characters.
    pub chars_modiff: i64,
    /// The true name of the file it visits, `nil` for none.
    pub truename: LispObject,
    /// The markers that hold point and the accessible region while the
    /// buffer is not current (for buffers that share their text).
    pub position_markers: Option<(usize, usize, usize)>,
}

/// The largest position a buffer can have.
pub const BUF_MAX: isize = 0x3fff_ffff;

impl LispBuffer {
    /// Well-formedness: the accessible region lies in the buffer, point
    /// in the region, and the text holds the bytes up to the end.
    pub open spec fn wf(&self) -> bool {
        &&& 1 <= self.begv <= self.pt <= self.zv <= self.z <= BUF_MAX
        &&& 1 <= self.begv_byte <= self.pt_byte <= self.zv_byte <= self.z_byte <= BUF_MAX
        &&& self.text@.len() == self.z_byte - 1
        &&& self.mark matches Some(m) ==> 1 <= m <= self.z
    }

    /// The byte at byte position `p`.
    pub open spec fn byte_at(&self, p: int) -> u8 {
        self.text@[p - 1]
    }

    /// The byte at byte position POS (1 up to the end).
    pub fn fetch_byte(&self, pos: isize) -> (b: u8)
        requires
            self.wf(),
            1 <= pos < self.z_byte,
        ensures
            b == self.byte_at(pos as int),
    {
        self.text[(pos - 1) as usize]
    }
}

/// N clipped into `lower ..= upper`.
pub fn clip_to_bounds(lower: isize, num: i64, upper: isize) -> (r: isize)
    requires
        lower <= upper,
    ensures
        r == (if num < lower {
            lower as int
        } else if num > upper {
            upper as int
        } else {
            num as int
        }),
{
    if num < lower as i64 {
        lower
    } else if num > upper as i64 {
        upper
    } else {
        num as isize
    }
}

/// The position of point.
pub fn point(b: &LispBuffer) -> (r: LispObject)
    requires
        b.wf(),
    ensures
        is_fixnum_word(r.0) && fixnum_value(r.0) == b.pt,
{
    LispObject::from_natnum(b.pt as i64)
}

/// The first accessible position.
pub fn point_min(b: &LispBuffer) -> (r: LispObject)
    requires
        b.wf(),
    ensures
        is_fixnum_word(r.0) && fixnum_value(r.0) == b.begv,
{
    LispObject::from_natnum(b.begv as i64)
}

/// The last accessible position.
pub fn point_max(b: &LispBuffer) -> (r: LispObject)
    requires
        b.wf(),
    ensures
        is_fixnum_word(r.0) && fixnum_value(r.0) == b.zv,
{
    LispObject::from_natnum(b.zv as i64)
}

/// The number of characters of the buffer.
pub fn buffer_size(b: &LispBuffer) -> (r: LispObject)
    requires
        b.wf(),
    ensures
        is_fixnum_word(r.0) && fixnum_value(r.0) == b.z - 1,
{
    LispObject::from_natnum((b.z - 1) as i64)
}

/// Whether point is at the end of the accessible region.
pub fn eobp(b: &LispBuffer) -> (r: LispObject)
    requires
        b.wf(),
    ensures
        r == LispObject::from_bool_spec(b.zv == b.pt),
{
    LispObject::from_bool(b.zv == b.pt)
}

/// Whether point is at the beginning of the accessible region.
pub fn bobp(b: &LispBuffer) -> (r: LispObject)
    requires
        b.wf(),
    ensures
        r == LispObject::from_bool_spec(b.pt == b.begv),
{
    LispObject::from_bool(b.pt == b.begv)
}

/// Whether point is at the beginning of a line.
pub fn bolp(b: &LispBuffer) -> (r: LispObject)
    requires
        b.wf(),
        b.pt > b.begv ==> b.pt_byte > 1,
    ensures
        r == LispObject::from_bool_spec(b.pt == b.begv || b.byte_at(b.pt_byte - 1) == 10),
{
    LispObject::from_bool(b.pt == b.begv || b.fetch_byte(b.pt_byte - 1) == 10)
}

/// Whether point is at the end of a line.
pub fn eolp(b: &LispBuffer) -> (r: LispObject)
    requires
        b.wf(),
        b.pt < b.zv ==> b.pt_byte < b.z_byte,
    ensures
        r == LispObject::from_bool_spec(b.pt == b.zv || b.byte_at(b.pt_byte as int) == 10),
{
    LispObject::from_bool(b.pt == b.zv || b.fetch_byte(b.pt_byte) == 10)
}

/// The end of the region nearer the start (BEGINNINGP) or the end of the
/// buffer: point, or the mark clipped into the accessible region.  In
/// transient mark mode an inactive mark is `mark-inactive` (unless
/// MARK_EVEN_IF_INACTIVE); an unset mark is an error.
pub fn region_limit(b: &LispBuffer, beginningp: bool, transient_mark_mode: bool, mark_even_if_inactive: bool) -> (r:
    Result<LispObject, LispError>)
    requires
        b.wf(),
    ensures
        transient_mark_mode && !mark_even_if_inactive && !b.mark_active ==> r == Err::<LispObject, LispError>(
            LispError::MarkInactive,
        ),
        !(transient_mark_mode && !mark_even_if_inactive && !b.mark_active) ==> match b.mark {
            None => r == Err::<LispObject, LispError>(LispError::Error(ErrorMessage::MarkNotSet)),
            Some(m) => r matches Ok(o) && is_fixnum_word(o.0) && fixnum_value(o.0) == if (b.pt < m) == beginningp {
                b.pt as int
            } else if m < b.begv {
                b.begv as int
            } else if m > b.zv {
                b.zv as int
            } else {
                m as int
            },
        },
{
    if transient_mark_mode && !mark_even_if_inactive && !b.mark_active {
        return Err(LispError::MarkInactive);
    }
    let m = match b.mark {
        None => {
            return Err(LispError::Error(ErrorMessage::MarkNotSet));
        },
        Some(m) => m,
    };
    if (b.pt < m) == beginningp {
        Ok(LispObject::from_fixnum(b.pt as i64))
    } else {
        Ok(LispObject::from_fixnum(clip_to_bounds(b.begv, m as i64, b.zv) as i64))
    }
}

/// Where `goto-char` puts point for a fixnum POSITION: clipped into the
/// accessible region; a marker is placed by the caller; anything else
/// is `wrong-type-argument integer-or-marker-p`.
pub fn goto_char(b: &LispBuffer, position: LispObject, is_marker: bool) -> (r: Result<Option<isize>, LispError>)
    requires
        b.wf(),
    ensures
        is_marker ==> r == Ok::<Option<isize>, LispError>(None),
        !is_marker && is_fixnum_word(position.0) ==> (r matches Ok(Some(p)) && p == (if fixnum_value(position.0)
            < b.begv {
            b.begv as int
        } else if fixnum_value(position.0) > b.zv {
            b.zv as int
        } else {
            fixnum_value(position.0)
        })),
        !is_marker && !is_fixnum_word(position.0) ==> r == Err::<Option<isize>, LispError>(
            LispError::WrongType(TypePredicate::IntegerOrMarkerP, position),
        ),
{
    if is_marker {
        return Ok(None);
    }
    match position.as_fixnum() {
        Some(num) => Ok(Some(clip_to_bounds(b.begv, num, b.zv))),
        None => Err(LispError::WrongType(TypePredicate::IntegerOrMarkerP, position)),
    }
}

/// The pairs of S (property, value), the last pair first.
pub open spec fn rev_pairs(s: Seq<LispObject>) -> Seq<LispObject>
    decreases s.len(),
{
    if s.len() < 2 {
        seq![]
    } else {
        seq![s[s.len() - 2], s[s.len() - 1]] + rev_pairs(s.subrange(0, s.len() - 2))
    }
}

/// The property list that `propertize` adds to a copy of the string
/// ARGS[0]: the PROPERTY VALUE pairs of the other arguments, the last pair
/// first.  An even number of arguments is an error, and the first must be
/// a string.  (Copying the string and adding the properties is the
/// caller's.)
pub fn propertize(h: &mut LispHeap, args: &Vec<LispObject>) -> (r: Result<LispObject, LispError>)
    requires
        old(h).wf(),
        args@.len() >= 1,
        forall|i: int| 0 <= i < args@.len() ==> old(h).valid(#[trigger] args@[i]),
        old(h).cells().len() + args@.len() <= MAX_OBJECTS,
    ensures
        final(h).wf(),
        args@.len() % 2 == 0 ==> r == Err::<LispObject, LispError>(
            LispError::Error(ErrorMessage::WrongNumberOfArguments),
        ) && *final(h) == *old(h),
        args@.len() % 2 == 1 && !old(h).is_string(args@[0]) ==> r == Err::<LispObject, LispError>(
            LispError::WrongType(TypePredicate::Stringp, args@[0]),
        ) && *final(h) == *old(h),
        args@.len() % 2 == 1 && old(h).is_string(args@[0]) ==> (r matches Ok(l) && is_list_of(
            final(h),
            l,
            rev_pairs(args@.subrange(1, args@.len() as int)),
        )),
        final(h).string_view() == old(h).string_view(),
        final(h).vector_view() == old(h).vector_view(),
{
    if args.len() % 2 == 0 {
        return Err(LispError::Error(ErrorMessage::WrongNumberOfArguments));
    }
    if !h.is_string_obj(args[0]) {
        return Err(LispError::WrongType(TypePredicate::Stringp, args[0]));
    }
    let ghost props = args@.subrange(1, args@.len() as int);
    let ghost h0 = *old(h);
    let mut properties = LispObject::constant_nil();
    proof {
        crate::tag::lemma_nil_tag();
        assert(rev_pairs(props.subrange(0, 0)) =~= seq![]);
    }
    let mut i: usize = 1;
    while i < args.len()
        invariant
            h.wf(),
            1 <= i <= args@.len(),
            args@.len() % 2 == 1,
            i % 2 == 1,
            props == args@.subrange(1, args@.len() as int),
            forall|k: int| 0 <= k < args@.len() ==> h0.valid(#[trigger] args@[k]),
            h.cells().len() + (args@.len() - i) <= MAX_OBJECTS,
            h0.cells().len() <= h.cells().len(),
            forall|k: int| 0 <= k < h0.cells().len() ==> #[trigger] h.cells()[k] == h0.cells()[k],
            h.string_view() == h0.string_view(),
            h.vector_view() == h0.vector_view(),
            h.valid(properties),
            is_list_of(h, properties, rev_pairs(props.subrange(0, i - 1))),
        decreases args@.len() - i,
    {
        let a = args[i];
        let b = args[i + 1];
        proof {
            assert(h.valid(a) && h.valid(b)) by {
                assert(h0.valid(args@[i as int]));
                assert(h0.valid(args@[i + 1]));
            }
        }
        let ghost hb = *h;
        let ghost pb = properties;
        let inner = h.cons(b, properties);
        let ghost hm = *h;
        properties = h.cons(a, inner);
        proof {
            let t = props.subrange(0, i - 1);
            let rest = seq![b] + rev_pairs(t);
            lemma_list_kept(&hb, &hm, pb, rev_pairs(t));
            assert(rest.drop_first() =~= rev_pairs(t));
            assert(is_list_of(&hm, inner, rest));
            lemma_list_kept(&hm, h, inner, rest);
            let t2 = props.subrange(0, i + 1);
            assert(t2.subrange(0, t2.len() - 2) =~= t);
            assert(t2[t2.len() - 2] == a);
            assert(t2[t2.len() - 1] == b);
            let expected = rev_pairs(t2);
            assert(expected == seq![a, b] + rev_pairs(t));
            assert(expected.drop_first() =~= rest);
            assert(is_list_of(h, properties, expected));
            assert(h.valid(properties));
        }
        i = i + 2;
    }
    proof {
        assert(props.subrange(0, i - 1) =~= props);
    }
    Ok(properties)
}

} // verus!
