//! Markers, and the conversion between character and byte positions.
//!
//! Character and byte positions correspond at a few known places of a
//! buffer: its ends, point, the gap, the edges of the accessible region,
//! a remembered pair, and every marker.  A conversion starts from the
//! nearest known places on either side and scans the characters between.
use vstd::prelude::*;

use crate::editfns::{clip_to_bounds, LispBuffer, BUF_MAX};
use crate::error::{ErrorMessage, LispError, TypePredicate};
use crate::tag::{fixnum_value, is_fixnum_word, word_tag, LispObject};
use crate::heap::{LispHeap, MAX_OBJECTS};
use crate::chartab::{tabs_values_ok, CharTables, LispCharTable};
use crate::equal::{equal_in_spec, rust_internal_equal, EqualKind};
use crate::multibyte::{
    bytes_by_char_head, char_bytes, char_head_p, char_start, is_char_head, lemma_char_inside, lemma_char_start_grows,
    lemma_char_start_unique, lemma_prev_head, lemma_single_byte_run, valid_multibyte,
};

verus! {

/// A marker: the buffer it points into (by number), its character and
/// byte positions there, and whether it advances over text inserted at it.
#[derive(PartialEq, Eq, Structural, Clone, Copy, Debug)]
pub struct LispMarker {
    pub buffer: Option<usize>,
    pub charpos: isize,
    pub bytepos: isize,
    pub insertion_type: bool,
}

/// The byte position of character position `c` of the buffer (positions
/// from 1): the same number where the buffer has as many characters as
/// bytes.
pub open spec fn char_to_byte(b: &LispBuffer, c: int) -> int {
    if b.z == b.z_byte {
        c
    } else {
        char_start(b.text@, (c - 1) as nat)
    }
}

/// The text of the buffer is single-byte, or valid multibyte text of its
/// characters.
pub open spec fn text_valid(b: &LispBuffer) -> bool {
    b.z == b.z_byte || valid_multibyte(b.text@, (b.z - 1) as nat)
}

/// The character position `c` and byte position `bp` correspond.
pub open spec fn known(b: &LispBuffer, c: int, bp: int) -> bool {
    1 <= c <= b.z && bp == char_to_byte(b, c)
}

/// The known places of the buffer itself correspond: point, the gap, the
/// accessible region, and the remembered pair while it is current.
pub open spec fn positions_valid(b: &LispBuffer) -> bool {
    &&& known(b, b.pt as int, b.pt_byte as int)
    &&& known(b, b.gpt as int, b.gpt_byte as int)
    &&& known(b, b.begv as int, b.begv_byte as int)
    &&& known(b, b.zv as int, b.zv_byte as int)
    &&& b.is_cached && b.cached_modiff == b.modiff ==> known(b, b.cached_charpos as int, b.cached_bytepos as int)
}

/// The markers of the buffer's chain exist and their positions correspond.
pub open spec fn chain_known(b: &LispBuffer, markers: Seq<LispMarker>) -> bool {
    forall|j: int|
        0 <= j < b.markers@.len() ==> #[trigger] b.markers@[j] < markers.len() && known(
            b,
            markers[b.markers@[j] as int].charpos as int,
            markers[b.markers@[j] as int].bytepos as int,
        )
}

/// What a conversion may leave behind: a pair to remember and a place to
/// mark, both corresponding positions.
pub open spec fn pair_known(b: &LispBuffer, p: Option<(isize, isize)>) -> bool {
    p matches Some(q) ==> known(b, q.0 as int, q.1 as int)
}

impl LispBuffer {
    /// The byte position after the character that starts at POS.
    pub fn inc_pos(&self, pos: isize) -> (r: isize)
        requires
            self.wf(),
            1 <= pos < self.z_byte,
        ensures
            r == pos + bytes_by_char_head(self.text@[pos - 1]),
    {
        pos + char_bytes(self.text[(pos - 1) as usize]) as isize
    }

    /// The start of the character before byte position POS: the last head
    /// byte before it (or the first byte).
    pub fn dec_pos(&self, pos: isize) -> (r: isize)
        requires
            self.wf(),
            1 < pos <= self.z_byte,
        ensures
            1 <= r < pos,
            r == 1 || is_char_head(self.text@[r - 1]),
            forall|p: int| r < p < pos ==> !is_char_head(#[trigger] self.text@[p - 1]),
    {
        let mut p = pos - 1;
        while p > 1 && !char_head_p(self.text[(p - 1) as usize])
            invariant
                self.wf(),
                1 <= p < pos <= self.z_byte,
                forall|q: int| p < q < pos ==> !is_char_head(#[trigger] self.text@[q - 1]),
            decreases p,
        {
            p = p - 1;
        }
        p
    }
}

/// The nearest known places on either side of a position being
/// converted.
pub struct Bracket {
    pub below: isize,
    pub below_byte: isize,
    pub above: isize,
    pub above_byte: isize,
}

/// The bracket around CHARPOS after taking in the known place (C, BP):
/// C replaces the nearer end on its side when it lies strictly between
/// that end and CHARPOS.
pub open spec fn bracket_with_char(br: Bracket, charpos: int, c: isize, bp: isize) -> Bracket {
    if c > charpos && c < br.above {
        Bracket { above: c, above_byte: bp, ..br }
    } else if c < charpos && c > br.below {
        Bracket { below: c, below_byte: bp, ..br }
    } else {
        br
    }
}

/// The bracket around BYTEPOS after taking in the known place (C, BP):
/// BP replaces the nearer end on its side when it lies strictly between
/// that end and BYTEPOS.
pub open spec fn bracket_with_byte(br: Bracket, bytepos: int, bp: isize, c: isize) -> Bracket {
    if bp > bytepos && bp < br.above_byte {
        Bracket { above: c, above_byte: bp, ..br }
    } else if bp < bytepos && bp > br.below_byte {
        Bracket { below: c, below_byte: bp, ..br }
    } else {
        br
    }
}

/// Both ends of the bracket correspond.
pub open spec fn bracket_known(b: &LispBuffer, br: &Bracket) -> bool {
    known(b, br.below as int, br.below_byte as int) && known(b, br.above as int, br.above_byte as int)
}

/// With a valid text, the byte positions of characters grow with them.
proof fn lemma_char_to_byte_grows(b: &LispBuffer, i: int, j: int)
    requires
        b.wf(),
        text_valid(b),
        1 <= i <= j <= b.z,
    ensures
        char_to_byte(b, j) - char_to_byte(b, i) >= j - i,
        char_to_byte(b, 1) == 1,
        char_to_byte(b, b.z as int) == b.z_byte,
{
    if b.z != b.z_byte {
        lemma_char_start_grows(b.text@, (i - 1) as nat, (j - 1) as nat);
    }
}

/// The byte positions of characters grow at least as fast as they do.
pub(crate) proof fn lemma_char_to_byte_mono(b: &LispBuffer, i: int, j: int)
    requires
        1 <= i <= j,
    ensures
        char_to_byte(b, j) - char_to_byte(b, i) >= j - i,
{
    if b.z != b.z_byte {
        lemma_char_start_grows(b.text@, (i - 1) as nat, (j - 1) as nat);
    }
}

/// Known byte positions lie in the text.
pub(crate) proof fn lemma_known_bounds(b: &LispBuffer, c: int, bp: int)
    requires
        b.wf(),
        text_valid(b),
        known(b, c, bp),
    ensures
        1 <= bp <= b.z_byte,
        bp - 1 >= c - 1,
        b.z_byte - bp >= b.z - c,
{
    lemma_char_to_byte_grows(b, 1, c);
    lemma_char_to_byte_grows(b, c, b.z as int);
}

/// Where the characters between two known places take a byte each, every
/// position between them corresponds by counting.
proof fn lemma_run_between(b: &LispBuffer, lo: int, hi: int, c: int)
    requires
        known(b, lo, char_to_byte(b, lo)),
        1 <= lo <= c <= hi <= b.z,
        char_to_byte(b, hi) - char_to_byte(b, lo) == hi - lo,
    ensures
        char_to_byte(b, c) == char_to_byte(b, lo) + (c - lo),
{
    if b.z != b.z_byte {
        lemma_single_byte_run(b.text@, (lo - 1) as nat, (hi - 1) as nat, (c - 1) as nat);
    }
}

/// Takes the known place (C, BP) into the bracket around CHARPOS; the
/// byte position of CHARPOS when that settles it.
fn consider_known_char(
    b: &LispBuffer,
    charpos: isize,
    c: isize,
    bp: isize,
    br: &mut Bracket,
) -> (r: Option<isize>)
    requires
        known(b, c as int, bp as int),
        1 <= bp <= BUF_MAX,
        bracket_known(b, old(br)),
        1 <= old(br).below_byte <= BUF_MAX,
        1 <= old(br).above_byte <= BUF_MAX,
        old(br).below <= charpos <= old(br).above,
    ensures
        bracket_known(b, final(br)),
        1 <= final(br).below_byte <= BUF_MAX,
        1 <= final(br).above_byte <= BUF_MAX,
        final(br).below <= charpos <= final(br).above,
        old(br).below <= final(br).below,
        final(br).above <= old(br).above,
        r matches Some(x) ==> x == char_to_byte(b, charpos as int),
        *final(br) == bracket_with_char(*old(br), charpos as int, c, bp),
        r == (if c == charpos {
            Some(bp)
        } else if bracket_with_char(*old(br), charpos as int, c, bp) != *old(br) && final(br).above - final(br).below
            == final(br).above_byte - final(br).below_byte {
            Some((final(br).below_byte + (charpos - final(br).below)) as isize)
        } else {
            None::<isize>
        }),
{
    let mut changed = false;
    if c == charpos {
        return Some(bp);
    } else if c > charpos {
        if c < br.above {
            br.above = c;
            br.above_byte = bp;
            changed = true;
        }
    } else if c > br.below {
        br.below = c;
        br.below_byte = bp;
        changed = true;
    }
    if changed && br.above - br.below == br.above_byte - br.below_byte {
        proof {
            lemma_run_between(b, br.below as int, br.above as int, charpos as int);
        }
        return Some(br.below_byte + (charpos - br.below));
    }
    None
}

/// The byte position of CHARPOS, with the pair to remember and the
/// place to mark that the scan leaves (see `buf_charpos_to_bytepos`).
fn charpos_to_bytepos_scan(b: &LispBuffer, markers: &Vec<LispMarker>, charpos: isize) -> (r: (
    isize,
    Option<(isize, isize)>,
    Option<(isize, isize)>,
))
    requires
        b.wf(),
        text_valid(b),
        positions_valid(b),
        chain_known(b, markers@),
        1 <= charpos <= b.z,
    ensures
        r.0 == char_to_byte(b, charpos as int),
        pair_known(b, r.1),
        pair_known(b, r.2),
        r.2 is Some ==> r.1 is Some,
{
    if b.z == b.z_byte {
        return (charpos, None, None);
    }
    proof {
        lemma_char_to_byte_grows(b, 1, b.z as int);
    }
    let mut br = Bracket { below: 1, below_byte: 1, above: b.z, above_byte: b.z_byte };
    proof {
        lemma_known_bounds(b, b.pt as int, b.pt_byte as int);
        lemma_known_bounds(b, b.gpt as int, b.gpt_byte as int);
        lemma_known_bounds(b, b.begv as int, b.begv_byte as int);
        lemma_known_bounds(b, b.zv as int, b.zv_byte as int);
        if b.is_cached && b.modiff == b.cached_modiff {
            lemma_known_bounds(b, b.cached_charpos as int, b.cached_bytepos as int);
        }
    }
    match consider_known_char(b, charpos, b.pt, b.pt_byte, &mut br) {
        Some(x) => {
            return (x, None, None);
        },
        None => {},
    }
    match consider_known_char(b, charpos, b.gpt, b.gpt_byte, &mut br) {
        Some(x) => {
            return (x, None, None);
        },
        None => {},
    }
    match consider_known_char(b, charpos, b.begv, b.begv_byte, &mut br) {
        Some(x) => {
            return (x, None, None);
        },
        None => {},
    }
    match consider_known_char(b, charpos, b.zv, b.zv_byte, &mut br) {
        Some(x) => {
            return (x, None, None);
        },
        None => {},
    }
    if b.is_cached && b.modiff == b.cached_modiff {
        match consider_known_char(b, charpos, b.cached_charpos, b.cached_bytepos, &mut br) {
            Some(x) => {
                return (x, None, None);
            },
            None => {},
        }
    }
    let mut j: usize = 0;
    while j < b.markers.len()
        invariant
            b.wf(),
            text_valid(b),
            chain_known(b, markers@),
            bracket_known(b, &br),
            1 <= br.below_byte <= BUF_MAX,
            1 <= br.above_byte <= BUF_MAX,
            br.below <= charpos <= br.above,
        decreases b.markers.len() - j,
    {
        let m = markers[b.markers[j]];
        proof {
            lemma_known_bounds(b, m.charpos as int, m.bytepos as int);
        }
        match consider_known_char(b, charpos, m.charpos, m.bytepos, &mut br) {
            Some(x) => {
                return (x, None, None);
            },
            None => {},
        }
        if br.above - br.below < 50 {
            break;
        }
        j = j + 1;
    }
    let ghost text = b.text@;
    let ghost n = (b.z - 1) as nat;
    if charpos - br.below < br.above - charpos {
        let record = charpos - br.below > 5000;
        while br.below != charpos
            invariant
                b.wf(),
                text_valid(b),
                b.z != b.z_byte,
                text == b.text@,
                n == b.z - 1,
                bracket_known(b, &br),
                br.below <= charpos <= b.z,
            decreases charpos - br.below,
        {
            proof {
                lemma_char_inside(text, n, (br.below - 1) as nat);
            }
            br.below = br.below + 1;
            br.below_byte = b.inc_pos(br.below_byte);
        }
        let pair = (br.below, br.below_byte);
        (br.below_byte, Some(pair), if record {
            Some(pair)
        } else {
            None
        })
    } else {
        let record = br.above - charpos > 5000;
        while br.above != charpos
            invariant
                b.wf(),
                text_valid(b),
                b.z != b.z_byte,
                text == b.text@,
                n == b.z - 1,
                bracket_known(b, &br),
                1 <= charpos <= br.above,
            decreases br.above - charpos,
        {
            proof {
                lemma_char_start_grows(text, 0, (br.above - 1) as nat);
                lemma_char_start_grows(text, (br.above - 1) as nat, n);
            }
            let ghost k = (br.above - 1) as nat;
            br.above = br.above - 1;
            let r = b.dec_pos(br.above_byte);
            proof {
                if r == 1 {
                    assert(char_start(text, 0) == 1);
                    lemma_char_inside(text, n, 0);
                }
                lemma_prev_head(text, n, k, r as int);
            }
            br.above_byte = r;
        }
        let pair = (br.above, br.above_byte);
        (br.above_byte, Some(pair), if record {
            Some(pair)
        } else {
            None
        })
    }
}

/// `r` is the character position at byte position `bytepos`: the
/// character that starts there, or, for a byte inside a character, that
/// character or the next.
pub open spec fn char_at_byte(b: &LispBuffer, bytepos: int, r: int) -> bool {
    &&& 1 <= r <= b.z
    &&& {
        ||| char_to_byte(b, r) == bytepos
        ||| r >= 2 && char_to_byte(b, r - 1) < bytepos < char_to_byte(b, r)
        ||| r < b.z && char_to_byte(b, r) < bytepos < char_to_byte(b, r + 1)
    }
}

/// Takes the known place (C, BP) into the bracket around BYTEPOS; the
/// character position of BYTEPOS when that settles it.
fn consider_known_byte(
    b: &LispBuffer,
    bytepos: isize,
    bp: isize,
    c: isize,
    br: &mut Bracket,
) -> (r: Option<isize>)
    requires
        known(b, c as int, bp as int),
        1 <= bp <= BUF_MAX,
        bracket_known(b, old(br)),
        1 <= old(br).below_byte <= BUF_MAX,
        1 <= old(br).above_byte <= BUF_MAX,
        old(br).below_byte <= bytepos <= old(br).above_byte,
    ensures
        bracket_known(b, final(br)),
        1 <= final(br).below_byte <= BUF_MAX,
        1 <= final(br).above_byte <= BUF_MAX,
        final(br).below_byte <= bytepos <= final(br).above_byte,
        r matches Some(x) ==> known(b, x as int, bytepos as int),
        *final(br) == bracket_with_byte(*old(br), bytepos as int, bp, c),
        r == (if bp == bytepos {
            Some(c)
        } else if bracket_with_byte(*old(br), bytepos as int, bp, c) != *old(br) && final(br).above - final(br).below
            == final(br).above_byte - final(br).below_byte {
            Some((final(br).below + (bytepos - final(br).below_byte)) as isize)
        } else {
            None::<isize>
        }),
{
    let mut changed = false;
    if bp == bytepos {
        return Some(c);
    } else if bp > bytepos {
        if bp < br.above_byte {
            br.above = c;
            br.above_byte = bp;
            changed = true;
        }
    } else if bp > br.below_byte {
        br.below = c;
        br.below_byte = bp;
        changed = true;
    }
    if changed && br.above - br.below == br.above_byte - br.below_byte {
        let x = br.below + (bytepos - br.below_byte);
        proof {
            lemma_run_between(b, br.below as int, br.above as int, x as int);
        }
        return Some(x);
    }
    None
}

/// The bracket around BYTEPOS from the buffer's own known places: its
/// ends, then point, the gap, the start and the end of the accessible
/// region, and the remembered pair while it is current, in that order.
pub open spec fn own_byte_bracket(b: &LispBuffer, bytepos: int) -> Bracket {
    let br0 = Bracket { below: 1, below_byte: 1, above: b.z, above_byte: b.z_byte };
    let br1 = bracket_with_byte(br0, bytepos, b.pt_byte, b.pt);
    let br2 = bracket_with_byte(br1, bytepos, b.gpt_byte, b.gpt);
    let br3 = bracket_with_byte(br2, bytepos, b.begv_byte, b.begv);
    let br4 = bracket_with_byte(br3, bytepos, b.zv_byte, b.zv);
    if b.is_cached && b.cached_modiff == b.modiff {
        bracket_with_byte(br4, bytepos, b.cached_bytepos, b.cached_charpos)
    } else {
        br4
    }
}

/// The bracket `br` narrowed by the markers of the buffer's chain from
/// the `j`-th on, in order, stopping once it spans fewer than 50
/// characters.
pub open spec fn marker_byte_bracket(b: &LispBuffer, markers: Seq<LispMarker>, bytepos: int, br: Bracket, j: nat) -> Bracket
    decreases b.markers@.len() - j,
{
    if j >= b.markers@.len() {
        br
    } else {
        let m = markers[b.markers@[j as int] as int];
        let br2 = bracket_with_byte(br, bytepos, m.bytepos, m.charpos);
        if br2.above - br2.below < 50 {
            br2
        } else {
            marker_byte_bracket(b, markers, bytepos, br2, j + 1)
        }
    }
}

/// The bracket from which the conversion of BYTEPOS scans.
pub open spec fn byte_bracket(b: &LispBuffer, markers: Seq<LispMarker>, bytepos: int) -> Bracket {
    marker_byte_bracket(b, markers, bytepos, own_byte_bracket(b, bytepos), 0)
}

/// Whether no character starts at the byte position `bytepos`.
pub open spec fn inside_char(b: &LispBuffer, bytepos: int) -> bool {
    forall|c: int| 1 <= c <= b.z ==> #[trigger] char_to_byte(b, c) != bytepos
}

/// The answer for a byte position inside a character: the scan goes up
/// from the lower end of the bracket when it is nearer, which gives the
/// next character, and down from the upper end otherwise, which gives
/// the character that holds the byte.
pub open spec fn inside_char_result(b: &LispBuffer, markers: Seq<LispMarker>, bytepos: int, r: int) -> bool {
    let br = byte_bracket(b, markers, bytepos);
    if bytepos - br.below_byte < br.above_byte - bytepos {
        r >= 2 && char_to_byte(b, r - 1) < bytepos < char_to_byte(b, r)
    } else {
        char_to_byte(b, r) < bytepos < char_to_byte(b, r + 1)
    }
}

/// The character position of BYTEPOS, with the pair to remember and the
/// place to mark that the scan leaves (see `buf_bytepos_to_charpos`).
fn bytepos_to_charpos_scan(b: &LispBuffer, markers: &Vec<LispMarker>, bytepos: isize) -> (r: (
    isize,
    Option<(isize, isize)>,
    Option<(isize, isize)>,
))
    requires
        b.wf(),
        text_valid(b),
        positions_valid(b),
        chain_known(b, markers@),
        1 <= bytepos <= b.z_byte,
    ensures
        char_at_byte(b, bytepos as int, r.0 as int),
        inside_char(b, bytepos as int) ==> inside_char_result(b, markers@, bytepos as int, r.0 as int),
        pair_known(b, r.1),
        pair_known(b, r.2),
        r.2 is Some ==> r.1 is Some,
{
    let ghost mid = inside_char(b, bytepos as int);
    if b.z == b.z_byte {
        proof {
            assert(char_to_byte(b, bytepos as int) == bytepos);
        }
        return (bytepos, None, None);
    }
    proof {
        lemma_char_to_byte_grows(b, 1, b.z as int);
        lemma_known_bounds(b, b.pt as int, b.pt_byte as int);
        lemma_known_bounds(b, b.gpt as int, b.gpt_byte as int);
        lemma_known_bounds(b, b.begv as int, b.begv_byte as int);
        lemma_known_bounds(b, b.zv as int, b.zv_byte as int);
        if b.is_cached && b.modiff == b.cached_modiff {
            lemma_known_bounds(b, b.cached_charpos as int, b.cached_bytepos as int);
        }
    }
    let mut br = Bracket { below: 1, below_byte: 1, above: b.z, above_byte: b.z_byte };
    match consider_known_byte(b, bytepos, b.pt_byte, b.pt, &mut br) {
        Some(x) => {
            return (x, None, None);
        },
        None => {},
    }
    match consider_known_byte(b, bytepos, b.gpt_byte, b.gpt, &mut br) {
        Some(x) => {
            return (x, None, None);
        },
        None => {},
    }
    match consider_known_byte(b, bytepos, b.begv_byte, b.begv, &mut br) {
        Some(x) => {
            return (x, None, None);
        },
        None => {},
    }
    match consider_known_byte(b, bytepos, b.zv_byte, b.zv, &mut br) {
        Some(x) => {
            return (x, None, None);
        },
        None => {},
    }
    if b.is_cached && b.modiff == b.cached_modiff {
        match consider_known_byte(b, bytepos, b.cached_bytepos, b.cached_charpos, &mut br) {
            Some(x) => {
                return (x, None, None);
            },
            None => {},
        }
    }
    assert(br == own_byte_bracket(b, bytepos as int));
    let mut j: usize = 0;
    while j < b.markers.len()
        invariant
            b.wf(),
            text_valid(b),
            chain_known(b, markers@),
            bracket_known(b, &br),
            1 <= br.below_byte <= BUF_MAX,
            1 <= br.above_byte <= BUF_MAX,
            br.below_byte <= bytepos <= br.above_byte,
            mid == inside_char(b, bytepos as int),
            j <= b.markers@.len(),
            marker_byte_bracket(b, markers@, bytepos as int, br, j as nat) == byte_bracket(b, markers@, bytepos as int),
        ensures
            b.wf(),
            text_valid(b),
            bracket_known(b, &br),
            1 <= br.below_byte <= BUF_MAX,
            1 <= br.above_byte <= BUF_MAX,
            br.below_byte <= bytepos <= br.above_byte,
            br == byte_bracket(b, markers@, bytepos as int),
        decreases b.markers.len() - j,
    {
        let ghost br0 = br;
        let m = markers[b.markers[j]];
        proof {
            lemma_known_bounds(b, m.charpos as int, m.bytepos as int);
        }
        match consider_known_byte(b, bytepos, m.bytepos, m.charpos, &mut br) {
            Some(x) => {
                return (x, None, None);
            },
            None => {},
        }
        assert(markers@[b.markers@[j as int] as int] == m);
        if br.above - br.below < 50 {
            break;
        }
        j = j + 1;
    }
    let has_markers = b.markers.len() > 0;
    if bytepos - br.below_byte < br.above_byte - bytepos {
        let record = bytepos - br.below_byte > 5000;
        let pair = scan_up_to_byte(b, br.below, br.below_byte, bytepos);
        (pair.0, Some(pair), if record && has_markers {
            Some(pair)
        } else {
            None
        })
    } else {
        let record = br.above_byte - bytepos > 5000;
        let pair = scan_down_to_byte(b, br.above, br.above_byte, bytepos);
        let below = (br.below, br.below_byte);
        (pair.0, Some(pair), if record && has_markers {
            Some(below)
        } else {
            None
        })
    }
}

/// Scans characters up from the known place (C, BP) to the first
/// character that starts at or after BYTEPOS.
fn scan_up_to_byte(b: &LispBuffer, c: isize, bp: isize, bytepos: isize) -> (r: (isize, isize))
    requires
        b.wf(),
        text_valid(b),
        b.z != b.z_byte,
        known(b, c as int, bp as int),
        bp <= bytepos <= b.z_byte,
    ensures
        known(b, r.0 as int, r.1 as int),
        char_at_byte(b, bytepos as int, r.0 as int),
        r.1 >= bytepos,
        r.0 == c ==> r.1 == bp,
        r.0 != c ==> r.0 >= 2 && char_to_byte(b, r.0 - 1) < bytepos,
{
    let ghost text = b.text@;
    let ghost n = (b.z - 1) as nat;
    let mut below = c;
    let mut below_byte = bp;
    while below_byte < bytepos
        invariant
            b.wf(),
            text_valid(b),
            b.z != b.z_byte,
            text == b.text@,
            n == b.z - 1,
            bytepos <= b.z_byte,
            known(b, below as int, below_byte as int),
            c <= below,
            below == c ==> below_byte <= bytepos,
            below != c ==> char_to_byte(b, below - 1) < bytepos,
            below_byte <= b.z_byte,
        decreases b.z_byte - below_byte,
    {
        proof {
            if below >= b.z {
                lemma_char_to_byte_grows(b, b.z as int, below as int);
            }
            lemma_char_inside(text, n, (below - 1) as nat);
            let h = text[below_byte - 1];
            assert(bytes_by_char_head(h) >= 1);
        }
        below = below + 1;
        below_byte = b.inc_pos(below_byte);
        proof {
            lemma_known_bounds(b, below as int, below_byte as int);
        }
    }
    (below, below_byte)
}

/// Scans characters down from the known place (C, BP) to the last
/// character that starts at or before BYTEPOS.
fn scan_down_to_byte(b: &LispBuffer, c: isize, bp: isize, bytepos: isize) -> (r: (isize, isize))
    requires
        b.wf(),
        text_valid(b),
        b.z != b.z_byte,
        known(b, c as int, bp as int),
        1 <= bytepos <= bp,
    ensures
        known(b, r.0 as int, r.1 as int),
        char_at_byte(b, bytepos as int, r.0 as int),
        r.1 <= bytepos,
        r.0 == c ==> r.1 == bp,
        r.0 != c ==> char_to_byte(b, r.0 + 1) > bytepos,
{
    let ghost text = b.text@;
    let ghost n = (b.z - 1) as nat;
    let mut above = c;
    let mut above_byte = bp;
    while above_byte > bytepos
        invariant
            b.wf(),
            text_valid(b),
            b.z != b.z_byte,
            text == b.text@,
            n == b.z - 1,
            1 <= bytepos,
            known(b, above as int, above_byte as int),
            above <= c <= b.z,
            above == c ==> above_byte >= bytepos,
            above != c ==> char_to_byte(b, above + 1) > bytepos,
            above_byte >= 1,
        decreases above_byte,
    {
        proof {
            if above <= 1 {
                lemma_char_to_byte_grows(b, above as int, 1);
            }
            lemma_char_start_grows(text, 0, (above - 1) as nat);
            lemma_char_start_grows(text, (above - 1) as nat, n);
        }
        let ghost k = (above - 1) as nat;
        above = above - 1;
        let r = b.dec_pos(above_byte);
        proof {
            if r == 1 {
                lemma_char_inside(text, n, 0);
            }
            lemma_prev_head(text, n, k, r as int);
        }
        above_byte = r;
    }
    (above, above_byte)
}

/// The buffers and markers of the editor, and the current buffer.
pub struct Buffers {
    pub buffers: Vec<LispBuffer>,
    pub markers: Vec<LispMarker>,
    pub current: usize,
}

impl Buffers {
    /// The buffer numbered `i` is consistent: its positions, its text,
    /// and the markers of its chain.
    pub open spec fn buffer_ok(&self, i: int) -> bool {
        let b = &self.buffers@[i];
        &&& b.wf()
        &&& text_valid(b)
        &&& positions_valid(b)
        &&& chain_known(b, self.markers@)
        &&& position_markers_ok(b, self.markers@.len() as int)
    }

    /// Every marker of a buffer's chain points into that buffer.
    pub open spec fn chains_owned(&self) -> bool {
        forall|i: int, j: int|
            0 <= i < self.buffers@.len() && 0 <= j < self.buffers@[i].markers@.len()
                ==> #[trigger] self.markers@[self.buffers@[i].markers@[j] as int].buffer == Some(i as usize)
    }

    /// No chain holds a marker twice.
    pub open spec fn chains_distinct(&self) -> bool {
        forall|i: int, j1: int, j2: int|
            0 <= i < self.buffers@.len() && 0 <= j1 < j2 < self.buffers@[i].markers@.len()
                ==> #[trigger] self.buffers@[i].markers@[j1] != #[trigger] self.buffers@[i].markers@[j2]
    }

    /// Every marker that points into a buffer is on its chain.
    pub open spec fn markers_chained(&self) -> bool {
        forall|m: int|
            0 <= m < self.markers@.len() && (#[trigger] self.markers@[m]).buffer is Some ==> {
                let i = self.markers@[m].buffer->0 as int;
                &&& 0 <= i < self.buffers@.len()
                &&& self.buffers@[i].markers@.contains(m as usize)
            }
    }

    /// Well-formedness: the current buffer exists, the numbers fit the
    /// words, every buffer is consistent, and the chains and the markers
    /// agree.
    pub open spec fn wf(&self) -> bool {
        &&& self.current < self.buffers@.len() <= MAX_OBJECTS
        &&& self.markers@.len() < MAX_OBJECTS
        &&& forall|i: int| 0 <= i < self.buffers@.len() ==> #[trigger] self.buffer_ok(i)
        &&& self.chains_owned()
        &&& self.chains_distinct()
        &&& self.markers_chained()
    }
}

/// Whether the markers `a` and `b` are `equal`: they point into the same
/// buffer and, if they point into one, at the same byte position.
pub open spec fn markers_equal_spec(a: LispMarker, b: LispMarker) -> bool {
    a.buffer == b.buffer && (a.buffer is None || a.bytepos == b.bytepos)
}

/// `equal` over the values of the heap, the char tables `tabs` and the
/// markers of the buffers: two markers compare as `markers_equal_spec`
/// says, a marker and another value only when they are `eq`, and the
/// rest as `equal_in_spec` says.
pub open spec fn equal_with_markers_spec(
    bufs: &Buffers,
    tabs: Seq<LispCharTable>,
    h: &LispHeap,
    o1: LispObject,
    o2: LispObject,
) -> Result<bool, LispError> {
    match (bufs.marker_of(o1), bufs.marker_of(o2)) {
        (Some(a), Some(b)) => Ok(o1 == o2 || markers_equal_spec(bufs.markers@[a], bufs.markers@[b])),
        (None, None) => equal_in_spec(h, tabs, o1, o2, 0),
        _ => Ok(o1 == o2),
    }
}

impl Buffers {
    /// Whether the markers M1 and M2 are `equal` (see `markers_equal_spec`).
    pub fn markers_equal(&self, m1: usize, m2: usize) -> (b: bool)
        requires
            self.wf(),
            m1 < self.markers@.len(),
            m2 < self.markers@.len(),
        ensures
            b == markers_equal_spec(self.markers@[m1 as int], self.markers@[m2 as int]),
    {
        let a = self.markers[m1];
        let b = self.markers[m2];
        match (a.buffer, b.buffer) {
            (None, None) => true,
            (Some(x), Some(y)) => x == y && a.bytepos == b.bytepos,
            _ => false,
        }
    }
}

/// `equal` of O1 and O2, each a value of the heap (char tables of TABS
/// among them) or a marker of the buffers (see `equal_with_markers_spec`).
pub fn equal_with_markers(
    bufs: &Buffers,
    tabs: &CharTables,
    h: &LispHeap,
    o1: LispObject,
    o2: LispObject,
    kind: EqualKind,
) -> (r: Result<bool, LispError>)
    requires
        bufs.wf(),
        tabs.wf(),
        tabs_values_ok(tabs, h),
        h.wf(),
        h.valid(o1) || bufs.marker_of(o1) is Some,
        h.valid(o2) || bufs.marker_of(o2) is Some,
    ensures
        r == equal_with_markers_spec(bufs, tabs.view(), h, o1, o2),
{
    match (bufs.as_marker(o1), bufs.as_marker(o2)) {
        (Some(a), Some(b)) => Ok(o1.eq(o2) || bufs.markers_equal(a, b)),
        (None, None) => rust_internal_equal(h, tabs, o1, o2, kind, 0),
        _ => Ok(o1.eq(o2)),
    }
}

/// The position markers of a buffer, if it has them, are three different
/// markers of a store of `n` markers.
pub open spec fn position_markers_ok(b: &LispBuffer, n: int) -> bool {
    match b.position_markers {
        Some(ms) => ms.0 < n && ms.1 < n && ms.2 < n && ms.0 != ms.1 && ms.1 != ms.2 && ms.0 != ms.2,
        None => true,
    }
}

/// The buffer is the same but for its remembered pair and its markers.
pub open spec fn same_text_and_positions(a: &LispBuffer, b: &LispBuffer) -> bool {
    &&& a.pt == b.pt && a.pt_byte == b.pt_byte
    &&& a.begv == b.begv && a.begv_byte == b.begv_byte
    &&& a.zv == b.zv && a.zv_byte == b.zv_byte
    &&& a.z == b.z && a.z_byte == b.z_byte
    &&& a.gpt == b.gpt && a.gpt_byte == b.gpt_byte
    &&& a.text@ == b.text@
    &&& a.mark == b.mark && a.mark_active == b.mark_active
    &&& a.modiff == b.modiff
    &&& a.name == b.name
    &&& a.filename == b.filename
    &&& a.save_modiff == b.save_modiff
    &&& a.chars_modiff == b.chars_modiff
    &&& a.truename == b.truename
    &&& a.position_markers == b.position_markers
}

/// The remembered pair of `after` is that of `before`, or a pair of
/// corresponding positions to be trusted now.
pub open spec fn cache_kept_or_set(before: &LispBuffer, after: &LispBuffer) -> bool {
    ||| (after.is_cached == before.is_cached && after.cached_modiff == before.cached_modiff
        && after.cached_charpos == before.cached_charpos && after.cached_bytepos == before.cached_bytepos)
    ||| (after.is_cached && after.cached_modiff == after.modiff && known(
        after,
        after.cached_charpos as int,
        after.cached_bytepos as int,
    ))
}

/// What a conversion in buffer `b` may change: the remembered pair of
/// `b`, and one new marker at corresponding positions of `b`, put first
/// on its chain.
pub open spec fn conversion_effect(before: &Buffers, after: &Buffers, b: int) -> bool {
    &&& after.current == before.current
    &&& after.buffers@.len() == before.buffers@.len()
    &&& forall|i: int| 0 <= i < before.buffers@.len() && i != b ==> #[trigger] after.buffers@[i] == before.buffers@[i]
    &&& same_text_and_positions(&before.buffers@[b], &after.buffers@[b])
    &&& cache_kept_or_set(&before.buffers@[b], &after.buffers@[b])
    &&& {
        ||| (after.markers@ == before.markers@ && after.buffers@[b].markers@ == before.buffers@[b].markers@)
        ||| (after.markers@.len() == before.markers@.len() + 1
            && after.markers@.drop_last() == before.markers@
            && after.markers@.last().buffer == Some(b as usize)
            && !after.markers@.last().insertion_type
            && known(&before.buffers@[b], after.markers@.last().charpos as int, after.markers@.last().bytepos as int)
            && after.buffers@[b].markers@ == seq![before.markers@.len() as usize] + before.buffers@[b].markers@)
    }
}

impl Buffers {
    /// A new marker pointing into buffer B at CHARPOS and BYTEPOS, put
    /// first on its chain; the number of the marker.
    pub fn build_marker(&mut self, b: usize, charpos: isize, bytepos: isize) -> (m: usize)
        requires
            old(self).wf(),
            b < old(self).buffers@.len(),
            old(self).markers@.len() + 1 < MAX_OBJECTS,
            known(&old(self).buffers@[b as int], charpos as int, bytepos as int),
        ensures
            final(self).wf(),
            m == old(self).markers@.len(),
            final(self).markers@ == old(self).markers@.push(
                LispMarker { buffer: Some(b), charpos, bytepos, insertion_type: false },
            ),
            final(self).current == old(self).current,
            final(self).buffers@.len() == old(self).buffers@.len(),
            forall|i: int| 0 <= i < old(self).buffers@.len() && i != b ==> #[trigger] final(self).buffers@[i]
                == old(self).buffers@[i],
            same_text_and_positions(&old(self).buffers@[b as int], &final(self).buffers@[b as int]),
            final(self).buffers@[b as int].is_cached == old(self).buffers@[b as int].is_cached,
            final(self).buffers@[b as int].cached_modiff == old(self).buffers@[b as int].cached_modiff,
            final(self).buffers@[b as int].cached_charpos == old(self).buffers@[b as int].cached_charpos,
            final(self).buffers@[b as int].cached_bytepos == old(self).buffers@[b as int].cached_bytepos,
            final(self).buffers@[b as int].markers@ == seq![m] + old(self).buffers@[b as int].markers@,
    {
        let m = self.markers.len();
        self.markers.push(LispMarker { buffer: Some(b), charpos, bytepos, insertion_type: false });
        let mut buf = self.buffers.remove(b);
        buf.markers.insert(0, m);
        self.buffers.insert(b, buf);
        proof {
            let o = old(self);
            assert(self.buffers@ =~= o.buffers@.update(b as int, buf));
            assert(buf.markers@ =~= seq![m] + o.buffers@[b as int].markers@);
            assert forall|i: int| 0 <= i < self.buffers@.len() implies #[trigger] self.buffer_ok(i) by {
                assert(o.buffer_ok(i));
                let bi = &self.buffers@[i];
                assert forall|j: int| 0 <= j < bi.markers@.len() implies #[trigger] bi.markers@[j]
                    < self.markers@.len() && known(
                    bi,
                    self.markers@[bi.markers@[j] as int].charpos as int,
                    self.markers@[bi.markers@[j] as int].bytepos as int,
                ) by {
                    if i == b && j == 0 {
                    } else if i == b {
                        assert(bi.markers@[j] == o.buffers@[i].markers@[j - 1]);
                    } else {
                        assert(bi.markers@[j] == o.buffers@[i].markers@[j]);
                    }
                }
            }
            assert forall|i: int, j: int|
                0 <= i < self.buffers@.len() && 0 <= j < self.buffers@[i].markers@.len()
                    implies #[trigger] self.markers@[self.buffers@[i].markers@[j] as int].buffer == Some(
                    i as usize,
                ) by {
                assert(o.buffer_ok(i));
                if i == b && j == 0 {
                } else if i == b {
                    let x = o.buffers@[i].markers@[j - 1];
                    assert(self.buffers@[i].markers@[j] == x);
                    assert(x < o.markers@.len());
                    assert(o.markers@[x as int].buffer == Some(i as usize));
                    assert(self.markers@[x as int] == o.markers@[x as int]);
                } else {
                    let x = o.buffers@[i].markers@[j];
                    assert(self.buffers@[i].markers@[j] == x);
                    assert(x < o.markers@.len());
                    assert(o.markers@[x as int].buffer == Some(i as usize));
                    assert(self.markers@[x as int] == o.markers@[x as int]);
                }
            }
            assert forall|i: int, j1: int, j2: int|
                0 <= i < self.buffers@.len() && 0 <= j1 < j2 < self.buffers@[i].markers@.len()
                    implies #[trigger] self.buffers@[i].markers@[j1] != #[trigger] self.buffers@[i].markers@[j2] by {
                assert(o.buffer_ok(i));
                if i == b {
                    if j1 == 0 {
                        assert(self.buffers@[i].markers@[j2] == o.buffers@[i].markers@[j2 - 1]);
                    } else {
                        assert(self.buffers@[i].markers@[j1] == o.buffers@[i].markers@[j1 - 1]);
                        assert(self.buffers@[i].markers@[j2] == o.buffers@[i].markers@[j2 - 1]);
                    }
                }
            }
            assert forall|k: int|
                0 <= k < self.markers@.len() && (#[trigger] self.markers@[k]).buffer is Some implies {
                let i = self.markers@[k].buffer->0 as int;
                &&& 0 <= i < self.buffers@.len()
                &&& self.buffers@[i].markers@.contains(k as usize)
            } by {
                if k == m {
                    assert(self.buffers@[b as int].markers@[0] == m);
                } else {
                    assert(o.markers@[k] == self.markers@[k]);
                    let i = self.markers@[k].buffer->0 as int;
                    let j = choose|j: int| 0 <= j < o.buffers@[i].markers@.len() && o.buffers@[i].markers@[j] == k as usize;
                    if i == b {
                        assert(self.buffers@[i].markers@[j + 1] == k as usize);
                    } else {
                        assert(self.buffers@[i].markers@[j] == k as usize);
                    }
                }
            }
        }
        m
    }
}

impl Buffers {
    /// Sets the remembered pair of buffer B to CHARPOS and BYTEPOS (or
    /// forgets it), trusted at the current modification count.
    fn set_cache(&mut self, b: usize, cached: bool, charpos: isize, bytepos: isize)
        requires
            old(self).wf(),
            b < old(self).buffers@.len(),
            cached ==> known(&old(self).buffers@[b as int], charpos as int, bytepos as int),
        ensures
            final(self).wf(),
            final(self).markers@ == old(self).markers@,
            final(self).current == old(self).current,
            final(self).buffers@.len() == old(self).buffers@.len(),
            forall|i: int| 0 <= i < old(self).buffers@.len() && i != b ==> #[trigger] final(self).buffers@[i]
                == old(self).buffers@[i],
            same_text_and_positions(&old(self).buffers@[b as int], &final(self).buffers@[b as int]),
            final(self).buffers@[b as int].markers@ == old(self).buffers@[b as int].markers@,
            final(self).buffers@[b as int].is_cached == cached,
            cached ==> final(self).buffers@[b as int].cached_modiff == old(self).buffers@[b as int].modiff
                && final(self).buffers@[b as int].cached_charpos == charpos
                && final(self).buffers@[b as int].cached_bytepos == bytepos,
    {
        let mut buf = self.buffers.remove(b);
        buf.is_cached = cached;
        if cached {
            buf.cached_modiff = buf.modiff;
            buf.cached_charpos = charpos;
            buf.cached_bytepos = bytepos;
        }
        self.buffers.insert(b, buf);
        proof {
            let o = old(self);
            assert(self.buffers@ =~= o.buffers@.update(b as int, buf));
            assert forall|i: int| 0 <= i < self.buffers@.len() implies #[trigger] self.buffer_ok(i) by {
                assert(o.buffer_ok(i));
            }
        }
    }

    /// The byte position of character position CHARPOS in buffer B.
    pub fn buf_charpos_to_bytepos(&mut self, b: usize, charpos: isize) -> (r: isize)
        requires
            old(self).wf(),
            b < old(self).buffers@.len(),
            1 <= charpos <= old(self).buffers@[b as int].z,
        ensures
            r == char_to_byte(&old(self).buffers@[b as int], charpos as int),
            final(self).wf(),
            conversion_effect(old(self), final(self), b as int),
    {
        proof {
            assert(self.buffer_ok(b as int));
        }
        let (r, cache, record) = charpos_to_bytepos_scan(&self.buffers[b], &self.markers, charpos);
        self.record_and_cache(b, cache, record);
        r
    }

    /// The character position of byte position BYTEPOS in buffer B: the
    /// character that starts there.  For a byte inside a character the
    /// answer depends on the side the scan starts from: the next
    /// character when it scans up from the nearer known place below, the
    /// character that holds the byte when it scans down (see
    /// `inside_char_result`).
    pub fn buf_bytepos_to_charpos(&mut self, b: usize, bytepos: isize) -> (r: isize)
        requires
            old(self).wf(),
            b < old(self).buffers@.len(),
            1 <= bytepos <= old(self).buffers@[b as int].z_byte,
        ensures
            char_at_byte(&old(self).buffers@[b as int], bytepos as int, r as int),
            inside_char(&old(self).buffers@[b as int], bytepos as int) ==> inside_char_result(
                &old(self).buffers@[b as int],
                old(self).markers@,
                bytepos as int,
                r as int,
            ),
            final(self).wf(),
            conversion_effect(old(self), final(self), b as int),
    {
        proof {
            assert(self.buffer_ok(b as int));
        }
        let (r, cache, record) = bytepos_to_charpos_scan(&self.buffers[b], &self.markers, bytepos);
        self.record_and_cache(b, cache, record);
        r
    }

    /// Marks the place RECORD (while marker numbers last) and remembers
    /// the pair CACHE, left by a conversion in buffer B.
    fn record_and_cache(&mut self, b: usize, cache: Option<(isize, isize)>, record: Option<(isize, isize)>)
        requires
            old(self).wf(),
            b < old(self).buffers@.len(),
            pair_known(&old(self).buffers@[b as int], cache),
            pair_known(&old(self).buffers@[b as int], record),
        ensures
            final(self).wf(),
            conversion_effect(old(self), final(self), b as int),
            record matches Some(p) ==> old(self).markers@.len() + 1 < MAX_OBJECTS ==> {
                &&& final(self).markers@ == old(self).markers@.push(
                    LispMarker { buffer: Some(b), charpos: p.0, bytepos: p.1, insertion_type: false },
                )
                &&& final(self).buffers@[b as int].markers@ == seq![old(self).markers@.len() as usize]
                    + old(self).buffers@[b as int].markers@
            },
            (record is None || old(self).markers@.len() + 1 >= MAX_OBJECTS) ==> {
                &&& final(self).markers@ == old(self).markers@
                &&& final(self).buffers@[b as int].markers@ == old(self).buffers@[b as int].markers@
            },
            cache matches Some(p) ==> {
                &&& final(self).buffers@[b as int].is_cached
                &&& final(self).buffers@[b as int].cached_modiff == old(self).buffers@[b as int].modiff
                &&& final(self).buffers@[b as int].cached_charpos == p.0
                &&& final(self).buffers@[b as int].cached_bytepos == p.1
            },
            cache is None ==> {
                &&& final(self).buffers@[b as int].is_cached == old(self).buffers@[b as int].is_cached
                &&& final(self).buffers@[b as int].cached_modiff == old(self).buffers@[b as int].cached_modiff
                &&& final(self).buffers@[b as int].cached_charpos == old(self).buffers@[b as int].cached_charpos
                &&& final(self).buffers@[b as int].cached_bytepos == old(self).buffers@[b as int].cached_bytepos
            },
    {
        let ghost o = *old(self);
        match record {
            Some(p) => {
                if self.markers.len() + 1 < MAX_OBJECTS {
                    self.build_marker(b, p.0, p.1);
                    proof {
                        assert(self.markers@.drop_last() =~= o.markers@);
                    }
                }
            },
            None => {},
        }
        let ghost mid = *self;
        match cache {
            Some(p) => {
                self.set_cache(b, true, p.0, p.1);
            },
            None => {},
        }
        proof {
            assert(forall|i: int| 0 <= i < o.buffers@.len() && i != b ==> #[trigger] self.buffers@[i] == mid.buffers@[i]);
        }
    }

    /// Forgets the remembered pair of buffer B.
    pub fn clear_charpos_cache(&mut self, b: usize)
        requires
            old(self).wf(),
            b < old(self).buffers@.len(),
        ensures
            final(self).wf(),
            !final(self).buffers@[b as int].is_cached,
            final(self).markers@ == old(self).markers@,
            final(self).current == old(self).current,
            final(self).buffers@.len() == old(self).buffers@.len(),
            forall|i: int| 0 <= i < old(self).buffers@.len() && i != b ==> #[trigger] final(self).buffers@[i]
                == old(self).buffers@[i],
            same_text_and_positions(&old(self).buffers@[b as int], &final(self).buffers@[b as int]),
            final(self).buffers@[b as int].markers@ == old(self).buffers@[b as int].markers@,
    {
        self.set_cache(b, false, 0, 0);
    }
}

impl Buffers {
    /// Removes marker M from the chain of the buffer it points into,
    /// leaving it pointing nowhere.
    pub fn unchain_marker(&mut self, m: usize)
        requires
            old(self).wf(),
            m < old(self).markers@.len(),
        ensures
            final(self).wf(),
            final(self).markers@ == old(self).markers@.update(
                m as int,
                (LispMarker { buffer: None, ..old(self).markers@[m as int] }),
            ),
            final(self).current == old(self).current,
            final(self).buffers@.len() == old(self).buffers@.len(),
            forall|i: int|
                0 <= i < old(self).buffers@.len() && Some(i as usize) != old(self).markers@[m as int].buffer
                    ==> #[trigger] final(self).buffers@[i] == old(self).buffers@[i],
            old(self).markers@[m as int].buffer matches Some(b) ==> {
                &&& same_text_and_positions(&old(self).buffers@[b as int], &final(self).buffers@[b as int])
                &&& final(self).buffers@[b as int].is_cached == old(self).buffers@[b as int].is_cached
                &&& final(self).buffers@[b as int].cached_modiff == old(self).buffers@[b as int].cached_modiff
                &&& final(self).buffers@[b as int].cached_charpos == old(self).buffers@[b as int].cached_charpos
                &&& final(self).buffers@[b as int].cached_bytepos == old(self).buffers@[b as int].cached_bytepos
                &&& exists|j: int|
                    0 <= j < old(self).buffers@[b as int].markers@.len()
                        && old(self).buffers@[b as int].markers@[j] == m
                        && final(self).buffers@[b as int].markers@ == old(self).buffers@[b as int].markers@.remove(j)
            },
    {
        let ghost o = *old(self);
        let b = match self.markers[m].buffer {
            None => {
                proof {
                    assert(self.markers@ =~= o.markers@.update(
                        m as int,
                        (LispMarker { buffer: None, ..o.markers@[m as int] }),
                    ));
                }
                return;
            },
            Some(b) => b,
        };
        proof {
            assert(self.markers@[m as int].buffer is Some);
        }
        let chain_len = self.buffers[b].markers.len();
        let mut j: usize = 0;
        while self.buffers[b].markers[j] != m
            invariant
                *self == o,
                chain_len == o.buffers@[b as int].markers@.len(),
                o.wf(),
                b < o.buffers@.len(),
                m < o.markers@.len(),
                o.markers@[m as int].buffer == Some(b),
                o.buffers@[b as int].markers@.contains(m),
                0 <= j < o.buffers@[b as int].markers@.len(),
                forall|k: int| 0 <= k < j ==> o.buffers@[b as int].markers@[k] != m,
            decreases o.buffers@[b as int].markers@.len() - j,
        {
            j = j + 1;
            proof {
                if j == o.buffers@[b as int].markers@.len() {
                    let k = choose|k: int| 0 <= k < o.buffers@[b as int].markers@.len() && o.buffers@[b as int].markers@[k] == m;
                    assert(o.buffers@[b as int].markers@[k] == m);
                }
            }
        }
        let old_marker = self.markers[m];
        self.markers.set(m, LispMarker { buffer: None, ..old_marker });
        let mut buf = self.buffers.remove(b);
        buf.markers.remove(j);
        self.buffers.insert(b, buf);
        proof {
            let bi = b as int;
            let chain = o.buffers@[bi].markers@;
            assert(self.buffers@ =~= o.buffers@.update(bi, buf));
            assert(buf.markers@ == chain.remove(j as int));
            // Every other entry of the old chain differs from m.
            assert forall|k: int| 0 <= k < chain.len() && k != j implies chain[k] != m by {
                if k < j {
                } else {
                    assert(o.buffer_ok(bi));
                    assert(chain[j as int] != chain[k]);
                }
            }
            assert forall|i: int| 0 <= i < self.buffers@.len() implies #[trigger] self.buffer_ok(i) by {
                assert(o.buffer_ok(i));
                let bn = &self.buffers@[i];
                assert forall|k: int| 0 <= k < bn.markers@.len() implies #[trigger] bn.markers@[k]
                    < self.markers@.len() && known(
                    bn,
                    self.markers@[bn.markers@[k] as int].charpos as int,
                    self.markers@[bn.markers@[k] as int].bytepos as int,
                ) by {
                    if i == bi {
                        if k < j {
                            assert(bn.markers@[k] == chain[k]);
                        } else {
                            assert(bn.markers@[k] == chain[k + 1]);
                        }
                    } else {
                        assert(bn.markers@[k] == o.buffers@[i].markers@[k]);
                    }
                }
            }
            assert forall|i: int, k: int|
                0 <= i < self.buffers@.len() && 0 <= k < self.buffers@[i].markers@.len()
                    implies #[trigger] self.markers@[self.buffers@[i].markers@[k] as int].buffer == Some(
                    i as usize,
                ) by {
                assert(o.buffer_ok(i));
                if i == bi {
                    let kk = if k < j { k } else { k + 1 };
                    assert(self.buffers@[i].markers@[k] == chain[kk]);
                    assert(o.markers@[chain[kk] as int].buffer == Some(i as usize));
                } else {
                    let x = o.buffers@[i].markers@[k];
                    assert(o.markers@[x as int].buffer == Some(i as usize));
                    assert(x != m);
                }
            }
            assert forall|i: int, k1: int, k2: int|
                0 <= i < self.buffers@.len() && 0 <= k1 < k2 < self.buffers@[i].markers@.len()
                    implies #[trigger] self.buffers@[i].markers@[k1] != #[trigger] self.buffers@[i].markers@[k2] by {
                if i == bi {
                    let a = if k1 < j { k1 } else { k1 + 1 };
                    let c = if k2 < j { k2 } else { k2 + 1 };
                    assert(self.buffers@[i].markers@[k1] == chain[a]);
                    assert(self.buffers@[i].markers@[k2] == chain[c]);
                }
            }
            assert forall|x: int|
                0 <= x < self.markers@.len() && (#[trigger] self.markers@[x]).buffer is Some implies {
                let i = self.markers@[x].buffer->0 as int;
                &&& 0 <= i < self.buffers@.len()
                &&& self.buffers@[i].markers@.contains(x as usize)
            } by {
                assert(x != m);
                assert(o.markers@[x] == self.markers@[x]);
                let i = self.markers@[x].buffer->0 as int;
                let k = choose|k: int| 0 <= k < o.buffers@[i].markers@.len() && o.buffers@[i].markers@[k] == x as usize;
                if i == bi {
                    assert(k != j);
                    if k < j {
                        assert(self.buffers@[i].markers@[k] == x as usize);
                    } else {
                        assert(self.buffers@[i].markers@[k - 1] == x as usize);
                    }
                } else {
                    assert(self.buffers@[i].markers@[k] == x as usize);
                }
            }
        }
    }
}

impl Buffers {
    /// Puts marker M, which points nowhere, first on the chain of buffer B
    /// at CHARPOS and BYTEPOS.
    #[verifier::rlimit(80)]
    fn link_marker(&mut self, m: usize, b: usize, charpos: isize, bytepos: isize)
        requires
            old(self).wf(),
            m < old(self).markers@.len(),
            old(self).markers@[m as int].buffer is None,
            b < old(self).buffers@.len(),
            known(&old(self).buffers@[b as int], charpos as int, bytepos as int),
        ensures
            final(self).wf(),
            final(self).markers@ == old(self).markers@.update(
                m as int,
                (LispMarker { buffer: Some(b), charpos, bytepos, ..old(self).markers@[m as int] }),
            ),
            final(self).current == old(self).current,
            final(self).buffers@.len() == old(self).buffers@.len(),
            forall|i: int| 0 <= i < old(self).buffers@.len() && i != b ==> #[trigger] final(self).buffers@[i]
                == old(self).buffers@[i],
            same_text_and_positions(&old(self).buffers@[b as int], &final(self).buffers@[b as int]),
            final(self).buffers@[b as int].is_cached == old(self).buffers@[b as int].is_cached,
            final(self).buffers@[b as int].cached_modiff == old(self).buffers@[b as int].cached_modiff,
            final(self).buffers@[b as int].cached_charpos == old(self).buffers@[b as int].cached_charpos,
            final(self).buffers@[b as int].cached_bytepos == old(self).buffers@[b as int].cached_bytepos,
            final(self).buffers@[b as int].markers@ == seq![m] + old(self).buffers@[b as int].markers@,
    {
        let ghost o = *old(self);
        let old_marker = self.markers[m];
        self.markers.set(m, LispMarker { buffer: Some(b), charpos, bytepos, ..old_marker });
        let mut buf = self.buffers.remove(b);
        buf.markers.insert(0, m);
        self.buffers.insert(b, buf);
        proof {
            let bi = b as int;
            assert(self.buffers@ =~= o.buffers@.update(bi, buf));
            assert(buf.markers@ =~= seq![m] + o.buffers@[bi].markers@);
            // m was on no chain.
            assert forall|i: int, k: int|
                0 <= i < o.buffers@.len() && 0 <= k < o.buffers@[i].markers@.len() implies o.buffers@[i].markers@[k]
                != m by {
                assert(o.markers@[o.buffers@[i].markers@[k] as int].buffer == Some(i as usize));
            }
            assert forall|i: int| 0 <= i < self.buffers@.len() implies #[trigger] self.buffer_ok(i) by {
                assert(o.buffer_ok(i));
                let bn = &self.buffers@[i];
                assert(bn.position_markers == o.buffers@[i].position_markers);
                assert forall|k: int| 0 <= k < bn.markers@.len() implies #[trigger] bn.markers@[k]
                    < self.markers@.len() && known(
                    bn,
                    self.markers@[bn.markers@[k] as int].charpos as int,
                    self.markers@[bn.markers@[k] as int].bytepos as int,
                ) by {
                    if i == bi && k == 0 {
                    } else if i == bi {
                        assert(bn.markers@[k] == o.buffers@[i].markers@[k - 1]);
                    } else {
                        assert(bn.markers@[k] == o.buffers@[i].markers@[k]);
                    }
                }
            }
            assert forall|i: int, k: int|
                0 <= i < self.buffers@.len() && 0 <= k < self.buffers@[i].markers@.len()
                    implies #[trigger] self.markers@[self.buffers@[i].markers@[k] as int].buffer == Some(
                    i as usize,
                ) by {
                assert(o.buffer_ok(i));
                if i == bi && k == 0 {
                } else {
                    let x = if i == bi { o.buffers@[i].markers@[k - 1] } else { o.buffers@[i].markers@[k] };
                    assert(self.buffers@[i].markers@[k] == x);
                    assert(x < o.markers@.len());
                    assert(o.markers@[x as int].buffer == Some(i as usize));
                    assert(x != m);
                    assert(self.markers@[x as int] == o.markers@[x as int]);
                }
            }
            assert forall|i: int, k1: int, k2: int|
                0 <= i < self.buffers@.len() && 0 <= k1 < k2 < self.buffers@[i].markers@.len()
                    implies #[trigger] self.buffers@[i].markers@[k1] != #[trigger] self.buffers@[i].markers@[k2] by {
                if i == bi {
                    if k1 == 0 {
                        assert(self.buffers@[i].markers@[k2] == o.buffers@[i].markers@[k2 - 1]);
                    } else {
                        assert(self.buffers@[i].markers@[k1] == o.buffers@[i].markers@[k1 - 1]);
                        assert(self.buffers@[i].markers@[k2] == o.buffers@[i].markers@[k2 - 1]);
                    }
                }
            }
            assert forall|x: int|
                0 <= x < self.markers@.len() && (#[trigger] self.markers@[x]).buffer is Some implies {
                let i = self.markers@[x].buffer->0 as int;
                &&& 0 <= i < self.buffers@.len()
                &&& self.buffers@[i].markers@.contains(x as usize)
            } by {
                if x == m {
                    assert(self.buffers@[bi].markers@[0] == m);
                } else {
                    assert(o.markers@[x] == self.markers@[x]);
                    let i = self.markers@[x].buffer->0 as int;
                    let k = choose|k: int| 0 <= k < o.buffers@[i].markers@.len() && o.buffers@[i].markers@[k] == x as usize;
                    if i == bi {
                        assert(self.buffers@[i].markers@[k + 1] == x as usize);
                    } else {
                        assert(self.buffers@[i].markers@[k] == x as usize);
                    }
                }
            }
        }
    }

    /// Moves marker M, which points into buffer B, to CHARPOS and BYTEPOS.
    fn move_marker(&mut self, m: usize, b: usize, charpos: isize, bytepos: isize)
        requires
            old(self).wf(),
            m < old(self).markers@.len(),
            old(self).markers@[m as int].buffer == Some(b),
            b < old(self).buffers@.len(),
            known(&old(self).buffers@[b as int], charpos as int, bytepos as int),
        ensures
            final(self).wf(),
            final(self).markers@ == old(self).markers@.update(
                m as int,
                (LispMarker { charpos, bytepos, ..old(self).markers@[m as int] }),
            ),
            final(self).buffers@ == old(self).buffers@,
            final(self).current == old(self).current,
    {
        let ghost o = *old(self);
        let old_marker = self.markers[m];
        self.markers.set(m, LispMarker { charpos, bytepos, ..old_marker });
        proof {
            assert forall|i: int| 0 <= i < self.buffers@.len() implies #[trigger] self.buffer_ok(i) by {
                assert(o.buffer_ok(i));
                let bn = &self.buffers@[i];
                assert forall|k: int| 0 <= k < bn.markers@.len() implies #[trigger] bn.markers@[k]
                    < self.markers@.len() && known(
                    bn,
                    self.markers@[bn.markers@[k] as int].charpos as int,
                    self.markers@[bn.markers@[k] as int].bytepos as int,
                ) by {
                    let x = bn.markers@[k];
                    if x == m {
                        assert(o.markers@[x as int].buffer == Some(i as usize));
                    }
                }
            }
            assert forall|i: int, k: int|
                0 <= i < self.buffers@.len() && 0 <= k < self.buffers@[i].markers@.len()
                    implies #[trigger] self.markers@[self.buffers@[i].markers@[k] as int].buffer == Some(
                    i as usize,
                ) by {
                assert(o.buffer_ok(i));
                assert(o.markers@[o.buffers@[i].markers@[k] as int].buffer == Some(i as usize));
            }
            assert forall|x: int|
                0 <= x < self.markers@.len() && (#[trigger] self.markers@[x]).buffer is Some implies {
                let i = self.markers@[x].buffer->0 as int;
                &&& 0 <= i < self.buffers@.len()
                &&& self.buffers@[i].markers@.contains(x as usize)
            } by {
                assert(o.markers@[x].buffer == self.markers@[x].buffer);
                assert(o.markers@[x].buffer is Some);
            }
        }
    }

    /// Points marker M into buffer B at CHARPOS and BYTEPOS, putting it
    /// first on the chain of B when it pointed elsewhere.
    pub fn attach_marker(&mut self, m: usize, b: usize, charpos: isize, bytepos: isize)
        requires
            old(self).wf(),
            m < old(self).markers@.len(),
            b < old(self).buffers@.len(),
            known(&old(self).buffers@[b as int], charpos as int, bytepos as int),
        ensures
            final(self).wf(),
            final(self).markers@ == old(self).markers@.update(
                m as int,
                (LispMarker { buffer: Some(b), charpos, bytepos, ..old(self).markers@[m as int] }),
            ),
            final(self).current == old(self).current,
            final(self).buffers@.len() == old(self).buffers@.len(),
            forall|i: int| 0 <= i < old(self).buffers@.len() ==> same_text_and_positions(
                &#[trigger] old(self).buffers@[i],
                &final(self).buffers@[i],
            ),
    {
        let same = match self.markers[m].buffer {
            Some(x) => x == b,
            None => false,
        };
        if same {
            self.move_marker(m, b, charpos, bytepos);
        } else {
            let ghost o = *old(self);
            self.unchain_marker(m);
            let ghost mid = *self;
            proof {
                assert forall|i: int| 0 <= i < o.buffers@.len() implies same_text_and_positions(
                    &#[trigger] o.buffers@[i],
                    &mid.buffers@[i],
                ) by {
                    if Some(i as usize) != o.markers@[m as int].buffer {
                        assert(mid.buffers@[i] == o.buffers@[i]);
                    }
                }
            }
            self.link_marker(m, b, charpos, bytepos);
            proof {
                assert(self.markers@ =~= o.markers@.update(
                    m as int,
                    (LispMarker { buffer: Some(b), charpos, bytepos, ..o.markers@[m as int] }),
                ));
                assert forall|i: int| 0 <= i < o.buffers@.len() implies same_text_and_positions(
                    &#[trigger] o.buffers@[i],
                    &self.buffers@[i],
                ) by {
                    assert(same_text_and_positions(&o.buffers@[i], &mid.buffers@[i]));
                    if i != b {
                        assert(self.buffers@[i] == mid.buffers@[i]);
                    }
                }
            }
        }
    }
}

/// The word of the marker numbered `i`.
pub open spec fn marker_word(i: int) -> LispObject {
    LispObject((i * 8 + 1) as i64)
}

/// The word of the buffer numbered `i`.
pub open spec fn buffer_word(i: int) -> LispObject {
    LispObject(((3 * MAX_OBJECTS + i) * 8 + 5) as i64)
}

/// The `n` positions from `lo` to `hi`, the clipped value of `v`.
pub open spec fn clip(lo: int, v: int, hi: int) -> int {
    if v < lo {
        lo
    } else if v > hi {
        hi
    } else {
        v
    }
}

/// The first position of the buffer, or of its accessible region.
pub open spec fn buffer_beg(b: &LispBuffer, visible: bool) -> int {
    if visible {
        b.begv as int
    } else {
        1
    }
}

/// The end of the buffer, or of its accessible region.
pub open spec fn buffer_end(b: &LispBuffer, visible: bool) -> int {
    if visible {
        b.zv as int
    } else {
        b.z as int
    }
}

impl Buffers {
    /// The marker a word refers to, if any.
    pub open spec fn marker_of(&self, o: LispObject) -> Option<int> {
        if word_tag(o.0) == 1 && 0 <= o.0 / 8 < self.markers@.len() {
            Some(o.0 / 8)
        } else {
            None
        }
    }

    /// The buffer a word refers to, if any.
    pub open spec fn buffer_of(&self, o: LispObject) -> Option<int> {
        if word_tag(o.0) == 5 && 3 * MAX_OBJECTS <= o.0 / 8 < 3 * MAX_OBJECTS + self.buffers@.len() {
            Some(o.0 / 8 - 3 * MAX_OBJECTS)
        } else {
            None
        }
    }

    /// The buffer BUFFER designates (`nil` the current one): a live one,
    /// `None` for a dead one, or not a buffer.
    pub open spec fn resolve_buffer(&self, buffer: LispObject) -> Result<Option<usize>, LispError> {
        let b = if buffer.0 == 0 {
            Some(self.current as int)
        } else {
            self.buffer_of(buffer)
        };
        match b {
            None => Err(LispError::WrongType(TypePredicate::BufferP, buffer)),
            Some(i) => Ok(
                if self.buffers@[i].name.0 != 0 {
                    Some(i as usize)
                } else {
                    None
                },
            ),
        }
    }

    /// The marker that a word refers to, if any.
    pub fn as_marker(&self, o: LispObject) -> (r: Option<usize>)
        requires
            self.wf(),
        ensures
            r matches Some(m) ==> self.marker_of(o) == Some(m as int),
            r is None ==> self.marker_of(o) is None,
    {
        if o.is_misc() && o.0 >= 0 && o.0 / 8 < self.markers.len() as i64 {
            Some((o.0 / 8) as usize)
        } else {
            None
        }
    }

    /// The marker that a word refers to, or `wrong-type-argument markerp`.
    pub fn as_marker_or_error(&self, o: LispObject) -> (r: Result<usize, LispError>)
        requires
            self.wf(),
        ensures
            r matches Ok(m) ==> self.marker_of(o) == Some(m as int),
            r is Err ==> self.marker_of(o) is None && r == Err::<usize, LispError>(
                LispError::WrongType(TypePredicate::Markerp, o),
            ),
    {
        match self.as_marker(o) {
            Some(m) => Ok(m),
            None => Err(LispError::WrongType(TypePredicate::Markerp, o)),
        }
    }

    /// The word of marker M.
    pub fn marker_obj(&self, m: usize) -> (o: LispObject)
        requires
            self.wf(),
            m < self.markers@.len(),
        ensures
            o == marker_word(m as int),
            self.marker_of(o) == Some(m as int),
    {
        let x: i64 = m as i64;
        let w: i64 = x * 8 + 1;
        assert(((w as u64) & 7) == 1) by (bit_vector)
            requires
                w == x * 8 + 1,
                0 <= x < 0x400_0000,
        ;
        assert(w / 8 == x);
        LispObject(w)
    }

    /// The buffer a word refers to, if any.
    pub fn as_buffer(&self, o: LispObject) -> (r: Option<usize>)
        requires
            self.wf(),
        ensures
            r matches Some(b) ==> self.buffer_of(o) == Some(b as int),
            r is None ==> self.buffer_of(o) is None,
    {
        let base: i64 = 3 * (MAX_OBJECTS as i64);
        if o.is_vectorlike() && o.0 >= 0 && o.0 / 8 >= base && o.0 / 8 - base < self.buffers.len() as i64 {
            Some((o.0 / 8 - base) as usize)
        } else {
            None
        }
    }

    /// The word of buffer B.
    pub fn buffer_obj(&self, b: usize) -> (o: LispObject)
        requires
            self.wf(),
            b < self.buffers@.len(),
        ensures
            o == buffer_word(b as int),
            self.buffer_of(o) == Some(b as int),
    {
        let x: i64 = (3 * MAX_OBJECTS + b) as i64;
        let w: i64 = x * 8 + 5;
        assert(((w as u64) & 7) == 5) by (bit_vector)
            requires
                w == x * 8 + 5,
                0 <= x < 0x1000_0000,
        ;
        assert(w / 8 == x);
        LispObject(w)
    }

    /// The buffer BUFFER designates, the current one for `nil`; not a
    /// buffer is `wrong-type-argument bufferp`.
    pub fn as_buffer_or_current_buffer(&self, buffer: LispObject) -> (r: Result<usize, LispError>)
        requires
            self.wf(),
        ensures
            buffer.0 == 0 ==> r == Ok::<usize, LispError>(self.current),
            buffer.0 != 0 ==> match self.buffer_of(buffer) {
                Some(b) => r == Ok::<usize, LispError>(b as usize),
                None => r == Err::<usize, LispError>(LispError::WrongType(TypePredicate::BufferP, buffer)),
            },
    {
        if buffer.is_nil() {
            Ok(self.current)
        } else {
            match self.as_buffer(buffer) {
                Some(b) => Ok(b),
                None => Err(LispError::WrongType(TypePredicate::BufferP, buffer)),
            }
        }
    }

    /// The live buffer BUFFER designates (`nil` the current one), `None`
    /// when it is dead.
    pub fn live_buffer(&self, buffer: LispObject) -> (r: Result<Option<usize>, LispError>)
        requires
            self.wf(),
        ensures
            r == self.resolve_buffer(buffer),
    {
        let b = self.as_buffer_or_current_buffer(buffer)?;
        if self.buffers[b].name.is_not_nil() {
            Ok(Some(b))
        } else {
            Ok(None)
        }
    }

    /// Whether OBJECT is a marker.
    pub fn markerp(&self, object: LispObject) -> (b: bool)
        requires
            self.wf(),
        ensures
            b == self.marker_of(object) is Some,
    {
        self.as_marker(object).is_some()
    }

    /// The buffer marker M points into.
    pub fn marker_buffer(&self, m: usize) -> (r: Option<usize>)
        requires
            self.wf(),
            m < self.markers@.len(),
        ensures
            r == self.markers@[m as int].buffer,
    {
        self.markers[m].buffer
    }

    /// The character position of marker M, `None` when it points nowhere.
    pub fn charpos(&self, m: usize) -> (r: Option<isize>)
        requires
            self.wf(),
            m < self.markers@.len(),
        ensures
            r == (if self.markers@[m as int].buffer is Some {
                Some(self.markers@[m as int].charpos)
            } else {
                None
            }),
    {
        match self.markers[m].buffer {
            Some(_) => Some(self.markers[m].charpos),
            None => None,
        }
    }

    /// The byte position of marker M, `None` when it points nowhere.
    pub fn bytepos(&self, m: usize) -> (r: Option<isize>)
        requires
            self.wf(),
            m < self.markers@.len(),
        ensures
            r == (if self.markers@[m as int].buffer is Some {
                Some(self.markers@[m as int].bytepos)
            } else {
                None
            }),
    {
        match self.markers[m].buffer {
            Some(_) => Some(self.markers[m].bytepos),
            None => None,
        }
    }

    /// The character position of marker M; an error when it points
    /// nowhere.
    pub fn charpos_or_error(&self, m: usize) -> (r: Result<isize, LispError>)
        requires
            self.wf(),
            m < self.markers@.len(),
        ensures
            r == (if self.markers@[m as int].buffer is Some {
                Ok(self.markers@[m as int].charpos)
            } else {
                Err(LispError::Error(ErrorMessage::MarkerDoesNotPointAnywhere))
            }),
    {
        match self.charpos(m) {
            Some(p) => Ok(p),
            None => Err(LispError::Error(ErrorMessage::MarkerDoesNotPointAnywhere)),
        }
    }

    /// The byte position of marker M; an error when it points nowhere.
    pub fn bytepos_or_error(&self, m: usize) -> (r: Result<isize, LispError>)
        requires
            self.wf(),
            m < self.markers@.len(),
        ensures
            r == (if self.markers@[m as int].buffer is Some {
                Ok(self.markers@[m as int].bytepos)
            } else {
                Err(LispError::Error(ErrorMessage::MarkerDoesNotPointAnywhere))
            }),
    {
        match self.bytepos(m) {
            Some(p) => Ok(p),
            None => Err(LispError::Error(ErrorMessage::MarkerDoesNotPointAnywhere)),
        }
    }

    /// The position of MARKER, `None` when it points nowhere.
    pub fn marker_position_lisp(&self, marker: usize) -> (r: Option<i64>)
        requires
            self.wf(),
            marker < self.markers@.len(),
        ensures
            r == (if self.markers@[marker as int].buffer is Some {
                Some(self.markers@[marker as int].charpos as i64)
            } else {
                None
            }),
    {
        match self.charpos(marker) {
            Some(p) => Some(p as i64),
            None => None,
        }
    }

    /// The character position of the marker MARKER; not a marker is
    /// `wrong-type-argument markerp`, a marker pointing nowhere an error.
    pub fn marker_position(&self, marker: LispObject) -> (r: Result<isize, LispError>)
        requires
            self.wf(),
        ensures
            r == match self.marker_of(marker) {
                None => Err(LispError::WrongType(TypePredicate::Markerp, marker)),
                Some(m) => if self.markers@[m].buffer is Some {
                    Ok(self.markers@[m].charpos)
                } else {
                    Err(LispError::Error(ErrorMessage::MarkerDoesNotPointAnywhere))
                },
            },
    {
        let m = self.as_marker_or_error(marker)?;
        self.charpos_or_error(m)
    }

    /// The byte position of the marker MARKER; not a marker is
    /// `wrong-type-argument markerp`, a marker pointing nowhere an error.
    pub fn marker_byte_position(&self, marker: LispObject) -> (r: Result<isize, LispError>)
        requires
            self.wf(),
        ensures
            r == match self.marker_of(marker) {
                None => Err(LispError::WrongType(TypePredicate::Markerp, marker)),
                Some(m) => if self.markers@[m].buffer is Some {
                    Ok(self.markers@[m].bytepos)
                } else {
                    Err(LispError::Error(ErrorMessage::MarkerDoesNotPointAnywhere))
                },
            },
    {
        let m = self.as_marker_or_error(marker)?;
        self.bytepos_or_error(m)
    }

    /// Whether MARKER advances over text inserted at it.
    pub fn marker_insertion_type(&self, marker: usize) -> (b: bool)
        requires
            self.wf(),
            marker < self.markers@.len(),
        ensures
            b == self.markers@[marker as int].insertion_type,
    {
        self.markers[marker].insertion_type
    }

    /// Sets whether MARKER advances over text inserted at it (ITYPE not
    /// `nil`); returns ITYPE.
    pub fn set_marker_insertion_type(&mut self, marker: usize, itype: LispObject) -> (r: LispObject)
        requires
            old(self).wf(),
            marker < old(self).markers@.len(),
        ensures
            r == itype,
            final(self).wf(),
            final(self).buffers@ == old(self).buffers@,
            final(self).current == old(self).current,
            final(self).markers@ == old(self).markers@.update(
                marker as int,
                (LispMarker { insertion_type: itype.0 != 0, ..old(self).markers@[marker as int] }),
            ),
    {
        let ghost o = *old(self);
        let old_marker = self.markers[marker];
        self.markers.set(marker, LispMarker { insertion_type: itype.is_not_nil(), ..old_marker });
        proof {
            assert forall|i: int| 0 <= i < self.buffers@.len() implies #[trigger] self.buffer_ok(i) by {
                assert(o.buffer_ok(i));
            }
            assert forall|i: int, k: int|
                0 <= i < self.buffers@.len() && 0 <= k < self.buffers@[i].markers@.len()
                    implies #[trigger] self.markers@[self.buffers@[i].markers@[k] as int].buffer == Some(
                    i as usize,
                ) by {
                assert(o.buffer_ok(i));
                assert(o.markers@[o.buffers@[i].markers@[k] as int].buffer == Some(i as usize));
            }
            assert forall|x: int|
                0 <= x < self.markers@.len() && (#[trigger] self.markers@[x]).buffer is Some implies {
                let i = self.markers@[x].buffer->0 as int;
                &&& 0 <= i < self.buffers@.len()
                &&& self.buffers@[i].markers@.contains(x as usize)
            } by {
                assert(o.markers@[x].buffer == self.markers@[x].buffer);
            }
        }
        itype
    }

    /// The first position of buffer B, or of its accessible region.
    pub fn buffer_beg(&self, b: usize, visible: bool) -> (r: isize)
        requires
            self.wf(),
            b < self.buffers@.len(),
        ensures
            r == buffer_beg(&self.buffers@[b as int], visible),
    {
        if visible {
            self.buffers[b].begv
        } else {
            1
        }
    }

    /// The end of buffer B, or of its accessible region.
    pub fn buffer_end(&self, b: usize, visible: bool) -> (r: isize)
        requires
            self.wf(),
            b < self.buffers@.len(),
        ensures
            r == buffer_end(&self.buffers@[b as int], visible),
    {
        if visible {
            self.buffers[b].zv
        } else {
            self.buffers[b].z
        }
    }

    /// The first byte position of buffer B, or of its accessible region.
    pub fn buffer_beg_byte(&self, b: usize, visible: bool) -> (r: isize)
        requires
            self.wf(),
            b < self.buffers@.len(),
        ensures
            r == (if visible {
                self.buffers@[b as int].begv_byte as int
            } else {
                1
            }),
    {
        if visible {
            self.buffers[b].begv_byte
        } else {
            1
        }
    }

    /// The end byte position of buffer B, or of its accessible region.
    pub fn buffer_end_byte(&self, b: usize, visible: bool) -> (r: isize)
        requires
            self.wf(),
            b < self.buffers@.len(),
        ensures
            r == (if visible {
                self.buffers@[b as int].zv_byte as int
            } else {
                self.buffers@[b as int].z_byte as int
            }),
    {
        if visible {
            self.buffers[b].zv_byte
        } else {
            self.buffers[b].z_byte
        }
    }
}

/// A known place of a buffer clipped into a stretch between two known
/// places, by characters and by bytes alike, is a known place.
proof fn lemma_clip_known(b: &LispBuffer, c: int, bp: int, lo: int, lo_b: int, hi: int, hi_b: int)
    requires
        known(b, c, bp),
        known(b, lo, lo_b),
        known(b, hi, hi_b),
        lo <= hi,
    ensures
        known(b, clip(lo, c, hi), clip(lo_b, bp, hi_b)),
{
    lemma_char_to_byte_mono(b, lo, hi);
    if c < lo {
        lemma_char_to_byte_mono(b, c, lo);
    } else if c > hi {
        lemma_char_to_byte_mono(b, hi, c);
    } else {
        lemma_char_to_byte_mono(b, lo, c);
        lemma_char_to_byte_mono(b, c, hi);
    }
}

/// Where `set-marker` puts marker `m` for POSITION in the live buffer
/// `buf` (`None` for a dead one), limited to the accessible region when
/// RESTRICTED: nowhere (`None`), a buffer and a character position, or
/// `wrong-type-argument integer-or-marker-p`.
pub open spec fn marker_target(
    w: &Buffers,
    m: int,
    position: LispObject,
    buf: Option<usize>,
    restricted: bool,
) -> Result<Option<(usize, int)>, LispError> {
    let pm = w.marker_of(position);
    if position.0 == 0 || (pm matches Some(p) && w.markers@[p].buffer is None) || buf is None {
        Ok(None)
    } else {
        let b = buf->0;
        let bb = &w.buffers@[b as int];
        if pm matches Some(p) && w.markers@[p].buffer == Some(b) && w.markers@[m].buffer == Some(b) {
            Ok(Some((b, w.markers@[pm->0].charpos as int)))
        } else if is_fixnum_word(position.0) {
            Ok(Some((b, clip(buffer_beg(bb, restricted), fixnum_value(position.0), buffer_end(bb, restricted)))))
        } else if pm is Some {
            Ok(Some((b, clip(buffer_beg(bb, restricted), w.markers@[pm->0].charpos as int, buffer_end(bb, restricted)))))
        } else {
            Err(LispError::WrongType(TypePredicate::IntegerOrMarkerP, position))
        }
    }
}

/// A law of `set-marker` with a marker as POSITION: when POSITION points
/// into the live buffer `b` that BUFFER designates, and MARKER already
/// points into `b` or the position is not restricted to the accessible
/// region, `set-marker` returns MARKER and leaves it in `b` at POSITION's
/// character and byte positions.
pub proof fn lemma_set_marker_to_marker(
    before: &Buffers,
    after: &Buffers,
    marker: LispObject,
    position: LispObject,
    buffer: LispObject,
    restricted: bool,
    r: Result<LispObject, LispError>,
    b: usize,
)
    requires
        before.wf(),
        set_marker_done(before, after, marker, position, buffer, restricted, r),
        before.resolve_buffer(buffer) == Ok::<Option<usize>, LispError>(Some(b)),
        before.marker_of(marker) is Some,
        before.marker_of(position) is Some,
        before.markers@[before.marker_of(position)->0].buffer == Some(b),
        before.markers@[before.marker_of(marker)->0].buffer == Some(b) || !restricted,
    ensures
        r == Ok::<LispObject, LispError>(marker),
        after.markers@[before.marker_of(marker)->0].buffer == Some(b),
        after.markers@[before.marker_of(marker)->0].charpos == before.markers@[before.marker_of(position)->0].charpos,
        after.markers@[before.marker_of(marker)->0].bytepos == before.markers@[before.marker_of(position)->0].bytepos,
{
    let m = before.marker_of(marker)->0;
    let p = before.marker_of(position)->0;
    crate::tag::lemma_nil_tag();
    assert(position.0 != 0);
    assert(b < before.buffers@.len());
    let bb = &before.buffers@[b as int];
    assert(before.buffer_ok(b as int));
    assert(before.markers@[p].buffer is Some);
    assert(bb.markers@.contains(p as usize));
    let j = choose|j: int| 0 <= j < bb.markers@.len() && bb.markers@[j] == p as usize;
    assert(bb.markers@[j] < before.markers@.len());
    assert(known(bb, before.markers@[p].charpos as int, before.markers@[p].bytepos as int));
    assert(!is_fixnum_word(position.0));
}

/// A law of `set-marker` with a number as POSITION: in the live buffer
/// `b` that BUFFER designates, MARKER ends up at that number, or at the
/// nearer edge of the buffer (of its accessible region when RESTRICTED)
/// when the number lies outside it; `set-marker` returns MARKER.
pub proof fn lemma_set_marker_to_number(
    before: &Buffers,
    after: &Buffers,
    marker: LispObject,
    position: LispObject,
    buffer: LispObject,
    restricted: bool,
    r: Result<LispObject, LispError>,
    b: usize,
)
    requires
        before.wf(),
        set_marker_done(before, after, marker, position, buffer, restricted, r),
        before.resolve_buffer(buffer) == Ok::<Option<usize>, LispError>(Some(b)),
        before.marker_of(marker) is Some,
        is_fixnum_word(position.0),
    ensures
        r == Ok::<LispObject, LispError>(marker),
        after.markers@[before.marker_of(marker)->0].buffer == Some(b),
        ({
            let n = fixnum_value(position.0);
            let lo = if restricted { before.buffers@[b as int].begv as int } else { 1int };
            let hi = if restricted { before.buffers@[b as int].zv as int } else { before.buffers@[b as int].z as int };
            let c = after.markers@[before.marker_of(marker)->0].charpos as int;
            &&& lo <= n <= hi ==> c == n
            &&& n < lo ==> c == lo
            &&& n > hi ==> c == hi
        }),
{
    crate::tag::lemma_nil_tag();
    assert(position.0 != 0);
    assert(before.marker_of(position) is None);
    assert(b < before.buffers@.len());
    let bb = &before.buffers@[b as int];
    assert(before.buffer_ok(b as int));
    assert(known(bb, bb.begv as int, bb.begv_byte as int));
    assert(known(bb, bb.zv as int, bb.zv_byte as int));
}

/// A law of `set-marker` with `nil` as POSITION, or with a dead buffer:
/// MARKER ends up pointing nowhere, and `set-marker` returns MARKER.
pub proof fn lemma_set_marker_to_nowhere(
    before: &Buffers,
    after: &Buffers,
    marker: LispObject,
    position: LispObject,
    buffer: LispObject,
    restricted: bool,
    r: Result<LispObject, LispError>,
)
    requires
        before.wf(),
        set_marker_done(before, after, marker, position, buffer, restricted, r),
        before.resolve_buffer(buffer) is Ok,
        before.marker_of(marker) is Some,
        position.0 == 0 || before.resolve_buffer(buffer) == Ok::<Option<usize>, LispError>(None),
    ensures
        r == Ok::<LispObject, LispError>(marker),
        after.markers@[before.marker_of(marker)->0].buffer is None,
{
}

/// The markers and buffers are as before but for marker `m` and markers
/// added after the old ones; no buffer's text or positions changed.
pub open spec fn keeps_others(before: &Buffers, after: &Buffers, m: int) -> bool {
    &&& after.current == before.current
    &&& after.buffers@.len() == before.buffers@.len()
    &&& forall|i: int| 0 <= i < before.buffers@.len() ==> same_text_and_positions(
        &#[trigger] before.buffers@[i],
        &after.buffers@[i],
    )
    &&& after.markers@.len() >= before.markers@.len()
    &&& forall|x: int| 0 <= x < before.markers@.len() && x != m ==> #[trigger] after.markers@[x] == before.markers@[x]
}

impl Buffers {
    /// A new marker pointing nowhere; its number.
    pub fn make_marker(&mut self) -> (m: usize)
        requires
            old(self).wf(),
            old(self).markers@.len() + 1 < MAX_OBJECTS,
        ensures
            final(self).wf(),
            m == old(self).markers@.len(),
            final(self).markers@ == old(self).markers@.push(
                LispMarker { buffer: None, charpos: 0, bytepos: 0, insertion_type: false },
            ),
            final(self).buffers@ == old(self).buffers@,
            final(self).current == old(self).current,
    {
        let ghost o = *old(self);
        let m = self.markers.len();
        self.markers.push(LispMarker { buffer: None, charpos: 0, bytepos: 0, insertion_type: false });
        proof {
            assert forall|i: int| 0 <= i < self.buffers@.len() implies #[trigger] self.buffer_ok(i) by {
                assert(o.buffer_ok(i));
                let bn = &self.buffers@[i];
                assert forall|k: int| 0 <= k < bn.markers@.len() implies #[trigger] bn.markers@[k]
                    < self.markers@.len() && known(
                    bn,
                    self.markers@[bn.markers@[k] as int].charpos as int,
                    self.markers@[bn.markers@[k] as int].bytepos as int,
                ) by {
                    assert(self.markers@[bn.markers@[k] as int] == o.markers@[bn.markers@[k] as int]);
                }
            }
            assert forall|i: int, k: int|
                0 <= i < self.buffers@.len() && 0 <= k < self.buffers@[i].markers@.len()
                    implies #[trigger] self.markers@[self.buffers@[i].markers@[k] as int].buffer == Some(
                    i as usize,
                ) by {
                assert(o.buffer_ok(i));
                let x = o.buffers@[i].markers@[k];
                assert(o.markers@[x as int].buffer == Some(i as usize));
                assert(self.markers@[x as int] == o.markers@[x as int]);
            }
            assert forall|x: int|
                0 <= x < self.markers@.len() && (#[trigger] self.markers@[x]).buffer is Some implies {
                let i = self.markers@[x].buffer->0 as int;
                &&& 0 <= i < self.buffers@.len()
                &&& self.buffers@[i].markers@.contains(x as usize)
            } by {
                assert(x != m);
                assert(o.markers@[x] == self.markers@[x]);
            }
        }
        m
    }

    /// A new marker at point of the current buffer.
    pub fn point_marker(&mut self) -> (m: usize)
        requires
            old(self).wf(),
            old(self).markers@.len() + 1 < MAX_OBJECTS,
        ensures
            final(self).wf(),
            m == old(self).markers@.len(),
            final(self).markers@[m as int] == (LispMarker {
                buffer: Some(old(self).current),
                charpos: old(self).buffers@[old(self).current as int].pt,
                bytepos: old(self).buffers@[old(self).current as int].pt_byte,
                insertion_type: false,
            }),
            keeps_others(old(self), final(self), m as int),
    {
        proof {
            assert(self.buffer_ok(self.current as int));
        }
        let b = self.current;
        let pt = self.buffers[b].pt;
        let pt_byte = self.buffers[b].pt_byte;
        let m = self.build_marker(b, pt, pt_byte);
        m
    }

    /// A new marker at the start of the accessible region of the current
    /// buffer.
    pub fn point_min_marker(&mut self) -> (m: usize)
        requires
            old(self).wf(),
            old(self).markers@.len() + 1 < MAX_OBJECTS,
        ensures
            final(self).wf(),
            m == old(self).markers@.len(),
            final(self).markers@[m as int] == (LispMarker {
                buffer: Some(old(self).current),
                charpos: old(self).buffers@[old(self).current as int].begv,
                bytepos: old(self).buffers@[old(self).current as int].begv_byte,
                insertion_type: false,
            }),
            keeps_others(old(self), final(self), m as int),
    {
        proof {
            assert(self.buffer_ok(self.current as int));
        }
        let b = self.current;
        let begv = self.buffers[b].begv;
        let begv_byte = self.buffers[b].begv_byte;
        self.build_marker(b, begv, begv_byte)
    }

    /// A new marker at the end of the accessible region of the current
    /// buffer.
    pub fn point_max_marker(&mut self) -> (m: usize)
        requires
            old(self).wf(),
            old(self).markers@.len() + 1 < MAX_OBJECTS,
        ensures
            final(self).wf(),
            m == old(self).markers@.len(),
            final(self).markers@[m as int] == (LispMarker {
                buffer: Some(old(self).current),
                charpos: old(self).buffers@[old(self).current as int].zv,
                bytepos: old(self).buffers@[old(self).current as int].zv_byte,
                insertion_type: false,
            }),
            keeps_others(old(self), final(self), m as int),
    {
        proof {
            assert(self.buffer_ok(self.current as int));
        }
        let b = self.current;
        let zv = self.buffers[b].zv;
        let zv_byte = self.buffers[b].zv_byte;
        self.build_marker(b, zv, zv_byte)
    }

    /// Whether some marker of the current buffer is at POSITION (clipped
    /// into the accessible region).
    pub fn buffer_has_markers_at(&self, position: i64) -> (r: bool)
        requires
            self.wf(),
        ensures
            ({
                let b = &self.buffers@[self.current as int];
                let p = clip(b.begv as int, position as int, b.zv as int);
                r == exists|j: int|
                    0 <= j < b.markers@.len() && #[trigger] self.markers@[b.markers@[j] as int].charpos == p
            }),
    {
        proof {
            assert(self.buffer_ok(self.current as int));
        }
        let b = self.current;
        let pos = clip_to_bounds(self.buffers[b].begv, position, self.buffers[b].zv);
        let ghost bb = &self.buffers@[b as int];
        assert(pos == clip(bb.begv as int, position as int, bb.zv as int));
        let chain = &self.buffers[b].markers;
        let mut j: usize = 0;
        while j < chain.len()
            invariant
                self.wf(),
                b == self.current,
                chain == &self.buffers@[b as int].markers,
                pos == clip(self.buffers@[b as int].begv as int, position as int, self.buffers@[b as int].zv as int),
                forall|k: int| 0 <= k < j ==> #[trigger] self.markers@[chain@[k] as int].charpos != pos,
            decreases chain.len() - j,
        {
            proof {
                assert(self.buffer_ok(b as int));
                assert(self.markers@[chain@[j as int] as int].buffer == Some(b));
            }
            match self.charpos(chain[j]) {
                Some(p) => {
                    if p == pos {
                        proof {
                            assert(self.markers@[self.buffers@[b as int].markers@[j as int] as int].charpos == pos);
                        }
                        return true;
                    }
                },
                None => {},
            }
            j = j + 1;
        }
        false
    }
}

/// The state of marker `m` after `set-marker` moved it to TARGET.
pub open spec fn marker_after(w: &Buffers, m: int, target: Option<(usize, int)>) -> LispMarker {
    match target {
        None => LispMarker { buffer: None, ..w.markers@[m] },
        Some(t) => LispMarker {
            buffer: Some(t.0),
            charpos: t.1 as isize,
            bytepos: char_to_byte(&w.buffers@[t.0 as int], t.1) as isize,
            insertion_type: w.markers@[m].insertion_type,
        },
    }
}

/// What `set-marker` does to the world `before` for MARKER, POSITION and
/// BUFFER: the error it signals (leaving the world as it was), or the
/// marker moved to its target and the rest kept.
pub open spec fn set_marker_done(
    before: &Buffers,
    after: &Buffers,
    marker: LispObject,
    position: LispObject,
    buffer: LispObject,
    restricted: bool,
    r: Result<LispObject, LispError>,
) -> bool {
    match before.resolve_buffer(buffer) {
        Err(e) => r == Err::<LispObject, LispError>(e) && *after == *before,
        Ok(buf) => match before.marker_of(marker) {
            None => r == Err::<LispObject, LispError>(LispError::WrongType(TypePredicate::Markerp, marker))
                && *after == *before,
            Some(m) => match marker_target(before, m, position, buf, restricted) {
                Err(e) => r == Err::<LispObject, LispError>(e) && *after == *before,
                Ok(t) => {
                    &&& r == Ok::<LispObject, LispError>(marker)
                    &&& after.markers@[m] == marker_after(before, m, t)
                    &&& keeps_others(before, after, m)
                },
            },
        },
    }
}

/// A conversion keeps the others.
proof fn lemma_conversion_keeps(before: &Buffers, after: &Buffers, b: int, m: int)
    requires
        conversion_effect(before, after, b),
        0 <= b < before.buffers@.len(),
    ensures
        keeps_others(before, after, m),
        forall|x: int| 0 <= x < before.markers@.len() ==> #[trigger] after.markers@[x] == before.markers@[x],
{
    if after.markers@ != before.markers@ {
        assert forall|x: int| 0 <= x < before.markers@.len() implies #[trigger] after.markers@[x]
            == before.markers@[x] by {
            assert(after.markers@.drop_last()[x] == after.markers@[x]);
        }
    }
    assert forall|i: int| 0 <= i < before.buffers@.len() implies same_text_and_positions(
        &#[trigger] before.buffers@[i],
        &after.buffers@[i],
    ) by {
        if i != b {
            assert(after.buffers@[i] == before.buffers@[i]);
        }
    }
}

impl Buffers {
    /// Leaves marker M pointing nowhere.
    fn unchain_keeping(&mut self, m: usize)
        requires
            old(self).wf(),
            m < old(self).markers@.len(),
        ensures
            final(self).wf(),
            final(self).markers@[m as int] == marker_after(old(self), m as int, None),
            keeps_others(old(self), final(self), m as int),
            final(self).markers@.len() == old(self).markers@.len(),
    {
        let ghost o = *old(self);
        self.unchain_marker(m);
        proof {
            assert forall|i: int| 0 <= i < o.buffers@.len() implies same_text_and_positions(
                &#[trigger] o.buffers@[i],
                &self.buffers@[i],
            ) by {
                if Some(i as usize) != o.markers@[m as int].buffer {
                    assert(self.buffers@[i] == o.buffers@[i]);
                }
            }
        }
    }

    /// Points marker M into buffer B at CHARPOS_IN clipped into the buffer
    /// (or its accessible region when RESTRICTED); MARKER_BYTEPOS is the
    /// byte position of CHARPOS_IN when a marker of B gave both.
    #[verifier::rlimit(30)]
    fn place_marker(
        &mut self,
        m: usize,
        b: usize,
        charpos_in: i64,
        marker_bytepos: Option<isize>,
        restricted: bool,
    )
        requires
            old(self).wf(),
            m < old(self).markers@.len(),
            b < old(self).buffers@.len(),
            marker_bytepos matches Some(bp) ==> known(&old(self).buffers@[b as int], charpos_in as int, bp as int),
        ensures
            final(self).wf(),
            final(self).markers@[m as int] == marker_after(
                old(self),
                m as int,
                Some(
                    (
                        b,
                        clip(
                            buffer_beg(&old(self).buffers@[b as int], restricted),
                            charpos_in as int,
                            buffer_end(&old(self).buffers@[b as int], restricted),
                        ),
                    ),
                ),
            ),
            keeps_others(old(self), final(self), m as int),
    {
        let ghost o = *old(self);
        proof {
            assert(self.buffer_ok(b as int));
            lemma_char_to_byte_grows(&self.buffers@[b as int], 1, self.buffers@[b as int].z as int);
        }
        let beg = self.buffer_beg(b, restricted);
        let end = self.buffer_end(b, restricted);
        let charpos = clip_to_bounds(beg, charpos_in, end);
        let bytepos = match marker_bytepos {
            None => {
                let r = self.buf_charpos_to_bytepos(b, charpos);
                proof {
                    lemma_conversion_keeps(&o, self, b as int, m as int);
                }
                r
            },
            Some(bp) => {
                let beg_byte = self.buffer_beg_byte(b, restricted);
                let end_byte = self.buffer_end_byte(b, restricted);
                proof {
                    lemma_clip_known(
                        &o.buffers@[b as int],
                        charpos_in as int,
                        bp as int,
                        beg as int,
                        beg_byte as int,
                        end as int,
                        end_byte as int,
                    );
                }
                clip_to_bounds(beg_byte, bp as i64, end_byte)
            },
        };
        let ghost mid = *self;
        self.attach_marker(m, b, charpos, bytepos);
        proof {
            assert forall|i: int| 0 <= i < o.buffers@.len() implies same_text_and_positions(
                &#[trigger] o.buffers@[i],
                &self.buffers@[i],
            ) by {
                assert(same_text_and_positions(&o.buffers@[i], &mid.buffers@[i]));
                assert(same_text_and_positions(&mid.buffers@[i], &self.buffers@[i]));
            }
            assert forall|x: int| 0 <= x < o.markers@.len() && x != m implies #[trigger] self.markers@[x]
                == o.markers@[x] by {
                assert(mid.markers@[x] == o.markers@[x]);
            }
        }
    }

    /// Points MARKER into BUFFER (`nil` the current buffer) at POSITION:
    /// a position (clipped into the buffer, or into its accessible region
    /// when RESTRICTED), or a marker; nowhere for `nil`, a marker pointing
    /// nowhere, or a dead buffer.  Returns MARKER.
    #[verifier::rlimit(30)]
    pub fn set_marker_internal(
        &mut self,
        marker: LispObject,
        position: LispObject,
        buffer: LispObject,
        restricted: bool,
    ) -> (r: Result<LispObject, LispError>)
        requires
            old(self).wf(),
        ensures
            final(self).wf(),
            set_marker_done(old(self), final(self), marker, position, buffer, restricted, r),
    {
        let ghost o = *old(self);
        let buf = self.live_buffer(buffer)?;
        let m = self.as_marker_or_error(marker)?;
        let pm = self.as_marker(position);
        let pm_nowhere = match pm {
            Some(p) => self.markers[p].buffer.is_none(),
            None => false,
        };
        let b = match buf {
            Some(b) => b,
            None => {
                self.unchain_keeping(m);
                return Ok(marker);
            },
        };
        if position.is_nil() || pm_nowhere {
            self.unchain_keeping(m);
            return Ok(marker);
        }
        let m_in_b = match self.markers[m].buffer {
            Some(x) => x == b,
            None => false,
        };
        match pm {
            Some(p) => {
                let p_in_b = match self.markers[p].buffer {
                    Some(x) => x == b,
                    None => false,
                };
                let pc = self.markers[p].charpos;
                let pb = self.markers[p].bytepos;
                proof {
                    if p_in_b {
                        let k = choose|k: int|
                            0 <= k < o.buffers@[b as int].markers@.len() && o.buffers@[b as int].markers@[k]
                                == p;
                        assert(o.buffers@[b as int].markers@[k] == p);
                        assert(o.buffer_ok(b as int));
                    }
                }
                if p_in_b && m_in_b {
                    self.move_marker(m, b, pc, pb);
                    proof {
                        assert forall|i: int| 0 <= i < o.buffers@.len() implies same_text_and_positions(
                            &#[trigger] o.buffers@[i],
                            &self.buffers@[i],
                        ) by {}
                    }
                    return Ok(marker);
                }
                match position.as_fixnum() {
                    Some(num) => {
                        self.place_marker(m, b, num, None, restricted);
                    },
                    None => {
                        self.place_marker(m, b, pc as i64, if p_in_b {
                            Some(pb)
                        } else {
                            None
                        }, restricted);
                    },
                }
                Ok(marker)
            },
            None => match position.as_fixnum() {
                Some(num) => {
                    self.place_marker(m, b, num, None, restricted);
                    Ok(marker)
                },
                None => Err(LispError::WrongType(TypePredicate::IntegerOrMarkerP, position)),
            },
        }
    }
}

impl Buffers {
    /// `set-marker`: MARKER to POSITION in BUFFER (see
    /// `set_marker_internal`), anywhere in the buffer.
    pub fn set_marker(&mut self, marker: LispObject, position: LispObject, buffer: LispObject) -> (r: Result<
        LispObject,
        LispError,
    >)
        requires
            old(self).wf(),
        ensures
            final(self).wf(),
            set_marker_done(old(self), final(self), marker, position, buffer, false, r),
    {
        self.set_marker_internal(marker, position, buffer, false)
    }

    /// Like `set_marker`, but within the accessible region of the buffer.
    pub fn set_marker_restricted(&mut self, marker: LispObject, position: LispObject, buffer: LispObject) -> (r:
        Result<LispObject, LispError>)
        requires
            old(self).wf(),
        ensures
            final(self).wf(),
            set_marker_done(old(self), final(self), marker, position, buffer, true, r),
    {
        self.set_marker_internal(marker, position, buffer, true)
    }

    /// Points MARKER into BUFFER (`nil` the current buffer) at CHARPOS and
    /// BYTEPOS, or nowhere when the buffer is dead.  Returns MARKER.
    pub fn set_marker_both(&mut self, marker: LispObject, buffer: LispObject, charpos: isize, bytepos: isize) -> (r:
        Result<LispObject, LispError>)
        requires
            old(self).wf(),
            old(self).resolve_buffer(buffer) matches Ok(Some(b)) ==> known(
                &old(self).buffers@[b as int],
                charpos as int,
                bytepos as int,
            ),
        ensures
            final(self).wf(),
            final(self).markers@.len() == old(self).markers@.len(),
            match old(self).marker_of(marker) {
                None => r == Err::<LispObject, LispError>(LispError::WrongType(TypePredicate::Markerp, marker))
                    && *final(self) == *old(self),
                Some(m) => match old(self).resolve_buffer(buffer) {
                    Err(e) => r == Err::<LispObject, LispError>(e) && *final(self) == *old(self),
                    Ok(None) => r == Ok::<LispObject, LispError>(marker) && final(self).markers@[m] == marker_after(
                        old(self),
                        m,
                        None,
                    ) && keeps_others(old(self), final(self), m),
                    Ok(Some(b)) => r == Ok::<LispObject, LispError>(marker) && final(self).markers@[m]
                        == marker_after(old(self), m, Some((b, charpos as int))) && keeps_others(
                        old(self),
                        final(self),
                        m,
                    ),
                },
            },
    {
        let m = self.as_marker_or_error(marker)?;
        match self.live_buffer(buffer)? {
            Some(b) => {
                self.attach_marker(m, b, charpos, bytepos);
            },
            None => {
                self.unchain_keeping(m);
            },
        }
        Ok(marker)
    }

    /// Like `set_marker_both`, but with CHARPOS and BYTEPOS each clipped to
    /// the accessible region of the current buffer.
    pub fn set_marker_restricted_both(&mut self, marker: LispObject, buffer: LispObject, charpos: isize, bytepos: isize) -> (r:
        Result<LispObject, LispError>)
        requires
            old(self).wf(),
            old(self).resolve_buffer(buffer) matches Ok(Some(b)) ==> {
                let cur = old(self).buffers@[old(self).current as int];
                known(
                    &old(self).buffers@[b as int],
                    clip(cur.begv as int, charpos as int, cur.zv as int),
                    clip(cur.begv_byte as int, bytepos as int, cur.zv_byte as int),
                )
            },
        ensures
            final(self).wf(),
            final(self).markers@.len() == old(self).markers@.len(),
            match old(self).marker_of(marker) {
                None => r == Err::<LispObject, LispError>(LispError::WrongType(TypePredicate::Markerp, marker))
                    && *final(self) == *old(self),
                Some(m) => match old(self).resolve_buffer(buffer) {
                    Err(e) => r == Err::<LispObject, LispError>(e) && *final(self) == *old(self),
                    Ok(None) => r == Ok::<LispObject, LispError>(marker) && final(self).markers@[m] == marker_after(
                        old(self),
                        m,
                        None,
                    ) && keeps_others(old(self), final(self), m),
                    Ok(Some(b)) => {
                        let cur = old(self).buffers@[old(self).current as int];
                        &&& r == Ok::<LispObject, LispError>(marker)
                        &&& final(self).markers@[m] == marker_after(
                            old(self),
                            m,
                            Some((b, clip(cur.begv as int, charpos as int, cur.zv as int))),
                        )
                        &&& keeps_others(old(self), final(self), m)
                    },
                },
            },
    {
        let m = self.as_marker_or_error(marker)?;
        match self.live_buffer(buffer)? {
            Some(b) => {
                let cur = self.current;
                proof {
                    assert(self.buffer_ok(cur as int));
                }
                let c = clip_to_bounds(self.buffers[cur].begv, charpos as i64, self.buffers[cur].zv);
                let bp = clip_to_bounds(self.buffers[cur].begv_byte, bytepos as i64, self.buffers[cur].zv_byte);
                self.attach_marker(m, b, c, bp);
            },
            None => {
                self.unchain_keeping(m);
            },
        }
        Ok(marker)
    }

    /// The position of the marker or fixnum OBJECT: a marker pointing
    /// nowhere is an error, anything else `wrong-type-argument
    /// integer-or-marker-p`.
    pub fn as_fixnum_coerce_marker_or_error(&self, object: LispObject) -> (r: Result<i64, LispError>)
        requires
            self.wf(),
        ensures
            is_fixnum_word(object.0) ==> r == Ok::<i64, LispError>(fixnum_value(object.0) as i64),
            !is_fixnum_word(object.0) ==> match self.marker_of(object) {
                Some(m) => r == (if self.markers@[m].buffer is Some {
                    Ok(self.markers@[m].charpos as i64)
                } else {
                    Err(LispError::Error(ErrorMessage::MarkerDoesNotPointAnywhere))
                }),
                None => r == Err::<i64, LispError>(LispError::WrongType(TypePredicate::IntegerOrMarkerP, object)),
            },
    {
        match object.as_fixnum() {
            Some(n) => Ok(n),
            None => match self.as_marker(object) {
                Some(m) => {
                    let c = self.charpos_or_error(m)?;
                    Ok(c as i64)
                },
                None => Err(LispError::WrongType(TypePredicate::IntegerOrMarkerP, object)),
            },
        }
    }

    /// Where `goto-char` or `set_point_from_marker` put point for the
    /// marker MARKER: its position clipped into the accessible region of
    /// the current buffer, with the byte position (converted when the
    /// marker is in another buffer).
    pub fn set_point_from_marker(&mut self, marker: LispObject) -> (r: Result<(isize, isize), LispError>)
        requires
            old(self).wf(),
        ensures
            final(self).wf(),
            match old(self).marker_of(marker) {
                None => r == Err::<(isize, isize), LispError>(LispError::WrongType(TypePredicate::Markerp, marker))
                    && *final(self) == *old(self),
                Some(m) => if old(self).markers@[m].buffer is None {
                    r == Err::<(isize, isize), LispError>(LispError::Error(ErrorMessage::MarkerDoesNotPointAnywhere))
                        && *final(self) == *old(self)
                } else {
                    let b = &old(self).buffers@[old(self).current as int];
                    let c = clip(b.begv as int, old(self).markers@[m].charpos as int, b.zv as int);
                    &&& r == Ok::<(isize, isize), LispError>((c as isize, char_to_byte(b, c) as isize))
                    &&& keeps_others(old(self), final(self), -1)
                },
            },
    {
        let ghost o = *old(self);
        let m = self.as_marker_or_error(marker)?;
        let cur = self.current;
        let c = self.charpos_or_error(m)?;
        let bp = self.bytepos_or_error(m)?;
        proof {
            assert(self.buffer_ok(cur as int));
        }
        let charpos = clip_to_bounds(self.buffers[cur].begv, c as i64, self.buffers[cur].zv);
        let in_cur = match self.markers[m].buffer {
            Some(x) => x == cur,
            None => false,
        };
        let bytepos = if !in_cur {
            let r = self.buf_charpos_to_bytepos(cur, charpos);
            proof {
                lemma_conversion_keeps(&o, self, cur as int, -1);
            }
            r
        } else {
            proof {
                let b = &o.buffers@[cur as int];
                let k = choose|k: int| 0 <= k < b.markers@.len() && b.markers@[k] == m;
                assert(b.markers@[k] == m);
                lemma_clip_known(b, c as int, bp as int, b.begv as int, b.begv_byte as int, b.zv as int, b.zv_byte as int);
                assert forall|i: int| 0 <= i < o.buffers@.len() implies same_text_and_positions(
                    &#[trigger] o.buffers@[i],
                    &self.buffers@[i],
                ) by {}
            }
            clip_to_bounds(self.buffers[cur].begv_byte, bp as i64, self.buffers[cur].zv_byte)
        };
        Ok((charpos, bytepos))
    }
}

/// The marker `copy-marker` makes of MARKER (a marker, a position in
/// the current buffer, or `nil` for nowhere) with insertion type ITYPE,
/// or the error it signals.
pub open spec fn copied_marker(w: &Buffers, marker: LispObject, itype: LispObject) -> Result<LispMarker, LispError> {
    let nowhere = LispMarker { buffer: None, charpos: 0, bytepos: 0, insertion_type: itype.0 != 0 };
    if marker.0 == 0 {
        Ok(nowhere)
    } else if is_fixnum_word(marker.0) {
        let cur = w.current;
        let b = &w.buffers@[cur as int];
        if b.name.0 != 0 {
            let c = clip(1, fixnum_value(marker.0), b.z as int);
            Ok(
                LispMarker {
                    buffer: Some(cur),
                    charpos: c as isize,
                    bytepos: char_to_byte(b, c) as isize,
                    insertion_type: itype.0 != 0,
                },
            )
        } else {
            Ok(nowhere)
        }
    } else {
        match w.marker_of(marker) {
            None => Err(LispError::WrongType(TypePredicate::IntegerOrMarkerP, marker)),
            Some(p) => match w.markers@[p].buffer {
                None => Err(LispError::Error(ErrorMessage::MarkerDoesNotPointAnywhere)),
                Some(b) => if w.buffers@[b as int].name.0 != 0 {
                    Ok(LispMarker { insertion_type: itype.0 != 0, ..w.markers@[p] })
                } else {
                    Ok(nowhere)
                },
            },
        }
    }
}

impl Buffers {
    /// A new marker at the place of MARKER (a marker, or a position in the
    /// current buffer; nowhere for `nil`), with insertion type ITYPE; the
    /// new marker's word.
    pub fn copy_marker(&mut self, marker: LispObject, itype: LispObject) -> (r: Result<LispObject, LispError>)
        requires
            old(self).wf(),
            old(self).markers@.len() + 1 < MAX_OBJECTS,
        ensures
            final(self).wf(),
            match copied_marker(old(self), marker, itype) {
                Err(e) => r == Err::<LispObject, LispError>(e) && *final(self) == *old(self),
                Ok(mk) => {
                    let n = old(self).markers@.len() as int;
                    &&& r == Ok::<LispObject, LispError>(marker_word(n))
                    &&& final(self).markers@[n] == mk
                    &&& keeps_others(old(self), final(self), n)
                },
            },
    {
        let ghost o = *old(self);
        if marker.is_not_nil() {
            self.as_fixnum_coerce_marker_or_error(marker)?;
        }
        let n = self.make_marker();
        let ghost made = *self;
        let new = self.marker_obj(n);
        let buffer_or_nil = match self.as_marker(marker) {
            Some(p) => match self.markers[p].buffer {
                Some(b) => self.buffer_obj(b),
                None => LispObject::constant_nil(),
            },
            None => LispObject::constant_nil(),
        };
        proof {
            assert(made.markers@[n as int].buffer is None);
            match made.marker_of(marker) {
                Some(p) => {
                    assert(made.markers@[p] == o.markers@[p]);
                    if let Some(b) = o.markers@[p].buffer {
                        assert(o.buffer_ok(b as int));
                        let k = choose|k: int| 0 <= k < o.buffers@[b as int].markers@.len() && o.buffers@[b as int].markers@[k] == p as usize;
                        assert(o.buffers@[b as int].markers@[k] == p as usize);
                    }
                },
                None => {},
            }
        }
        let res = self.set_marker(new, marker, buffer_or_nil);
        let ghost placed = *self;
        proof {
            assert(res is Ok);
        }
        self.set_marker_insertion_type(n, itype);
        proof {
            assert forall|i: int| 0 <= i < o.buffers@.len() implies same_text_and_positions(
                &#[trigger] o.buffers@[i],
                &self.buffers@[i],
            ) by {
                assert(same_text_and_positions(&made.buffers@[i], &placed.buffers@[i]));
            }
            assert forall|x: int| 0 <= x < o.markers@.len() && x != n implies #[trigger] self.markers@[x]
                == o.markers@[x] by {
                assert(placed.markers@[x] == made.markers@[x]);
            }
        }
        Ok(new)
    }
}

/// Converting a character position to bytes and back gives it again.
pub proof fn lemma_conversion_round_trip(w: &Buffers, b: int, c: int, r: int)
    requires
        w.wf(),
        0 <= b < w.buffers@.len(),
        1 <= c <= w.buffers@[b].z,
        char_at_byte(&w.buffers@[b], char_to_byte(&w.buffers@[b], c), r),
    ensures
        r == c,
{
    let buf = &w.buffers@[b];
    assert(w.buffer_ok(b));
    if r < c {
        lemma_char_to_byte_mono(buf, r + 1, c);
        lemma_char_to_byte_mono(buf, r, r + 1);
    } else if r > c {
        lemma_char_to_byte_mono(buf, c + 1, r);
        lemma_char_to_byte_mono(buf, c, c + 1);
        if r >= 2 {
            lemma_char_to_byte_mono(buf, c, r - 1);
        }
    }
}

/// After `set-marker` with a fixnum position in a live buffer, the
/// marker points into that buffer at the position clipped into it, and
/// its byte position corresponds.
pub proof fn lemma_set_marker_position(
    before: &Buffers,
    after: &Buffers,
    marker: LispObject,
    position: LispObject,
    buffer: LispObject,
    r: Result<LispObject, LispError>,
)
    requires
        before.wf(),
        set_marker_done(before, after, marker, position, buffer, false, r),
        before.marker_of(marker) is Some,
        before.resolve_buffer(buffer) matches Ok(Some(_)),
        is_fixnum_word(position.0),
    ensures
        ({
            let b = before.resolve_buffer(buffer)->Ok_0->0;
            let m = before.marker_of(marker)->0;
            let c = clip(1, fixnum_value(position.0), before.buffers@[b as int].z as int);
            &&& r == Ok::<LispObject, LispError>(marker)
            &&& after.markers@[m].buffer == Some(b)
            &&& after.markers@[m].charpos == c
            &&& after.markers@[m].bytepos == char_to_byte(&before.buffers@[b as int], c)
        }),
{
    let b = before.resolve_buffer(buffer)->Ok_0->0;
    let bb = &before.buffers@[b as int];
    let w = position.0;
    assert(w != 0) by (bit_vector)
        requires
            ((w as u64) & 7) == 2 || ((w as u64) & 7) == 6,
    ;
    assert(before.buffer_ok(b as int));
    let c = clip(1, fixnum_value(position.0), bb.z as int);
    lemma_char_to_byte_grows(bb, 1, bb.z as int);
    lemma_known_bounds(bb, c, char_to_byte(bb, c));
}

} // verus!
