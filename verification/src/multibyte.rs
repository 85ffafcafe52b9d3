//! The multibyte text of a buffer: where its characters start.
//!
//! A character is a head byte followed by continuation bytes; the head
//! says how many bytes the character takes.  Byte position `p` holds the
//! byte at index `p - 1` of the text, and character `k` (from 0) starts
//! at byte position `char_start(text, k)`.
use vstd::prelude::*;

use crate::heap::LispHeap;
use crate::tag::LispObject;

verus! {

/// Whether the byte starts a character (it is not a continuation byte
/// `10xxxxxx`).
pub open spec fn is_char_head(b: u8) -> bool {
    b & 0xC0 != 0x80
}

/// The length of the character whose head byte is `b`.
pub open spec fn bytes_by_char_head(b: u8) -> int {
    if b & 0x80 == 0 {
        1
    } else if b & 0x20 == 0 {
        2
    } else if b & 0x10 == 0 {
        3
    } else if b & 0x08 == 0 {
        4
    } else {
        5
    }
}

/// The byte position where character `k` of the text starts (one past
/// the text for `k` equal to the number of characters).
pub open spec fn char_start(text: Seq<u8>, k: nat) -> int
    decreases k,
{
    if k == 0 {
        1
    } else {
        let p = char_start(text, (k - 1) as nat);
        p + if 1 <= p <= text.len() {
            bytes_by_char_head(text[p - 1])
        } else {
            1
        }
    }
}

/// The text holds `n` well-formed characters: they fill it exactly, each
/// starts with a head byte, and the bytes inside a character are
/// continuation bytes.
pub open spec fn valid_multibyte(text: Seq<u8>, n: nat) -> bool {
    &&& char_start(text, n) == text.len() + 1
    &&& forall|k: nat| k < n ==> is_char_head(text[#[trigger] char_start(text, k) - 1])
    &&& forall|k: nat, p: int|
        #![trigger char_start(text, k), text[p - 1]]
        k < n && char_start(text, k) < p < char_start(text, k + 1) ==> !is_char_head(text[p - 1])
}

/// The length of the character with head byte `b`.
pub fn char_bytes(b: u8) -> (n: usize)
    ensures
        n == bytes_by_char_head(b),
        1 <= n <= 5,
{
    if b & 0x80 == 0 {
        1
    } else if b & 0x20 == 0 {
        2
    } else if b & 0x10 == 0 {
        3
    } else if b & 0x08 == 0 {
        4
    } else {
        5
    }
}

/// Whether the byte starts a character.
pub fn char_head_p(b: u8) -> (r: bool)
    ensures
        r == is_char_head(b),
{
    b & 0xC0 != 0x80
}

/// Characters take at least a byte each: from character `i` to
/// character `j` there are at least `j - i` bytes.
pub proof fn lemma_char_start_grows(text: Seq<u8>, i: nat, j: nat)
    requires
        i <= j,
    ensures
        char_start(text, j) - char_start(text, i) >= j - i,
    decreases j,
{
    if j > i {
        lemma_char_start_grows(text, i, (j - 1) as nat);
        let p = char_start(text, (j - 1) as nat);
        if 1 <= p <= text.len() {
            let b = text[p - 1];
            assert(bytes_by_char_head(b) >= 1);
        }
    }
}

/// Where characters `a` to `b` take one byte each, character `c` between
/// them starts `c - a` bytes after character `a`.
pub proof fn lemma_single_byte_run(text: Seq<u8>, a: nat, b: nat, c: nat)
    requires
        a <= c <= b,
        char_start(text, b) - char_start(text, a) == b - a,
    ensures
        char_start(text, c) == char_start(text, a) + (c - a),
{
    lemma_char_start_grows(text, a, c);
    lemma_char_start_grows(text, c, b);
}

/// Character starts are strictly increasing, so a start determines its
/// character.
pub proof fn lemma_char_start_unique(text: Seq<u8>, i: nat, j: nat)
    requires
        char_start(text, i) == char_start(text, j),
    ensures
        i == j,
{
    if i < j {
        lemma_char_start_grows(text, (i + 1) as nat, j);
        lemma_char_start_grows(text, i, (i + 1) as nat);
    } else if j < i {
        lemma_char_start_grows(text, (j + 1) as nat, i);
        lemma_char_start_grows(text, j, (j + 1) as nat);
    }
}

/// Every character of a valid text starts inside it.
pub proof fn lemma_char_inside(text: Seq<u8>, n: nat, k: nat)
    requires
        valid_multibyte(text, n),
        k < n,
    ensures
        1 <= char_start(text, k) <= text.len(),
        char_start(text, k + 1) == char_start(text, k) + bytes_by_char_head(text[char_start(text, k) - 1]),
{
    lemma_char_start_grows(text, 0, k);
    lemma_char_start_grows(text, (k + 1) as nat, n);
    lemma_char_start_grows(text, k, (k + 1) as nat);
}

/// In a valid text, the last head byte before the start of character
/// `k` is the start of character `k - 1`.
pub proof fn lemma_prev_head(text: Seq<u8>, n: nat, k: nat, r: int)
    requires
        valid_multibyte(text, n),
        1 <= k <= n,
        1 <= r < char_start(text, k),
        is_char_head(text[r - 1]),
        forall|p: int| r < p < char_start(text, k) ==> !is_char_head(#[trigger] text[p - 1]),
    ensures
        r == char_start(text, (k - 1) as nat),
{
    let km = (k - 1) as nat;
    lemma_char_inside(text, n, km);
    assert(is_char_head(text[char_start(text, km) - 1]));
    if r < char_start(text, km) {
        assert(!is_char_head(text[char_start(text, km) - 1]));
    } else if r > char_start(text, km) {
        assert(!is_char_head(text[r - 1]));
    }
}


/// The byte at index `i` of the text, or 0 past its end.
pub open spec fn byte_or_zero(text: Seq<u8>, i: int) -> u8 {
    if 0 <= i < text.len() {
        text[i]
    } else {
        0
    }
}

/// The code of the character whose head byte is at index `i`: the
/// payload bits of its bytes, high first; a two-byte character with head
/// `0xC0` or `0xC1` stands for a raw byte, from `0x3FFF80` on.
pub open spec fn decode_char(text: Seq<u8>, i: int) -> int {
    let b0 = byte_or_zero(text, i);
    let b1 = (byte_or_zero(text, i + 1) & 0x3F) as int;
    let b2 = (byte_or_zero(text, i + 2) & 0x3F) as int;
    let b3 = (byte_or_zero(text, i + 3) & 0x3F) as int;
    let b4 = (byte_or_zero(text, i + 4) & 0x3F) as int;
    if b0 & 0x80 == 0 {
        b0 as int
    } else if b0 & 0x20 == 0 {
        ((b0 & 0x1F) as int) * 64 + b1 + if b0 < 0xC2 {
            0x3FFF80int
        } else {
            0int
        }
    } else if b0 & 0x10 == 0 {
        ((b0 & 0x0F) as int) * 4096 + b1 * 64 + b2
    } else if b0 & 0x08 == 0 {
        ((b0 & 0x07) as int) * 262144 + b1 * 4096 + b2 * 64 + b3
    } else {
        b1 * 262144 + b2 * 4096 + b3 * 64 + b4
    }
}

/// The payload bits that masks keep from a byte.
pub(crate) proof fn lemma_mask_bounds(x: u8)
    ensures
        x & 0x3F <= 0x3F,
        x & 0x1F <= 0x1F,
        x & 0x0F <= 0x0F,
        x & 0x07 <= 0x07,
        x == 0 ==> x & 0x80 == 0,
{
    assert(x & 0x3F <= 0x3F && x & 0x1F <= 0x1F && x & 0x0F <= 0x0F && x & 0x07 <= 0x07 && (x == 0 ==> x & 0x80
        == 0)) by (bit_vector);
}

/// The byte K places after index I of the string S, or 0 past its end.
fn string_byte_or_zero(h: &LispHeap, s: LispObject, i: usize, k: usize) -> (b: u8)
    requires
        h.wf(),
        h.is_string(s),
        i < h.string_bytes_of(s).len(),
    ensures
        b == byte_or_zero(h.string_bytes_of(s), i + k),
{
    if k < h.string_len_bytes(s) - i {
        h.string_byte_at(s, i + k)
    } else {
        0
    }
}

/// The code of the character of the multibyte string S whose head byte
/// is at index I.
pub fn string_char_at(h: &LispHeap, s: LispObject, i: usize) -> (c: i64)
    requires
        h.wf(),
        h.is_string(s),
        i < h.string_bytes_of(s).len(),
    ensures
        c == decode_char(h.string_bytes_of(s), i as int),
        0 <= c < 0x100_0000,
{
    let b0 = h.string_byte_at(s, i);
    let b1 = (string_byte_or_zero(h, s, i, 1) & 0x3F) as i64;
    let b2 = (string_byte_or_zero(h, s, i, 2) & 0x3F) as i64;
    let b3 = (string_byte_or_zero(h, s, i, 3) & 0x3F) as i64;
    let b4 = (string_byte_or_zero(h, s, i, 4) & 0x3F) as i64;
    proof {
        assert(b0 == byte_or_zero(h.string_bytes_of(s), i as int));
        lemma_mask_bounds(b0);
        lemma_mask_bounds(byte_or_zero(h.string_bytes_of(s), i + 1));
        lemma_mask_bounds(byte_or_zero(h.string_bytes_of(s), i + 2));
        lemma_mask_bounds(byte_or_zero(h.string_bytes_of(s), i + 3));
        lemma_mask_bounds(byte_or_zero(h.string_bytes_of(s), i + 4));
    }
    if b0 & 0x80 == 0 {
        b0 as i64
    } else if b0 & 0x20 == 0 {
        let raw: i64 = if b0 < 0xC2 {
            0x3FFF80
        } else {
            0
        };
        ((b0 & 0x1F) as i64) * 64 + b1 + raw
    } else if b0 & 0x10 == 0 {
        ((b0 & 0x0F) as i64) * 4096 + b1 * 64 + b2
    } else if b0 & 0x08 == 0 {
        ((b0 & 0x07) as i64) * 262144 + b1 * 4096 + b2 * 64 + b3
    } else {
        b1 * 262144 + b2 * 4096 + b3 * 64 + b4
    }
}

} // verus!
