//! Secure hashes of strings and buffers: MD5, SHA-1 and the SHA-2 family,
//! as raw digests or as lower-case hexadecimal text.
use vstd::prelude::*;

use sha2::Digest;

use crate::error::{ErrorMessage, LispError, TypePredicate};
use crate::heap::LispHeap;
use crate::buffers::{first_match, nsberror, nsberror_spec, BufferKey};
use crate::marker::Buffers;
use crate::tag::LispObject;

verus! {

/// The hash algorithms.
#[derive(PartialEq, Eq, Structural, Clone, Copy, Debug)]
pub enum HashAlg {
    HashMD5,
    HashSHA1,
    HashSHA224,
    HashSHA256,
    HashSHA384,
    HashSHA512,
}

/// Digest lengths in bytes.
pub const MD5_DIGEST_LEN: usize = 16;

pub const SHA1_DIGEST_LEN: usize = 20;

pub const SHA224_DIGEST_LEN: usize = 28;

pub const SHA256_DIGEST_LEN: usize = 32;

pub const SHA384_DIGEST_LEN: usize = 48;

pub const SHA512_DIGEST_LEN: usize = 64;

/// The ASCII code of the lower-case hexadecimal digit of `n` (0 to 15).
pub open spec fn hex_digit(n: int) -> u8 {
    if n < 10 {
        (48 + n) as u8
    } else {
        (87 + n) as u8
    }
}

/// Lower-case hexadecimal text of the bytes `d`: two digits per byte, the
/// high nibble first.
pub open spec fn hex_bytes(d: Seq<u8>) -> Seq<u8> {
    Seq::new(
        2 * d.len(),
        |j: int|
            if j % 2 == 0 {
                hex_digit(d[j / 2] as int / 16)
            } else {
                hex_digit(d[j / 2] as int % 16)
            },
    )
}

/// Rewrites the first LEN bytes of BUFFER in place as their lower-case
/// hexadecimal text, which fills the first `2 * LEN` bytes.
pub fn make_digest_string(buffer: &mut Vec<u8>, len: usize)
    requires
        2 * len <= old(buffer)@.len(),
    ensures
        final(buffer)@.len() == old(buffer)@.len(),
        final(buffer)@.subrange(0, 2 * len as int) == hex_bytes(old(buffer)@.subrange(0, len as int)),
        final(buffer)@.subrange(2 * len as int, old(buffer)@.len() as int) == old(buffer)@.subrange(
            2 * len as int,
            old(buffer)@.len() as int,
        ),
{
    let hexdigit: [u8; 16] = [48, 49, 50, 51, 52, 53, 54, 55, 56, 57, 97, 98, 99, 100, 101, 102];
    let ghost old_buf = buffer@;
    let n = buffer.len();
    let mut i = len;
    while i > 0
        invariant
            i <= len,
            2 * len <= old_buf.len(),
            old_buf.len() == n,
            buffer@.len() == old_buf.len(),
            hexdigit@ == seq![48u8, 49, 50, 51, 52, 53, 54, 55, 56, 57, 97, 98, 99, 100, 101, 102],
            forall|j: int| 0 <= j < 2 * i ==> #[trigger] buffer@[j] == old_buf[j],
            forall|j: int| 2 * len <= j < old_buf.len() ==> #[trigger] buffer@[j] == old_buf[j],
            forall|j: int|
                2 * i <= j < 2 * len ==> #[trigger] buffer@[j] == hex_bytes(old_buf.subrange(0, len as int))[j],
        decreases i,
    {
        i = i - 1;
        let v = buffer[i];
        let hi = v >> 4u8;
        let lo = v & 0xf;
        assert(hi == v / 16 && lo == v % 16) by (bit_vector)
            requires
                hi == v >> 4u8,
                lo == v & 0xf,
        ;
        buffer.set(2 * i, hexdigit[hi as usize]);
        buffer.set(2 * i + 1, hexdigit[lo as usize]);
        proof {
            let hb = hex_bytes(old_buf.subrange(0, len as int));
            assert(v == old_buf[i as int]);
            assert(hb[2 * i as int] == hex_digit(v as int / 16));
            assert(hb[2 * i as int + 1] == hex_digit(v as int % 16));
        }
    }
    proof {
        assert(buffer@.subrange(0, 2 * len as int) =~= hex_bytes(old_buf.subrange(0, len as int)));
        assert(buffer@.subrange(2 * len as int, old_buf.len() as int) =~= old_buf.subrange(
            2 * len as int,
            old_buf.len() as int,
        ));
    }
}

/// The MD5 digest of the bytes (16 bytes), as `md5::compute` gives it.
pub uninterp spec fn md5_digest(input: Seq<u8>) -> Seq<u8>;

/// The SHA-1 digest of the bytes (20 bytes), as `sha1::Sha1` gives it.
pub uninterp spec fn sha1_digest(input: Seq<u8>) -> Seq<u8>;

/// The SHA-224 digest of the bytes (28 bytes), as `sha2::Sha224` gives it.
pub uninterp spec fn sha224_digest(input: Seq<u8>) -> Seq<u8>;

/// The SHA-256 digest of the bytes (32 bytes), as `sha2::Sha256` gives it.
pub uninterp spec fn sha256_digest(input: Seq<u8>) -> Seq<u8>;

/// The SHA-384 digest of the bytes (48 bytes), as `sha2::Sha384` gives it.
pub uninterp spec fn sha384_digest(input: Seq<u8>) -> Seq<u8>;

/// The SHA-512 digest of the bytes (64 bytes), as `sha2::Sha512` gives it.
pub uninterp spec fn sha512_digest(input: Seq<u8>) -> Seq<u8>;

/// The digest of `input` under `alg`.
pub open spec fn digest_of(alg: HashAlg, input: Seq<u8>) -> Seq<u8> {
    match alg {
        HashAlg::HashMD5 => md5_digest(input),
        HashAlg::HashSHA1 => sha1_digest(input),
        HashAlg::HashSHA224 => sha224_digest(input),
        HashAlg::HashSHA256 => sha256_digest(input),
        HashAlg::HashSHA384 => sha384_digest(input),
        HashAlg::HashSHA512 => sha512_digest(input),
    }
}

/// The digest length of `alg` in bytes.
pub open spec fn digest_len(alg: HashAlg) -> nat {
    match alg {
        HashAlg::HashMD5 => 16,
        HashAlg::HashSHA1 => 20,
        HashAlg::HashSHA224 => 28,
        HashAlg::HashSHA256 => 32,
        HashAlg::HashSHA384 => 48,
        HashAlg::HashSHA512 => 64,
    }
}

/// `md5::compute`: the 16-byte MD5 digest of the input.
#[verifier::external_body]
fn md5_buffer(input: &[u8]) -> (r: Vec<u8>)
    ensures
        r@ == md5_digest(input@),
        r@.len() == 16,
{
    md5::compute(input).0.to_vec()
}

/// `sha1::Sha1`: a fresh hasher fed the input once; `digest().bytes()`
/// gives the 20-byte SHA-1 digest.
#[verifier::external_body]
fn sha1_buffer(input: &[u8]) -> (r: Vec<u8>)
    ensures
        r@ == sha1_digest(input@),
        r@.len() == 20,
{
    let mut hasher = sha1::Sha1::new();
    hasher.update(input);
    hasher.digest().bytes().to_vec()
}

/// `sha1::Sha1`: a fresh hasher fed the input once; the `Display` of its
/// digest writes each of the five state words as eight lower-case hex
/// digits, which is the hex text of the 20 bytes that `bytes()` gives:
/// 40 characters.
#[verifier::external_body]
fn sha1_hex_buffer(input: &[u8]) -> (r: Vec<u8>)
    ensures
        r@ == hex_bytes(sha1_digest(input@)),
        r@.len() == 40,
{
    let mut hasher = sha1::Sha1::new();
    hasher.update(input);
    hasher.digest().to_string().into_bytes()
}

/// `sha2::Sha224` through the `Digest` trait: `input`, then `result`.
#[verifier::external_body]
fn sha224_buffer(input: &[u8]) -> (r: Vec<u8>)
    ensures
        r@ == sha224_digest(input@),
        r@.len() == 28,
{
    let mut hasher = sha2::Sha224::new();
    hasher.input(input);
    hasher.result().to_vec()
}

/// `sha2::Sha256` through the `Digest` trait: `input`, then `result`.
#[verifier::external_body]
fn sha256_buffer(input: &[u8]) -> (r: Vec<u8>)
    ensures
        r@ == sha256_digest(input@),
        r@.len() == 32,
{
    let mut hasher = sha2::Sha256::new();
    hasher.input(input);
    hasher.result().to_vec()
}

/// `sha2::Sha384` through the `Digest` trait: `input`, then `result`.
#[verifier::external_body]
fn sha384_buffer(input: &[u8]) -> (r: Vec<u8>)
    ensures
        r@ == sha384_digest(input@),
        r@.len() == 48,
{
    let mut hasher = sha2::Sha384::new();
    hasher.input(input);
    hasher.result().to_vec()
}

/// `sha2::Sha512` through the `Digest` trait: `input`, then `result`.
#[verifier::external_body]
fn sha512_buffer(input: &[u8]) -> (r: Vec<u8>)
    ensures
        r@ == sha512_digest(input@),
        r@.len() == 64,
{
    let mut hasher = sha2::Sha512::new();
    hasher.input(input);
    hasher.result().to_vec()
}

/// The digest of INPUT under ALGORITHM: raw, or as lower-case hex text
/// when HEX.
pub fn _secure_hash(algorithm: HashAlg, input: &[u8], hex: bool) -> (r: Vec<u8>)
    ensures
        r@ == (if hex {
            hex_bytes(digest_of(algorithm, input@))
        } else {
            digest_of(algorithm, input@)
        }),
{
    let (digest_size, raw) = match algorithm {
        HashAlg::HashMD5 => (MD5_DIGEST_LEN, md5_buffer(input)),
        HashAlg::HashSHA1 => (SHA1_DIGEST_LEN, sha1_buffer(input)),
        HashAlg::HashSHA224 => (SHA224_DIGEST_LEN, sha224_buffer(input)),
        HashAlg::HashSHA256 => (SHA256_DIGEST_LEN, sha256_buffer(input)),
        HashAlg::HashSHA384 => (SHA384_DIGEST_LEN, sha384_buffer(input)),
        HashAlg::HashSHA512 => (SHA512_DIGEST_LEN, sha512_buffer(input)),
    };
    let buffer_size = if hex {
        digest_size * 2
    } else {
        digest_size
    };
    let mut digest: Vec<u8> = Vec::new();
    let mut k: usize = 0;
    while k < buffer_size
        invariant
            k <= buffer_size,
            buffer_size <= 128,
            raw@.len() == digest_size,
            digest_size <= buffer_size,
            digest@.len() == k,
            forall|j: int| 0 <= j < k && j < digest_size ==> #[trigger] digest@[j] == raw@[j],
        decreases buffer_size - k,
    {
        if k < digest_size {
            digest.push(raw[k]);
        } else {
            digest.push(0);
        }
        k = k + 1;
    }
    proof {
        assert(digest@.subrange(0, digest_size as int) =~= raw@);
    }
    if hex {
        make_digest_string(&mut digest, digest_size);
        proof {
            assert(digest@ =~= digest@.subrange(0, 2 * digest_size as int));
        }
    } else {
        proof {
            assert(digest@ =~= raw@);
        }
    }
    digest
}

/// The symbols that name the hash algorithms.
pub struct HashSymbols {
    pub md5: LispObject,
    pub sha1: LispObject,
    pub sha224: LispObject,
    pub sha256: LispObject,
    pub sha384: LispObject,
    pub sha512: LispObject,
}

/// The algorithm that the symbol `a` names, if any.
pub open spec fn named_alg(syms: &HashSymbols, a: LispObject) -> Option<HashAlg> {
    if a == syms.md5 {
        Some(HashAlg::HashMD5)
    } else if a == syms.sha1 {
        Some(HashAlg::HashSHA1)
    } else if a == syms.sha224 {
        Some(HashAlg::HashSHA224)
    } else if a == syms.sha256 {
        Some(HashAlg::HashSHA256)
    } else if a == syms.sha384 {
        Some(HashAlg::HashSHA384)
    } else if a == syms.sha512 {
        Some(HashAlg::HashSHA512)
    } else {
        None
    }
}

/// The algorithm that the symbol ALGORITHM names: `wrong-type-argument
/// symbolp` for a non-symbol, an `Invalid algorithm arg` error naming a
/// symbol that names none.
pub fn hash_alg(syms: &HashSymbols, algorithm: LispObject) -> (r: Result<HashAlg, LispError>)
    ensures
        r == hash_alg_spec(syms, algorithm),
{
    if !algorithm.is_symbol() {
        return Err(LispError::WrongType(TypePredicate::Symbolp, algorithm));
    }
    if algorithm.eq(syms.md5) {
        Ok(HashAlg::HashMD5)
    } else if algorithm.eq(syms.sha1) {
        Ok(HashAlg::HashSHA1)
    } else if algorithm.eq(syms.sha224) {
        Ok(HashAlg::HashSHA224)
    } else if algorithm.eq(syms.sha256) {
        Ok(HashAlg::HashSHA256)
    } else if algorithm.eq(syms.sha384) {
        Ok(HashAlg::HashSHA384)
    } else if algorithm.eq(syms.sha512) {
        Ok(HashAlg::HashSHA512)
    } else {
        Err(LispError::ErrorWith(ErrorMessage::InvalidAlgorithm, algorithm, LispObject::constant_nil()))
    }
}

/// The bytes of the string OBJECT, or `wrong-type-argument stringp`.
fn string_input(h: &LispHeap, object: LispObject) -> (r: Result<Vec<u8>, LispError>)
    requires
        h.wf(),
    ensures
        h.is_string(object) ==> (r matches Ok(v) && v@ == h.string_bytes_of(object)),
        !h.is_string(object) ==> r == Err::<Vec<u8>, LispError>(LispError::WrongType(TypePredicate::Stringp, object)),
{
    if !h.is_string_obj(object) {
        return Err(LispError::WrongType(TypePredicate::Stringp, object));
    }
    let n = h.string_len_bytes(object);
    let mut v: Vec<u8> = Vec::new();
    let mut k: usize = 0;
    while k < n
        invariant
            h.wf(),
            h.is_string(object),
            n == h.string_bytes_of(object).len(),
            k <= n,
            v@ == h.string_bytes_of(object).subrange(0, k as int),
        decreases n - k,
    {
        v.push(h.string_byte_at(object, k));
        k = k + 1;
        proof {
            assert(v@ =~= h.string_bytes_of(object).subrange(0, k as int));
        }
    }
    proof {
        assert(v@ =~= h.string_bytes_of(object));
    }
    Ok(v)
}

/// What a hash reads of OBJECT: the bytes of a string, or the accessible
/// text of a buffer; `None` for anything else.
pub open spec fn hash_input(h: &LispHeap, w: &Buffers, object: LispObject) -> Option<Seq<u8>> {
    if h.is_string(object) {
        Some(h.string_bytes_of(object))
    } else {
        match w.buffer_of(object) {
            Some(b) => {
                let buf = w.buffers@[b];
                Some(buf.text@.subrange(buf.begv_byte - 1, buf.zv_byte - 1))
            },
            None => None,
        }
    }
}

/// The bytes that a hash of OBJECT reads (see `hash_input`), or
/// `wrong-type-argument stringp`.
fn object_input(h: &LispHeap, w: &Buffers, object: LispObject) -> (r: Result<Vec<u8>, LispError>)
    requires
        h.wf(),
        w.wf(),
    ensures
        match hash_input(h, w, object) {
            Some(bytes) => r matches Ok(v) && v@ == bytes,
            None => r == Err::<Vec<u8>, LispError>(LispError::WrongType(TypePredicate::Stringp, object)),
        },
{
    if h.is_string_obj(object) {
        return string_input(h, object);
    }
    let b = match w.as_buffer(object) {
        Some(b) => b,
        None => {
            return Err(LispError::WrongType(TypePredicate::Stringp, object));
        },
    };
    let buf = &w.buffers[b];
    proof {
        assert(w.buffer_ok(b as int));
    }
    let start = (buf.begv_byte - 1) as usize;
    let end = (buf.zv_byte - 1) as usize;
    let mut v: Vec<u8> = Vec::new();
    let mut k: usize = start;
    while k < end
        invariant
            buf.wf(),
            start == buf.begv_byte - 1,
            end == buf.zv_byte - 1,
            start <= k <= end,
            v@ == buf.text@.subrange(start as int, k as int),
        decreases end - k,
    {
        v.push(buf.text[k]);
        k = k + 1;
        proof {
            assert(v@ =~= buf.text@.subrange(start as int, k as int));
        }
    }
    Ok(v)
}

/// The secure hash of OBJECT (a string, or the accessible text of a buffer)
/// under the algorithm that the symbol ALGORITHM names: raw when BINARY is
/// non-nil, else as lower-case hex text.
pub fn secure_hash(
    h: &LispHeap,
    w: &Buffers,
    syms: &HashSymbols,
    algorithm: LispObject,
    object: LispObject,
    binary: LispObject,
) -> (r: Result<Vec<u8>, LispError>)
    requires
        h.wf(),
        w.wf(),
    ensures
        match hash_input(h, w, object) {
            None => r == Err::<Vec<u8>, LispError>(LispError::WrongType(TypePredicate::Stringp, object)),
            Some(bytes) => match hash_alg_spec(syms, algorithm) {
                Err(e) => r == Err::<Vec<u8>, LispError>(e),
                Ok(a) => (r matches Ok(v) && v@ == (if binary == LispObject(0) {
                    hex_bytes(digest_of(a, bytes))
                } else {
                    digest_of(a, bytes)
                })),
            },
        },
{
    let input = match object_input(h, w, object) {
        Ok(v) => v,
        Err(e) => {
            return Err(e);
        },
    };
    let alg = match hash_alg(syms, algorithm) {
        Ok(a) => a,
        Err(e) => {
            return Err(e);
        },
    };
    Ok(_secure_hash(alg, input.as_slice(), binary.is_nil()))
}

/// What `hash_alg` gives for the symbol `a`.
pub open spec fn hash_alg_spec(syms: &HashSymbols, a: LispObject) -> Result<HashAlg, LispError> {
    if crate::tag::word_tag(a.0) != 0 {
        Err(LispError::WrongType(TypePredicate::Symbolp, a))
    } else {
        match named_alg(syms, a) {
            Some(x) => Ok(x),
            None => Err(LispError::ErrorWith(ErrorMessage::InvalidAlgorithm, a, LispObject(0))),
        }
    }
}

/// The MD5 hash of OBJECT, a string or a buffer, as lower-case hex text.
pub fn md5(h: &LispHeap, w: &Buffers, object: LispObject) -> (r: Result<Vec<u8>, LispError>)
    requires
        h.wf(),
        w.wf(),
    ensures
        match hash_input(h, w, object) {
            None => r == Err::<Vec<u8>, LispError>(LispError::WrongType(TypePredicate::Stringp, object)),
            Some(bytes) => r matches Ok(v) && v@ == hex_bytes(md5_digest(bytes)),
        },
{
    let input = match object_input(h, w, object) {
        Ok(v) => v,
        Err(e) => {
            return Err(e);
        },
    };
    Ok(_secure_hash(HashAlg::HashMD5, input.as_slice(), true))
}

/// The SHA-1 hash, as lower-case hex text, of the text of a buffer whose
/// gap splits it into BEFORE_GAP and AFTER_GAP.
pub fn text_hash(before_gap: &[u8], after_gap: &[u8]) -> (r: Vec<u8>)
    requires
        before_gap@.len() + after_gap@.len() <= usize::MAX,
    ensures
        r@ == hex_bytes(sha1_digest(before_gap@ + after_gap@)),
        r@.len() == 40,
{
    let mut text: Vec<u8> = Vec::new();
    let mut k: usize = 0;
    while k < before_gap.len()
        invariant
            k <= before_gap@.len(),
            text@ == before_gap@.subrange(0, k as int),
        decreases before_gap@.len() - k,
    {
        text.push(before_gap[k]);
        k = k + 1;
        proof {
            assert(text@ =~= before_gap@.subrange(0, k as int));
        }
    }
    let mut k: usize = 0;
    while k < after_gap.len()
        invariant
            k <= after_gap@.len(),
            text@ == before_gap@ + after_gap@.subrange(0, k as int),
        decreases after_gap@.len() - k,
    {
        text.push(after_gap[k]);
        k = k + 1;
        proof {
            assert(text@ =~= before_gap@ + after_gap@.subrange(0, k as int));
        }
    }
    proof {
        assert(before_gap@.subrange(0, before_gap@.len() as int) =~= before_gap@);
        assert(after_gap@.subrange(0, after_gap@.len() as int) =~= after_gap@);
    }
    sha1_hex_buffer(text.as_slice())
}


/// The buffer that `buffer-hash` hashes for BUFFER_OR_NAME: the current
/// buffer for `nil`, a buffer itself, or the live buffer with that name;
/// a name of no buffer is the `No buffer named` error, anything else
/// `wrong-type-argument stringp`.
pub open spec fn hashed_buffer(w: &Buffers, h: &LispHeap, buffer_or_name: LispObject) -> Result<int, LispError> {
    if buffer_or_name.0 == 0 {
        Ok(w.current as int)
    } else if w.buffer_of(buffer_or_name) is Some {
        Ok(w.buffer_of(buffer_or_name)->0)
    } else if !h.is_string(buffer_or_name) {
        Err(LispError::WrongType(TypePredicate::Stringp, buffer_or_name))
    } else {
        match first_match(w, h, BufferKey::Name, buffer_or_name) {
            Some(i) => Ok(i),
            None => Err(nsberror_spec(h, buffer_or_name)),
        }
    }
}

/// The SHA-1 hash, as 40 characters of lower-case hex text, of the whole
/// text of the buffer BUFFER_OR_NAME (see `hashed_buffer`), as it is
/// held internally, whatever the coding systems.
pub fn buffer_hash(w: &Buffers, h: &LispHeap, buffer_or_name: LispObject) -> (r: Result<Vec<u8>, LispError>)
    requires
        w.wf(),
        h.wf(),
    ensures
        match hashed_buffer(w, h, buffer_or_name) {
            Ok(b) => r matches Ok(v) && v@ == hex_bytes(sha1_digest(w.buffers@[b].text@)) && v@.len() == 40,
            Err(e) => r == Err::<Vec<u8>, LispError>(e),
        },
{
    let b: usize = if buffer_or_name.is_nil() {
        w.current
    } else {
        match w.as_buffer(buffer_or_name) {
            Some(b) => b,
            None => {
                if !h.is_string_obj(buffer_or_name) {
                    return Err(LispError::WrongType(TypePredicate::Stringp, buffer_or_name));
                }
                match w.find_live_buffer(h, BufferKey::Name, buffer_or_name) {
                    Some(i) => i,
                    None => {
                        return Err(nsberror(h, buffer_or_name));
                    },
                }
            },
        }
    };
    let empty: Vec<u8> = Vec::new();
    let text = &w.buffers[b].text;
    let ts = text.as_slice();
    let es = empty.as_slice();
    assert(es@.len() == 0);
    assert(ts@ == text@);
    assert(w.buffer_ok(b as int));
    let r = text_hash(ts, es);
    proof {
        assert(text@ + empty@ =~= text@);
    }
    Ok(r)
}

} // verus!
