use remacs::crypto::{
    _secure_hash, buffer_hash, hash_alg, text_hash, make_digest_string, md5, secure_hash, HashAlg, HashSymbols,
};
use remacs::editfns::LispBuffer;
use remacs::error::{ErrorMessage, LispError, TypePredicate};
use remacs::heap::LispHeap;
use remacs::marker::Buffers;
use remacs::tag::LispObject;

fn syms() -> HashSymbols {
    HashSymbols {
        md5: LispObject(80),
        sha1: LispObject(88),
        sha224: LispObject(96),
        sha256: LispObject(104),
        sha384: LispObject(112),
        sha512: LispObject(120),
    }
}

/// One buffer holding "xabcx", narrowed to "abc".
fn world() -> Buffers {
    let b = LispBuffer {
        pt: 2,
        pt_byte: 2,
        begv: 2,
        begv_byte: 2,
        zv: 5,
        zv_byte: 5,
        z: 6,
        z_byte: 6,
        text: b"xabcx".to_vec(),
        mark: None,
        mark_active: false,
        gpt: 6,
        gpt_byte: 6,
        modiff: 1,
        is_cached: false,
        cached_modiff: 0,
        cached_charpos: 1,
        cached_bytepos: 1,
        markers: Vec::new(),
        name: LispObject(0x104),
        filename: LispObject::constant_nil(),
        save_modiff: 1,
        chars_modiff: 1,
        truename: LispObject::constant_nil(),
        position_markers: None,
    };
    Buffers { buffers: vec![b], markers: Vec::new(), current: 0 }
}

fn text(v: Vec<u8>) -> String {
    String::from_utf8(v).unwrap()
}

#[test]
fn digest_string_expands_in_place() {
    let mut buf = vec![0x01, 0xab, 0xff, 0, 0, 0, 9];
    make_digest_string(&mut buf, 3);
    assert_eq!(&buf[..6], b"01abff");
    assert_eq!(buf[6], 9);
}

#[test]
fn known_digests_of_abc() {
    let abc = b"abc";
    assert_eq!(text(_secure_hash(HashAlg::HashMD5, abc, true)), "900150983cd24fb0d6963f7d28e17f72");
    assert_eq!(text(_secure_hash(HashAlg::HashSHA1, abc, true)), "a9993e364706816aba3e25717850c26c9cd0d89d");
    assert_eq!(
        text(_secure_hash(HashAlg::HashSHA224, abc, true)),
        "23097d223405d8228642a477bda255b32aadbce4bda0b3f7e36c9da7"
    );
    assert_eq!(
        text(_secure_hash(HashAlg::HashSHA256, abc, true)),
        "ba7816bf8f01cfea414140de5dae2223b00361a396177a9cb410ff61f20015ad"
    );
    assert_eq!(
        text(_secure_hash(HashAlg::HashSHA384, abc, true)),
        "cb00753f45a35e8bb5a03d699ac65007272c32ab0eded1631a8b605a43ff5bed8086072ba1e7cc2358baeca134c825a7"
    );
    assert_eq!(
        text(_secure_hash(HashAlg::HashSHA512, abc, true)),
        "ddaf35a193617abacc417349ae20413112e6fa4e89a97ea20a9eeee64b55d39a2192992a274fc1a836ba3c23a3feebbd454d4423643ce80e2a9ac94fa54ca49f"
    );
}

#[test]
fn raw_digest_lengths() {
    assert_eq!(_secure_hash(HashAlg::HashMD5, b"", false).len(), 16);
    assert_eq!(_secure_hash(HashAlg::HashSHA1, b"", false).len(), 20);
    assert_eq!(_secure_hash(HashAlg::HashSHA512, b"", false).len(), 64);
    assert_eq!(_secure_hash(HashAlg::HashMD5, b"abc", false)[0], 0x90);
}

#[test]
fn algorithm_symbols() {
    let s = syms();
    assert_eq!(hash_alg(&s, LispObject(88)), Ok(HashAlg::HashSHA1));
    assert_eq!(hash_alg(&s, LispObject(200)), Err(LispError::ErrorWith(ErrorMessage::InvalidAlgorithm, LispObject(200), LispObject::constant_nil())));
    let not_sym = LispObject::from_fixnum(3);
    assert_eq!(hash_alg(&s, not_sym), Err(LispError::WrongType(TypePredicate::Symbolp, not_sym)));
}

#[test]
fn hashes_of_lisp_strings() {
    let mut h = LispHeap::new();
    let s = h.make_string(b"abc".to_vec(), 3);
    let w = world();
    assert_eq!(text(md5(&h, &w, s).unwrap()), "900150983cd24fb0d6963f7d28e17f72");
    assert_eq!(
        text(secure_hash(&h, &w, &syms(), LispObject(104), s, LispObject::constant_nil()).unwrap()),
        "ba7816bf8f01cfea414140de5dae2223b00361a396177a9cb410ff61f20015ad"
    );
    assert_eq!(secure_hash(&h, &w, &syms(), LispObject(88), s, LispObject::constant_t()).unwrap().len(), 20);
    let n = LispObject::from_fixnum(1);
    assert_eq!(md5(&h, &w, n), Err(LispError::WrongType(TypePredicate::Stringp, n)));
}

#[test]
fn buffer_hash_ignores_the_gap() {
    assert_eq!(text(text_hash(b"a", b"bc")), "a9993e364706816aba3e25717850c26c9cd0d89d");
    assert_eq!(text(text_hash(b"abc", b"")), "a9993e364706816aba3e25717850c26c9cd0d89d");
}

#[test]
fn hashes_of_buffers_read_the_accessible_text() {
    let h = LispHeap::new();
    let w = world();
    let b = w.buffer_obj(0);
    assert_eq!(text(md5(&h, &w, b).unwrap()), "900150983cd24fb0d6963f7d28e17f72");
    assert_eq!(
        text(secure_hash(&h, &w, &syms(), LispObject(88), b, LispObject::constant_nil()).unwrap()),
        "a9993e364706816aba3e25717850c26c9cd0d89d"
    );
}

#[test]
fn buffer_hash_finds_the_buffer() {
    let mut h = LispHeap::new();
    let mut w = world();
    w.buffers[0].name = h.make_string(b"work".to_vec(), 4);
    let whole = text(buffer_hash(&w, &h, LispObject::constant_nil()).unwrap());
    assert_eq!(whole.len(), 40);
    let by_buffer = text(buffer_hash(&w, &h, w.buffer_obj(0)).unwrap());
    assert_eq!(whole, by_buffer);
    let name = h.make_string(b"work".to_vec(), 4);
    assert_eq!(text(buffer_hash(&w, &h, name).unwrap()), whole);
    let other = h.make_string(b"none".to_vec(), 4);
    assert_eq!(
        buffer_hash(&w, &h, other),
        Err(LispError::ErrorWith(ErrorMessage::NoBufferNamed, other, LispObject::constant_nil()))
    );
    let n = LispObject::from_fixnum(1);
    assert_eq!(buffer_hash(&w, &h, n), Err(LispError::WrongType(TypePredicate::Stringp, n)));
    assert_eq!(whole, text(text_hash(b"xabcx", b"")));
}
