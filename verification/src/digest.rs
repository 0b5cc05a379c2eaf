//! SHA-256 digests as lowercase hex: the address of an entry and the check of
//! its payload.
use vstd::prelude::*;

use sha2::{Digest, Sha256};

use crate::text::chars_of;

verus! {

/// What `sha2::Sha256::digest` returns for `data`.
pub uninterp spec fn sha256_bytes(data: Seq<u8>) -> Seq<u8>;

/// The lowercase hex digit for `n < 16`.
pub open spec fn hex_digit(n: int) -> char {
    if n < 10 {
        (48 + n) as char
    } else {
        (87 + n) as char
    }
}

/// Each byte as two lowercase hex digits, high nibble first.
pub open spec fn hex_lower(bytes: Seq<u8>) -> Seq<char>
    decreases bytes.len(),
{
    if bytes.len() == 0 {
        Seq::empty()
    } else {
        hex_lower(bytes.drop_last()) + seq![
            hex_digit(bytes.last() as int / 16),
            hex_digit(bytes.last() as int % 16),
        ]
    }
}

pub open spec fn is_lower_hex(c: char) -> bool {
    ('0' <= c && c <= '9') || ('a' <= c && c <= 'f')
}

/// 64 lowercase hex digits: the text form of a SHA-256 digest.
pub open spec fn is_hex_digest(s: Seq<char>) -> bool {
    s.len() == 64 && forall|i: int| 0 <= i < s.len() ==> is_lower_hex(#[trigger] s[i])
}

/// The digest of a text: SHA-256 of its UTF-8 bytes, in lowercase hex.
pub open spec fn digest_of(text: Seq<char>) -> Seq<char> {
    hex_lower(sha256_bytes(vstd::utf8::encode_utf8(text)))
}

/// `sha2::Sha256::digest`: the 32-byte SHA-256 digest of `data`.
#[verifier::external_body]
fn sha256_digest(data: &[u8]) -> (r: Vec<u8>)
    ensures
        r@ == sha256_bytes(data@),
        r@.len() == 32,
{
    Sha256::digest(data).to_vec()
}

/// `hex::encode`: each byte as two lowercase hex digits, high nibble first.
#[verifier::external_body]
fn hex_encode(data: &[u8]) -> (r: String)
    ensures
        r@ == hex_lower(data@),
{
    hex::encode(data)
}

pub proof fn lemma_hex_lower_shape(bytes: Seq<u8>)
    ensures
        hex_lower(bytes).len() == 2 * bytes.len(),
        forall|i: int| 0 <= i < hex_lower(bytes).len() ==> is_lower_hex(#[trigger] hex_lower(bytes)[i]),
    decreases bytes.len(),
{
    if bytes.len() > 0 {
        lemma_hex_lower_shape(bytes.drop_last());
        let hi = bytes.last() as int / 16;
        let lo = bytes.last() as int % 16;
        assert(0 <= hi < 16 && 0 <= lo < 16);
        assert(is_lower_hex(hex_digit(hi)));
        assert(is_lower_hex(hex_digit(lo)));
    }
}

/// An entry address is made of lowercase hex digits only, so a key never
/// becomes a file name: the address holds no `/` and is never `.` or `..`.
pub proof fn lemma_address_is_hex(text: Seq<char>)
    ensures
        forall|i: int| 0 <= i < digest_of(text).len() ==> is_lower_hex(#[trigger] digest_of(text)[i]),
        !digest_of(text).contains('/'),
        !digest_of(text).contains('.'),
{
    lemma_hex_lower_shape(sha256_bytes(vstd::utf8::encode_utf8(text)));
    assert(!digest_of(text).contains('/')) by {
        if digest_of(text).contains('/') {
            let i = choose|i: int| 0 <= i < digest_of(text).len() && digest_of(text)[i] == '/';
            assert(is_lower_hex(digest_of(text)[i]));
        }
    }
    assert(!digest_of(text).contains('.')) by {
        if digest_of(text).contains('.') {
            let i = choose|i: int| 0 <= i < digest_of(text).len() && digest_of(text)[i] == '.';
            assert(is_lower_hex(digest_of(text)[i]));
        }
    }
}

/// The lowercase hex SHA-256 digest of `value`'s UTF-8 bytes.
pub fn sha256(value: &str) -> (r: String)
    ensures
        r@ == digest_of(value@),
        is_hex_digest(r@),
{
    let digest = sha256_digest(value.as_bytes());
    let r = hex_encode(digest.as_slice());
    proof {
        lemma_hex_lower_shape(digest@);
    }
    r
}

/// Whether `value` is 64 lowercase hex digits.
pub fn is_sha256(value: &str) -> (r: bool)
    ensures
        r == is_hex_digest(value@),
{
    let v = chars_of(value);
    if v.len() != 64 {
        return false;
    }
    let mut i: usize = 0;
    while i < v.len()
        invariant
            v@ == value@,
            i <= v.len(),
            forall|k: int| 0 <= k < i ==> is_lower_hex(#[trigger] v@[k]),
        decreases v.len() - i,
    {
        let c = v[i];
        if !(('0' <= c && c <= '9') || ('a' <= c && c <= 'f')) {
            assert(!is_lower_hex(v@[i as int]));
            return false;
        }
        i = i + 1;
    }
    true
}

/// A SHA-256 hasher fed a payload chunk by chunk (`sha2::Sha256`).
#[verifier::external_body]
pub struct PayloadHasher {
    inner: Sha256,
}

/// The bytes a payload hasher has been fed, in order.
pub uninterp spec fn absorbed(h: PayloadHasher) -> Seq<u8>;

/// `sha2::Sha256::new`: a hasher that has been fed nothing.
#[verifier::external_body]
fn new_hasher() -> (h: PayloadHasher)
    ensures
        absorbed(h) == Seq::<u8>::empty(),
{
    PayloadHasher { inner: Sha256::new() }
}

/// `Digest::update`: the hasher is fed `chunk` after what it already had.
#[verifier::external_body]
fn feed_hasher(h: &mut PayloadHasher, chunk: &[u8])
    ensures
        absorbed(*final(h)) == absorbed(*old(h)) + chunk@,
{
    h.inner.update(chunk);
}

/// `Digest::finalize`: the SHA-256 digest of everything fed, which is what
/// `Sha256::digest` gives for those bytes at once.
#[verifier::external_body]
fn finish_hasher(h: PayloadHasher) -> (r: Vec<u8>)
    ensures
        r@ == sha256_bytes(absorbed(h)),
        r@.len() == 32,
{
    h.inner.finalize().to_vec()
}

impl PayloadHasher {
    /// A hasher for a new payload.
    pub fn new() -> (h: PayloadHasher)
        ensures
            absorbed(h) == Seq::<u8>::empty(),
    {
        new_hasher()
    }

    /// Feeds the next chunk of the payload.
    pub fn update(&mut self, chunk: &[u8])
        ensures
            absorbed(*final(self)) == absorbed(*old(self)) + chunk@,
    {
        feed_hasher(self, chunk)
    }

    /// The payload's SHA-256 digest in lowercase hex: the form `metadata.json`
    /// records and `validate_entry` compares.
    pub fn digest_hex(self) -> (r: String)
        ensures
            r@ == hex_lower(sha256_bytes(absorbed(self))),
            is_hex_digest(r@),
    {
        let digest = finish_hasher(self);
        let r = hex_encode(digest.as_slice());
        proof {
            lemma_hex_lower_shape(digest@);
        }
        r
    }
}

} // verus!
