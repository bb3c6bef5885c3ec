//! The content fingerprint of a file.

use vstd::prelude::*;
use sha2::{Digest, Sha256};
use crate::error::Error;
use crate::text::{decimal, hex, is_hex_digit, lemma_decimal_injective, lemma_hex_injective, push_char, push_decimal, push_hex};

verus! {

/// The SHA-256 digest of a byte string, as sha2 computes it.
pub uninterp spec fn sha256_digest(data: Seq<u8>) -> Seq<u8>;

/// `Sha256::digest` of sha2: the digest of the whole of `data`, which has
/// 32 bytes.
#[verifier::external_body]
fn sha256(data: &[u8]) -> (digest: Vec<u8>)
    ensures
        digest@ == sha256_digest(data@),
        digest@.len() == 32,
{
    Sha256::digest(data).to_vec()
}

/// The text of a signature: the digest in lower-case hexadecimal, a colon,
/// and the size in decimal.
pub open spec fn signature_text(digest: Seq<u8>, size: nat) -> Seq<char> {
    hex(digest) + seq![':'] + decimal(size)
}

/// The signature text of a file that holds `content`.
pub open spec fn content_signature(content: Seq<u8>) -> Seq<char> {
    signature_text(sha256_digest(content), content.len())
}

/// A content fingerprint: a digest of the bytes of a file together with
/// their number.
#[derive(Debug)]
pub struct Signature(String);

impl View for Signature {
    type V = Seq<char>;

    closed spec fn view(&self) -> Seq<char> {
        self.0@
    }
}

impl Signature {
    /// The signature of a file whose bytes are `content`.
    pub fn from_file(content: &[u8]) -> (r: Result<Self, Error>)
        ensures
            r matches Ok(s) && s@ == content_signature(content@),
            sha256_digest(content@).len() == 32,
    {
        let digest = sha256(content);
        Ok(Self::from_digest(digest.as_slice(), content.len() as u64))
    }

    /// The signature made of a digest and a size that were computed
    /// elsewhere, as when a file is hashed while it is read.
    pub fn from_digest(digest: &[u8], size: u64) -> (s: Self)
        ensures
            s@ == signature_text(digest@, size as nat),
    {
        let mut text = String::new();
        push_hex(&mut text, digest);
        push_char(&mut text, ':');
        push_decimal(&mut text, size);
        Self(text)
    }

    pub fn as_str(&self) -> (s: &str)
        ensures
            s@ == self@,
    {
        self.0.as_str()
    }

    pub fn into_string(self) -> (s: String)
        ensures
            s@ == self@,
    {
        self.0
    }

    pub fn eq(&self, other: &Signature) -> (r: bool)
        ensures
            r == (self@ == other@),
    {
        self.0 == other.0
    }

    pub fn new(value: &str) -> (s: Self)
        ensures
            s@ == value@,
    {
        Self(String::from_str(value))
    }
}

impl Clone for Signature {
    fn clone(&self) -> (s: Self)
        ensures
            s@ == self@,
    {
        Self(self.0.clone())
    }
}

impl TryFrom<&str> for Signature {
    type Error = Error;

    fn try_from(value: &str) -> (r: Result<Self, Error>)
        ensures
            r matches Ok(s) && s@ == value@,
    {
        Ok(Self::new(value))
    }
}

impl vstd::std_specs::convert::TryFromSpecImpl<&str> for Signature {
    open spec fn obeys_try_from_spec() -> bool {
        false
    }

    open spec fn try_from_spec(v: &str) -> Result<Self, Error> {
        arbitrary()
    }
}

/// A colon is no hexadecimal digit.
proof fn lemma_colon_is_no_digit()
    ensures
        !is_hex_digit(':'),
{
}

/// Two signature texts are equal only if they were made of the same digest
/// and the same size.
pub proof fn lemma_signature_text_injective(d1: Seq<u8>, n1: nat, d2: Seq<u8>, n2: nat)
    requires
        signature_text(d1, n1) == signature_text(d2, n2),
    ensures
        d1 == d2,
        n1 == n2,
{
    let s1 = signature_text(d1, n1);
    let s2 = signature_text(d2, n2);
    lemma_colon_is_no_digit();
    assert(hex(d1).len() == 2 * d1.len());
    assert(hex(d2).len() == 2 * d2.len());
    assert(s1[2 * d1.len() as int] == ':');
    assert(s2[2 * d2.len() as int] == ':');
    if d1.len() < d2.len() {
        let k: int = 2 * (d1.len() as int);
        assert(s2[k] == hex(d2)[k]);
        assert(is_hex_digit(hex(d2)[k])) by {
            lemma_hex_has_digits(d2, k);
        }
    }
    if d2.len() < d1.len() {
        let k: int = 2 * (d2.len() as int);
        assert(s1[k] == hex(d1)[k]);
        assert(is_hex_digit(hex(d1)[k])) by {
            lemma_hex_has_digits(d1, k);
        }
    }
    let k: int = 2 * (d1.len() as int);
    assert(hex(d1) =~= s1.subrange(0, k));
    assert(hex(d2) =~= s2.subrange(0, k));
    lemma_hex_injective(d1, d2);
    assert(decimal(n1) =~= s1.subrange(k + 1, s1.len() as int));
    assert(decimal(n2) =~= s2.subrange(k + 1, s2.len() as int));
    lemma_decimal_injective(n1, n2);
}

/// Every character of a hexadecimal form is a hexadecimal digit.
proof fn lemma_hex_has_digits(bytes: Seq<u8>, k: int)
    requires
        0 <= k < 2 * bytes.len(),
    ensures
        is_hex_digit(hex(bytes)[k]),
{
    let b = bytes[k / 2] as int;
    if k % 2 == 0 {
        assert(hex(bytes)[k] == crate::text::hex_digit(b / 16));
        assert(0 <= b / 16 < 16);
    } else {
        assert(hex(bytes)[k] == crate::text::hex_digit(b % 16));
        assert(0 <= b % 16 < 16);
    }
}

/// Files with the same bytes have the same signature, whatever their
/// place; files that differ in their digest or in their size have
/// different signatures.
pub proof fn lemma_signature_follows_content(a: Seq<u8>, b: Seq<u8>)
    ensures
        a == b ==> content_signature(a) == content_signature(b),
        sha256_digest(a) != sha256_digest(b) || a.len() != b.len() ==> content_signature(a)
            != content_signature(b),
{
    if content_signature(a) == content_signature(b) {
        lemma_signature_text_injective(sha256_digest(a), a.len(), sha256_digest(b), b.len());
    }
}

} // verus!
