//! The integrity checksum of plaintext: a fast hash folded through a one-way
//! step, so that it tells a wrong key apart without revealing the content.
use vstd::prelude::*;
use vstd::string::StringSliceAdditionalSpecFns;
use vstd::utf8::encode_utf8;

use crate::encoding::{
    all_ascii, all_base64url, ascii_string, append_bytes, base64url_decoded, base64url_text, bytes_eq,
    copy_range, decode_base64url, encode_base64url, has_prefix_at, is_base64url_byte, le_bytes,
    occurs_at, u64_le_bytes, MAX_ENCODE_LEN,
};
use crate::hash::{pbkdf2_hmac_sha512, pbkdf2_sha512, xxhash64, xxhash64_of};

verus! {

/// How the checksum value was made.
#[allow(non_camel_case_types)]
#[derive(Debug, Clone, Copy, PartialEq, Eq, Structural)]
pub enum ChecksumType {
    /// xxHash of the content, then PBKDF2 for irreversibility, written as base64.
    Xxhash_Sha256_b64,
}

/// Why a checksum could not be read from its text.
#[derive(Debug, Clone, Copy, PartialEq, Eq, Structural)]
pub enum ChecksumError {
    /// The text does not start with a known checksum tag and a space.
    UnknownFormat,
    /// The value after the tag is not URL-safe base64.
    Encoding,
    /// The value is too long to be written out again.
    TooLong,
}

/// The tag `xx_sha256`.
pub open spec fn checksum_tag() -> Seq<u8> {
    seq![120u8, 120, 95, 115, 104, 97, 50, 53, 54]
}

fn tag_bytes() -> (r: Vec<u8>)
    ensures
        r@ == checksum_tag(),
{
    let r: Vec<u8> = vec![120u8, 120, 95, 115, 104, 97, 50, 53, 54];
    assert(r@ =~= checksum_tag());
    r
}

impl ChecksumType {
    /// Recognise a checksum tag.
    pub fn parse(input: &str) -> (r: Result<ChecksumType, ChecksumError>)
        ensures
            r is Ok <==> input.spec_bytes() == checksum_tag(),
            r is Ok ==> r == Ok::<ChecksumType, ChecksumError>(ChecksumType::Xxhash_Sha256_b64),
            r is Err ==> r == Err::<ChecksumType, ChecksumError>(ChecksumError::UnknownFormat),
    {
        let tag = tag_bytes();
        if bytes_eq(input.as_bytes(), tag.as_slice()) {
            Ok(ChecksumType::Xxhash_Sha256_b64)
        } else {
            Err(ChecksumError::UnknownFormat)
        }
    }

    /// The tag, as written in the header.
    pub fn name(&self) -> (r: String)
        ensures
            encode_utf8(r@) == checksum_tag(),
    {
        ascii_string(tag_bytes())
    }
}

/// The checksum of some content: its kind and its value.
#[derive(Debug)]
pub struct Checksum {
    pub typ: ChecksumType,
    pub value: Vec<u8>,
}

impl View for Checksum {
    type V = (ChecksumType, Seq<u8>);

    open spec fn view(&self) -> (ChecksumType, Seq<u8>) {
        (self.typ, self.value@)
    }
}

/// The seed of the fast hash.
pub const XXHASH_SEED: u64 = 5_771_919_056_451_745_621;

/// The length of a checksum value.
pub const CHECKSUM_LEN: usize = 16;

/// The checksum value of `data`: its 64-bit xxHash, as little-endian bytes,
/// through a single PBKDF2 iteration with an empty salt.
pub open spec fn checksum_value(data: Seq<u8>) -> Seq<u8> {
    pbkdf2_hmac_sha512(1, Seq::empty(), le_bytes(xxhash64_of(XXHASH_SEED, data)), CHECKSUM_LEN as nat)
}

/// The text of a checksum: the tag, a space, and the value in base64.
pub open spec fn checksum_text(value: Seq<u8>) -> Seq<u8> {
    checksum_tag() + seq![32u8] + base64url_text(value)
}

/// What `Checksum::parse` gives for a text.
pub open spec fn checksum_from_text(text: Seq<u8>) -> Result<Seq<u8>, ChecksumError> {
    if text.len() >= 10 && occurs_at(text, 0, checksum_tag()) && text[9] == 32 {
        match base64url_decoded(text.subrange(10, text.len() as int)) {
            Some(v) => if v.len() <= MAX_ENCODE_LEN {
                Ok(v)
            } else {
                Err(ChecksumError::TooLong)
            },
            None => Err(ChecksumError::Encoding),
        }
    } else {
        Err(ChecksumError::UnknownFormat)
    }
}

impl Checksum {
    pub fn fixed_for_test(data: Vec<u8>) -> (r: Checksum)
        ensures
            r@ == (ChecksumType::Xxhash_Sha256_b64, data@),
    {
        Checksum { typ: ChecksumType::Xxhash_Sha256_b64, value: data }
    }

    /// Read a checksum from the bytes of its text, `<tag> <base64>`.
    pub fn parse_bytes(text: &[u8]) -> (r: Result<Checksum, ChecksumError>)
        ensures
            match checksum_from_text(text@) {
                Ok(v) => r matches Ok(c) && c@ == (ChecksumType::Xxhash_Sha256_b64, v),
                Err(e) => r matches Err(re) && re == e,
            },
            forall|v: Seq<u8>|
                v.len() <= MAX_ENCODE_LEN && #[trigger] checksum_text(v) == text@ ==> checksum_from_text(
                    text@,
                ) == Ok::<Seq<u8>, ChecksumError>(v),
    {
        let tag = tag_bytes();
        if text.len() >= 10 && has_prefix_at(text, 0, tag.as_slice()) && text[9] == 32 {
            let rest = copy_range(text, 10, text.len());
            let decoded = decode_base64url(rest.as_slice());
            assert forall|v: Seq<u8>|
                v.len() <= MAX_ENCODE_LEN && #[trigger] checksum_text(v) == text@ implies checksum_from_text(
                text@,
            ) == Ok::<Seq<u8>, ChecksumError>(v) by {
                assert(rest@ =~= base64url_text(v));
            }
            match decoded {
                Some(v) => {
                    if v.len() <= MAX_ENCODE_LEN {
                        Ok(Checksum { typ: ChecksumType::Xxhash_Sha256_b64, value: v })
                    } else {
                        Err(ChecksumError::TooLong)
                    }
                },
                None => Err(ChecksumError::Encoding),
            }
        } else {
            assert forall|v: Seq<u8>|
                v.len() <= MAX_ENCODE_LEN && #[trigger] checksum_text(v) == text@ implies false by {
                assert(text@.subrange(0, 9) =~= checksum_tag());
                assert(text@[9] == 32);
            }
            Err(ChecksumError::UnknownFormat)
        }
    }

    /// Read a checksum from its text, `<tag> <base64>`.
    pub fn parse(input: &str) -> (r: Result<Checksum, ChecksumError>)
        ensures
            match checksum_from_text(input.spec_bytes()) {
                Ok(v) => r matches Ok(c) && c@ == (ChecksumType::Xxhash_Sha256_b64, v),
                Err(e) => r matches Err(re) && re == e,
            },
    {
        Checksum::parse_bytes(input.as_bytes())
    }

    /// The bytes of the checksum's text.
    pub fn text_bytes(&self) -> (r: Vec<u8>)
        requires
            self.value@.len() <= MAX_ENCODE_LEN,
        ensures
            r@ == checksum_text(self.value@),
            all_ascii(r@),
            all_base64url(base64url_text(self.value@)),
    {
        let mut out = tag_bytes();
        out.push(32);
        let b = encode_base64url(self.value.as_slice());
        append_bytes(&mut out, b.as_slice());
        assert(out@ =~= checksum_text(self.value@));
        assert forall|i: int| 0 <= i < out@.len() implies out@[i] < 128 by {
            if i >= 10 {
                assert(out@[i] == b@[i - 10]);
                assert(is_base64url_byte(b@[i - 10]));
            }
        }
        out
    }

    /// The checksum's text, `<tag> <base64>`.
    pub fn to_text(&self) -> (r: String)
        requires
            self.value@.len() <= MAX_ENCODE_LEN,
        ensures
            encode_utf8(r@) == checksum_text(self.value@),
    {
        ascii_string(self.text_bytes())
    }

    /// Equal kind and equal value.
    pub fn same_as(&self, other: &Checksum) -> (r: bool)
        ensures
            r == (self@ == other@),
    {
        bytes_eq(self.value.as_slice(), other.value.as_slice())
    }
}

impl Clone for Checksum {
    fn clone(&self) -> (r: Checksum)
        ensures
            r@ == self@,
    {
        Checksum { typ: self.typ, value: self.value.clone() }
    }
}

impl PartialEq for Checksum {
    fn eq(&self, other: &Checksum) -> (r: bool) {
        self.same_as(other)
    }
}

impl vstd::std_specs::cmp::PartialEqSpecImpl for Checksum {
    open spec fn obeys_eq_spec() -> bool {
        true
    }

    open spec fn eq_spec(&self, other: &Checksum) -> bool {
        self@ == other@
    }
}

impl Eq for Checksum {

}

/// The checksum of some content.
pub fn calculate_checksum(data: &[u8]) -> (r: Checksum)
    ensures
        r@ == (ChecksumType::Xxhash_Sha256_b64, checksum_value(data@)),
        r.value@.len() == CHECKSUM_LEN,
{
    let xx = xxhash64(XXHASH_SEED, data);
    let xx_bytes = u64_le_bytes(xx);
    let empty: Vec<u8> = Vec::new();
    let value = pbkdf2_sha512(1, empty.as_slice(), xx_bytes.as_slice(), CHECKSUM_LEN);
    assert(empty@ =~= Seq::<u8>::empty());
    Checksum { typ: ChecksumType::Xxhash_Sha256_b64, value }
}

} // verus!
