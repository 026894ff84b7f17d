//! The per-operation salt.
use rand::RngCore;
use vstd::prelude::*;
use vstd::string::StringSliceAdditionalSpecFns;
use vstd::utf8::encode_utf8;

use crate::encoding::{
    all_ascii, ascii_string, base64url_decoded, base64url_text, decimal_bytes, decode_base64url,
    encode_base64url, le_bytes, push_decimal, u64_le_bytes,
};

verus! {

pub const SALT_LEN: usize = 64;

/// Relies on rand's OsRng::try_fill_bytes: on success the buffer, of the
/// requested length, holds bytes from the operating system's generator.
#[verifier::external_body]
fn random_bytes(len: usize) -> (r: Option<Vec<u8>>)
    ensures
        r matches Some(v) ==> v@.len() == len,
{
    let mut buf = vec![0u8; len];
    match rand::rngs::OsRng.try_fill_bytes(&mut buf) {
        Ok(()) => Some(buf),
        Err(_) => None,
    }
}

/// Random bytes, generated once per encryption and mixed into every hash and
/// cipher stage. Its text form never shows the whole value.
pub struct Salt {
    bytes: Vec<u8>,
}

/// Why a salt could not be read from its text.
#[derive(Debug, Clone, Copy, PartialEq, Eq, Structural)]
pub enum SaltError {
    /// The text is not URL-safe base64.
    Encoding,
    /// The decoded bytes do not number exactly 64.
    Length,
}

impl View for Salt {
    type V = Seq<u8>;

    closed spec fn view(&self) -> Seq<u8> {
        self.bytes@
    }
}

/// The salt that `Salt::fixed_for_test(n)` builds: the little-endian bytes of
/// `n`, repeated.
pub open spec fn repeated_le_bytes(n: u64) -> Seq<u8> {
    Seq::new(SALT_LEN as nat, |i: int| le_bytes(n)[i % 8])
}

/// What `Salt::parse_base64` gives for a text.
pub open spec fn salt_from_text(text: Seq<u8>) -> Result<Seq<u8>, SaltError> {
    match base64url_decoded(text) {
        None => Err(SaltError::Encoding),
        Some(d) => if d.len() == SALT_LEN {
            Ok(d)
        } else {
            Err(SaltError::Length)
        },
    }
}

/// The text of `Salt::preview`: the first and last byte in decimal.
pub open spec fn preview_bytes(s: Seq<u8>) -> Seq<u8> {
    seq![115u8, 97, 108, 116, 91] + decimal_bytes(s[0] as nat) + seq![46u8, 46, 46]
        + decimal_bytes(s[s.len() - 1] as nat) + seq![93u8]
}

impl Salt {
    #[verifier::type_invariant]
    spec fn inv(&self) -> bool {
        self.bytes@.len() == SALT_LEN
    }

    /// The salt holds exactly 64 bytes.
    pub fn len_is_fixed(&self)
        ensures
            self@.len() == SALT_LEN,
    {
        proof {
            use_type_invariant(self);
        }
    }

    fn from_vec(bytes: Vec<u8>) -> (r: Salt)
        requires
            bytes@.len() == SALT_LEN,
        ensures
            r@ == bytes@,
    {
        Salt { bytes }
    }

    /// A fresh salt from the operating system's random generator.
    pub fn generate_random() -> (r: Option<Salt>)
        ensures
            r matches Some(s) ==> s@.len() == SALT_LEN,
    {
        match random_bytes(SALT_LEN) {
            Some(v) => Some(Salt::from_vec(v)),
            None => None,
        }
    }

    /// A salt of the little-endian bytes of `salt`, repeated.
    pub fn fixed_for_test(salt: u64) -> (r: Salt)
        ensures
            r@ == repeated_le_bytes(salt),
    {
        let input = u64_le_bytes(salt);
        let mut repeated: Vec<u8> = Vec::new();
        let mut i: usize = 0;
        while i < SALT_LEN
            invariant
                0 <= i <= SALT_LEN,
                input@ == le_bytes(salt),
                input@.len() == 8,
                repeated@.len() == i,
                forall|j: int| 0 <= j < i ==> repeated@[j] == le_bytes(salt)[j % 8],
            decreases SALT_LEN - i,
        {
            repeated.push(input[i % 8]);
            i = i + 1;
        }
        assert(repeated@ =~= repeated_le_bytes(salt));
        Salt::from_vec(repeated)
    }

    /// Read a salt from the bytes of its URL-safe base64 text.
    pub fn from_base64_bytes(text: &[u8]) -> (r: Result<Salt, SaltError>)
        ensures
            match salt_from_text(text@) {
                Ok(d) => r matches Ok(s) && s@ == d,
                Err(e) => r == Err::<Salt, SaltError>(e),
            },
            forall|d: Seq<u8>| #[trigger] base64url_text(d) == text@ ==> base64url_decoded(text@)
                == Some(d),
    {
        match decode_base64url(text) {
            None => Err(SaltError::Encoding),
            Some(v) => {
                if v.len() == SALT_LEN {
                    Ok(Salt::from_vec(v))
                } else {
                    Err(SaltError::Length)
                }
            },
        }
    }

    /// Read a salt from its URL-safe base64 text; it must decode to exactly 64 bytes.
    pub fn parse_base64(base64: &str) -> (r: Result<Salt, SaltError>)
        ensures
            match salt_from_text(base64.spec_bytes()) {
                Ok(d) => r matches Ok(s) && s@ == d,
                Err(e) => r == Err::<Salt, SaltError>(e),
            },
    {
        Salt::from_base64_bytes(base64.as_bytes())
    }

    /// The bytes of the URL-safe, unpadded base64 text of the salt.
    pub fn base64_bytes(&self) -> (r: Vec<u8>)
        ensures
            r@ == base64url_text(self@),
            forall|i: int| 0 <= i < r@.len() ==> crate::encoding::is_base64url_byte(#[trigger] r@[i]),
    {
        proof {
            use_type_invariant(self);
            crate::encoding::lemma_encode_bound();
        }
        encode_base64url(self.bytes.as_slice())
    }

    /// The URL-safe, unpadded base64 text of the salt.
    pub fn as_base64(&self) -> (r: String)
        ensures
            encode_utf8(r@) == base64url_text(self@),
    {
        let b = self.base64_bytes();
        ascii_string(b)
    }

    /// A short text that names the salt without revealing it: its first and
    /// last byte, as in `salt[199...15]`.
    pub fn preview(&self) -> (r: String)
        ensures
            encode_utf8(r@) == preview_bytes(self@),
    {
        proof {
            use_type_invariant(self);
        }
        let mut out: Vec<u8> = vec![115u8, 97, 108, 116, 91];
        push_decimal(&mut out, self.bytes[0] as u64);
        out.push(46);
        out.push(46);
        out.push(46);
        push_decimal(&mut out, self.bytes[SALT_LEN - 1] as u64);
        out.push(93);
        proof {
            crate::encoding::lemma_decimal_digits(self@[0] as nat);
            crate::encoding::lemma_decimal_digits(self@[self@.len() - 1] as nat);
            assert(out@ =~= preview_bytes(self@));
        }
        ascii_string(out)
    }

    /// The salt's bytes.
    pub fn as_bytes(&self) -> (r: &[u8])
        ensures
            r@ == self@,
    {
        self.bytes.as_slice()
    }

    /// Byte-wise equality.
    pub fn same_as(&self, other: &Salt) -> (r: bool)
        ensures
            r == (self@ == other@),
    {
        proof {
            use_type_invariant(self);
            use_type_invariant(other);
        }
        let mut i: usize = 0;
        while i < SALT_LEN
            invariant
                0 <= i <= SALT_LEN,
                self@.len() == SALT_LEN,
                other@.len() == SALT_LEN,
                forall|j: int| 0 <= j < i ==> self@[j] == other@[j],
            decreases SALT_LEN - i,
        {
            if self.bytes[i] != other.bytes[i] {
                return false;
            }
            i = i + 1;
        }
        assert(self@ =~= other@);
        true
    }
}

impl Clone for Salt {
    fn clone(&self) -> (r: Salt)
        ensures
            r@ == self@,
    {
        proof {
            use_type_invariant(self);
        }
        Salt { bytes: self.bytes.clone() }
    }
}

impl PartialEq for Salt {
    fn eq(&self, other: &Salt) -> (r: bool) {
        self.same_as(other)
    }
}

impl vstd::std_specs::cmp::PartialEqSpecImpl for Salt {
    open spec fn obeys_eq_spec() -> bool {
        true
    }

    open spec fn eq_spec(&self, other: &Salt) -> bool {
        self@ == other@
    }
}

impl Eq for Salt {

}

} // verus!
