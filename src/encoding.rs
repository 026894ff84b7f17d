//! Byte-level encodings shared by the header and the key material:
//! URL-safe base64, decimal digits and little-endian integers.
use vstd::prelude::*;
use vstd::utf8::encode_utf8;

verus! {

/// The bytes of the URL-safe, unpadded base64 text of `data`.
pub uninterp spec fn base64url_text(data: Seq<u8>) -> Seq<u8>;

/// The bytes that a URL-safe, unpadded base64 text decodes to, if it is valid.
pub uninterp spec fn base64url_decoded(text: Seq<u8>) -> Option<Seq<u8>>;

/// A byte of the URL-safe base64 alphabet.
pub open spec fn is_base64url_byte(b: u8) -> bool {
    (65 <= b <= 90) || (97 <= b <= 122) || (48 <= b <= 57) || b == 45 || b == 95
}

/// Every byte is from the URL-safe base64 alphabet.
pub open spec fn all_base64url(t: Seq<u8>) -> bool {
    forall|i: int| 0 <= i < t.len() ==> is_base64url_byte(#[trigger] t[i])
}

pub open spec fn all_ascii(s: Seq<u8>) -> bool {
    forall|i: int| 0 <= i < s.len() ==> s[i] < 128
}

pub open spec fn opt_bytes(r: Option<Vec<u8>>) -> Option<Seq<u8>> {
    match r {
        Some(v) => Some(v@),
        None => None,
    }
}

/// The longest input that the base64 encoder accepts.
pub const MAX_ENCODE_LEN: usize = usize::MAX / 512;

/// The bound holds at least the inputs of a 32-bit machine's encoder.
pub proof fn lemma_encode_bound()
    ensures
        MAX_ENCODE_LEN >= 8_388_607,
{
    assert(usize::MAX >= 0xffff_ffff);
}

/// Relies on data_encoding's BASE64URL_NOPAD.encode: the result is URL-safe
/// base64 without padding, so every byte is from that alphabet, and it has
/// `ceil(8 * len / 6)` bytes. It asserts an input of at most `usize::MAX / 512`
/// bytes.
#[verifier::external_body]
pub(crate) fn encode_base64url(data: &[u8]) -> (r: Vec<u8>)
    requires
        data@.len() <= MAX_ENCODE_LEN,
    ensures
        r@ == base64url_text(data@),
        forall|i: int| 0 <= i < r@.len() ==> is_base64url_byte(#[trigger] r@[i]),
        r@.len() == (8 * data@.len() + 5) / 6,
{
    data_encoding::BASE64URL_NOPAD.encode(data).into_bytes()
}

/// Relies on data_encoding's BASE64URL_NOPAD.decode: it fails on text that is
/// not canonical URL-safe base64, and gives back the bytes that were encoded.
#[verifier::external_body]
pub(crate) fn decode_base64url(text: &[u8]) -> (r: Option<Vec<u8>>)
    ensures
        opt_bytes(r) == base64url_decoded(text@),
        forall|d: Seq<u8>| #[trigger] base64url_text(d) == text@ ==> opt_bytes(r) == Some(d),
{
    data_encoding::BASE64URL_NOPAD.decode(text).ok()
}

/// Relies on String::from_utf8: ASCII bytes are valid UTF-8, and the string
/// holds exactly these bytes.
#[verifier::external_body]
pub(crate) fn ascii_string(bytes: Vec<u8>) -> (r: String)
    requires
        all_ascii(bytes@),
    ensures
        encode_utf8(r@) == bytes@,
{
    String::from_utf8(bytes).unwrap()
}

/// The ASCII decimal digits of `n`, without leading zeros.
pub open spec fn decimal_bytes(n: nat) -> Seq<u8>
    decreases n,
{
    if n < 10 {
        seq![(48 + n) as u8]
    } else {
        decimal_bytes(n / 10).push((48 + n % 10) as u8)
    }
}

/// Decimal digits are ASCII digits.
pub proof fn lemma_decimal_digits(n: nat)
    ensures
        all_ascii(decimal_bytes(n)),
        forall|i: int| 0 <= i < decimal_bytes(n).len() ==> 48 <= #[trigger] decimal_bytes(n)[i] <= 57,
    decreases n,
{
    if n >= 10 {
        lemma_decimal_digits(n / 10);
    }
}

/// Append the decimal digits of `n`.
pub fn push_decimal(out: &mut Vec<u8>, n: u64)
    ensures
        final(out)@ == old(out)@ + decimal_bytes(n as nat),
    decreases n,
{
    if n >= 10 {
        push_decimal(out, n / 10);
    }
    let digit: u8 = (n % 10) as u8;
    out.push(48 + digit);
    proof {
        if n < 10 {
            assert(decimal_bytes(n as nat) =~= seq![(48 + n) as u8]);
        }
    }
    assert(final(out)@ =~= old(out)@ + decimal_bytes(n as nat));
}

/// The `n` lowest bytes of `x`, least significant first.
pub open spec fn le_bytes_n(x: nat, n: nat) -> Seq<u8>
    decreases n,
{
    if n == 0 {
        Seq::empty()
    } else {
        seq![(x % 256) as u8] + le_bytes_n(x / 256, (n - 1) as nat)
    }
}

/// The eight little-endian bytes of a `u64`.
pub open spec fn le_bytes(x: u64) -> Seq<u8> {
    le_bytes_n(x as nat, 8)
}

proof fn lemma_le_bytes_len(x: nat, n: nat)
    ensures
        le_bytes_n(x, n).len() == n,
    decreases n,
{
    if n > 0 {
        lemma_le_bytes_len(x / 256, (n - 1) as nat);
    }
}

/// The little-endian bytes of `x`, as `u32::to_le_bytes` gives them.
pub fn u32_le_bytes(x: u32) -> (r: Vec<u8>)
    ensures
        r@ == le_bytes_n(x as nat, 4),
        r@.len() == 4,
{
    let mut out: Vec<u8> = Vec::new();
    let mut v: u32 = x;
    let mut i: usize = 0;
    while i < 4
        invariant
            0 <= i <= 4,
            out@ + le_bytes_n(v as nat, (4 - i) as nat) == le_bytes_n(x as nat, 4),
        decreases 4 - i,
    {
        let b: u8 = (v % 256) as u8;
        out.push(b);
        proof {
            let rest = le_bytes_n(v as nat / 256, (4 - i - 1) as nat);
            assert(le_bytes_n(v as nat, (4 - i) as nat) == seq![(v as nat % 256) as u8] + rest);
        }
        v = v / 256;
        i = i + 1;
    }
    assert(out@ + le_bytes_n(v as nat, 0) =~= out@);
    proof {
        lemma_le_bytes_len(x as nat, 4);
    }
    out
}

/// The little-endian bytes of `x`, as `u64::to_le_bytes` gives them.
pub fn u64_le_bytes(x: u64) -> (r: Vec<u8>)
    ensures
        r@ == le_bytes(x),
        r@.len() == 8,
{
    let mut out: Vec<u8> = Vec::new();
    let mut v: u64 = x;
    let mut i: usize = 0;
    while i < 8
        invariant
            0 <= i <= 8,
            out@ + le_bytes_n(v as nat, (8 - i) as nat) == le_bytes_n(x as nat, 8),
        decreases 8 - i,
    {
        let b: u8 = (v % 256) as u8;
        out.push(b);
        proof {
            let rest = le_bytes_n(v as nat / 256, (8 - i - 1) as nat);
            assert(le_bytes_n(v as nat, (8 - i) as nat) == seq![(v as nat % 256) as u8] + rest);
        }
        v = v / 256;
        i = i + 1;
    }
    assert(out@ + le_bytes_n(v as nat, 0) =~= out@);
    proof {
        lemma_le_bytes_len(x as nat, 8);
    }
    out
}


/// Whether `prefix` occurs in `data` at `start`.
pub open spec fn occurs_at(data: Seq<u8>, start: int, prefix: Seq<u8>) -> bool {
    0 <= start && start + prefix.len() <= data.len() && data.subrange(start, start + prefix.len())
        == prefix
}

/// Whether `prefix` occurs in `data` at `start`.
pub fn has_prefix_at(data: &[u8], start: usize, prefix: &[u8]) -> (r: bool)
    ensures
        r == occurs_at(data@, start as int, prefix@),
{
    if start > data.len() || prefix.len() > data.len() - start {
        return false;
    }
    let mut i: usize = 0;
    while i < prefix.len()
        invariant
            0 <= i <= prefix@.len(),
            start + prefix@.len() <= data@.len(),
            forall|j: int| 0 <= j < i ==> data@[start + j] == prefix@[j],
        decreases prefix@.len() - i,
    {
        assert(start + i < data.len());
        if data[start + i] != prefix[i] {
            return false;
        }
        i = i + 1;
    }
    assert(data@.subrange(start as int, start + prefix@.len()) =~= prefix@);
    true
}

/// Byte-wise equality.
pub fn bytes_eq(a: &[u8], b: &[u8]) -> (r: bool)
    ensures
        r == (a@ == b@),
{
    if a.len() != b.len() {
        return false;
    }
    let r = has_prefix_at(a, 0, b);
    assert(a@ =~= a@.subrange(0, b@.len() as int));
    r
}

/// The first `n` bytes of `data`.
pub fn slice_prefix(data: &[u8], n: usize) -> (r: Vec<u8>)
    requires
        n <= data@.len(),
    ensures
        r@ == data@.subrange(0, n as int),
{
    let mut out: Vec<u8> = Vec::new();
    let mut i: usize = 0;
    while i < n
        invariant
            0 <= i <= n <= data@.len(),
            out@ == data@.subrange(0, i as int),
        decreases n - i,
    {
        out.push(data[i]);
        i = i + 1;
        assert(out@ =~= data@.subrange(0, i as int));
    }
    out
}

/// A copy of `data[start..end]`.
pub fn copy_range(data: &[u8], start: usize, end: usize) -> (r: Vec<u8>)
    requires
        start <= end <= data@.len(),
    ensures
        r@ == data@.subrange(start as int, end as int),
{
    let mut out: Vec<u8> = Vec::new();
    let mut i: usize = start;
    while i < end
        invariant
            start <= i <= end <= data@.len(),
            out@ == data@.subrange(start as int, i as int),
        decreases end - i,
    {
        out.push(data[i]);
        i = i + 1;
        assert(out@ =~= data@.subrange(start as int, i as int));
    }
    out
}

/// Append all of `data`.
pub fn append_bytes(out: &mut Vec<u8>, data: &[u8])
    ensures
        final(out)@ == old(out)@ + data@,
{
    let mut i: usize = 0;
    while i < data.len()
        invariant
            0 <= i <= data@.len(),
            out@ == old(out)@ + data@.subrange(0, i as int),
        decreases data@.len() - i,
    {
        out.push(data[i]);
        i = i + 1;
        assert(out@ =~= old(out)@ + data@.subrange(0, i as int));
    }
    assert(data@.subrange(0, data@.len() as int) =~= data@);
}

} // verus!
