//! The plaintext header in front of every encrypted file: five lines, then the
//! ciphertext.
//!
//! ```text
//! github.com/mverleg/file_endec
//! v <major>.<minor>.<patch>
//! salt <base64url(salt)>
//! check <tag> <base64url(checksum)>
//! data:
//! ```
use vstd::prelude::*;

use crate::checksum::{checksum_from_text, checksum_text, Checksum, ChecksumError, ChecksumType};
use crate::encoding::{
    all_base64url, append_bytes, base64url_text, copy_range, has_prefix_at, is_base64url_byte,
    occurs_at, MAX_ENCODE_LEN,
};
use crate::salt::{salt_from_text, Salt, SaltError, SALT_LEN};
use crate::strategy::{
    get_version_strategy, parsed_version, registered_strategy, version_text, Strategy, Version,
    VersionError,
};

verus! {

/// The first line of every header.
pub open spec fn header_marker() -> Seq<u8> {
    seq![
        103u8, 105, 116, 104, 117, 98, 46, 99, 111, 109, 47, 109, 118, 101, 114, 108, 101, 103, 47,
        102, 105, 108, 101, 95, 101, 110, 100, 101, 99,
    ]
}

/// `v `
pub open spec fn version_marker() -> Seq<u8> {
    seq![118u8, 32]
}

/// `salt `
pub open spec fn salt_marker() -> Seq<u8> {
    seq![115u8, 97, 108, 116, 32]
}

/// `check `
pub open spec fn checksum_marker() -> Seq<u8> {
    seq![99u8, 104, 101, 99, 107, 32]
}

/// `data:`
pub open spec fn data_marker() -> Seq<u8> {
    seq![100u8, 97, 116, 97, 58]
}

fn marker_bytes() -> (r: Vec<u8>)
    ensures
        r@ == header_marker(),
{
    let r: Vec<u8> = vec![
        103u8, 105, 116, 104, 117, 98, 46, 99, 111, 109, 47, 109, 118, 101, 114, 108, 101, 103, 47,
        102, 105, 108, 101, 95, 101, 110, 100, 101, 99,
    ];
    assert(r@ =~= header_marker());
    r
}

fn version_marker_bytes() -> (r: Vec<u8>)
    ensures
        r@ == version_marker(),
{
    let r: Vec<u8> = vec![118u8, 32];
    assert(r@ =~= version_marker());
    r
}

fn salt_marker_bytes() -> (r: Vec<u8>)
    ensures
        r@ == salt_marker(),
{
    let r: Vec<u8> = vec![115u8, 97, 108, 116, 32];
    assert(r@ =~= salt_marker());
    r
}

fn checksum_marker_bytes() -> (r: Vec<u8>)
    ensures
        r@ == checksum_marker(),
{
    let r: Vec<u8> = vec![99u8, 104, 101, 99, 107, 32];
    assert(r@ =~= checksum_marker());
    r
}

fn data_marker_bytes() -> (r: Vec<u8>)
    ensures
        r@ == data_marker(),
{
    let r: Vec<u8> = vec![100u8, 97, 116, 97, 58];
    assert(r@ =~= data_marker());
    r
}

/// A header as plain values.
pub struct HeaderSpec {
    pub version: Version,
    pub salt: Seq<u8>,
    pub checksum: (ChecksumType, Seq<u8>),
}

/// The metadata in front of the ciphertext. The strategy is not stored: it
/// follows from the version.
pub struct Header {
    version: Version,
    salt: Salt,
    checksum: Checksum,
}

impl View for Header {
    type V = HeaderSpec;

    closed spec fn view(&self) -> HeaderSpec {
        HeaderSpec { version: self.version, salt: self.salt@, checksum: self.checksum@ }
    }
}

/// A header that can be written and read back: its version is registered and
/// its salt has the fixed length.
pub open spec fn header_wf(h: HeaderSpec) -> bool {
    registered_strategy(h.version) is Some && h.salt.len() == SALT_LEN
        && h.checksum.0 == ChecksumType::Xxhash_Sha256_b64 && h.checksum.1.len() <= MAX_ENCODE_LEN
}

/// The base64 texts of the header hold only base64 bytes, as written.
pub open spec fn header_plain(h: HeaderSpec) -> bool {
    all_base64url(base64url_text(h.salt)) && all_base64url(base64url_text(h.checksum.1))
}

/// A line and its newline.
pub open spec fn line(l: Seq<u8>) -> Seq<u8> {
    l + seq![10u8]
}

/// The five lines of a header.
pub open spec fn header_bytes(h: HeaderSpec) -> Seq<u8> {
    line(header_marker()) + line(version_marker() + version_text(h.version)) + line(
        salt_marker() + base64url_text(h.salt),
    ) + line(checksum_marker() + checksum_text(h.checksum.1)) + line(data_marker())
}

/// The line of a header that did not start as it should.
#[derive(Debug, Clone, Copy, PartialEq, Eq, Structural)]
pub enum HeaderLine {
    Version,
    Salt,
    Checksum,
    Data,
}

/// Why a header could not be read.
#[derive(Debug, Clone, Copy, PartialEq, Eq, Structural)]
pub enum HeaderError {
    /// The data ended before the header's last newline.
    Truncated,
    /// The first line is not the header marker.
    UnknownMarker,
    /// A line lacks its literal prefix.
    MissingPrefix(HeaderLine),
    /// The version is not a plain `major.minor.patch`.
    InvalidVersion,
    /// The salt is not base64 of exactly 64 bytes.
    InvalidSalt(SaltError),
    /// The checksum line is not `<tag> <base64>`.
    InvalidChecksum(ChecksumError),
    /// The version is older than every registered strategy.
    UnknownVersion(VersionError),
}

/// The position of the first newline at or after `pos`.
pub open spec fn next_newline(data: Seq<u8>, pos: int) -> Option<int>
    decreases data.len() - pos,
{
    if pos < 0 || pos >= data.len() {
        None
    } else if data[pos] == 10 {
        Some(pos)
    } else {
        next_newline(data, pos + 1)
    }
}

/// The line that starts at `pos`, without its newline, and where the next starts.
pub open spec fn line_from(data: Seq<u8>, pos: int) -> Option<(Seq<u8>, int)> {
    match next_newline(data, pos) {
        Some(e) => Some((data.subrange(pos, e), e + 1)),
        None => None,
    }
}

/// What follows `prefix` in `l`, if `l` starts with it.
pub open spec fn after_prefix(l: Seq<u8>, prefix: Seq<u8>) -> Option<Seq<u8>> {
    if prefix.len() <= l.len() && l.subrange(0, prefix.len() as int) == prefix {
        Some(l.subrange(prefix.len() as int, l.len() as int))
    } else {
        None
    }
}

/// Reading the version line at `pos`.
pub open spec fn version_step(data: Seq<u8>, pos: int) -> Result<(Version, int), HeaderError> {
    match line_from(data, pos) {
        None => Err(HeaderError::Truncated),
        Some((l, next)) => match after_prefix(l, version_marker()) {
            None => Err(HeaderError::MissingPrefix(HeaderLine::Version)),
            Some(t) => match parsed_version(t) {
                None => Err(HeaderError::InvalidVersion),
                Some(v) => Ok((v, next)),
            },
        },
    }
}

/// Reading the salt line at `pos`.
pub open spec fn salt_step(data: Seq<u8>, pos: int) -> Result<(Seq<u8>, int), HeaderError> {
    match line_from(data, pos) {
        None => Err(HeaderError::Truncated),
        Some((l, next)) => match after_prefix(l, salt_marker()) {
            None => Err(HeaderError::MissingPrefix(HeaderLine::Salt)),
            Some(t) => match salt_from_text(t) {
                Err(e) => Err(HeaderError::InvalidSalt(e)),
                Ok(s) => Ok((s, next)),
            },
        },
    }
}

/// Reading the checksum line at `pos`.
pub open spec fn checksum_step(data: Seq<u8>, pos: int) -> Result<(Seq<u8>, int), HeaderError> {
    match line_from(data, pos) {
        None => Err(HeaderError::Truncated),
        Some((l, next)) => match after_prefix(l, checksum_marker()) {
            None => Err(HeaderError::MissingPrefix(HeaderLine::Checksum)),
            Some(t) => match checksum_from_text(t) {
                Err(e) => Err(HeaderError::InvalidChecksum(e)),
                Ok(c) => Ok((c, next)),
            },
        },
    }
}

/// Reading the `data:` line at `pos`.
pub open spec fn data_step(data: Seq<u8>, pos: int) -> Result<int, HeaderError> {
    match line_from(data, pos) {
        None => Err(HeaderError::Truncated),
        Some((l, next)) => match after_prefix(l, data_marker()) {
            None => Err(HeaderError::MissingPrefix(HeaderLine::Data)),
            Some(_) => Ok(next),
        },
    }
}

/// What `parse_header` gives: the header, and the position of the first
/// ciphertext byte.
pub open spec fn parse_header_spec(data: Seq<u8>) -> Result<(HeaderSpec, int), HeaderError> {
    match line_from(data, 0) {
        None => Err(HeaderError::Truncated),
        Some((l1, after_marker)) => if l1 != header_marker() {
            Err(HeaderError::UnknownMarker)
        } else {
            match version_step(data, after_marker) {
                Err(e) => Err(e),
                Ok((v, after_version)) => match salt_step(data, after_version) {
                    Err(e) => Err(e),
                    Ok((s, after_salt)) => match checksum_step(data, after_salt) {
                        Err(e) => Err(e),
                        Ok((c, after_checksum)) => match data_step(data, after_checksum) {
                            Err(e) => Err(e),
                            Ok(body_start) => if registered_strategy(v) is None {
                                Err(HeaderError::UnknownVersion(VersionError { version: v }))
                            } else {
                                Ok(
                                    (
                                        HeaderSpec {
                                            version: v,
                                            salt: s,
                                            checksum: (ChecksumType::Xxhash_Sha256_b64, c),
                                        },
                                        body_start,
                                    ),
                                )
                            },
                        },
                    },
                },
            }
        },
    }
}

pub open spec fn no_newline(l: Seq<u8>) -> bool {
    forall|i: int| 0 <= i < l.len() ==> #[trigger] l[i] != 10
}

/// `l` stands at `pos` as a whole line.
pub open spec fn line_at(data: Seq<u8>, pos: int, l: Seq<u8>) -> bool {
    occurs_at(data, pos, line(l)) && no_newline(l)
}

proof fn lemma_line_at(data: Seq<u8>, pos: int, l: Seq<u8>)
    requires
        line_at(data, pos, l),
    ensures
        next_newline(data, pos) == Some(pos + l.len()),
        line_from(data, pos) == Some((l, pos + l.len() + 1)),
    decreases l.len(),
{
    assert(data.subrange(pos, pos + l.len() + 1) == line(l));
    assert(data[pos + l.len()] == line(l)[l.len() as int]);
    if l.len() == 0 {
    } else {
        assert(data[pos] == line(l)[0]);
        let rest = l.subrange(1, l.len() as int);
        assert(line(rest) =~= line(l).subrange(1, l.len() as int + 1));
        assert(data.subrange(pos + 1, pos + 1 + rest.len() + 1) =~= line(rest));
        lemma_line_at(data, pos + 1, rest);
    }
    assert(data.subrange(pos, pos + l.len()) =~= l);
}

proof fn lemma_prefixed_line(data: Seq<u8>, pos: int, prefix: Seq<u8>, rest: Seq<u8>)
    requires
        line_at(data, pos, prefix + rest),
    ensures
        line_from(data, pos) == Some((prefix + rest, pos + prefix.len() + rest.len() + 1)),
        after_prefix(prefix + rest, prefix) == Some(rest),
        data.subrange(pos + prefix.len(), pos + prefix.len() + rest.len()) == rest,
{
    lemma_line_at(data, pos, prefix + rest);
    assert((prefix + rest).subrange(0, prefix.len() as int) =~= prefix);
    assert((prefix + rest).subrange(prefix.len() as int, (prefix + rest).len() as int) =~= rest);
    lemma_occurs_split(data, pos, prefix + rest, seq![10u8]);
    lemma_occurs_split(data, pos, prefix, rest);
}

proof fn lemma_occurs_split(data: Seq<u8>, pos: int, a: Seq<u8>, b: Seq<u8>)
    requires
        occurs_at(data, pos, a + b),
    ensures
        occurs_at(data, pos, a),
        occurs_at(data, pos + a.len(), b),
{
    let whole = data.subrange(pos, pos + a.len() + b.len());
    assert(whole == a + b);
    assert(data.subrange(pos, pos + a.len()) =~= whole.subrange(0, a.len() as int));
    assert(whole.subrange(0, a.len() as int) =~= a);
    assert(data.subrange(pos + a.len(), pos + a.len() + b.len()) =~= whole.subrange(
        a.len() as int,
        (a.len() + b.len()) as int,
    ));
    assert(whole.subrange(a.len() as int, (a.len() + b.len()) as int) =~= b);
}

proof fn lemma_no_newline_concat(a: Seq<u8>, b: Seq<u8>)
    requires
        no_newline(a),
        no_newline(b),
    ensures
        no_newline(a + b),
{
    assert forall|i: int| 0 <= i < (a + b).len() implies #[trigger] (a + b)[i] != 10 by {
        if i < a.len() {
            assert((a + b)[i] == a[i]);
        } else {
            assert((a + b)[i] == b[i - a.len()]);
        }
    }
}

proof fn lemma_base64_no_newline(t: Seq<u8>)
    requires
        all_base64url(t),
    ensures
        no_newline(t),
{
    assert forall|i: int| 0 <= i < t.len() implies #[trigger] t[i] != 10 by {
        assert(is_base64url_byte(t[i]));
    }
}

proof fn lemma_version_line_plain(v: Version)
    ensures
        no_newline(version_marker() + version_text(v)),
{
    crate::strategy::lemma_version_text_plain(v);
    assert(no_newline(version_marker()));
    assert forall|i: int| 0 <= i < version_text(v).len() implies #[trigger] version_text(v)[i]
        != 10 by {
        let b = version_text(v)[i];
        assert((48 <= b <= 57) || b == 46);
    }
    lemma_no_newline_concat(version_marker(), version_text(v));
}

proof fn lemma_checksum_line_plain(c: Seq<u8>)
    requires
        all_base64url(base64url_text(c)),
    ensures
        no_newline(checksum_marker() + checksum_text(c)),
{
    lemma_base64_no_newline(base64url_text(c));
    assert(no_newline(checksum_marker()));
    assert(no_newline(crate::checksum::checksum_tag()));
    assert(no_newline(seq![32u8]));
    lemma_no_newline_concat(crate::checksum::checksum_tag(), seq![32u8]);
    lemma_no_newline_concat(crate::checksum::checksum_tag() + seq![32u8], base64url_text(c));
    lemma_no_newline_concat(checksum_marker(), checksum_text(c));
}

/// The version line of a header, without its newline.
pub open spec fn version_line(h: HeaderSpec) -> Seq<u8> {
    version_marker() + version_text(h.version)
}

/// The salt line of a header, without its newline.
pub open spec fn salt_line(h: HeaderSpec) -> Seq<u8> {
    salt_marker() + base64url_text(h.salt)
}

/// The checksum line of a header, without its newline.
pub open spec fn checksum_line(h: HeaderSpec) -> Seq<u8> {
    checksum_marker() + checksum_text(h.checksum.1)
}

pub open spec fn version_offset(h: HeaderSpec) -> int {
    line(header_marker()).len() as int
}

pub open spec fn salt_offset(h: HeaderSpec) -> int {
    version_offset(h) + line(version_line(h)).len()
}

pub open spec fn checksum_offset(h: HeaderSpec) -> int {
    salt_offset(h) + line(salt_line(h)).len()
}

pub open spec fn data_offset(h: HeaderSpec) -> int {
    checksum_offset(h) + line(checksum_line(h)).len()
}

/// Where each line of a written header stands.
proof fn lemma_header_layout(data: Seq<u8>, h: HeaderSpec)
    requires
        occurs_at(data, 0, header_bytes(h)),
        header_plain(h),
    ensures
        line_at(data, 0, header_marker()),
        line_at(data, version_offset(h), version_line(h)),
        line_at(data, salt_offset(h), salt_line(h)),
        line_at(data, checksum_offset(h), checksum_line(h)),
        line_at(data, data_offset(h), data_marker()),
        header_bytes(h).len() == data_offset(h) + line(data_marker()).len(),
{
    let l1 = line(header_marker());
    let l2 = line(version_line(h));
    let l3 = line(salt_line(h));
    let l4 = line(checksum_line(h));
    let l5 = line(data_marker());
    assert(header_bytes(h) == l1 + l2 + l3 + l4 + l5);
    lemma_occurs_split(data, 0, l1 + l2 + l3 + l4, l5);
    lemma_occurs_split(data, 0, l1 + l2 + l3, l4);
    lemma_occurs_split(data, 0, l1 + l2, l3);
    lemma_occurs_split(data, 0, l1, l2);
    assert(no_newline(header_marker()));
    assert(no_newline(data_marker()));
    lemma_version_line_plain(h.version);
    lemma_base64_no_newline(base64url_text(h.salt));
    assert(no_newline(salt_marker()));
    lemma_no_newline_concat(salt_marker(), base64url_text(h.salt));
    lemma_checksum_line_plain(h.checksum.1);
}

/// Find the end of the line that starts at `pos`.
fn read_line(data: &[u8], pos: usize) -> (r: Option<(usize, usize)>)
    ensures
        r matches Some((e, n)) ==> pos <= e < data@.len() && n == e + 1 && next_newline(
            data@,
            pos as int,
        ) == Some(e as int),
        r is None ==> next_newline(data@, pos as int) is None,
{
    let mut i: usize = pos;
    while i < data.len()
        invariant
            pos <= i,
            next_newline(data@, pos as int) == next_newline(data@, i as int),
        decreases data@.len() - i,
    {
        if data[i] == 10 {
            return Some((i, i + 1));
        }
        i = i + 1;
    }
    None
}

/// Whether the line `data[start..end]` starts with `prefix`.
fn check_prefix(data: &[u8], start: usize, end: usize, prefix: &[u8]) -> (r: bool)
    requires
        start <= end <= data@.len(),
    ensures
        r == (after_prefix(data@.subrange(start as int, end as int), prefix@) is Some),
{
    let ghost l = data@.subrange(start as int, end as int);
    if prefix.len() > end - start {
        return false;
    }
    let r = has_prefix_at(data, start, prefix);
    assert(l.subrange(0, prefix@.len() as int) =~= data@.subrange(
        start as int,
        start + prefix@.len(),
    ));
    r
}

/// Read the marker line; gives where the next line starts.
fn parse_marker(data: &[u8]) -> (r: Result<usize, HeaderError>)
    ensures
        match line_from(data@, 0) {
            None => r == Err::<usize, HeaderError>(HeaderError::Truncated),
            Some((l, next)) => if l != header_marker() {
                r == Err::<usize, HeaderError>(HeaderError::UnknownMarker)
            } else {
                r matches Ok(p) && p == next
            },
        },
{
    match read_line(data, 0) {
        None => Err(HeaderError::Truncated),
        Some((end, next)) => {
            let marker = marker_bytes();
            if end == marker.len() && has_prefix_at(data, 0, marker.as_slice()) {
                assert(data@.subrange(0, end as int) =~= header_marker());
                Ok(next)
            } else {
                proof {
                    if data@.subrange(0, end as int) == header_marker() {
                        assert(end == marker@.len());
                        assert(occurs_at(data@, 0, marker@));
                    }
                }
                Err(HeaderError::UnknownMarker)
            }
        },
    }
}

/// Read the version line at `pos`.
fn parse_version(data: &[u8], pos: usize) -> (r: Result<(Version, usize), HeaderError>)
    ensures
        match version_step(data@, pos as int) {
            Ok((v, next)) => r matches Ok((rv, rn)) && rv == v && rn == next,
            Err(e) => r == Err::<(Version, usize), HeaderError>(e),
        },
        forall|v: Version| #[trigger]
            line_at(data@, pos as int, version_marker() + version_text(v)) ==> version_step(
                data@,
                pos as int,
            ) == Ok::<(Version, int), HeaderError>(
                (v, pos + (version_marker() + version_text(v)).len() + 1),
            ),
{
    match read_line(data, pos) {
        None => {
            assert forall|v: Version| #[trigger]
                line_at(data@, pos as int, version_marker() + version_text(v)) implies false by {
                lemma_prefixed_line(data@, pos as int, version_marker(), version_text(v));
            }
            Err(HeaderError::Truncated)
        },
        Some((end, next)) => {
            let marker = version_marker_bytes();
            if !check_prefix(data, pos, end, marker.as_slice()) {
                assert forall|v: Version| #[trigger]
                    line_at(data@, pos as int, version_marker() + version_text(v)) implies false by {
                    lemma_prefixed_line(data@, pos as int, version_marker(), version_text(v));
                }
                return Err(HeaderError::MissingPrefix(HeaderLine::Version));
            }
            let text = copy_range(data, pos + 2, end);
            assert(text@ =~= data@.subrange(pos as int, end as int).subrange(
                2,
                (end - pos) as int,
            ));
            let parsed = Version::parse_text(text.as_slice());
            assert forall|v: Version| #[trigger]
                line_at(data@, pos as int, version_marker() + version_text(v)) implies version_step(
                data@,
                pos as int,
            ) == Ok::<(Version, int), HeaderError>(
                (v, pos + (version_marker() + version_text(v)).len() + 1),
            ) by {
                lemma_prefixed_line(data@, pos as int, version_marker(), version_text(v));
                assert(text@ == version_text(v));
            }
            match parsed {
                None => Err(HeaderError::InvalidVersion),
                Some(v) => Ok((v, next)),
            }
        },
    }
}

/// Read the salt line at `pos`.
fn parse_salt(data: &[u8], pos: usize) -> (r: Result<(Salt, usize), HeaderError>)
    ensures
        match salt_step(data@, pos as int) {
            Ok((s, next)) => r matches Ok((rs, rn)) && rs@ == s && rn == next,
            Err(e) => r matches Err(re) && re == e,
        },
        forall|s: Seq<u8>|
            s.len() == SALT_LEN && #[trigger] line_at(
                data@,
                pos as int,
                salt_marker() + base64url_text(s),
            ) ==> salt_step(data@, pos as int) == Ok::<(Seq<u8>, int), HeaderError>(
                (s, pos + (salt_marker() + base64url_text(s)).len() + 1),
            ),
{
    match read_line(data, pos) {
        None => {
            assert forall|s: Seq<u8>|
                s.len() == SALT_LEN && #[trigger] line_at(
                    data@,
                    pos as int,
                    salt_marker() + base64url_text(s),
                ) implies false by {
                lemma_prefixed_line(data@, pos as int, salt_marker(), base64url_text(s));
            }
            Err(HeaderError::Truncated)
        },
        Some((end, next)) => {
            let marker = salt_marker_bytes();
            if !check_prefix(data, pos, end, marker.as_slice()) {
                assert forall|s: Seq<u8>|
                    s.len() == SALT_LEN && #[trigger] line_at(
                        data@,
                        pos as int,
                        salt_marker() + base64url_text(s),
                    ) implies false by {
                    lemma_prefixed_line(data@, pos as int, salt_marker(), base64url_text(s));
                }
                return Err(HeaderError::MissingPrefix(HeaderLine::Salt));
            }
            let text = copy_range(data, pos + 5, end);
            assert(text@ =~= data@.subrange(pos as int, end as int).subrange(
                5,
                (end - pos) as int,
            ));
            let parsed = Salt::from_base64_bytes(text.as_slice());
            assert forall|s: Seq<u8>|
                s.len() == SALT_LEN && #[trigger] line_at(
                    data@,
                    pos as int,
                    salt_marker() + base64url_text(s),
                ) implies salt_step(data@, pos as int) == Ok::<(Seq<u8>, int), HeaderError>(
                (s, pos + (salt_marker() + base64url_text(s)).len() + 1),
            ) by {
                lemma_prefixed_line(data@, pos as int, salt_marker(), base64url_text(s));
                assert(text@ == base64url_text(s));
            }
            match parsed {
                Err(e) => Err(HeaderError::InvalidSalt(e)),
                Ok(s) => Ok((s, next)),
            }
        },
    }
}

/// Read the checksum line at `pos`.
fn parse_checksum(data: &[u8], pos: usize) -> (r: Result<(Checksum, usize), HeaderError>)
    ensures
        match checksum_step(data@, pos as int) {
            Ok((c, next)) => r matches Ok((rc, rn)) && rc@ == (
                ChecksumType::Xxhash_Sha256_b64,
                c,
            ) && rn == next,
            Err(e) => r matches Err(re) && re == e,
        },
        forall|c: Seq<u8>|
            c.len() <= MAX_ENCODE_LEN && #[trigger] line_at(data@, pos as int, checksum_marker() + checksum_text(c)) ==> checksum_step(
                data@,
                pos as int,
            ) == Ok::<(Seq<u8>, int), HeaderError>(
                (c, pos + (checksum_marker() + checksum_text(c)).len() + 1),
            ),
{
    match read_line(data, pos) {
        None => {
            assert forall|c: Seq<u8>|
                c.len() <= MAX_ENCODE_LEN && #[trigger] line_at(data@, pos as int, checksum_marker() + checksum_text(c)) implies false by {
                lemma_prefixed_line(data@, pos as int, checksum_marker(), checksum_text(c));
            }
            Err(HeaderError::Truncated)
        },
        Some((end, next)) => {
            let marker = checksum_marker_bytes();
            if !check_prefix(data, pos, end, marker.as_slice()) {
                assert forall|c: Seq<u8>|
                    c.len() <= MAX_ENCODE_LEN && #[trigger] line_at(data@, pos as int, checksum_marker() + checksum_text(c)) implies false by {
                    lemma_prefixed_line(data@, pos as int, checksum_marker(), checksum_text(c));
                }
                return Err(HeaderError::MissingPrefix(HeaderLine::Checksum));
            }
            let text = copy_range(data, pos + 6, end);
            assert(text@ =~= data@.subrange(pos as int, end as int).subrange(
                6,
                (end - pos) as int,
            ));
            let parsed = Checksum::parse_bytes(text.as_slice());
            assert forall|c: Seq<u8>|
                c.len() <= MAX_ENCODE_LEN && #[trigger] line_at(data@, pos as int, checksum_marker() + checksum_text(c)) implies checksum_step(
                data@,
                pos as int,
            ) == Ok::<(Seq<u8>, int), HeaderError>(
                (c, pos + (checksum_marker() + checksum_text(c)).len() + 1),
            ) by {
                lemma_prefixed_line(data@, pos as int, checksum_marker(), checksum_text(c));
                assert(text@ == checksum_text(c));
            }
            match parsed {
                Err(e) => Err(HeaderError::InvalidChecksum(e)),
                Ok(c) => Ok((c, next)),
            }
        },
    }
}

/// Read the `data:` line at `pos`; gives where the ciphertext starts.
fn parse_data_marker(data: &[u8], pos: usize) -> (r: Result<usize, HeaderError>)
    ensures
        match data_step(data@, pos as int) {
            Ok(next) => r matches Ok(p) && p == next,
            Err(e) => r == Err::<usize, HeaderError>(e),
        },
        match r {
            Ok(p) => p <= data@.len(),
            Err(_) => true,
        },
{
    match read_line(data, pos) {
        None => Err(HeaderError::Truncated),
        Some((end, next)) => {
            let marker = data_marker_bytes();
            if !check_prefix(data, pos, end, marker.as_slice()) {
                return Err(HeaderError::MissingPrefix(HeaderLine::Data));
            }
            Ok(next)
        },
    }
}


impl Header {
    #[verifier::type_invariant]
    spec fn inv(&self) -> bool {
        registered_strategy(self.version) is Some && self.checksum.value@.len() <= MAX_ENCODE_LEN
    }

    /// A header for data encrypted under `version`; fails when no strategy is
    /// registered for it.
    pub fn new(version: Version, salt: Salt, checksum: Checksum) -> (r: Result<Header, VersionError>)
        requires
            checksum.value@.len() <= MAX_ENCODE_LEN,
        ensures
            registered_strategy(version) is Some ==> (r matches Ok(h) && h@ == (HeaderSpec {
                version,
                salt: salt@,
                checksum: checksum@,
            })),
            registered_strategy(version) is None ==> r == Err::<Header, VersionError>(
                (VersionError { version }),
            ),
    {
        match get_version_strategy(&version) {
            Ok(_) => Ok(Header { version, salt, checksum }),
            Err(e) => Err(e),
        }
    }

    pub fn version(&self) -> (r: &Version)
        ensures
            *r == self@.version,
    {
        &self.version
    }

    pub fn salt(&self) -> (r: &Salt)
        ensures
            r@ == self@.salt,
    {
        &self.salt
    }

    pub fn checksum(&self) -> (r: &Checksum)
        ensures
            r@ == self@.checksum,
    {
        &self.checksum
    }

    /// The strategy that the header's version selects.
    pub fn strategy(&self) -> (r: Strategy)
        ensures
            registered_strategy(self@.version) == Some(r@),
    {
        proof {
            use_type_invariant(self);
        }
        match get_version_strategy(&self.version) {
            Ok(s) => s,
            Err(_) => {
                proof {
                    assert(false);
                }
                crate::strategy::get_current_version_strategy()
            },
        }
    }

    /// The header's version is registered and its salt has the fixed length.
    pub fn well_formed(&self)
        ensures
            header_wf(self@),
    {
        proof {
            use_type_invariant(self);
        }
        self.salt.len_is_fixed();
    }
}

impl PartialEq for Header {
    fn eq(&self, other: &Header) -> (r: bool) {
        self.version == other.version && self.salt.same_as(&other.salt)
            && self.checksum.same_as(&other.checksum)
    }
}

impl vstd::std_specs::cmp::PartialEqSpecImpl for Header {
    open spec fn obeys_eq_spec() -> bool {
        true
    }

    open spec fn eq_spec(&self, other: &Header) -> bool {
        self@ == other@
    }
}

impl Eq for Header {

}

/// Append `prefix`, then `value`, then a newline.
fn write_line(out: &mut Vec<u8>, prefix: &[u8], value: &[u8])
    ensures
        final(out)@ == old(out)@ + line(prefix@ + value@),
{
    append_bytes(out, prefix);
    append_bytes(out, value);
    out.push(10);
    assert(final(out)@ =~= old(out)@ + line(prefix@ + value@));
}

fn write_marker(out: &mut Vec<u8>)
    ensures
        final(out)@ == old(out)@ + line(header_marker()),
{
    let marker = marker_bytes();
    let empty: Vec<u8> = Vec::new();
    write_line(out, marker.as_slice(), empty.as_slice());
    assert(header_marker() + empty@ =~= header_marker());
}

fn write_version(out: &mut Vec<u8>, version: &Version)
    ensures
        final(out)@ == old(out)@ + line(version_marker() + version_text(*version)),
{
    let marker = version_marker_bytes();
    let mut text: Vec<u8> = Vec::new();
    version.write_text(&mut text);
    assert(text@ =~= version_text(*version));
    write_line(out, marker.as_slice(), text.as_slice());
}

fn write_salt(out: &mut Vec<u8>, salt: &Salt)
    ensures
        final(out)@ == old(out)@ + line(salt_marker() + base64url_text(salt@)),
        all_base64url(base64url_text(salt@)),
{
    let marker = salt_marker_bytes();
    let text = salt.base64_bytes();
    write_line(out, marker.as_slice(), text.as_slice());
}

fn write_checksum(out: &mut Vec<u8>, checksum: &Checksum)
    requires
        checksum.value@.len() <= MAX_ENCODE_LEN,
    ensures
        final(out)@ == old(out)@ + line(checksum_marker() + checksum_text(checksum.value@)),
        all_base64url(base64url_text(checksum.value@)),
{
    let marker = checksum_marker_bytes();
    let text = checksum.text_bytes();
    write_line(out, marker.as_slice(), text.as_slice());
}

/// Append the five header lines to `out`.
pub fn write_header(out: &mut Vec<u8>, header: &Header)
    ensures
        final(out)@ == old(out)@ + header_bytes(header@),
        header_wf(header@),
        header_plain(header@),
{
    header.well_formed();
    proof {
        use_type_invariant(header);
    }
    write_marker(out);
    write_version(out, &header.version);
    write_salt(out, &header.salt);
    write_checksum(out, &header.checksum);
    let marker = data_marker_bytes();
    let empty: Vec<u8> = Vec::new();
    write_line(out, marker.as_slice(), empty.as_slice());
    assert(data_marker() + empty@ =~= data_marker());
    assert(final(out)@ =~= old(out)@ + header_bytes(header@));
}

/// The data starts with the header `h`, written as `write_header` writes it.
pub open spec fn starts_with_header(data: Seq<u8>, h: HeaderSpec) -> bool {
    header_wf(h) && header_plain(h) && occurs_at(data, 0, header_bytes(h))
}

/// Read a header from the start of `data`. On success, also gives the
/// position of the first ciphertext byte: nothing after the `data:` line is
/// read. A header written by `write_header` reads back as itself, and the
/// position is then the header's length.
pub fn parse_header(data: &[u8]) -> (r: Result<(Header, usize), HeaderError>)
    ensures
        match parse_header_spec(data@) {
            Ok((h, n)) => r matches Ok((rh, rn)) && rh@ == h && rn == n,
            Err(e) => r matches Err(re) && re == e,
        },
        forall|h: HeaderSpec| #[trigger]
            starts_with_header(data@, h) ==> (r matches Ok((rh, rn)) && rh@ == h && rn
                == header_bytes(h).len()),
        match r {
            Ok((_, n)) => n <= data@.len(),
            Err(_) => true,
        },
{
    let after_marker = match parse_marker(data) {
        Ok(p) => p,
        Err(e) => {
            assert forall|h: HeaderSpec| #[trigger] starts_with_header(data@, h) implies false by {
                lemma_header_layout(data@, h);
                lemma_line_at(data@, 0, header_marker());
            }
            return Err(e);
        },
    };
    let (version, after_version) = match parse_version(data, after_marker) {
        Ok(x) => x,
        Err(e) => {
            assert forall|h: HeaderSpec| #[trigger] starts_with_header(data@, h) implies false by {
                lemma_header_layout(data@, h);
                lemma_line_at(data@, 0, header_marker());
                assert(line_at(data@, after_marker as int, version_marker() + version_text(h.version)));
            }
            return Err(e);
        },
    };
    let (salt, after_salt) = match parse_salt(data, after_version) {
        Ok(x) => x,
        Err(e) => {
            assert forall|h: HeaderSpec| #[trigger] starts_with_header(data@, h) implies false by {
                lemma_header_layout(data@, h);
                lemma_line_at(data@, 0, header_marker());
                assert(line_at(data@, after_marker as int, version_marker() + version_text(h.version)));
                assert(line_at(data@, after_version as int, salt_marker() + base64url_text(h.salt)));
            }
            return Err(e);
        },
    };
    let (checksum, after_checksum) = match parse_checksum(data, after_salt) {
        Ok(x) => x,
        Err(e) => {
            assert forall|h: HeaderSpec| #[trigger] starts_with_header(data@, h) implies false by {
                lemma_header_layout(data@, h);
                lemma_line_at(data@, 0, header_marker());
                assert(line_at(data@, after_marker as int, version_marker() + version_text(h.version)));
                assert(line_at(data@, after_version as int, salt_marker() + base64url_text(h.salt)));
                assert(line_at(data@, after_salt as int, checksum_marker() + checksum_text(h.checksum.1)));
            }
            return Err(e);
        },
    };
    let body_start = parse_data_marker(data, after_checksum);
    assert forall|h: HeaderSpec| #[trigger] starts_with_header(data@, h) implies parse_header_spec(
        data@,
    ) == Ok::<(HeaderSpec, int), HeaderError>((h, header_bytes(h).len() as int)) by {
        lemma_header_layout(data@, h);
        lemma_line_at(data@, 0, header_marker());
        assert(line_at(data@, after_marker as int, version_marker() + version_text(h.version)));
        assert(line_at(data@, after_version as int, salt_marker() + base64url_text(h.salt)));
        assert(line_at(data@, after_salt as int, checksum_marker() + checksum_text(h.checksum.1)));
        lemma_line_at(data@, after_checksum as int, data_marker());
        assert(after_prefix(data_marker(), data_marker()) is Some) by {
            assert(data_marker().subrange(0, data_marker().len() as int) =~= data_marker());
        }
        assert(checksum@.0 == h.checksum.0);
    }
    let body_start = match body_start {
        Ok(p) => p,
        Err(e) => {
            return Err(e);
        },
    };
    match Header::new(version, salt, checksum) {
        Ok(h) => Ok((h, body_start)),
        Err(e) => Err(HeaderError::UnknownVersion(e)),
    }
}

} // verus!
