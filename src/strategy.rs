//! Registry of encryption strategies, one per published format version.
use vstd::prelude::*;
use vstd::string::StringSliceAdditionalSpecFns;

use crate::encoding::{all_ascii, ascii_string, decimal_bytes, push_decimal};

verus! {

/// How much a pipeline reports while it runs.
#[derive(Debug, Clone, Copy, PartialEq, Eq, Structural)]
pub enum Verbosity {
    Quiet,
    Normal,
    Debug,
}

impl Default for Verbosity {
    fn default() -> (r: Self)
        ensures
            r == Verbosity::Normal,
    {
        Verbosity::Normal
    }
}

impl Verbosity {
    pub fn debug(self) -> (r: bool)
        ensures
            r == (self == Verbosity::Debug),
    {
        matches!(self, Verbosity::Debug)
    }

    pub fn quiet(self) -> (r: bool)
        ensures
            r == (self == Verbosity::Quiet),
    {
        matches!(self, Verbosity::Quiet)
    }
}

/// A semantic version without pre-release or build metadata.
#[derive(Debug, Clone, Copy, PartialEq, Eq, Structural)]
pub struct Version {
    pub major: u64,
    pub minor: u64,
    pub patch: u64,
}

/// Standard major.minor.patch ordering.
pub open spec fn version_lt(a: Version, b: Version) -> bool {
    a.major < b.major || (a.major == b.major && (a.minor < b.minor || (a.minor == b.minor
        && a.patch < b.patch)))
}

impl Version {
    pub fn new(major: u64, minor: u64, patch: u64) -> (r: Version)
        ensures
            r == (Version { major, minor, patch }),
    {
        Version { major, minor, patch }
    }

    /// Whether `self` comes strictly before `other`.
    pub fn is_before(&self, other: &Version) -> (r: bool)
        ensures
            r == version_lt(*self, *other),
    {
        if self.major != other.major {
            self.major < other.major
        } else if self.minor != other.minor {
            self.minor < other.minor
        } else {
            self.patch < other.patch
        }
    }
}

pub const CURRENT_MAJOR: u64 = 1;

pub const CURRENT_MINOR: u64 = 0;

pub const CURRENT_PATCH: u64 = 0;

/// The version that this build writes into new headers.
pub open spec fn current_version_spec() -> Version {
    Version { major: CURRENT_MAJOR, minor: CURRENT_MINOR, patch: CURRENT_PATCH }
}

/// The oldest registered version.
pub open spec fn oldest_version() -> Version {
    Version { major: 1, minor: 0, patch: 0 }
}

pub fn get_current_version() -> (r: Version)
    ensures
        r == current_version_spec(),
{
    Version { major: CURRENT_MAJOR, minor: CURRENT_MINOR, patch: CURRENT_PATCH }
}

#[derive(Debug, Clone, Copy, PartialEq, Eq, Structural)]
pub enum CompressionAlg {
    Brotli,
    Uncompressed,
}

/// A slow hash with a fixed parameter set. A parameter change needs a new variant.
#[derive(Debug, Clone, Copy, PartialEq, Eq, Structural)]
pub enum KeyHashAlg {
    /// bcrypt with cost 10 on the first 16 salt bytes.
    BCrypt,
    /// Argon2i with 30 passes, 8 lanes and 4096 KiB.
    Argon2i,
    /// PBKDF2 with HMAC-SHA512 and 70000 iterations.
    Sha512,
}

/// A block cipher in CBC mode with ISO/IEC 7816-4 padding.
#[derive(Debug, Clone, Copy, PartialEq, Eq, Structural)]
pub enum SymmetricEncryptionAlg {
    Aes256,
    Twofish,
}

/// The algorithm choices behind one format version.
#[derive(Debug, Clone, PartialEq, Eq)]
pub struct Strategy {
    pub stretch_count: u64,
    pub compression_algorithm: CompressionAlg,
    pub key_hash_algorithms: Vec<KeyHashAlg>,
    pub symmetric_algorithms: Vec<SymmetricEncryptionAlg>,
}

/// A strategy as plain values.
pub struct StrategySpec {
    pub stretch_count: u64,
    pub compression_algorithm: CompressionAlg,
    pub key_hash_algorithms: Seq<KeyHashAlg>,
    pub symmetric_algorithms: Seq<SymmetricEncryptionAlg>,
}

impl View for Strategy {
    type V = StrategySpec;

    open spec fn view(&self) -> StrategySpec {
        StrategySpec {
            stretch_count: self.stretch_count,
            compression_algorithm: self.compression_algorithm,
            key_hash_algorithms: self.key_hash_algorithms@,
            symmetric_algorithms: self.symmetric_algorithms@,
        }
    }
}

/// The strategy published with version 1.0.0. It must never change.
pub open spec fn strategy_1_0_0() -> StrategySpec {
    StrategySpec {
        stretch_count: 5,
        compression_algorithm: CompressionAlg::Brotli,
        key_hash_algorithms: seq![KeyHashAlg::BCrypt, KeyHashAlg::Argon2i, KeyHashAlg::Sha512],
        symmetric_algorithms: seq![SymmetricEncryptionAlg::Aes256, SymmetricEncryptionAlg::Twofish],
    }
}

/// The registry: a version resolves to the strategy of the highest registered
/// version at or below it; versions below the oldest entry resolve to nothing.
/// Versions above the newest entry resolve to the newest strategy.
pub open spec fn registered_strategy(v: Version) -> Option<StrategySpec> {
    if version_lt(v, oldest_version()) {
        None
    } else {
        Some(strategy_1_0_0())
    }
}

/// A strategy is well-formed when it has at least one key hash and one cipher.
pub open spec fn strategy_wf(s: StrategySpec) -> bool {
    s.key_hash_algorithms.len() > 0 && s.symmetric_algorithms.len() > 0
}

fn build_strategy_1_0_0() -> (r: Strategy)
    ensures
        r@ == strategy_1_0_0(),
{
    let r = Strategy {
        stretch_count: 5,
        compression_algorithm: CompressionAlg::Brotli,
        key_hash_algorithms: vec![KeyHashAlg::BCrypt, KeyHashAlg::Argon2i, KeyHashAlg::Sha512],
        symmetric_algorithms: vec![SymmetricEncryptionAlg::Aes256, SymmetricEncryptionAlg::Twofish],
    };
    assert(r.key_hash_algorithms@ =~= strategy_1_0_0().key_hash_algorithms);
    assert(r.symmetric_algorithms@ =~= strategy_1_0_0().symmetric_algorithms);
    r
}

/// Raised when a version is older than every registered strategy.
#[derive(Debug, Clone, Copy, PartialEq, Eq, Structural)]
pub struct VersionError {
    pub version: Version,
}

/// Get the encryption strategy used for a specific format version.
pub fn get_version_strategy(version: &Version) -> (r: Result<Strategy, VersionError>)
    ensures
        match registered_strategy(*version) {
            Some(s) => r matches Ok(st) && st@ == s,
            None => r == Err::<Strategy, VersionError>(VersionError { version: *version }),
        },
{
    let oldest = Version { major: 1, minor: 0, patch: 0 };
    if version.is_before(&oldest) {
        return Err(VersionError { version: *version });
    }
    Ok(build_strategy_1_0_0())
}

/// The strategy of the version this build writes.
pub fn get_current_version_strategy() -> (r: Strategy)
    ensures
        registered_strategy(current_version_spec()) == Some(r@),
        strategy_wf(r@),
{
    let v = get_current_version();
    match get_version_strategy(&v) {
        Ok(s) => s,
        Err(_) => build_strategy_1_0_0(),
    }
}

/// Every version at or above the oldest registered one resolves, and the
/// current version is one of them.
pub proof fn lemma_registered_versions_resolve(v: Version)
    requires
        !version_lt(v, oldest_version()),
    ensures
        registered_strategy(v) is Some,
        strategy_wf(registered_strategy(v)->0),
        registered_strategy(current_version_spec()) is Some,
{
}

/// Every version strictly below the oldest registered strategy is rejected.
pub proof fn lemma_old_versions_rejected(v: Version)
    requires
        version_lt(v, oldest_version()),
    ensures
        registered_strategy(v) is None,
{
}


/// What semver makes of a version text: major, minor, patch, and whether it
/// has neither pre-release nor build metadata.
pub uninterp spec fn semver_parsed(text: Seq<u8>) -> Option<(u64, u64, u64, bool)>;

/// The text `major.minor.patch`, in decimal without leading zeros.
pub open spec fn version_text(v: Version) -> Seq<u8> {
    decimal_bytes(v.major as nat) + seq![46u8] + decimal_bytes(v.minor as nat) + seq![46u8]
        + decimal_bytes(v.patch as nat)
}

/// Relies on semver::Version::parse, which accepts `major.minor.patch` in
/// decimal without leading zeros, optionally followed by pre-release and
/// build metadata.
#[verifier::external_body]
fn semver_parse(text: &str) -> (r: Option<(u64, u64, u64, bool)>)
    ensures
        r == semver_parsed(text.spec_bytes()),
        forall|v: Version| #[trigger] version_text(v) == text.spec_bytes() ==> r == Some(
            (v.major, v.minor, v.patch, true),
        ),
{
    match semver::Version::parse(text) {
        Ok(v) => Some((v.major, v.minor, v.patch, v.pre.is_empty() && v.build.is_empty())),
        Err(_) => None,
    }
}

/// The version a text names: plain `major.minor.patch` only.
pub open spec fn parsed_version(text: Seq<u8>) -> Option<Version> {
    if all_ascii(text) {
        match semver_parsed(text) {
            Some((a, b, c, true)) => Some(Version { major: a, minor: b, patch: c }),
            _ => None,
        }
    } else {
        None
    }
}

/// A version text holds digits and dots only.
pub proof fn lemma_version_text_plain(v: Version)
    ensures
        all_ascii(version_text(v)),
        forall|i: int| 0 <= i < version_text(v).len() ==> {
            let b = #[trigger] version_text(v)[i];
            (48 <= b <= 57) || b == 46
        },
{
    crate::encoding::lemma_decimal_digits(v.major as nat);
    crate::encoding::lemma_decimal_digits(v.minor as nat);
    crate::encoding::lemma_decimal_digits(v.patch as nat);
    let t = version_text(v);
    let a = decimal_bytes(v.major as nat);
    let b = decimal_bytes(v.minor as nat);
    let c = decimal_bytes(v.patch as nat);
    assert forall|i: int| 0 <= i < t.len() implies {
        let x = #[trigger] t[i];
        (48 <= x <= 57) || x == 46
    } by {
        if i < a.len() {
            assert(t[i] == a[i]);
        } else if i == a.len() {
        } else if i < a.len() + 1 + b.len() {
            assert(t[i] == b[i - a.len() - 1]);
        } else if i == a.len() + 1 + b.len() {
        } else {
            assert(t[i] == c[i - a.len() - 2 - b.len()]);
        }
    }
}

impl Version {
    /// Read a plain `major.minor.patch` version from its text.
    pub fn parse_text(text: &[u8]) -> (r: Option<Version>)
        ensures
            r == parsed_version(text@),
            forall|v: Version| #[trigger] version_text(v) == text@ ==> r == Some(v),
    {
        let mut i: usize = 0;
        while i < text.len()
            invariant
                0 <= i <= text@.len(),
                forall|j: int| 0 <= j < i ==> text@[j] < 128,
            decreases text@.len() - i,
        {
            if text[i] >= 128 {
                assert forall|v: Version| #[trigger] version_text(v) == text@ implies false by {
                    lemma_version_text_plain(v);
                    assert(text@[i as int] < 128);
                }
                return None;
            }
            i = i + 1;
        }
        let mut owned: Vec<u8> = Vec::new();
        crate::encoding::append_bytes(&mut owned, text);
        assert(owned@ =~= text@);
        let s = ascii_string(owned);
        let st = s.as_str();
        assert(st.spec_bytes() == text@);
        let parsed = semver_parse(st);
        match parsed {
            Some((a, b, c, plain)) => {
                if plain {
                    Some(Version { major: a, minor: b, patch: c })
                } else {
                    None
                }
            },
            None => None,
        }
    }

    /// Append the text `major.minor.patch`.
    pub fn write_text(&self, out: &mut Vec<u8>)
        ensures
            final(out)@ == old(out)@ + version_text(*self),
    {
        push_decimal(out, self.major);
        out.push(46);
        push_decimal(out, self.minor);
        out.push(46);
        push_decimal(out, self.patch);
        assert(final(out)@ =~= old(out)@ + version_text(*self));
    }
}

} // verus!
