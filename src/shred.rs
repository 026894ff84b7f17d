//! The parts of secure shredding that decide rather than touch files: the
//! names of the temporary files, which patterns overwrite a file, how an
//! overwrite covers a buffer, and the configuration.
use vstd::prelude::*;
use vstd::arithmetic::div_mod::{lemma_div_denominator, lemma_fundamental_div_mod};
use vstd::string::StringSliceAdditionalSpecFns;
use vstd::utf8::encode_utf8;

use sha2::Digest;

use crate::encoding::{
    all_ascii, append_bytes, ascii_string, base64url_text, encode_base64url, le_bytes_n,
    u32_le_bytes,
};
use crate::encoding::slice_prefix;
use crate::strategy::Verbosity;

verus! {

/// The characters of generated names, in order: digits, then lower-case letters.
pub open spec fn name_char(d: nat) -> u8 {
    if d < 10 {
        (48 + d) as u8
    } else {
        (87 + d) as u8
    }
}

/// How many base-36 digits `n` has.
pub open spec fn ndigits36(n: nat) -> nat
    decreases n,
{
    if n < 36 {
        1
    } else {
        1 + ndigits36(n / 36)
    }
}

pub open spec fn pow36(k: nat) -> nat
    decreases k,
{
    if k == 0 {
        1
    } else {
        36 * pow36((k - 1) as nat)
    }
}

/// The last `len` base-36 digits of `v`, most significant first.
pub open spec fn digits36(v: nat, len: nat) -> Seq<u8>
    decreases len,
{
    if len == 0 {
        Seq::empty()
    } else {
        digits36(v / 36, (len - 1) as nat).push(name_char(v % 36))
    }
}

/// The name of number `n`: names of one character come first, then names of
/// two, and so on. A name of `L` characters holds `n - 36^(L-1)` in base 36,
/// padded with zeros, so that `36^(L-1)` is named `0...0`.
pub open spec fn name_spec(n: nat) -> Seq<u8> {
    let len = ndigits36(n);
    if len == 1 {
        digits36(n, 1)
    } else {
        digits36((n - pow36((len - 1) as nat)) as nat, len)
    }
}

fn push_digits36(out: &mut Vec<u8>, v: u64, len: u64)
    ensures
        final(out)@ == old(out)@ + digits36(v as nat, len as nat),
        all_ascii(final(out)@.subrange(old(out)@.len() as int, final(out)@.len() as int)),
    decreases len,
{
    if len > 0 {
        push_digits36(out, v / 36, len - 1);
        let d: u64 = v % 36;
        let c: u8 = if d < 10 {
            48 + d as u8
        } else {
            87 + d as u8
        };
        let ghost mid = out@;
        out.push(c);
        assert(final(out)@ =~= old(out)@ + digits36(v as nat, len as nat));
        assert(final(out)@.subrange(old(out)@.len() as int, final(out)@.len() as int) =~= mid.subrange(
            old(out)@.len() as int,
            mid.len() as int,
        ).push(c));
    } else {
        assert(final(out)@ =~= old(out)@ + digits36(v as nat, len as nat));
    }
}

/// A short, distinct name for each number: `0`..`z`, then `00`, `01`, ...
pub fn generate_name(number: u64) -> (r: String)
    ensures
        encode_utf8(r@) == name_spec(number as nat),
{
    let mut m: u64 = number;
    let mut p: u64 = 1;
    let mut len: u64 = 1;
    while m >= 36
        invariant
            1 <= len <= p,
            p == pow36((len - 1) as nat),
            m == number / p,
            ndigits36(number as nat) == len - 1 + ndigits36(m as nat),
            p <= number || len == 1,
        decreases m,
    {
        proof {
            lemma_div_denominator(number as int, p as int, 36);
            lemma_fundamental_div_mod(number as int, p as int);
            lemma_fundamental_div_mod(m as int, 36);
            assert(p * 36 <= number) by (nonlinear_arith)
                requires
                    m >= 36,
                    m == number / p,
                    number == p * (number / p) + number % p,
                    number % p >= 0,
                    p >= 1,
            ;
        }
        m = m / 36;
        p = p * 36;
        len = len + 1;
    }
    let value: u64 = if len == 1 {
        number
    } else {
        number - p
    };
    let mut out: Vec<u8> = Vec::new();
    push_digits36(&mut out, value, len);
    assert(out@ =~= name_spec(number as nat));
    assert(out@.subrange(0, out@.len() as int) =~= out@);
    ascii_string(out)
}

/// The SHA-256 digest of `data`.
pub uninterp spec fn sha256_of(data: Seq<u8>) -> Seq<u8>;

/// Relies on sha2's Sha256::digest, a 32-byte digest.
#[verifier::external_body]
fn sha256_digest(data: &[u8]) -> (r: Vec<u8>)
    ensures
        r@ == sha256_of(data@),
        r@.len() == 32,
{
    sha2::Sha256::digest(data).to_vec()
}

/// The name a file being shredded takes on its `number`th rename: `tmp` and
/// the first 20 characters of the base64 SHA-256 of its current name and the
/// number.
pub open spec fn temporary_name_spec(name: Seq<u8>, number: u32) -> Seq<u8> {
    seq![116u8, 109, 112] + base64url_text(sha256_of(name + le_bytes_n(number as nat, 4))).subrange(0, 20)
}

pub fn temporary_name(name: &str, number: u32) -> (r: String)
    ensures
        encode_utf8(r@) == temporary_name_spec(name.spec_bytes(), number),
{
    let mut input: Vec<u8> = Vec::new();
    append_bytes(&mut input, name.as_bytes());
    let idx = u32_le_bytes(number);
    append_bytes(&mut input, idx.as_slice());
    let digest = sha256_digest(input.as_slice());
    proof {
        crate::encoding::lemma_encode_bound();
    }
    let text = encode_base64url(digest.as_slice());
    let prefix = slice_prefix(text.as_slice(), 20);
    let mut out: Vec<u8> = vec![116u8, 109, 112];
    append_bytes(&mut out, prefix.as_slice());
    assert(out@ =~= temporary_name_spec(name.spec_bytes(), number));
    assert forall|i: int| 0 <= i < out@.len() implies out@[i] < 128 by {
        if i >= 3 {
            assert(out@[i] == text@[i - 3]);
            assert(crate::encoding::is_base64url_byte(text@[i - 3]));
        }
    }
    ascii_string(out)
}

/// The block that overwrites a file: 512 bytes.
pub const BLOCK_LEN: u64 = 512;

/// How many whole blocks cover `file_size` bytes.
pub open spec fn overwrite_steps_spec(file_size: u64) -> nat {
    ((file_size as nat + 511) / 512) as nat
}

pub fn overwrite_steps(file_size: u64) -> (r: u64)
    ensures
        r == overwrite_steps_spec(file_size),
{
    file_size / 512 + if file_size % 512 == 0 {
        0
    } else {
        1
    }
}

/// A buffer after an overwrite from its start with whole blocks of `value`:
/// the blocks may reach past the old end, and what lies beyond them stays.
pub open spec fn overwritten(old: Seq<u8>, file_size: u64, value: u8) -> Seq<u8> {
    let covered = overwrite_steps_spec(file_size) * 512;
    let len = if old.len() > covered {
        old.len()
    } else {
        covered
    };
    Seq::new(len, |i: int| if i < covered { value } else { old[i] })
}

/// Overwrite an in-memory file from its start with whole 512-byte blocks of
/// `value`, enough to cover `file_size` bytes.
pub fn overwrite_constant(file: &mut Vec<u8>, file_size: u64, value: u8)
    requires
        overwrite_steps_spec(file_size) * 512 <= usize::MAX,
    ensures
        final(file)@ == overwritten(old(file)@, file_size, value),
{
    let steps = overwrite_steps(file_size);
    let covered: usize = (steps * 512) as usize;
    let mut i: usize = 0;
    while i < covered
        invariant
            0 <= i <= covered,
            covered == overwrite_steps_spec(file_size) * 512,
            file@.len() == if old(file)@.len() > i {
                old(file)@.len()
            } else {
                i as nat
            },
            forall|j: int| 0 <= j < file@.len() ==> #[trigger] file@[j] == if j < i {
                value
            } else {
                old(file)@[j]
            },
        decreases covered - i,
    {
        if i < file.len() {
            file.set(i, value);
        } else {
            file.push(value);
        }
        i = i + 1;
    }
    assert(file@ =~= overwritten(old(file)@, file_size, value));
}

/// One pass over a file being shredded.
#[derive(Debug, Clone, Copy, PartialEq, Eq, Structural)]
pub enum OverwritePass {
    Constant(u8),
    Random,
}

/// The constant patterns, in the order they are used: 00000000, 11111111,
/// 01010101, 10101010.
pub open spec fn pattern(i: int) -> u8 {
    if i == 0 {
        0
    } else if i == 1 {
        255
    } else if i == 2 {
        85
    } else {
        170
    }
}

/// The passes of `count` overwrites: up to four constant patterns, always
/// leaving the last pass random.
pub open spec fn passes_spec(count: u32) -> Seq<OverwritePass> {
    Seq::new(
        count as nat,
        |i: int| if i < 4 && i < count - 1 {
            OverwritePass::Constant(pattern(i))
        } else {
            OverwritePass::Random
        },
    )
}

pub fn overwrite_passes(count: u32) -> (r: Vec<OverwritePass>)
    ensures
        r@ == passes_spec(count),
{
    let mut out: Vec<OverwritePass> = Vec::new();
    let mut i: u32 = 0;
    while i < count
        invariant
            0 <= i <= count,
            out@.len() == i,
            forall|j: int| 0 <= j < i ==> #[trigger] out@[j] == passes_spec(count)[j],
        decreases count - i,
    {
        let pass = if i < 4 && i + 1 < count {
            let v: u8 = if i == 0 {
                0
            } else if i == 1 {
                255
            } else if i == 2 {
                85
            } else {
                170
            };
            OverwritePass::Constant(v)
        } else {
            OverwritePass::Random
        };
        out.push(pass);
        i = i + 1;
    }
    assert(out@ =~= passes_spec(count));
    out
}

/// How to shred a batch of files.
pub struct ShredConfig {
    pub files: Vec<String>,
    pub confirmation_prompt: bool,
    pub verbosity: Verbosity,
    pub keep_files: bool,
    pub overwrite_count: u32,
    pub rename_count: u32,
    pub progress_bar: bool,
}

pub const DEFAULT_OVERWRITE_COUNT: u32 = 10;

pub const DEFAULT_RENAME_COUNT: u32 = 10;

impl ShredConfig {
    /// Shred without asking and without a progress bar.
    pub fn non_interactive(
        files: Vec<String>,
        verbosity: Verbosity,
        keep_files: bool,
        overwrite_count: u32,
        rename_count: u32,
    ) -> (r: ShredConfig)
        ensures
            r.files@ == files@,
            !r.confirmation_prompt,
            r.verbosity == verbosity,
            r.keep_files == keep_files,
            r.overwrite_count == overwrite_count,
            r.rename_count == rename_count,
            !r.progress_bar,
    {
        ShredConfig {
            files,
            confirmation_prompt: false,
            verbosity,
            keep_files,
            overwrite_count,
            rename_count,
            progress_bar: false,
        }
    }

    /// Shred with a progress bar unless quiet, asking first if requested.
    pub fn interactive(
        files: Vec<String>,
        confirmation_prompt: bool,
        verbosity: Verbosity,
        keep_files: bool,
        overwrite_count: u32,
        rename_count: u32,
    ) -> (r: ShredConfig)
        ensures
            r.files@ == files@,
            r.confirmation_prompt == confirmation_prompt,
            r.verbosity == verbosity,
            r.keep_files == keep_files,
            r.overwrite_count == overwrite_count,
            r.rename_count == rename_count,
            r.progress_bar == (verbosity != Verbosity::Quiet),
    {
        let progress_bar = !verbosity.quiet();
        ShredConfig {
            files,
            confirmation_prompt,
            verbosity,
            keep_files,
            overwrite_count,
            rename_count,
            progress_bar,
        }
    }

    /// Shred without asking, with the default counts.
    pub fn new(files: Vec<String>, verbosity: Verbosity, keep_files: bool) -> (r: ShredConfig)
        ensures
            r.files@ == files@,
            !r.confirmation_prompt,
            r.verbosity == verbosity,
            r.keep_files == keep_files,
            r.overwrite_count == DEFAULT_OVERWRITE_COUNT,
            r.rename_count == DEFAULT_RENAME_COUNT,
            !r.progress_bar,
    {
        ShredConfig::non_interactive(files, verbosity, keep_files, DEFAULT_OVERWRITE_COUNT, DEFAULT_RENAME_COUNT)
    }
}

/// The shredder's command-line options, as parsed.
pub struct ShredArguments {
    pub files: Vec<String>,
    pub no_confirm: bool,
    pub debug: bool,
    pub quiet: bool,
    pub keep: bool,
    pub overwrite_count: u32,
    pub rename_count: Option<u32>,
}

/// Options that contradict each other or are out of range.
#[derive(Debug, Clone, Copy, PartialEq, Eq, Structural)]
pub enum ArgumentError {
    /// Quiet and debug output were both asked for.
    QuietAndDebug,
    /// At least one overwrite is needed.
    ZeroOverwriteCount,
}

impl ShredArguments {
    /// Turn the options into a configuration.
    pub fn convert(self) -> (r: Result<ShredConfig, ArgumentError>)
        ensures
            self.debug && self.quiet ==> r == Err::<ShredConfig, ArgumentError>(ArgumentError::QuietAndDebug),
            !(self.debug && self.quiet) && self.overwrite_count == 0 ==> r == Err::<ShredConfig, ArgumentError>(
                ArgumentError::ZeroOverwriteCount,
            ),
            !(self.debug && self.quiet) && self.overwrite_count > 0 ==> (r matches Ok(c) && c.files@
                == self.files@ && c.confirmation_prompt == !self.no_confirm && c.verbosity == (if self.debug {
                Verbosity::Debug
            } else if self.quiet {
                Verbosity::Quiet
            } else {
                Verbosity::Normal
            }) && c.keep_files == self.keep && c.overwrite_count == self.overwrite_count
                && c.rename_count == (match self.rename_count {
                Some(n) => n,
                None => DEFAULT_RENAME_COUNT,
            }) && c.progress_bar == !self.quiet),
    {
        let verbosity = if self.debug && self.quiet {
            return Err(ArgumentError::QuietAndDebug);
        } else if self.debug {
            Verbosity::Debug
        } else if self.quiet {
            Verbosity::Quiet
        } else {
            Verbosity::Normal
        };
        if self.overwrite_count == 0 {
            return Err(ArgumentError::ZeroOverwriteCount);
        }
        let rename_count = match self.rename_count {
            Some(n) => n,
            None => DEFAULT_RENAME_COUNT,
        };
        Ok(
            ShredConfig::interactive(
                self.files,
                !self.no_confirm,
                verbosity,
                self.keep,
                self.overwrite_count,
                rename_count,
            ),
        )
    }
}

} // verus!
