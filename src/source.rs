//! Where the passphrase comes from, as written on the command line.
use vstd::prelude::*;
use vstd::string::StringSliceAdditionalSpecFns;
use vstd::utf8::{encode_utf8, is_char_boundary};

use crate::encoding::{bytes_eq, has_prefix_at, occurs_at};
use crate::key::Key;

verus! {

/// A source of the passphrase. Obtaining it from the source is up to the caller.
pub enum KeySource {
    /// The passphrase itself, given after `pass:`.
    CliArg(Key),
    /// An environment variable, named after `env:`.
    EnvVar(String),
    /// A file, whose path follows `file:`.
    File(String),
    /// Ask twice on the terminal: `ask`.
    AskTwice,
    /// Ask once on the terminal: `ask-once`.
    AskOnce,
    /// One line on standard input: `pipe`.
    Pipe,
}

/// The text was none of the recognised forms.
#[derive(Debug, Clone, Copy, PartialEq, Eq, Structural)]
pub struct KeySourceError;

/// `pass:`
pub open spec fn pass_prefix() -> Seq<u8> {
    seq![112u8, 97, 115, 115, 58]
}

/// `env:`
pub open spec fn env_prefix() -> Seq<u8> {
    seq![101u8, 110, 118, 58]
}

/// `file:`
pub open spec fn file_prefix() -> Seq<u8> {
    seq![102u8, 105, 108, 101, 58]
}

/// `ask`
pub open spec fn ask_text() -> Seq<u8> {
    seq![97u8, 115, 107]
}

/// `ask-once`
pub open spec fn ask_once_text() -> Seq<u8> {
    seq![97u8, 115, 107, 45, 111, 110, 99, 101]
}

/// `pipe`
pub open spec fn pipe_text() -> Seq<u8> {
    seq![112u8, 105, 112, 101]
}

/// The text after `prefix`, if `txt` starts with it.
fn after(txt: &str, prefix: &[u8]) -> (r: Option<String>)
    ensures
        r matches Some(s) ==> occurs_at(txt.spec_bytes(), 0, prefix@) && encode_utf8(s@)
            == txt.spec_bytes().subrange(prefix@.len() as int, txt.spec_bytes().len() as int),
        r is None ==> !occurs_at(txt.spec_bytes(), 0, prefix@) || !is_char_boundary(
            txt.spec_bytes(),
            prefix@.len() as int,
        ),
{
    if !has_prefix_at(txt.as_bytes(), 0, prefix) {
        return None;
    }
    if !txt.is_char_boundary(prefix.len()) {
        return None;
    }
    let (_, rest) = txt.split_at(prefix.len());
    Some(rest.to_owned())
}

fn literal(bytes: &[u8]) -> (r: Vec<u8>)
    ensures
        r@ == bytes@,
{
    let mut v: Vec<u8> = Vec::new();
    crate::encoding::append_bytes(&mut v, bytes);
    assert(v@ =~= bytes@);
    v
}

impl KeySource {
    /// Read a key source: `pass:<key>`, `env:<name>`, `file:<path>`, `ask`,
    /// `ask-once` or `pipe`. The prefixes are tried in that order.
    pub fn parse(txt: &str) -> (r: Result<KeySource, KeySourceError>)
        ensures
            occurs_at(txt.spec_bytes(), 0, pass_prefix()) ==> match r {
                Ok(KeySource::CliArg(k)) => encode_utf8(k.key_data@) == txt.spec_bytes().subrange(
                    5,
                    txt.spec_bytes().len() as int,
                ),
                Err(_) => !is_char_boundary(txt.spec_bytes(), 5),
                _ => false,
            },
            !occurs_at(txt.spec_bytes(), 0, pass_prefix()) && occurs_at(txt.spec_bytes(), 0, env_prefix())
                ==> match r {
                Ok(KeySource::EnvVar(n)) => encode_utf8(n@) == txt.spec_bytes().subrange(
                    4,
                    txt.spec_bytes().len() as int,
                ),
                Err(_) => !is_char_boundary(txt.spec_bytes(), 4),
                _ => false,
            },
            !occurs_at(txt.spec_bytes(), 0, pass_prefix()) && !occurs_at(txt.spec_bytes(), 0, env_prefix())
                && occurs_at(txt.spec_bytes(), 0, file_prefix()) ==> match r {
                Ok(KeySource::File(f)) => encode_utf8(f@) == txt.spec_bytes().subrange(
                    5,
                    txt.spec_bytes().len() as int,
                ),
                Err(_) => !is_char_boundary(txt.spec_bytes(), 5),
                _ => false,
            },
            !occurs_at(txt.spec_bytes(), 0, pass_prefix()) && !occurs_at(txt.spec_bytes(), 0, env_prefix())
                && !occurs_at(txt.spec_bytes(), 0, file_prefix()) ==> match r {
                Ok(KeySource::AskTwice) => txt.spec_bytes() == ask_text(),
                Ok(KeySource::AskOnce) => txt.spec_bytes() == ask_once_text(),
                Ok(KeySource::Pipe) => txt.spec_bytes() == pipe_text(),
                Err(_) => txt.spec_bytes() != ask_text() && txt.spec_bytes() != ask_once_text()
                    && txt.spec_bytes() != pipe_text(),
                _ => false,
            },
    {
        let bytes = txt.as_bytes();
        let pass = literal(&[112u8, 97, 115, 115, 58]);
        let env = literal(&[101u8, 110, 118, 58]);
        let file = literal(&[102u8, 105, 108, 101, 58]);
        let ask = literal(&[97u8, 115, 107]);
        let ask_once = literal(&[97u8, 115, 107, 45, 111, 110, 99, 101]);
        let pipe = literal(&[112u8, 105, 112, 101]);
        assert(pass@ =~= pass_prefix());
        assert(env@ =~= env_prefix());
        assert(file@ =~= file_prefix());
        assert(ask@ =~= ask_text());
        assert(ask_once@ =~= ask_once_text());
        assert(pipe@ =~= pipe_text());
        if has_prefix_at(bytes, 0, pass.as_slice()) {
            return match after(txt, pass.as_slice()) {
                Some(rest) => Ok(KeySource::CliArg(Key::new(rest.as_str()))),
                None => Err(KeySourceError),
            };
        }
        if has_prefix_at(bytes, 0, env.as_slice()) {
            return match after(txt, env.as_slice()) {
                Some(rest) => Ok(KeySource::EnvVar(rest)),
                None => Err(KeySourceError),
            };
        }
        if has_prefix_at(bytes, 0, file.as_slice()) {
            return match after(txt, file.as_slice()) {
                Some(rest) => Ok(KeySource::File(rest)),
                None => Err(KeySourceError),
            };
        }
        if bytes_eq(bytes, ask.as_slice()) {
            Ok(KeySource::AskTwice)
        } else if bytes_eq(bytes, ask_once.as_slice()) {
            Ok(KeySource::AskOnce)
        } else if bytes_eq(bytes, pipe.as_slice()) {
            Ok(KeySource::Pipe)
        } else {
            Err(KeySourceError)
        }
    }
}

} // verus!
