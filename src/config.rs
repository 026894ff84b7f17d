//! The settings of an encryption or decryption batch.
use vstd::prelude::*;

use crate::key::Key;
use crate::strategy::Verbosity;

verus! {

/// Settings of an encryption batch. A dry run never overwrites or deletes.
pub struct EncryptConfig {
    pub files: Vec<String>,
    pub raw_key: Key,
    pub verbosity: Verbosity,
    pub overwrite: bool,
    pub delete_input: bool,
    pub output_dir: Option<String>,
    pub output_extension: String,
    pub dry_run: bool,
}

impl EncryptConfig {
    pub fn new(
        files: Vec<String>,
        raw_key: Key,
        verbosity: Verbosity,
        overwrite: bool,
        delete_input: bool,
        output_dir: Option<String>,
        output_extension: String,
        dry_run: bool,
    ) -> (r: EncryptConfig)
        requires
            files@.len() > 0,
        ensures
            r.files@ == files@,
            r.raw_key.key_data@ == raw_key.key_data@,
            r.verbosity == verbosity,
            r.overwrite == (overwrite && !dry_run),
            r.delete_input == (delete_input && !dry_run),
            r.output_dir == output_dir,
            r.output_extension@ == output_extension@,
            r.dry_run == dry_run,
    {
        EncryptConfig {
            files,
            raw_key,
            verbosity,
            overwrite: overwrite && !dry_run,
            delete_input: delete_input && !dry_run,
            output_dir,
            output_extension,
            dry_run,
        }
    }

    pub fn output_extension(&self) -> (r: &str)
        ensures
            r@ == self.output_extension@,
    {
        self.output_extension.as_str()
    }

    pub fn dry_run(&self) -> (r: bool)
        ensures
            r == self.dry_run,
    {
        self.dry_run
    }

    pub fn output_dir(&self) -> (r: Option<&String>)
        ensures
            match self.output_dir {
                Some(d) => r matches Some(x) && x@ == d@,
                None => r is None,
            },
    {
        match &self.output_dir {
            Some(d) => Some(d),
            None => None,
        }
    }
}

/// Settings of a decryption batch.
pub struct DecryptConfig {
    pub files: Vec<String>,
    pub raw_key: Key,
    pub verbosity: Verbosity,
    pub overwrite: bool,
    pub delete_input: bool,
    pub output_dir: Option<String>,
}

impl DecryptConfig {
    pub fn new(
        files: Vec<String>,
        raw_key: Key,
        verbosity: Verbosity,
        overwrite: bool,
        delete_input: bool,
        output_dir: Option<String>,
    ) -> (r: DecryptConfig)
        requires
            files@.len() > 0,
        ensures
            r.files@ == files@,
            r.raw_key.key_data@ == raw_key.key_data@,
            r.verbosity == verbosity,
            r.overwrite == overwrite,
            r.delete_input == delete_input,
            r.output_dir == output_dir,
    {
        DecryptConfig { files, raw_key, verbosity, overwrite, delete_input, output_dir }
    }

    pub fn output_dir(&self) -> (r: Option<&String>)
        ensures
            match self.output_dir {
                Some(d) => r matches Some(x) && x@ == d@,
                None => r is None,
            },
    {
        match &self.output_dir {
            Some(d) => Some(d),
            None => None,
        }
    }
}

} // verus!
