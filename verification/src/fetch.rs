//! The names under which the files of the archive lie in the remote store.
//!
//! The files of an epoch lie in a directory named after the epoch. A file is
//! named after the first sequence number that it holds, with a suffix for
//! its type.

use crate::manifest::{FileMetadata, FileType};
use vstd::prelude::*;
use vstd::string::StringExecFns;

verus! {

/// The character of a decimal digit.
pub open spec fn digit(value: nat) -> char {
    ((48 + value) as u8) as char
}

/// A number written in decimal digits, without leading zeros.
pub open spec fn decimal(number: nat) -> Seq<char>
    decreases number,
{
    if number < 10 {
        seq![digit(number)]
    } else {
        decimal(number / 10).push(digit(number % 10))
    }
}

/// The name of the directory of an epoch.
pub open spec fn epoch_dir_name(epoch_num: u64) -> Seq<char> {
    "epoch_"@ + decimal(epoch_num as nat)
}

/// The suffix of the files of a type.
pub open spec fn suffix_of(file_type: FileType) -> Seq<char> {
    match file_type {
        FileType::CheckpointContent => ".chk"@,
        FileType::CheckpointSummary => ".sum"@,
    }
}

/// The name of a file inside the directory `dir_path`.
pub open spec fn path_in(dir_path: Seq<char>, file: FileMetadata) -> Seq<char> {
    dir_path + "/"@ + decimal(file.checkpoint_seq_range.start as nat) + suffix_of(file.file_type)
}

/// Writes a number with `format!`, which for `u64` gives its decimal digits
/// without sign or leading zeros.
#[verifier::external_body]
fn decimal_string(number: u64) -> (text: String)
    ensures
        text@ == decimal(number as nat),
{
    format!("{}", number)
}

/// The name of the directory that holds the files of an epoch.
pub fn epoch_dir(epoch_num: u64) -> (name: String)
    ensures
        name@ == epoch_dir_name(epoch_num),
{
    let mut name = String::from_str("epoch_");
    let digits = decimal_string(epoch_num);
    name.append(digits.as_str());
    name
}

impl FileMetadata {
    /// The name of this file inside the directory `dir_path`.
    pub fn file_path(&self, dir_path: &str) -> (path: String)
        ensures
            path@ == path_in(dir_path@, *self),
    {
        let mut path = String::from_str(dir_path);
        path.append("/");
        let digits = decimal_string(self.checkpoint_seq_range.start);
        path.append(digits.as_str());
        match self.file_type {
            FileType::CheckpointContent => path.append(".chk"),
            FileType::CheckpointSummary => path.append(".sum"),
        }
        path
    }

    /// The name under which this file lies in the remote store.
    pub fn remote_path(&self) -> (path: String)
        ensures
            path@ == path_in(epoch_dir_name(self.epoch_num), *self),
    {
        let directory = epoch_dir(self.epoch_num);
        self.file_path(directory.as_str())
    }
}

} // verus!
