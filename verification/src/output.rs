//! Where the document goes.

use crate::paths::{file_name, last_name, lemma_parted, renamed, stem, with_file_name};
use crate::text::{decimal, push_number};
use vstd::prelude::*;

verus! {

/// A document that could not be written.
#[derive(Debug, PartialEq, Eq)]
pub struct OutputError {
    /// The file, or nothing for standard output.
    pub path: Option<String>,
    /// What the system said.
    pub source: String,
}

impl OutputError {
    /// The failure as a sentence.
    pub fn message(&self) -> (text: String)
        ensures
            text@ == match self.path {
                Some(path) => "could not write "@ + path@ + ": "@ + self.source@,
                None => "could not write to standard output: "@ + self.source@,
            },
    {
        match &self.path {
            Some(path) => {
                let mut text = "could not write ".to_owned();
                text.push_str(path);
                text.push_str(": ");
                text.push_str(&self.source);
                text
            },
            None => {
                let mut text = "could not write to standard output: ".to_owned();
                text.push_str(&self.source);
                text
            },
        }
    }
}

/// The file that a document is written to before it takes its place: beside the
/// target, so that the move stays on one file system.
pub open spec fn scratch_of(path: Seq<char>, process: int) -> Seq<char> {
    let own = match last_name(path) {
        Some(name) => name,
        None => Seq::empty(),
    };
    renamed(path, own + ".rchtmltopdf-"@ + decimal(process) + ".part"@)
}

/// The file that a document is written to before it takes its place.
pub fn scratch_path(path: &str, process: u32) -> (scratch: String)
    ensures
        scratch@ == scratch_of(path@, process as int),
{
    let mut name = match file_name(path) {
        Some(name) => name,
        None => String::new(),
    };
    name.push_str(".rchtmltopdf-");
    push_number(&mut name, process as u64);
    name.push_str(".part");
    with_file_name(path, &name)
}

/// A document that is not whole yet stands beside its target, under a name that
/// the target is the beginning of.
pub proof fn law_the_scratch_file_is_beside_its_target(path: Seq<char>, process: int)
    requires
        last_name(path) is Some,
    ensures
        scratch_of(path, process) == stem(path) + ".rchtmltopdf-"@ + decimal(process) + ".part"@,
{
    lemma_parted(stem(path));
    assert(scratch_of(path, process) =~= stem(path) + ".rchtmltopdf-"@ + decimal(process)
        + ".part"@);
}

} // verus!
