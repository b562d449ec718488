//! Where a document is read from.

use crate::document::{Input, InputView};
use crate::encoding::{
    law_url_text_is_plain, lemma_url_text_decodes, push_url_text, url_byte, url_text,
};
use crate::file_access::path_of;
use crate::network::{before_query, NetworkError};
use crate::paths::{join, joined};
use crate::text::{
    decimal, law_decimal_spells_its_number, lemma_find_none, maybe, push_number,
};
use vstd::prelude::*;
use vstd::utf8::encode_utf8;

verus! {

/// A document that cannot be read.
#[derive(Debug, PartialEq, Eq)]
pub struct InputError {
    pub input: String,
    pub reason: String,
    /// The network error that the failure counts as.
    pub error: NetworkError,
}

impl InputError {
    /// The failure as a sentence.
    pub fn message(&self) -> (text: String)
        ensures
            text@ == "could not read "@ + self.input@ + ": "@ + self.reason@,
    {
        let mut text = "could not read ".to_owned();
        text.push_str(&self.input);
        text.push_str(": ");
        text.push_str(&self.reason);
        text
    }
}

/// A document that the browser can be pointed at.
#[derive(Debug, PartialEq, Eq)]
pub struct Resolved {
    url: String,
    /// A file that was written for it, and is to be removed after it.
    scratch: Option<String>,
}

/// A [`Resolved`] by the characters it holds.
pub struct ResolvedView {
    pub url: Seq<char>,
    pub scratch: Option<Seq<char>>,
}

impl View for Resolved {
    type V = ResolvedView;

    closed spec fn view(&self) -> ResolvedView {
        ResolvedView { url: self.url@, scratch: maybe(self.scratch) }
    }
}

/// The URL of a file.
pub open spec fn url_of(path: Seq<char>) -> Seq<char> {
    "file://"@ + url_text(encode_utf8(path), true)
}

/// The URL of a file.
pub fn file_url(path: &str) -> (url: String)
    ensures
        url@ == url_of(path@),
{
    let mut url = "file://".to_owned();
    push_url_text(&mut url, path, true);
    url
}

impl Resolved {
    /// A document that the browser fetches itself.
    pub fn at_url(url: &str) -> (resolved: Resolved)
        ensures
            resolved@ == (ResolvedView { url: url@, scratch: None }),
    {
        Resolved { url: url.to_owned(), scratch: None }
    }

    /// A file, by the path that the file system resolved.
    pub fn at_path(path: &str) -> (resolved: Resolved)
        ensures
            resolved@ == (ResolvedView { url: url_of(path@), scratch: None }),
    {
        Resolved { url: file_url(path), scratch: None }
    }

    /// A file that was written for the document, by the path that the file
    /// system resolved and the path that it was written to.
    pub fn at_scratch(path: &str, written: String) -> (resolved: Resolved)
        ensures
            resolved@ == (ResolvedView { url: url_of(path@), scratch: Some(written@) }),
    {
        Resolved { url: file_url(path), scratch: Some(written) }
    }

    /// What to point the browser at.
    pub fn url(&self) -> (url: &str)
        ensures
            url@ == self@.url,
    {
        self.url.as_str()
    }

    /// The file that was written for the document, if one was.
    pub fn scratch_path(&self) -> (path: Option<&str>)
        ensures
            match path {
                Some(path) => self@.scratch == Some(path@),
                None => self@.scratch is None,
            },
    {
        match &self.scratch {
            Some(path) => Some(path.as_str()),
            None => None,
        }
    }
}

/// How a document is got hold of.
#[derive(Debug, PartialEq, Eq)]
pub enum Source {
    /// The browser fetches it.
    Fetched(Resolved),
    /// A file to be looked up.
    File(String),
    /// Standard input, to be written to this file.
    Stdin { scratch: String },
}

/// The name of the file that standard input is written to: in the working
/// directory, so that relative links resolve, and named as HTML.
pub open spec fn stdin_scratch(directory: Seq<char>, process: int) -> Seq<char> {
    joined(directory, ".rchtmltopdf-stdin-"@ + decimal(process) + ".html"@)
}

/// How an input is got hold of, in a directory and by a process.
pub fn source(input: &Input, directory: &str, process: u32) -> (source: Source)
    ensures
        match input@ {
            InputView::Url(url) => source matches Source::Fetched(resolved) && resolved@
                == (ResolvedView { url, scratch: None }),
            InputView::Path(path) => source matches Source::File(found) && found@ == path,
            InputView::Stdin => source matches Source::Stdin { scratch } && scratch@
                == stdin_scratch(directory@, process as int),
        },
{
    match input {
        Input::Url(url) => Source::Fetched(Resolved::at_url(url)),
        Input::Path(path) => Source::File(path.clone()),
        Input::Stdin => {
            let mut name = ".rchtmltopdf-stdin-".to_owned();
            push_number(&mut name, process as u64);
            name.push_str(".html");
            Source::Stdin { scratch: join(directory, &name) }
        },
    }
}

/// What the file system says of a path.
#[derive(Debug, PartialEq, Eq)]
pub enum Lookup {
    /// A file, by its resolved path.
    File(String),
    /// Something that is no file.
    NotAFile,
    Missing,
    Denied,
    /// Another failure, in the system's own words.
    Failed(String),
}

/// Why a path is no document, and the network error that this counts as.
pub open spec fn lookup_failure(found: Lookup) -> Option<(Seq<char>, NetworkError)> {
    match found {
        Lookup::File(_) => None,
        Lookup::NotAFile => Some(("not a file"@, NetworkError::UnknownContent)),
        Lookup::Missing => Some(("no such file"@, NetworkError::ContentNotFound)),
        Lookup::Denied => Some(("permission denied"@, NetworkError::ContentAccessDenied)),
        Lookup::Failed(words) => Some((words@, NetworkError::UnknownContent)),
    }
}

/// The document at a path, or why it cannot be read.
pub fn existing_file(path: &str, found: Lookup) -> (outcome: Result<Resolved, InputError>)
    ensures
        match outcome {
            Ok(resolved) => found matches Lookup::File(file) && resolved@ == (ResolvedView {
                url: url_of(file@),
                scratch: None,
            }),
            Err(error) => error.input@ == path@ && lookup_failure(found) == Some(
                (error.reason@, error.error),
            ),
        },
{
    let (reason, error) = match found {
        Lookup::File(file) => {
            return Ok(Resolved::at_path(&file));
        },
        Lookup::NotAFile => ("not a file".to_owned(), NetworkError::UnknownContent),
        Lookup::Missing => ("no such file".to_owned(), NetworkError::ContentNotFound),
        Lookup::Denied => ("permission denied".to_owned(), NetworkError::ContentAccessDenied),
        Lookup::Failed(words) => (words, NetworkError::UnknownContent),
    };
    Err(InputError { input: path.to_owned(), reason, error })
}

/// Why standard input could not be written where it has to be.
pub fn unwritable(path: &str, words: &str) -> (error: InputError)
    ensures
        error.input@ == "standard input"@,
        error.error == NetworkError::UnknownContent,
        error.reason@ == "could not write "@ + path@ + " ("@ + words@
            + "); reading a document from standard input needs a writable working directory, because that is what its relative links resolve against"@,
{
    let mut reason = "could not write ".to_owned();
    reason.push_str(path);
    reason.push_str(" (");
    reason.push_str(words);
    reason.push_str(
        "); reading a document from standard input needs a writable working directory, because that is what its relative links resolve against",
    );
    InputError {
        input: "standard input".to_owned(),
        reason,
        error: NetworkError::UnknownContent,
    }
}

/// That standard input could not be read, in the system's own words.
pub fn unread(words: &str) -> (error: InputError)
    ensures
        error.input@ == "standard input"@,
        error.reason@ == words@,
        error.error == NetworkError::UnknownContent,
{
    InputError {
        input: "standard input".to_owned(),
        reason: words.to_owned(),
        error: NetworkError::UnknownContent,
    }
}

/// That the working directory could not be read, in the system's own words.
pub fn unreadable_directory(words: &str) -> (error: InputError)
    ensures
        error.input@ == "-"@,
        error.reason@ == "the working directory is unreadable: "@ + words@,
        error.error == NetworkError::UnknownContent,
{
    let mut reason = "the working directory is unreadable: ".to_owned();
    reason.push_str(words);
    InputError { input: "-".to_owned(), reason, error: NetworkError::UnknownContent }
}

/// The file that a document of the program's own is written to.
pub fn own_scratch(directory: &str, label: &str, process: u32) -> (path: String)
    ensures
        path@ == joined(
            directory@,
            ".rchtmltopdf-"@ + label@ + "-"@ + decimal(process as int) + ".html"@,
        ),
{
    let mut name = ".rchtmltopdf-".to_owned();
    name.push_str(label);
    name.push_str("-");
    push_number(&mut name, process as u64);
    name.push_str(".html");
    join(directory, &name)
}

/// The URL of an absolute path names that path.
pub proof fn law_file_url_names_its_path(path: Seq<char>)
    requires
        path.len() > 0,
        path[0] == '/',
    ensures
        path_of(url_of(path)) == Some(path),
{
    let bytes = encode_utf8(path);
    let text = url_text(bytes, true);
    let scheme = "file://"@;
    let url = url_of(path);
    assert(scheme =~= url.subrange(0, scheme.len() as int));
    assert(url.skip(scheme.len() as int) =~= text);
    vstd::utf8::encode_utf8_first_scalar(path);
    assert(vstd::utf8::encode_scalar('/' as u32) =~= seq![47u8]) by {
        assert(('/' as u32) == 47u32);
        assert(vstd::utf8::leading_byte_width_1(47u32) == 47u8) by (bit_vector);
    }
    assert(bytes[0] == 47u8);
    assert(url_byte(47u8, true) == seq!['/']);
    assert(text[0] == '/');
    assert(!"localhost"@.is_prefix_of(text)) by {
        reveal_strlit("localhost");
        if "localhost"@.is_prefix_of(text) {
            assert("localhost"@[0] == text.subrange(0, 9)[0]);
        }
    }
    assert forall|i: int| 0 <= i < text.len() implies text[i] != '?' && text[i] != '#' by {
        law_url_text_is_plain(bytes, true, i);
    }
    lemma_find_none(text, '?', '#');
    assert(before_query(text) == text);
    lemma_url_text_decodes(bytes, true);
    vstd::utf8::encode_utf8_valid_utf8(path);
    vstd::utf8::encode_utf8_decode_utf8(path);
}

/// What stands in the way of reading a document, and the number that it is reported with;
/// nothing does where a file was found.
pub proof fn law_why_a_document_cannot_be_read(found: Lookup)
    ensures
        found is File <==> lookup_failure(found) is None,
        found is Missing ==> lookup_failure(found) == Some(
            ("no such file"@, NetworkError::ContentNotFound),
        ),
        found is Denied ==> lookup_failure(found) == Some(
            ("permission denied"@, NetworkError::ContentAccessDenied),
        ),
        found is NotAFile ==> lookup_failure(found) == Some(
            ("not a file"@, NetworkError::UnknownContent),
        ),
        found matches Lookup::Failed(words) ==> lookup_failure(found) == Some(
            (words@, NetworkError::UnknownContent),
        ),
{
}

/// The file that standard input is written to stands in the working directory, is named
/// as HTML, and differs from that of every other process.
pub proof fn law_the_scratch_file_of_standard_input(directory: Seq<char>, process: int, other: int)
    requires
        directory.len() > 0,
        directory.last() != '/',
        0 <= process,
        0 <= other,
    ensures
        stdin_scratch(directory, process) == directory + "/.rchtmltopdf-stdin-"@ + decimal(process)
            + ".html"@,
        process != other ==> stdin_scratch(directory, process) != stdin_scratch(directory, other),
{
    reveal_strlit("/");
    reveal_strlit("/.rchtmltopdf-stdin-");
    reveal_strlit(".rchtmltopdf-stdin-");
    reveal_strlit(".html");
    let name = ".rchtmltopdf-stdin-"@ + decimal(process) + ".html"@;
    assert(name[0] == '.');
    assert("/.rchtmltopdf-stdin-"@ =~= "/"@ + ".rchtmltopdf-stdin-"@);
    assert(stdin_scratch(directory, process) =~= directory + "/.rchtmltopdf-stdin-"@ + decimal(
        process,
    ) + ".html"@);
    let second = ".rchtmltopdf-stdin-"@ + decimal(other) + ".html"@;
    assert(second[0] == '.');
    assert(stdin_scratch(directory, other) =~= directory + "/.rchtmltopdf-stdin-"@ + decimal(other)
        + ".html"@);
    if stdin_scratch(directory, process) == stdin_scratch(directory, other) {
        let start = (directory + "/.rchtmltopdf-stdin-"@).len() as int;
        let all = stdin_scratch(directory, process);
        assert(all.subrange(start, all.len() - 5) =~= decimal(process));
        assert(all.subrange(start, all.len() - 5) =~= decimal(other));
        law_decimal_spells_its_number(process);
        law_decimal_spells_its_number(other);
    }
}

} // verus!
