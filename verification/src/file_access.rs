//! Which local files a document may read.
//!
//! A document that came over the network may never read a local file. A local
//! one may read itself, and what the options open to it. Paths are compared once
//! the file system has resolved them.

use crate::encoding::{percent_decode, percent_decoded, text_from};
use crate::network::{before_query, law_a_path_ends_at_its_query, without_query};
use crate::paths::{inside, lies_inside};
use crate::text::{chars_of, contains_text, maybe, strip, texts, without_prefix};
use vstd::prelude::*;
use vstd::utf8::encode_utf8;

verus! {

/// Why a document from the network may not read a file.
pub const REMOTE: &'static str = "a document loaded over http or https may never read a local file, whatever the options say";

/// Why a local document may not read a file.
pub const NOT_ENABLED: &'static str = "local file access is off by default; use --enable-local-file-access, or --allow to name the directory";

/// What the command line says about local files.
#[derive(Debug, PartialEq, Eq)]
pub struct Policy {
    pub enabled: bool,
    pub allowed: Vec<String>,
}

impl Default for Policy {
    fn default() -> (policy: Policy)
        ensures
            !policy.enabled,
            policy.allowed@.len() == 0,
    {
        Policy { enabled: false, allowed: Vec::new() }
    }
}

/// What one document may read.
#[derive(Debug, PartialEq, Eq)]
pub struct FileAccess {
    enabled: bool,
    /// The directories that are open, as the file system resolved them.
    allowed: Vec<String>,
    document_is_local: bool,
    /// The document itself and what belongs to it, as the file system resolved
    /// them.
    documents: Vec<String>,
}

/// A [`FileAccess`] by the characters it holds.
pub struct FileAccessView {
    pub enabled: bool,
    pub allowed: Seq<Seq<char>>,
    pub document_is_local: bool,
    pub documents: Seq<Seq<char>>,
}

impl View for FileAccess {
    type V = FileAccessView;

    closed spec fn view(&self) -> FileAccessView {
        FileAccessView {
            enabled: self.enabled,
            allowed: texts(self.allowed@),
            document_is_local: self.document_is_local,
            documents: texts(self.documents@),
        }
    }
}

/// Whether a request may go ahead.
#[derive(Clone, Copy, Debug, PartialEq, Eq)]
pub enum Verdict {
    Allow,
    Block(&'static str),
}

/// The path that a `file://` URL names, once decoded. A host other than
/// `localhost` names none.
pub open spec fn path_of(url: Seq<char>) -> Option<Seq<char>> {
    match without_prefix(url, "file://"@) {
        Some(rest) => {
            let rest = match without_prefix(rest, "localhost"@) {
                Some(behind) => behind,
                None => rest,
            };
            if rest.len() > 0 && rest[0] == '/' {
                Some(text_from(percent_decoded(encode_utf8(before_query(rest)))))
            } else {
                None
            }
        },
        None => None,
    }
}

/// The path that a `file://` URL names.
pub fn local_path(url: &str) -> (path: Option<String>)
    ensures
        maybe(path) == path_of(url@),
{
    let rest = match strip(url, "file://") {
        Some(rest) => rest,
        None => {
            return None;
        },
    };
    let rest = match strip(&rest, "localhost") {
        Some(behind) => behind,
        None => rest,
    };
    let chars = chars_of(&rest);
    if chars.len() == 0 || chars[0] != '/' {
        return None;
    }
    Some(percent_decode(&without_query(&rest)))
}

/// Whether a list of directories holds one that a path lies inside.
pub open spec fn opened(allowed: Seq<Seq<char>>, path: Seq<char>) -> bool {
    exists|i: int| 0 <= i < allowed.len() && lies_inside(#[trigger] allowed[i], path)
}

/// Whether a list of directories holds one that a path lies inside.
fn is_open(allowed: &Vec<String>, path: &str) -> (yes: bool)
    ensures
        yes == opened(texts(allowed@), path@),
{
    let mut at: usize = 0;
    while at < allowed.len()
        invariant
            at <= allowed@.len(),
            forall|i: int| 0 <= i < at ==> !lies_inside(#[trigger] texts(allowed@)[i], path@),
        decreases allowed@.len() - at,
    {
        assert(texts(allowed@)[at as int] == allowed@[at as int]@);
        if inside(&allowed[at], path) {
            assert(lies_inside(texts(allowed@)[at as int], path@));
            return true;
        }
        at = at + 1;
    }
    false
}

/// Whether a request may go ahead. `resolved` is the file that the file system
/// finds at the path of the request; where it finds none, the browser is left
/// to report that.
pub open spec fn verdict_of(
    access: FileAccessView,
    request_url: Seq<char>,
    resolved: Option<Seq<char>>,
) -> Verdict {
    if path_of(request_url) is None {
        Verdict::Allow
    } else {
        match resolved {
            None => Verdict::Allow,
            Some(file) => if access.documents.contains(file) {
                Verdict::Allow
            } else if !access.document_is_local {
                Verdict::Block(REMOTE)
            } else if access.enabled || opened(access.allowed, file) {
                Verdict::Allow
            } else {
                Verdict::Block(NOT_ENABLED)
            },
        }
    }
}

impl Default for FileAccess {
    fn default() -> (access: FileAccess)
        ensures
            access@ == (FileAccessView {
                enabled: false,
                allowed: Seq::empty(),
                document_is_local: false,
                documents: Seq::empty(),
            }),
    {
        let access = FileAccess {
            enabled: false,
            allowed: Vec::new(),
            document_is_local: false,
            documents: Vec::new(),
        };
        assert(texts(access.allowed@) =~= Seq::empty());
        assert(texts(access.documents@) =~= Seq::empty());
        access
    }
}

impl Policy {
    /// The policy for one document. `allowed` are the directories of the policy
    /// and `document` the file of the document, as the file system resolved
    /// them; what it could not resolve is left out.
    pub fn about(&self, document_url: &str, allowed: Vec<String>, document: Option<String>) -> (access:
        FileAccess)
        ensures
            access@ == (FileAccessView {
                enabled: self.enabled,
                allowed: texts(allowed@),
                document_is_local: path_of(document_url@) is Some,
                documents: match document {
                    Some(document) => if path_of(document_url@) is Some {
                        seq![document@]
                    } else {
                        Seq::empty()
                    },
                    None => Seq::empty(),
                },
            }),
    {
        let document_is_local = local_path(document_url).is_some();
        let mut documents: Vec<String> = Vec::new();
        assert(texts(documents@) =~= Seq::empty());
        if document_is_local {
            if let Some(document) = document {
                let ghost own = document@;
                documents.push(document);
                assert(texts(documents@) =~= seq![own]);
            }
        }
        FileAccess { enabled: self.enabled, allowed, document_is_local, documents }
    }
}

impl FileAccess {
    /// The same rules with one file more that belongs to the document.
    pub fn also(self, document: String) -> (access: FileAccess)
        ensures
            access@ == (FileAccessView { documents: self@.documents.push(document@), ..self@ }),
    {
        let ghost before = texts(self.documents@);
        let ghost added = document@;
        let mut documents = self.documents;
        documents.push(document);
        assert(texts(documents@) =~= before.push(added));
        FileAccess {
            enabled: self.enabled,
            allowed: self.allowed,
            document_is_local: self.document_is_local,
            documents,
        }
    }

    /// Whether anything could be refused at all.
    pub fn polices_anything(&self) -> (yes: bool)
        ensures
            yes == !(self@.document_is_local && self@.enabled),
    {
        !(self.document_is_local && self.enabled)
    }

    /// Whether a request may go ahead. `resolved` is the file that the file
    /// system finds at the path of the request.
    pub fn verdict(&self, request_url: &str, resolved: &Option<String>) -> (verdict: Verdict)
        ensures
            verdict == verdict_of(self@, request_url@, maybe(*resolved)),
    {
        if local_path(request_url).is_none() {
            return Verdict::Allow;
        }
        match resolved {
            None => Verdict::Allow,
            Some(file) => {
                if contains_text(&self.documents, file) {
                    return Verdict::Allow;
                }
                if !self.document_is_local {
                    return Verdict::Block(REMOTE);
                }
                if self.enabled {
                    return Verdict::Allow;
                }
                if is_open(&self.allowed, file) {
                    return Verdict::Allow;
                }
                Verdict::Block(NOT_ENABLED)
            },
        }
    }
}

/// A document from the network never reads a local file that is not its own,
/// whatever the options say.
pub proof fn law_a_remote_document_reads_no_file(
    access: FileAccessView,
    request_url: Seq<char>,
    file: Seq<char>,
)
    requires
        !access.document_is_local,
        path_of(request_url) is Some,
        !access.documents.contains(file),
    ensures
        verdict_of(access, request_url, Some(file)) == Verdict::Block(REMOTE),
{
}

/// Where nothing is policed, nothing is refused.
pub proof fn law_nothing_policed_is_nothing_refused(
    access: FileAccessView,
    request_url: Seq<char>,
    resolved: Option<Seq<char>>,
)
    requires
        access.document_is_local && access.enabled,
    ensures
        verdict_of(access, request_url, resolved) is Allow,
{
}

/// A document may always be read itself, and what is no local file is none of
/// this policy's business.
pub proof fn law_the_document_is_always_readable(
    access: FileAccessView,
    request_url: Seq<char>,
    resolved: Option<Seq<char>>,
)
    requires
        path_of(request_url) is None || (resolved is Some && access.documents.contains(
            resolved->0,
        )),
    ensures
        verdict_of(access, request_url, resolved) is Allow,
{
}

/// A file may be read by a local document where its directory is opened, or all are; where
/// neither holds it may not; and what the file system does not find is left to the
/// browser.
pub proof fn law_opened_directories_are_readable(
    access: FileAccessView,
    request_url: Seq<char>,
    file: Seq<char>,
    at: int,
)
    requires
        access.document_is_local,
        path_of(request_url) is Some,
    ensures
        0 <= at < access.allowed.len() && lies_inside(access.allowed[at], file) ==> verdict_of(
            access,
            request_url,
            Some(file),
        ) is Allow,
        access.enabled ==> verdict_of(access, request_url, Some(file)) is Allow,
        !access.enabled && !access.documents.contains(file) && (forall|i: int|
            0 <= i < access.allowed.len() ==> !lies_inside(#[trigger] access.allowed[i], file))
            ==> verdict_of(access, request_url, Some(file)) == Verdict::Block(NOT_ENABLED),
        verdict_of(access, request_url, None) is Allow,
{
}

/// Only a `file:` URL of this machine names a path, and its query is no part of it.
pub proof fn law_which_urls_name_a_path(path: Seq<char>, mark: char, query: Seq<char>)
    requires
        path.len() > 0,
        path[0] == '/',
        !path.contains('?'),
        !path.contains('#'),
        mark == '?' || mark == '#',
    ensures
        path_of("file://"@ + path) is Some,
        path_of("file://"@ + path) == path_of("file://localhost"@ + path),
        path_of("file://"@ + path) == path_of("file://"@ + (path + seq![mark] + query)),
        path_of("http://"@ + path) is None,
        path_of("https://"@ + path) is None,
        path_of("file://elsewhere"@ + path) is None,
{
    reveal_strlit("file://");
    reveal_strlit("localhost");
    reveal_strlit("file://localhost");
    reveal_strlit("file://elsewhere");
    reveal_strlit("elsewhere");
    reveal_strlit("http://");
    reveal_strlit("https://");
    law_a_path_ends_at_its_query(path, mark, query);
    let one = "file://"@ + path;
    assert("file://"@.is_prefix_of(one));
    assert(one.skip(7) =~= path);
    assert(!"localhost"@.is_prefix_of(path)) by {
        if "localhost"@.is_prefix_of(path) {
            assert(path[0] == "localhost"@[0]);
        }
    }
    let asked = path + seq![mark] + query;
    let two = "file://"@ + asked;
    assert("file://"@.is_prefix_of(two));
    assert(two.skip(7) =~= asked);
    assert(asked[0] == '/');
    assert(!"localhost"@.is_prefix_of(asked)) by {
        if "localhost"@.is_prefix_of(asked) {
            assert(asked[0] == "localhost"@[0]);
        }
    }
    let three = "file://localhost"@ + path;
    assert(three =~= "file://"@ + ("localhost"@ + path));
    assert("file://"@.is_prefix_of(three));
    assert(three.skip(7) =~= "localhost"@ + path);
    assert("localhost"@.is_prefix_of("localhost"@ + path));
    assert(("localhost"@ + path).skip(9) =~= path);
    let four = "file://elsewhere"@ + path;
    assert(four =~= "file://"@ + ("elsewhere"@ + path));
    assert("file://"@.is_prefix_of(four));
    let rest = "elsewhere"@ + path;
    assert(four.skip(7) =~= rest);
    assert(rest[0] == 'e');
    assert(!"localhost"@.is_prefix_of(rest)) by {
        if "localhost"@.is_prefix_of(rest) {
            assert(rest[0] == "localhost"@[0]);
        }
    }
    assert(("http://"@ + path)[0] == 'h');
    assert(("https://"@ + path)[0] == 'h');
    assert("file://"@[0] == 'f');
    assert(!"file://"@.is_prefix_of("http://"@ + path)) by {
        if "file://"@.is_prefix_of("http://"@ + path) {
            assert(("http://"@ + path)[0] == "file://"@[0]);
        }
    }
    assert(!"file://"@.is_prefix_of("https://"@ + path)) by {
        if "file://"@.is_prefix_of("https://"@ + path) {
            assert(("https://"@ + path)[0] == "file://"@[0]);
        }
    }
}

} // verus!
