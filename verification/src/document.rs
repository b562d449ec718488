//! What goes into a conversion and where it comes out.

use crate::text::{chars_of, lemma_find_none, position_of, same};
use vstd::prelude::*;

verus! {

/// A document as it was named on the command line.
#[derive(Debug, PartialEq, Eq)]
pub enum Input {
    /// Standard input, written `-`.
    Stdin,
    /// Something the browser fetches.
    Url(String),
    /// A file on this machine.
    Path(String),
}

/// An [`Input`] by the characters it holds.
pub enum InputView {
    Stdin,
    Url(Seq<char>),
    Path(Seq<char>),
}

impl View for Input {
    type V = InputView;

    open spec fn view(&self) -> InputView {
        match self {
            Input::Stdin => InputView::Stdin,
            Input::Url(url) => InputView::Url(url@),
            Input::Path(path) => InputView::Path(path@),
        }
    }
}

/// An input that may be absent.
pub open spec fn maybe_input(input: Option<Input>) -> Option<InputView> {
    match input {
        Some(input) => Some(input@),
        None => None,
    }
}

/// Where the document goes.
#[derive(Debug, PartialEq, Eq)]
pub enum Output {
    /// Standard output, written `-`.
    Stdout,
    /// A file on this machine.
    Path(String),
}

/// An [`Output`] by the characters it holds.
pub enum OutputView {
    Stdout,
    Path(Seq<char>),
}

impl View for Output {
    type V = OutputView;

    open spec fn view(&self) -> OutputView {
        match self {
            Output::Stdout => OutputView::Stdout,
            Output::Path(path) => OutputView::Path(path@),
        }
    }
}

/// A letter from `a` to `z`, in either case.
pub open spec fn is_letter(c: char) -> bool {
    ('a' <= c && c <= 'z') || ('A' <= c && c <= 'Z')
}

/// A digit from `0` to `9`.
pub open spec fn is_digit(c: char) -> bool {
    '0' <= c && c <= '9'
}

/// A character that the scheme of a URL may hold.
pub open spec fn is_scheme_char(c: char) -> bool {
    is_letter(c) || is_digit(c) || c == '+' || c == '-' || c == '.'
}

/// A text begins with a scheme of so many characters and `://`. A drive letter
/// is one character, so it is no scheme.
pub open spec fn scheme_of_length(text: Seq<char>, length: int) -> bool {
    &&& 2 <= length
    &&& length + 3 <= text.len()
    &&& is_letter(text[0])
    &&& forall|i: int| 0 <= i < length ==> is_scheme_char(#[trigger] text[i])
    &&& text[length] == ':'
    &&& text[length + 1] == '/'
    &&& text[length + 2] == '/'
}

/// Whether a text is written as a URL.
pub open spec fn names_url(text: Seq<char>) -> bool {
    exists|length: int| scheme_of_length(text, length)
}

fn letter(c: char) -> (yes: bool)
    ensures
        yes == is_letter(c),
{
    ('a' <= c && c <= 'z') || ('A' <= c && c <= 'Z')
}

fn scheme_char(c: char) -> (yes: bool)
    ensures
        yes == is_scheme_char(c),
{
    letter(c) || ('0' <= c && c <= '9') || c == '+' || c == '-' || c == '.'
}

/// Whether a text is written as a URL: a scheme of at least two characters and
/// `://`.
pub fn has_url_scheme(written: &str) -> (yes: bool)
    ensures
        yes == names_url(written@),
{
    let chars = chars_of(written);
    let size: usize = chars.len();
    let colon: usize = match position_of(&chars, ':', ':') {
        Some(at) => at,
        None => {
            proof {
                lemma_find_none(chars@, ':', ':');
                assert forall|length: int| !scheme_of_length(written@, length) by {}
            }
            return false;
        },
    };
    assert(forall|length: int| scheme_of_length(written@, length) ==> length == colon) by {
        assert forall|length: int| scheme_of_length(written@, length) implies length == colon by {
            if length > colon {
                assert(is_scheme_char(written@[colon as int]));
            }
        }
    }
    if colon < 2 || size - colon < 3 {
        return false;
    }
    if !letter(chars[0]) || chars[colon + 1] != '/' || chars[colon + 2] != '/' {
        return false;
    }
    let mut at: usize = 0;
    while at < colon
        invariant
            at <= colon < chars@.len(),
            chars@ == written@,
            forall|length: int| scheme_of_length(written@, length) ==> length == colon,
            forall|i: int| 0 <= i < at ==> is_scheme_char(#[trigger] chars@[i]),
        decreases colon - at,
    {
        if !scheme_char(chars[at]) {
            assert(!is_scheme_char(written@[at as int]));
            return false;
        }
        at = at + 1;
    }
    assert(scheme_of_length(written@, colon as int));
    true
}

/// What a text names as an input.
pub open spec fn input_of(written: Seq<char>) -> InputView {
    if written == "-"@ {
        InputView::Stdin
    } else if names_url(written) {
        InputView::Url(written)
    } else {
        InputView::Path(written)
    }
}

/// What a text names as an output.
pub open spec fn output_of(written: Seq<char>) -> OutputView {
    if written == "-"@ {
        OutputView::Stdout
    } else {
        OutputView::Path(written)
    }
}

/// How an input was written.
pub open spec fn written_as(input: InputView) -> Seq<char> {
    match input {
        InputView::Stdin => "-"@,
        InputView::Url(url) => url,
        InputView::Path(path) => path,
    }
}

impl Input {
    /// Sort an argument into standard input, a URL or a path.
    pub fn classify(written: &str) -> (input: Input)
        ensures
            input@ == input_of(written@),
    {
        if same(written, "-") {
            Input::Stdin
        } else if has_url_scheme(written) {
            Input::Url(written.to_owned())
        } else {
            Input::Path(written.to_owned())
        }
    }

    /// The argument that this input was read from.
    pub fn as_written(&self) -> (text: String)
        ensures
            text@ == written_as(self@),
    {
        match self {
            Input::Stdin => "-".to_owned(),
            Input::Url(url) => url.clone(),
            Input::Path(path) => path.clone(),
        }
    }
}

impl Clone for Input {
    fn clone(&self) -> (copy: Input)
        ensures
            copy@ == self@,
    {
        match self {
            Input::Stdin => Input::Stdin,
            Input::Url(url) => Input::Url(url.clone()),
            Input::Path(path) => Input::Path(path.clone()),
        }
    }
}

impl Output {
    /// Sort an argument into standard output or a path.
    pub fn classify(written: &str) -> (output: Output)
        ensures
            output@ == output_of(written@),
    {
        if same(written, "-") {
            Output::Stdout
        } else {
            Output::Path(written.to_owned())
        }
    }
}

impl Clone for Output {
    fn clone(&self) -> (copy: Output)
        ensures
            copy@ == self@,
    {
        match self {
            Output::Stdout => Output::Stdout,
            Output::Path(path) => Output::Path(path.clone()),
        }
    }
}

/// Reading an argument and writing it back changes nothing.
pub proof fn law_input_round_trip(written: Seq<char>)
    ensures
        written_as(input_of(written)) == written,
{
}

/// A lone dash is standard input, what begins with a scheme and two slashes is a URL, and
/// everything else is a path; a single letter before a colon is a drive.
pub proof fn law_what_an_argument_names(scheme: Seq<char>, rest: Seq<char>)
    ensures
        input_of("-"@) is Stdin,
        output_of("-"@) is Stdout,
        scheme.len() >= 2 && is_letter(scheme[0]) && (forall|i: int|
            0 <= i < scheme.len() ==> is_letter(#[trigger] scheme[i]) || is_digit(scheme[i])
                || scheme[i] == '+' || scheme[i] == '-' || scheme[i] == '.') ==> input_of(
            scheme + "://"@ + rest,
        ) == InputView::Url(scheme + "://"@ + rest),
        scheme.len() == 1 ==> input_of(scheme + "://"@ + rest) == InputView::Path(
            scheme + "://"@ + rest,
        ),
        !rest.contains(':') && rest != "-"@ ==> input_of(rest) == InputView::Path(rest),
        rest != "-"@ ==> output_of(rest) == OutputView::Path(rest),
{
    reveal_strlit("-");
    reveal_strlit("://");
    let url = scheme + "://"@ + rest;
    let size = scheme.len() as int;
    assert(url.len() >= 3);
    assert(url[size] == ':' && url[size + 1] == '/' && url[size + 2] == '/');
    if size >= 2 && is_letter(scheme[0]) && (forall|i: int|
        0 <= i < scheme.len() ==> is_letter(#[trigger] scheme[i]) || is_digit(scheme[i])
            || scheme[i] == '+' || scheme[i] == '-' || scheme[i] == '.') {
        assert forall|i: int| 0 <= i < size implies is_scheme_char(#[trigger] url[i]) by {
            assert(url[i] == scheme[i]);
        }
        assert(url[0] == scheme[0]);
        assert(scheme_of_length(url, size));
    }
    if size == 1 {
        assert forall|length: int| !scheme_of_length(url, length) by {
            if scheme_of_length(url, length) {
                assert(is_scheme_char(url[1]));
            }
        }
    }
    if !rest.contains(':') {
        assert forall|length: int| !scheme_of_length(rest, length) by {
            if scheme_of_length(rest, length) {
                assert(rest.contains(rest[length]));
            }
        }
    }
}

} // verus!
