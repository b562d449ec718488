//! Running a conversion.
//!
//! Whoever drives the browser asks here what to do next: which documents there
//! are, whether the browser has to be started anew, what becomes of a document
//! that did not load, what the headers and footers say, and how it all ends.

use crate::band::{frame, frame_html, row, row_html, Edge, FrameSizes, RowSizes, Sheet};
use crate::document::{Input, InputView};
use crate::error::{error_message, Error};
use crate::file_access::{local_path, path_of};
use crate::input::InputError;
use crate::intercept::{refusals_of, Refusal, RefusalView};
use crate::launch::LaunchOptions;
use crate::layout::{known, total, Piece};
use crate::network::{error_code, error_name, is_media_file, names_media, NetworkError};
use crate::numbering::{
    deeper, flat, heading_of, headings_of, walk, FlatHeading, Heading, Numbers, NumbersView,
    OutlineItem,
};
use crate::numbers::{is_space, space};
use crate::outline::{on_pages, Object, Role};
use crate::output::OutputError;
use crate::placeholder::{
    joined_query, query, query_of, query_pairs, with_query, Context, ContextView,
};
use crate::plan::{cookies_apply, takes_cookies, Bands};
use crate::render::{failed_text, failures_of, Failed, FailedView, LoadReport, LoadReportView};
use crate::settings::{
    band_is_empty, copy_pairs, settings_of, Band, BandView, LoadErrorHandling, NamedMargins,
    ObjectKind, ObjectSettings, ObjectSettingsView, Settings,
};
use crate::text::{chars_of, contains_text, decimal, maybe, push_number, same, texts};
use crate::toc::TOP_OF_THE_PAGE;
use crate::{PROGRAM, VERSION};
use vstd::prelude::*;
use vstd::std_specs::convert::FromSpecImpl;

verus! {

/// How the program ends.
#[derive(Clone, Copy, Debug, PartialEq, Eq)]
pub enum ExitCode {
    Success,
    Failure,
}

impl ExitCode {
    /// The number that the system is told.
    pub fn as_i32(self) -> (code: i32)
        ensures
            code == match self {
                ExitCode::Success => 0i32,
                ExitCode::Failure => 1i32,
            },
    {
        match self {
            ExitCode::Success => 0,
            ExitCode::Failure => 1,
        }
    }
}

/// Why a conversion came to nothing.
#[derive(Debug, PartialEq, Eq)]
pub enum ConvertError {
    /// What was asked for is not done.
    Unsupported(String),
    /// Every document was skipped. One line for each.
    NothingLeft(Vec<String>),
    /// A document did not load.
    DocumentFailed(Failed),
    /// The outline could not be written.
    Dump { path: String, reason: String },
    Input(InputError),
    Output(OutputError),
    Browser(Error),
    /// What was printed could not be worked on.
    Pdf(String),
}

/// Texts with a separator between them.
pub open spec fn joined_texts(list: Seq<Seq<char>>, separator: Seq<char>) -> Seq<char>
    decreases list.len(),
{
    if list.len() == 0 {
        Seq::empty()
    } else if list.len() == 1 {
        list.last()
    } else {
        joined_texts(list.drop_last(), separator) + separator + list.last()
    }
}

/// That a document did not load.
pub open spec fn unloaded_line(failed: FailedView) -> Seq<char> {
    "could not load "@ + failed.url + ": "@ + error_name(failed.error)@
}

/// Why a conversion came to nothing, as a sentence.
pub open spec fn convert_message(error: ConvertError) -> Seq<char> {
    match error {
        ConvertError::Unsupported(what) => what@,
        ConvertError::NothingLeft(failures) =>
            "--load-error-handling skip left nothing to convert: "@ + joined_texts(
            texts(failures@),
            "; "@,
        ),
        ConvertError::Dump { path, reason } => "could not write the outline to "@ + path@ + ": "@
            + reason@,
        ConvertError::DocumentFailed(failed) => unloaded_line(failed@),
        ConvertError::Input(error) => "could not read "@ + error.input@ + ": "@ + error.reason@,
        ConvertError::Output(error) => match error.path {
            Some(path) => "could not write "@ + path@ + ": "@ + error.source@,
            None => "could not write to standard output: "@ + error.source@,
        },
        ConvertError::Browser(error) => error_message(error),
        ConvertError::Pdf(words) => words@,
    }
}

fn join_texts(list: &Vec<String>, separator: &str) -> (out: String)
    ensures
        out@ == joined_texts(texts(list@), separator@),
{
    let mut out = String::new();
    let ghost all = texts(list@);
    let size: usize = list.len();
    let mut at: usize = 0;
    assert(all.take(0) =~= Seq::empty());
    while at < size
        invariant
            at <= size == list@.len(),
            all == texts(list@),
            out@ == joined_texts(all.take(at as int), separator@),
        decreases size - at,
    {
        let ghost before = out@;
        assert(all.take(at + 1).drop_last() =~= all.take(at as int));
        assert(all.take(at + 1).last() == list@[at as int]@);
        if at > 0 {
            out.push_str(separator);
        }
        out.push_str(&list[at]);
        if at == 0 {
            assert(out@ =~= list@[0]@);
        }
        at = at + 1;
    }
    assert(all.take(at as int) =~= all);
    out
}

/// That a document did not load.
fn unloaded(failed: &Failed) -> (line: String)
    ensures
        line@ == unloaded_line(failed@),
{
    let mut line = "could not load ".to_owned();
    line.push_str(&failed.url);
    line.push_str(": ");
    line.push_str(failed.error.name());
    line
}

/// The network error that a failed conversion counts as.
pub open spec fn counts_as(error: ConvertError) -> Option<NetworkError> {
    match error {
        ConvertError::DocumentFailed(failed) => Some(failed.error),
        ConvertError::Input(error) => Some(error.error),
        _ => None,
    }
}

impl ConvertError {
    /// The failure as a sentence.
    pub fn message(&self) -> (text: String)
        ensures
            text@ == convert_message(*self),
    {
        match self {
            ConvertError::Unsupported(what) => what.clone(),
            ConvertError::NothingLeft(failures) => {
                let mut text = "--load-error-handling skip left nothing to convert: ".to_owned();
                text.push_str(&join_texts(failures, "; "));
                text
            },
            ConvertError::Dump { path, reason } => {
                let mut text = "could not write the outline to ".to_owned();
                text.push_str(path);
                text.push_str(": ");
                text.push_str(reason);
                text
            },
            ConvertError::DocumentFailed(failed) => unloaded(failed),
            ConvertError::Input(error) => error.message(),
            ConvertError::Output(error) => error.message(),
            ConvertError::Browser(error) => error.message(),
            ConvertError::Pdf(words) => words.clone(),
        }
    }

    /// The network error that the failure counts as.
    pub fn network_error(&self) -> (error: Option<NetworkError>)
        ensures
            error == counts_as(*self),
    {
        match self {
            ConvertError::DocumentFailed(failed) => Some(failed.error),
            ConvertError::Input(error) => Some(error.error),
            _ => None,
        }
    }
}

impl From<InputError> for ConvertError {
    fn from(error: InputError) -> (wrapped: ConvertError) {
        ConvertError::Input(error)
    }
}

impl FromSpecImpl<InputError> for ConvertError {
    open spec fn obeys_from_spec() -> bool {
        true
    }

    open spec fn from_spec(error: InputError) -> ConvertError {
        ConvertError::Input(error)
    }
}

impl From<OutputError> for ConvertError {
    fn from(error: OutputError) -> (wrapped: ConvertError) {
        ConvertError::Output(error)
    }
}

impl FromSpecImpl<OutputError> for ConvertError {
    open spec fn obeys_from_spec() -> bool {
        true
    }

    open spec fn from_spec(error: OutputError) -> ConvertError {
        ConvertError::Output(error)
    }
}

impl From<Error> for ConvertError {
    fn from(error: Error) -> (wrapped: ConvertError) {
        ConvertError::Browser(error)
    }
}

impl FromSpecImpl<Error> for ConvertError {
    open spec fn obeys_from_spec() -> bool {
        true
    }

    open spec fn from_spec(error: Error) -> ConvertError {
        ConvertError::Browser(error)
    }
}

/// How many objects are read from standard input.
pub open spec fn stdin_count(objects: Seq<ObjectSettingsView>) -> int
    decreases objects.len(),
{
    if objects.len() == 0 {
        0
    } else {
        stdin_count(objects.drop_last()) + if objects.last().input == Some(InputView::Stdin) {
            1int
        } else {
            0
        }
    }
}

/// The objects of a conversion: at least one, and at most one from standard
/// input, which can be read once.
pub fn pages(settings: &Settings) -> (outcome: Result<&Vec<ObjectSettings>, ConvertError>)
    ensures
        match outcome {
            Ok(objects) => settings.objects@.len() > 0 && stdin_count(settings_of(settings.objects@))
                <= 1 && *objects == settings.objects,
            Err(ConvertError::Unsupported(what)) => if settings.objects@.len() == 0 {
                what@ == "no document to convert"@
            } else {
                stdin_count(settings_of(settings.objects@)) > 1 && what@
                    == "standard input can be read once, and it was given as "@ + decimal(
                    stdin_count(settings_of(settings.objects@)),
                ) + " documents"@
            },
            Err(_) => false,
        },
{
    if settings.objects.len() == 0 {
        return Err(ConvertError::Unsupported("no document to convert".to_owned()));
    }
    let ghost all = settings_of(settings.objects@);
    let size: usize = settings.objects.len();
    let mut from_stdin: usize = 0;
    let mut at: usize = 0;
    assert(all.take(0) =~= Seq::empty());
    while at < size
        invariant
            at <= size == settings.objects@.len(),
            all == settings_of(settings.objects@),
            from_stdin == stdin_count(all.take(at as int)),
            from_stdin <= at,
        decreases size - at,
    {
        assert(all.take(at + 1).drop_last() =~= all.take(at as int));
        assert(all.take(at + 1).last() == settings.objects@[at as int]@);
        if let Some(Input::Stdin) = &settings.objects[at].input {
            from_stdin = from_stdin + 1;
        }
        at = at + 1;
    }
    assert(all.take(at as int) =~= all);
    if from_stdin > 1 {
        let mut what = "standard input can be read once, and it was given as ".to_owned();
        push_number(&mut what, from_stdin as u64);
        what.push_str(" documents");
        return Err(ConvertError::Unsupported(what));
    }
    Ok(&settings.objects)
}

/// The document that an object is made from, where it needs one.
pub fn document_of(object: &ObjectSettings) -> (outcome: Result<Option<&Input>, ConvertError>)
    ensures
        match outcome {
            Ok(None) => object@.kind == ObjectKind::Toc,
            Ok(Some(input)) => object@.kind != ObjectKind::Toc && object@.input == Some(input@),
            Err(ConvertError::Unsupported(what)) => object@.kind != ObjectKind::Toc && object@.input
                is None && what@ == "this object has no document to read"@,
            Err(_) => false,
        },
{
    match object.kind {
        ObjectKind::Toc => Ok(None),
        _ => match &object.input {
            Some(input) => Ok(Some(input)),
            None => Err(
                ConvertError::Unsupported("this object has no document to read".to_owned()),
            ),
        },
    }
}

/// Whether a document that cannot be found ends the conversion at once. It does
/// not where a failure is to be skipped or ignored: then it is reported when its
/// turn comes.
pub fn missing_is_fatal(object: &ObjectSettings) -> (yes: bool)
    ensures
        yes == (object@.load.on_document_error == LoadErrorHandling::Abort),
{
    match object.load.on_document_error {
        LoadErrorHandling::Abort => true,
        _ => false,
    }
}

/// The report of a document that could not be found.
pub fn missing_report(url: &str, error: NetworkError) -> (report: LoadReport)
    ensures
        report@ == (LoadReportView {
            document: Some(FailedView { url: url@, error, http_status: 0 }),
            navigation_failed: true,
            media: Seq::empty(),
        }),
{
    let report = LoadReport {
        document: Some(Failed { url: url.to_owned(), error, http_status: 0 }),
        navigation_failed: true,
        media: Vec::new(),
    };
    assert(failures_of(report.media@) =~= Seq::empty());
    report
}

/// The positions of the tables of contents among the first objects.
pub open spec fn table_positions(objects: Seq<ObjectSettingsView>) -> Seq<usize>
    decreases objects.len(),
{
    if objects.len() == 0 {
        Seq::empty()
    } else {
        let earlier = table_positions(objects.drop_last());
        if objects.last().kind == ObjectKind::Toc {
            earlier.push((objects.len() - 1) as usize)
        } else {
            earlier
        }
    }
}

/// The positions of the tables of contents.
pub fn tables(objects: &Vec<ObjectSettings>) -> (positions: Vec<usize>)
    ensures
        positions@ == table_positions(settings_of(objects@)),
{
    let mut positions: Vec<usize> = Vec::new();
    let ghost all = settings_of(objects@);
    let size: usize = objects.len();
    let mut at: usize = 0;
    assert(all.take(0) =~= Seq::empty());
    while at < size
        invariant
            at <= size == objects@.len(),
            all == settings_of(objects@),
            positions@ == table_positions(all.take(at as int)),
        decreases size - at,
    {
        assert(all.take(at + 1).drop_last() =~= all.take(at as int));
        assert(all.take(at + 1).last() == objects@[at as int]@);
        if let ObjectKind::Toc = objects[at].kind {
            positions.push(at);
        }
        at = at + 1;
    }
    assert(all.take(at as int) =~= all);
    positions
}

/// Whether a band of an object is a document itself.
pub open spec fn has_band_document(object: ObjectSettingsView) -> bool {
    object.header.html is Some || object.footer.html is Some
}

/// The longest delay of the objects whose bands are documents.
pub open spec fn longest_delay(objects: Seq<ObjectSettingsView>) -> u64
    decreases objects.len(),
{
    if objects.len() == 0 {
        0
    } else {
        let earlier = longest_delay(objects.drop_last());
        let own = objects.last().load.javascript_delay;
        if has_band_document(objects.last()) && own > earlier {
            own
        } else {
            earlier
        }
    }
}

/// How long the bands are waited for, in milliseconds.
pub fn band_delay(objects: &Vec<ObjectSettings>) -> (delay: u64)
    ensures
        delay == longest_delay(settings_of(objects@)),
{
    let mut delay: u64 = 0;
    let ghost all = settings_of(objects@);
    let size: usize = objects.len();
    let mut at: usize = 0;
    assert(all.take(0) =~= Seq::empty());
    while at < size
        invariant
            at <= size == objects@.len(),
            all == settings_of(objects@),
            delay == longest_delay(all.take(at as int)),
        decreases size - at,
    {
        assert(all.take(at + 1).drop_last() =~= all.take(at as int));
        assert(all.take(at + 1).last() == objects@[at as int]@);
        let object = &objects[at];
        if (object.header.html.is_some() || object.footer.html.is_some())
            && object.load.javascript_delay > delay {
            delay = object.load.javascript_delay;
        }
        at = at + 1;
    }
    assert(all.take(at as int) =~= all);
    delay
}

/// Whether an object is the first whose bands are documents.
pub open spec fn first_with_bands(objects: Seq<ObjectSettingsView>, at: int) -> bool {
    &&& 0 <= at < objects.len()
    &&& has_band_document(objects[at])
    &&& forall|i: int| 0 <= i < at ==> !has_band_document(#[trigger] objects[i])
}

/// The first object whose bands are documents. Its settings are those that the
/// bands are loaded with.
pub fn band_object(objects: &Vec<ObjectSettings>) -> (at: Option<usize>)
    ensures
        match at {
            Some(at) => first_with_bands(settings_of(objects@), at as int),
            None => forall|i: int|
                0 <= i < objects@.len() ==> !has_band_document(
                    #[trigger] settings_of(objects@)[i],
                ),
        },
{
    let ghost all = settings_of(objects@);
    let size: usize = objects.len();
    let mut at: usize = 0;
    while at < size
        invariant
            at <= size == objects@.len(),
            all == settings_of(objects@),
            forall|i: int| 0 <= i < at ==> !has_band_document(#[trigger] all[i]),
        decreases size - at,
    {
        assert(all[at as int] == objects@[at as int]@);
        if objects[at].header.html.is_some() || objects[at].footer.html.is_some() {
            return Some(at);
        }
        at = at + 1;
    }
    None
}

/// That an encoding does not apply.
pub const ENCODING_WARNING: &'static str = "--encoding does not apply to a document fetched over the network; it is read as the server said it should be";

/// That a cookie does not apply.
pub const COOKIE_WARNING: &'static str = "--cookie needs a document fetched over http or https; a local document has no origin to scope a cookie to, so it is being ignored";

/// A list with one line more, where it is a new one.
pub open spec fn said(lines: Seq<Seq<char>>, line: Seq<char>) -> Seq<Seq<char>> {
    if lines.contains(line) {
        lines
    } else {
        lines.push(line)
    }
}

/// What is said, once, of settings that do not apply to the documents at some
/// URLs.
pub open spec fn warned(objects: Seq<ObjectSettingsView>, urls: Seq<Seq<char>>) -> Seq<Seq<char>>
    decreases objects.len(),
{
    if objects.len() == 0 {
        Seq::empty()
    } else {
        let (object, url) = (objects.last(), urls[objects.len() - 1]);
        let lines = warned(objects.drop_last(), urls);
        let lines = if object.web.encoding is Some && path_of(url) is None {
            said(lines, ENCODING_WARNING@)
        } else {
            lines
        };
        if object.web.cookies.len() > 0 && !cookies_apply(url) {
            said(lines, COOKIE_WARNING@)
        } else {
            lines
        }
    }
}

/// Say a line, once.
fn say(lines: &mut Vec<String>, line: &str)
    ensures
        texts(final(lines)@) == said(texts(old(lines)@), line@),
{
    let ghost before = texts(lines@);
    if !contains_text(lines, line) {
        lines.push(line.to_owned());
        assert(texts(lines@) =~= before.push(line@));
    }
}

/// What is said of settings that do not apply to the documents at some URLs.
pub fn warnings(objects: &Vec<ObjectSettings>, urls: &Vec<String>) -> (lines: Vec<String>)
    requires
        objects@.len() == urls@.len(),
    ensures
        texts(lines@) == warned(settings_of(objects@), texts(urls@)),
{
    let mut lines: Vec<String> = Vec::new();
    let ghost all = settings_of(objects@);
    let size: usize = objects.len();
    let mut at: usize = 0;
    assert(all.take(0) =~= Seq::empty());
    assert(texts(lines@) =~= Seq::empty());
    while at < size
        invariant
            at <= size == objects@.len() == urls@.len(),
            all == settings_of(objects@),
            texts(lines@) == warned(all.take(at as int), texts(urls@)),
        decreases size - at,
    {
        assert(all.take(at + 1).drop_last() =~= all.take(at as int));
        assert(all.take(at + 1).last() == objects@[at as int]@);
        assert(texts(urls@)[at as int] == urls@[at as int]@);
        let web = &objects[at].web;
        if web.encoding.is_some() && local_path(&urls[at]).is_none() {
            say(&mut lines, ENCODING_WARNING);
        }
        if web.cookies.len() > 0 && !takes_cookies(&urls[at]) {
            say(&mut lines, COOKIE_WARNING);
        }
        at = at + 1;
    }
    assert(all.take(at as int) =~= all);
    lines
}

fn same_maybe(left: &Option<String>, right: &Option<String>) -> (yes: bool)
    ensures
        yes == (maybe(*left) == maybe(*right)),
{
    match (left, right) {
        (None, None) => true,
        (Some(left), Some(right)) => same(left, right),
        _ => false,
    }
}

fn same_list(left: &Vec<String>, right: &Vec<String>) -> (yes: bool)
    ensures
        yes == (texts(left@) == texts(right@)),
{
    assert(texts(left@).len() == left@.len());
    assert(texts(right@).len() == right@.len());
    if left.len() != right.len() {
        return false;
    }
    let mut at: usize = 0;
    while at < left.len()
        invariant
            at <= left@.len() == right@.len(),
            forall|i: int| 0 <= i < at ==> texts(left@)[i] == texts(right@)[i],
        decreases left@.len() - at,
    {
        assert(texts(left@)[at as int] == left@[at as int]@);
        assert(texts(right@)[at as int] == right@[at as int]@);
        if !same(&left[at], &right[at]) {
            return false;
        }
        at = at + 1;
    }
    assert(texts(left@) =~= texts(right@));
    true
}

/// Whether two browsers would be started alike.
fn same_options(left: &LaunchOptions, right: &LaunchOptions) -> (yes: bool)
    ensures
        yes == (left@ == right@),
{
    left.no_sandbox == right.no_sandbox && same_list(&left.extra_args, &right.extra_args)
        && same_maybe(&left.user_data_dir, &right.user_data_dir) && left.handshake_timeout
        == right.handshake_timeout && left.allow_slow_scripts == right.allow_slow_scripts
        && same_maybe(&left.proxy, &right.proxy) && same_list(
        &left.bypass_proxy_for,
        &right.bypass_proxy_for,
    ) && same_maybe(&left.cache_dir, &right.cache_dir) && left.minimum_font_size
        == right.minimum_font_size && left.no_images == right.no_images
}

/// Whether a browser has to be started for an object: none is running, or one
/// that was started otherwise.
pub fn needs_browser(running: Option<&LaunchOptions>, wanted: &LaunchOptions) -> (yes: bool)
    ensures
        yes == match running {
            Some(running) => running@ != wanted@,
            None => true,
        },
{
    match running {
        Some(running) => !same_options(running, wanted),
        None => true,
    }
}

/// What becomes of a document that was loaded.
#[derive(Clone, Copy, Debug, PartialEq, Eq)]
pub enum Judgement {
    /// It is printed.
    Print,
    /// An empty page is printed in its place.
    PrintBlank,
    /// It is left out.
    Skip,
    /// The conversion ends.
    Abort,
}

/// What becomes of a document that was loaded.
pub open spec fn judged(report: LoadReportView, handling: LoadErrorHandling) -> Judgement {
    match (report.document, handling) {
        (None, _) => Judgement::Print,
        (Some(_), LoadErrorHandling::Abort) => Judgement::Abort,
        (Some(_), LoadErrorHandling::Skip) => Judgement::Skip,
        (Some(_), LoadErrorHandling::Ignore) => if report.navigation_failed {
            Judgement::PrintBlank
        } else {
            Judgement::Print
        },
    }
}

/// What a conversion has met with so far.
#[derive(Debug, PartialEq, Eq)]
pub struct Outcomes {
    /// The requests that were refused.
    pub refused: Vec<Refusal>,
    /// The requests that failed, by the object that made them.
    pub media: Vec<(usize, Vec<Failed>)>,
    /// A line for each document that was left out.
    pub skipped: Vec<String>,
    /// The documents that the browser could not even go to.
    pub failed: Vec<Failed>,
}

/// An [`Outcomes`] by the characters it holds.
pub struct OutcomesView {
    pub refused: Seq<RefusalView>,
    pub media: Seq<(usize, Seq<FailedView>)>,
    pub skipped: Seq<Seq<char>>,
    pub failed: Seq<FailedView>,
}

/// Failed requests, by the object that made them.
pub open spec fn media_of(list: Seq<(usize, Vec<Failed>)>) -> Seq<(usize, Seq<FailedView>)> {
    list.map_values(|pair: (usize, Vec<Failed>)| (pair.0, failures_of(pair.1@)))
}

impl View for Outcomes {
    type V = OutcomesView;

    open spec fn view(&self) -> OutcomesView {
        OutcomesView {
            refused: refusals_of(self.refused@),
            media: media_of(self.media@),
            skipped: texts(self.skipped@),
            failed: failures_of(self.failed@),
        }
    }
}

/// What is known once a document is judged.
pub open spec fn outcomes_after(
    outcomes: OutcomesView,
    report: LoadReportView,
    handling: LoadErrorHandling,
) -> OutcomesView {
    match judged(report, handling) {
        Judgement::Print | Judgement::Abort => outcomes,
        Judgement::PrintBlank => OutcomesView {
            failed: outcomes.failed.push(report.document->0),
            ..outcomes
        },
        Judgement::Skip => OutcomesView {
            skipped: outcomes.skipped.push(unloaded_line(report.document->0)),
            failed: if report.navigation_failed {
                outcomes.failed.push(report.document->0)
            } else {
                outcomes.failed
            },
            ..outcomes
        },
    }
}

fn push_failed(list: &mut Vec<Failed>, failed: Failed)
    ensures
        failures_of(final(list)@) == failures_of(old(list)@).push(failed@),
{
    let ghost before = failures_of(list@);
    let ghost added = failed@;
    list.push(failed);
    assert(failures_of(list@) =~= before.push(added));
}

impl Outcomes {
    /// Nothing met with.
    pub fn new() -> (outcomes: Outcomes)
        ensures
            outcomes@ == (OutcomesView {
                refused: Seq::empty(),
                media: Seq::empty(),
                skipped: Seq::empty(),
                failed: Seq::empty(),
            }),
    {
        let outcomes = Outcomes {
            refused: Vec::new(),
            media: Vec::new(),
            skipped: Vec::new(),
            failed: Vec::new(),
        };
        assert(refusals_of(outcomes.refused@) =~= Seq::empty());
        assert(media_of(outcomes.media@) =~= Seq::empty());
        assert(texts(outcomes.skipped@) =~= Seq::empty());
        assert(failures_of(outcomes.failed@) =~= Seq::empty());
        outcomes
    }

    /// Judge a document that was loaded.
    pub fn judge(&mut self, report: &LoadReport, handling: LoadErrorHandling) -> (judgement:
        Judgement)
        ensures
            judgement == judged(report@, handling),
            final(self)@ == outcomes_after(old(self)@, report@, handling),
    {
        let failed = match &report.document {
            Some(failed) => failed,
            None => {
                return Judgement::Print;
            },
        };
        match handling {
            LoadErrorHandling::Abort => Judgement::Abort,
            LoadErrorHandling::Skip => {
                if report.navigation_failed {
                    push_failed(&mut self.failed, failed.clone());
                }
                let ghost before = texts(self.skipped@);
                let line = unloaded(failed);
                let ghost added = line@;
                self.skipped.push(line);
                assert(texts(self.skipped@) =~= before.push(added));
                Judgement::Skip
            },
            LoadErrorHandling::Ignore => {
                if report.navigation_failed {
                    push_failed(&mut self.failed, failed.clone());
                    Judgement::PrintBlank
                } else {
                    Judgement::Print
                }
            },
        }
    }

    /// Note what was refused.
    pub fn refuse(&mut self, refused: Vec<Refusal>)
        ensures
            final(self)@ == (OutcomesView {
                refused: old(self)@.refused + refusals_of(refused@),
                ..old(self)@
            }),
    {
        let ghost before = self.refused@;
        let mut refused = refused;
        let ghost added = refused@;
        self.refused.append(&mut refused);
        assert(refusals_of(before + added) =~= refusals_of(before) + refusals_of(added));
    }

    /// Note the requests of an object that failed.
    pub fn note_media(&mut self, index: usize, media: Vec<Failed>)
        ensures
            final(self)@ == (OutcomesView {
                media: old(self)@.media.push((index, failures_of(media@))),
                ..old(self)@
            }),
    {
        let ghost before = media_of(self.media@);
        let ghost added = (index, failures_of(media@));
        self.media.push((index, media));
        assert(media_of(self.media@) =~= before.push(added));
    }

    /// That nothing is left, where no document was printed and no table is to
    /// be.
    pub fn nothing_left(&self, printed: usize, tables: usize) -> (error: Option<ConvertError>)
        ensures
            match error {
                Some(ConvertError::NothingLeft(lines)) => printed == 0 && tables == 0 && texts(
                    lines@,
                ) == self@.skipped,
                Some(_) => false,
                None => printed > 0 || tables > 0,
            },
    {
        if printed == 0 && tables == 0 {
            Some(ConvertError::NothingLeft(crate::tokenizer::copy_texts(&self.skipped)))
        } else {
            None
        }
    }
}

/// Whether a URL was refused.
pub open spec fn is_refused(refused: Seq<RefusalView>, url: Seq<char>) -> bool {
    exists|i: int| 0 <= i < refused.len() && (#[trigger] refused[i]).url == url
}

/// The failed requests of every object in order, without those that were
/// refused.
pub open spec fn failures_left(
    media: Seq<(usize, Seq<FailedView>)>,
    refused: Seq<RefusalView>,
) -> Seq<(usize, FailedView)>
    decreases media.len(),
{
    if media.len() == 0 {
        Seq::empty()
    } else {
        failures_left(media.drop_last(), refused) + unrefused(
            media.last().0,
            media.last().1,
            refused,
        )
    }
}

/// The failed requests of one object, without those that were refused.
pub open spec fn unrefused(
    index: usize,
    failures: Seq<FailedView>,
    refused: Seq<RefusalView>,
) -> Seq<(usize, FailedView)>
    decreases failures.len(),
{
    if failures.len() == 0 {
        Seq::empty()
    } else {
        let earlier = unrefused(index, failures.drop_last(), refused);
        if is_refused(refused, failures.last().url) {
            earlier
        } else {
            earlier.push((index, failures.last()))
        }
    }
}

/// Whether a failed request makes the conversion fail: it is no media file, or
/// media files are not to be missed.
pub open spec fn is_decisive(failure: (usize, FailedView), objects: Seq<ObjectSettingsView>) -> bool {
    !names_media(failure.1.url) || objects[failure.0 as int].load.on_media_error
        == LoadErrorHandling::Abort
}

/// The error of the first failed request that makes the conversion fail.
pub open spec fn first_decisive(
    failures: Seq<(usize, FailedView)>,
    objects: Seq<ObjectSettingsView>,
) -> Option<NetworkError>
    decreases failures.len(),
{
    if failures.len() == 0 {
        None
    } else {
        match first_decisive(failures.drop_last(), objects) {
            Some(error) => Some(error),
            None => if is_decisive(failures.last(), objects) {
                Some(failures.last().1.error)
            } else {
                None
            },
        }
    }
}

/// The network error that a conversion ends with: that of a failed request, or
/// else that of a refusal, or else that of a document that could not be gone to.
pub open spec fn exit_error(
    outcomes: OutcomesView,
    objects: Seq<ObjectSettingsView>,
) -> Option<NetworkError> {
    match first_decisive(failures_left(outcomes.media, outcomes.refused), objects) {
        Some(error) => Some(error),
        None => if outcomes.refused.len() > 0 {
            Some(NetworkError::ContentAccessDenied)
        } else if outcomes.failed.len() > 0 {
            Some(outcomes.failed[0].error)
        } else {
            None
        },
    }
}

fn refused_before(refused: &Vec<Refusal>, url: &str) -> (yes: bool)
    ensures
        yes == is_refused(refusals_of(refused@), url@),
{
    let ghost all = refusals_of(refused@);
    let mut at: usize = 0;
    while at < refused.len()
        invariant
            at <= refused@.len(),
            all == refusals_of(refused@),
            forall|i: int| 0 <= i < at ==> (#[trigger] all[i]).url != url@,
        decreases refused@.len() - at,
    {
        assert(all[at as int] == refused@[at as int]@);
        if same(&refused[at].url, url) {
            return true;
        }
        at = at + 1;
    }
    false
}

/// Failed requests, each with the object that made it.
pub open spec fn owned_failures(list: Seq<(usize, Failed)>) -> Seq<(usize, FailedView)> {
    list.map_values(|pair: (usize, Failed)| (pair.0, pair.1@))
}

fn push_unrefused(
    out: &mut Vec<(usize, Failed)>,
    index: usize,
    failures: &Vec<Failed>,
    refused: &Vec<Refusal>,
)
    ensures
        owned_failures(final(out)@) == owned_failures(old(out)@) + unrefused(
            index,
            failures_of(failures@),
            refusals_of(refused@),
        ),
{
    let ghost start = owned_failures(out@);
    let ghost all = failures_of(failures@);
    let ghost barred = refusals_of(refused@);
    let size: usize = failures.len();
    let mut at: usize = 0;
    assert(all.take(0) =~= Seq::empty());
    assert(owned_failures(out@) =~= start + unrefused(index, all.take(0), barred));
    while at < size
        invariant
            at <= size == failures@.len(),
            all == failures_of(failures@),
            barred == refusals_of(refused@),
            owned_failures(out@) == start + unrefused(index, all.take(at as int), barred),
        decreases size - at,
    {
        let ghost before = unrefused(index, all.take(at as int), barred);
        let ghost listed = owned_failures(out@);
        assert(all.take(at + 1).drop_last() =~= all.take(at as int));
        assert(all.take(at + 1).last() == failures@[at as int]@);
        if !refused_before(refused, &failures[at].url) {
            out.push((index, failures[at].clone()));
            assert(owned_failures(out@) =~= listed.push((index, failures@[at as int]@)));
            assert(owned_failures(out@) =~= start + before.push((index, failures@[at as int]@)));
        }
        at = at + 1;
    }
    assert(all.take(at as int) =~= all);
}

impl Outcomes {
    /// The failed requests that are reported, each with the object that made
    /// it.
    pub fn failures(&self) -> (list: Vec<(usize, Failed)>)
        ensures
            owned_failures(list@) == failures_left(self@.media, self@.refused),
    {
        let mut list: Vec<(usize, Failed)> = Vec::new();
        let ghost all = media_of(self.media@);
        let ghost barred = refusals_of(self.refused@);
        let size: usize = self.media.len();
        let mut at: usize = 0;
        assert(all.take(0) =~= Seq::empty());
        assert(owned_failures(list@) =~= Seq::empty());
        while at < size
            invariant
                at <= size == self.media@.len(),
                all == media_of(self.media@),
                barred == refusals_of(self.refused@),
                owned_failures(list@) == failures_left(all.take(at as int), barred),
            decreases size - at,
        {
            assert(all.take(at + 1).drop_last() =~= all.take(at as int));
            assert(all.take(at + 1).last() == (
                self.media@[at as int].0,
                failures_of(self.media@[at as int].1@),
            ));
            push_unrefused(&mut list, self.media[at].0, &self.media[at].1, &self.refused);
            at = at + 1;
        }
        assert(all.take(at as int) =~= all);
        list
    }

    /// The network error that the conversion ends with.
    pub fn exit(&self, objects: &Vec<ObjectSettings>) -> (error: Option<NetworkError>)
        requires
            forall|i: int|
                0 <= i < self@.media.len() ==> (#[trigger] self@.media[i]).0 < objects@.len(),
        ensures
            error == exit_error(self@, settings_of(objects@)),
    {
        let list = self.failures();
        let ghost all = owned_failures(list@);
        proof {
            lemma_owners(self@.media, self@.refused, objects@.len() as int);
        }
        let size: usize = list.len();
        let mut at: usize = 0;
        let mut decisive: Option<NetworkError> = None;
        assert(all.take(0) =~= Seq::empty());
        while at < size
            invariant
                at <= size == list@.len(),
                all == owned_failures(list@),
                forall|i: int| 0 <= i < all.len() ==> (#[trigger] all[i]).0 < objects@.len(),
                decisive == first_decisive(all.take(at as int), settings_of(objects@)),
            decreases size - at,
        {
            assert(all.take(at + 1).drop_last() =~= all.take(at as int));
            assert(all.take(at + 1).last() == all[at as int]);
            assert(all[at as int] == (list@[at as int].0, list@[at as int].1@));
            let (index, failed) = &list[at];
            let counts = !is_media_file(&failed.url) || match objects[*index].load.on_media_error {
                LoadErrorHandling::Abort => true,
                _ => false,
            };
            assert(settings_of(objects@)[*index as int] == objects@[*index as int]@);
            if decisive.is_none() && counts {
                decisive = Some(failed.error);
            }
            at = at + 1;
        }
        assert(all.take(at as int) =~= all);
        if decisive.is_some() {
            return decisive;
        }
        if self.refused.len() > 0 {
            return Some(self.refused[0].error());
        }
        if self.failed.len() > 0 {
            assert(failures_of(self.failed@)[0] == self.failed@[0]@);
            return Some(self.failed[0].error);
        }
        None
    }
}

proof fn lemma_unrefused_owner(
    index: usize,
    failures: Seq<FailedView>,
    refused: Seq<RefusalView>,
    i: int,
)
    requires
        0 <= i < unrefused(index, failures, refused).len(),
    ensures
        unrefused(index, failures, refused)[i].0 == index,
    decreases failures.len(),
{
    if failures.len() > 0 {
        let earlier = unrefused(index, failures.drop_last(), refused);
        if i < earlier.len() {
            lemma_unrefused_owner(index, failures.drop_last(), refused, i);
        }
    }
}

proof fn lemma_owners(
    media: Seq<(usize, Seq<FailedView>)>,
    refused: Seq<RefusalView>,
    count: int,
)
    requires
        forall|i: int| 0 <= i < media.len() ==> (#[trigger] media[i]).0 < count,
    ensures
        forall|i: int|
            0 <= i < failures_left(media, refused).len() ==> (#[trigger] failures_left(
                media,
                refused,
            )[i]).0 < count,
    decreases media.len(),
{
    if media.len() > 0 {
        let shorter = media.drop_last();
        assert forall|i: int| 0 <= i < shorter.len() implies (#[trigger] shorter[i]).0 < count by {
            assert(shorter[i] == media[i]);
        }
        lemma_owners(shorter, refused, count);
        let earlier = failures_left(shorter, refused);
        let own = unrefused(media.last().0, media.last().1, refused);
        assert(media[media.len() - 1].0 < count);
        assert forall|i: int| 0 <= i < failures_left(media, refused).len() implies (
        #[trigger] failures_left(media, refused)[i]).0 < count by {
            if i < earlier.len() {
                assert(failures_left(media, refused)[i] == earlier[i]);
            } else {
                assert(failures_left(media, refused)[i] == own[i - earlier.len()]);
                lemma_unrefused_owner(media.last().0, media.last().1, refused, i - earlier.len());
            }
        }
    }
}

/// The exit code that goes with a network error.
pub fn exit_code(error: Option<NetworkError>) -> (code: ExitCode)
    ensures
        code == if error is Some {
            ExitCode::Failure
        } else {
            ExitCode::Success
        },
{
    match error {
        Some(_) => ExitCode::Failure,
        None => ExitCode::Success,
    }
}

/// The line that says which network error a conversion ends with.
pub fn exit_line(error: NetworkError) -> (line: String)
    ensures
        line@ == "Exit with code 1 due to network error: "@ + error_name(error)@,
{
    let mut line = "Exit with code 1 due to network error: ".to_owned();
    line.push_str(error.name());
    line
}

/// The line that says which document is being loaded. Only where there are
/// several does it say which one.
pub open spec fn loading_text(index: int, total: int) -> Seq<char> {
    if total == 1 {
        "Loading page (1/2)"@
    } else {
        "Loading page "@ + decimal(index + 1) + " of "@ + decimal(total) + " (1/2)"@
    }
}

/// The line that says which document is being loaded.
pub fn loading_line(index: usize, total: usize) -> (line: String)
    requires
        index < total,
    ensures
        line@ == loading_text(index as int, total as int),
{
    if total == 1 {
        return "Loading page (1/2)".to_owned();
    }
    let mut line = "Loading page ".to_owned();
    push_number(&mut line, (index + 1) as u64);
    line.push_str(" of ");
    push_number(&mut line, total as u64);
    line.push_str(" (1/2)");
    line
}

/// The line that reports a failed request.
pub open spec fn failed_request_text(failed: FailedView) -> Seq<char> {
    PROGRAM@ + ": Failed to load "@ + failed.url + ", with network status code "@ + decimal(
        error_code(failed.error) as int,
    ) + " and http status code "@ + decimal(failed.http_status as int) + " - "@ + error_name(
        failed.error,
    )@
}

/// The line that reports a failed request.
pub fn failed_request_line(failed: &Failed) -> (line: String)
    ensures
        line@ == failed_request_text(failed@),
{
    let mut line = PROGRAM.to_owned();
    line.push_str(": Failed to load ");
    line.push_str(&failed.url);
    line.push_str(", with network status code ");
    push_number(&mut line, failed.error.code() as u64);
    line.push_str(" and http status code ");
    push_number(&mut line, failed.http_status as u64);
    line.push_str(" - ");
    line.push_str(failed.error.name());
    line
}

/// A warning, with the program's name before it.
pub fn warning_line(words: &str) -> (line: String)
    ensures
        line@ == PROGRAM@ + ": warning: "@ + words@,
{
    let mut line = PROGRAM.to_owned();
    line.push_str(": warning: ");
    line.push_str(words);
    line
}

/// That a media file was not loaded.
pub fn media_warning(failed: &Failed) -> (words: String)
    ensures
        words@ == failed_text(failed@) + " was not loaded"@,
{
    let mut words = failed.message();
    words.push_str(" was not loaded");
    words
}

/// What is said of a document that is left out or that is ignored.
pub open spec fn judgement_text(judgement: Judgement, url: Seq<char>) -> Option<Seq<char>> {
    match judgement {
        Judgement::Skip => Some("failed loading page "@ + url + " (skipped)"@),
        Judgement::PrintBlank => Some("failed loading page "@ + url + " (ignored)"@),
        _ => None,
    }
}

/// What is said of a document that is left out or that is ignored.
pub fn judgement_warning(judgement: Judgement, url: &str) -> (words: Option<String>)
    ensures
        maybe(words) == judgement_text(judgement, url@),
{
    let ending = match judgement {
        Judgement::Skip => " (skipped)",
        Judgement::PrintBlank => " (ignored)",
        _ => {
            return None;
        },
    };
    let mut words = "failed loading page ".to_owned();
    words.push_str(url);
    words.push_str(ending);
    Some(words)
}

/// That a document of the program's own did not load. `what` says which.
pub fn own_document_failed(failed: &Failed, what: &str) -> (error: Error)
    ensures
        error matches Error::Navigation { url, reason } && url@ == failed.url@ && reason@
            == error_name(failed.error)@ + " ("@ + what@ + ")"@,
{
    let mut reason = failed.error.name().to_owned();
    reason.push_str(" (");
    reason.push_str(what);
    reason.push_str(")");
    Error::Navigation { url: failed.url.clone(), reason }
}

/// What the file's producer is called.
pub fn producer() -> (name: String)
    ensures
        name@ == PROGRAM@ + " "@ + VERSION@,
{
    let mut name = PROGRAM.to_owned();
    name.push_str(" ");
    name.push_str(VERSION);
    name
}

/// The title of the first piece that is no table of contents.
pub open spec fn first_title(
    pieces: Seq<Piece>,
    titles: Seq<Seq<char>>,
    tables: Seq<usize>,
) -> Seq<char>
    decreases pieces.len(),
{
    if pieces.len() == 0 {
        Seq::empty()
    } else if !tables.contains(pieces[0].index) {
        titles[0]
    } else {
        first_title(pieces.skip(1), titles.skip(1), tables)
    }
}

/// Whether a list of positions holds one.
fn holds_position(list: &Vec<usize>, wanted: usize) -> (yes: bool)
    ensures
        yes == list@.contains(wanted),
{
    let mut at: usize = 0;
    while at < list.len()
        invariant
            at <= list@.len(),
            forall|i: int| 0 <= i < at ==> list@[i] != wanted,
        decreases list@.len() - at,
    {
        if list[at] == wanted {
            return true;
        }
        at = at + 1;
    }
    false
}

/// The title of the first piece that is no table of contents.
fn document_title(pieces: &Vec<Piece>, titles: &Vec<String>, tables: &Vec<usize>) -> (title: String)
    requires
        pieces@.len() == titles@.len(),
    ensures
        title@ == first_title(pieces@, texts(titles@), tables@),
{
    let ghost all = texts(titles@);
    let size: usize = pieces.len();
    let mut at: usize = 0;
    assert(pieces@.skip(0) =~= pieces@);
    assert(all.skip(0) =~= all);
    while at < size
        invariant
            at <= size == pieces@.len() == titles@.len(),
            all == texts(titles@),
            first_title(pieces@, all, tables@) == first_title(
                pieces@.skip(at as int),
                all.skip(at as int),
                tables@,
            ),
        decreases size - at,
    {
        assert(pieces@.skip(at as int)[0] == pieces@[at as int]);
        assert(all.skip(at as int)[0] == titles@[at as int]@);
        assert(pieces@.skip(at as int).skip(1) =~= pieces@.skip(at + 1));
        assert(all.skip(at as int).skip(1) =~= all.skip(at + 1));
        if !holds_position(tables, pieces[at].index) {
            return titles[at].clone();
        }
        at = at + 1;
    }
    String::new()
}

/// The title of the file: the one that was given, or that of the first document.
pub fn file_title(
    given: &Option<String>,
    pieces: &Vec<Piece>,
    titles: &Vec<String>,
    tables: &Vec<usize>,
) -> (title: String)
    requires
        pieces@.len() == titles@.len(),
    ensures
        title@ == match *given {
            Some(given) => given@,
            None => first_title(pieces@, texts(titles@), tables@),
        },
{
    match given {
        Some(given) => given.clone(),
        None => document_title(pieces, titles, tables),
    }
}

/// What a piece is in an outline dump.
pub open spec fn dumped_as(
    object: Object,
    piece: Piece,
    title: Seq<char>,
    settings: ObjectSettingsView,
) -> bool {
    &&& object.pages == piece.pages
    &&& if settings.kind == ObjectKind::Toc {
        object.role == Role::Contents && object.title@ == settings.toc.header_text
    } else if settings.in_outline {
        object.role == Role::Document && object.title@ == title
    } else {
        object.role == Role::Excluded && object.title@ == Seq::<char>::empty()
    }
}

/// The objects of an outline dump: each piece by its title, a table of contents
/// by its own heading, and what takes no part without a name.
pub fn dump_objects(
    objects: &Vec<ObjectSettings>,
    pieces: &Vec<Piece>,
    titles: &Vec<String>,
) -> (list: Vec<Object>)
    requires
        pieces@.len() == titles@.len(),
        known(pieces@, objects@.len() as int),
    ensures
        list@.len() == pieces@.len(),
        forall|i: int|
            0 <= i < list@.len() ==> dumped_as(
                #[trigger] list@[i],
                pieces@[i],
                titles@[i]@,
                objects@[pieces@[i].index as int]@,
            ),
{
    let mut list: Vec<Object> = Vec::new();
    let size: usize = pieces.len();
    let mut at: usize = 0;
    while at < size
        invariant
            at <= size == pieces@.len() == titles@.len(),
            known(pieces@, objects@.len() as int),
            list@.len() == at,
            forall|i: int|
                0 <= i < at ==> dumped_as(
                    #[trigger] list@[i],
                    pieces@[i],
                    titles@[i]@,
                    objects@[pieces@[i].index as int]@,
                ),
        decreases size - at,
    {
        let piece = pieces[at];
        assert(pieces@[at as int].index < objects@.len());
        let object = &objects[piece.index];
        let (title, role) = match object.kind {
            ObjectKind::Toc => (object.toc.header_text.clone(), Role::Contents),
            _ => if object.in_outline {
                (titles[at].clone(), Role::Document)
            } else {
                (String::new(), Role::Excluded)
            },
        };
        list.push(Object { title, pages: piece.pages, role });
        at = at + 1;
    }
    list
}

/// The context of a document, with the title of the file.
pub fn titled(context: &Context, title: &str) -> (titled: Context)
    ensures
        titled@ == (ContextView { title: title@, ..context@ }),
{
    Context {
        webpage: context.webpage.clone(),
        title: title.to_owned(),
        replacements: copy_pairs(&context.replacements),
        clock: context.clock,
    }
}

/// What one band of a document needs to be drawn.
#[derive(Debug, PartialEq, Eq)]
pub struct BandDress {
    /// The URL of its document, where it is one.
    pub url: Option<String>,
    pub row: RowSizes,
    pub frame: FrameSizes,
}

/// What the bands of a document need to be drawn.
#[derive(Debug, PartialEq, Eq)]
pub struct Dress {
    pub bands: Bands,
    pub header: BandDress,
    pub footer: BandDress,
    pub context: Context,
}

/// A band on one page. One that is a document is told what its placeholders
/// stand for there.
pub open spec fn markup(
    band: BandView,
    dress: BandDress,
    edge: Edge,
    named: NamedMargins,
    context: ContextView,
    numbers: NumbersView,
) -> Seq<char> {
    match dress.url {
        Some(url) => frame_html(
            joined_query(url@, query_of(query_pairs(context, numbers))),
            edge,
            named,
            dress.frame,
        ),
        None => row_html(band, edge, dress.row, context, numbers),
    }
}

fn write_band(
    band: &Band,
    dress: &BandDress,
    edge: Edge,
    named: NamedMargins,
    context: &Context,
    numbers: &Numbers,
) -> (out: String)
    ensures
        out@ == markup(band@, *dress, edge, named, context@, numbers@),
{
    match &dress.url {
        Some(url) => frame(
            &with_query(url, &query(context, numbers)),
            edge,
            named,
            &dress.frame,
        ),
        None => row(band, edge, &dress.row, context, numbers),
    }
}

/// Whether a sheet holds the bands of a page.
pub open spec fn is_sheet_of(
    sheet: Sheet,
    dress: Dress,
    named: NamedMargins,
    numbers: NumbersView,
) -> bool {
    &&& sheet.header@ == markup(
        dress.bands@.header,
        dress.header,
        Edge::Header,
        named,
        dress.context@,
        numbers,
    )
    &&& sheet.footer@ == markup(
        dress.bands@.footer,
        dress.footer,
        Edge::Footer,
        named,
        dress.context@,
        numbers,
    )
}

/// The sheets of bands, one for each page of the file. Each page names the
/// document that it belongs to.
pub fn sheets(numbered: &Vec<(usize, Numbers)>, dresses: &Vec<Dress>, named: NamedMargins) -> (list:
    Vec<Sheet>)
    requires
        forall|i: int| 0 <= i < numbered@.len() ==> (#[trigger] numbered@[i]).0 < dresses@.len(),
    ensures
        list@.len() == numbered@.len(),
        forall|i: int|
            0 <= i < list@.len() ==> is_sheet_of(
                #[trigger] list@[i],
                dresses@[numbered@[i].0 as int],
                named,
                numbered@[i].1@,
            ),
{
    let mut list: Vec<Sheet> = Vec::new();
    let size: usize = numbered.len();
    let mut at: usize = 0;
    while at < size
        invariant
            at <= size == numbered@.len(),
            forall|i: int|
                0 <= i < numbered@.len() ==> (#[trigger] numbered@[i]).0 < dresses@.len(),
            list@.len() == at,
            forall|i: int|
                0 <= i < at ==> is_sheet_of(
                    #[trigger] list@[i],
                    dresses@[numbered@[i].0 as int],
                    named,
                    numbered@[i].1@,
                ),
        decreases size - at,
    {
        assert(numbered@[at as int].0 < dresses@.len());
        let (part, numbers) = &numbered[at];
        let dress = &dresses[*part];
        let header = write_band(
            &dress.bands.header,
            &dress.header,
            Edge::Header,
            named,
            &dress.context,
            numbers,
        );
        let footer = write_band(
            &dress.bands.footer,
            &dress.footer,
            Edge::Footer,
            named,
            &dress.context,
            numbers,
        );
        list.push(Sheet { header, footer });
        at = at + 1;
    }
    list
}

/// Whether any document has bands to draw.
pub fn draws_bands(dresses: &Vec<Bands>) -> (yes: bool)
    ensures
        yes == exists|i: int|
            0 <= i < dresses@.len() && !(band_is_empty((#[trigger] dresses@[i])@.header)
                && band_is_empty(dresses@[i]@.footer)),
{
    let mut at: usize = 0;
    while at < dresses.len()
        invariant
            at <= dresses@.len(),
            forall|i: int|
                0 <= i < at ==> band_is_empty((#[trigger] dresses@[i])@.header) && band_is_empty(
                    dresses@[i]@.footer,
                ),
        decreases dresses@.len() - at,
    {
        if !dresses[at].is_empty() {
            assert(!(band_is_empty(dresses@[at as int]@.header) && band_is_empty(
                dresses@[at as int]@.footer,
            )));
            return true;
        }
        at = at + 1;
    }
    false
}

/// A text with its white space collapsed: none at either end, and one space
/// between words.
pub open spec fn collapsed(text: Seq<char>) -> Seq<char>
    decreases text.len(),
{
    if text.len() == 0 {
        Seq::empty()
    } else {
        let earlier = collapsed(text.drop_last());
        if is_space(text.last()) {
            earlier
        } else if text.len() > 1 && is_space(text[text.len() - 2]) && earlier.len() > 0 {
            earlier.push(' ').push(text.last())
        } else {
            earlier.push(text.last())
        }
    }
}

/// Collapse the white space of a text.
pub fn collapse(text: &str) -> (out: String)
    ensures
        out@ == collapsed(text@),
{
    let chars = chars_of(text);
    let size: usize = chars.len();
    let mut out = String::new();
    let mut empty = true;
    let mut at: usize = 0;
    assert(chars@.take(0) =~= Seq::empty());
    while at < size
        invariant
            at <= size == chars@.len(),
            out@ == collapsed(chars@.take(at as int)),
            empty == (out@.len() == 0),
        decreases size - at,
    {
        assert(chars@.take(at + 1).drop_last() =~= chars@.take(at as int));
        assert(chars@.take(at + 1).last() == chars@[at as int]);
        let c = chars[at];
        if !space(c) {
            if at > 0 {
                assert(chars@.take(at + 1)[at - 1] == chars@[at - 1]);
            }
            if at > 0 && space(chars[at - 1]) && !empty {
                out.push(' ');
            }
            out.push(c);
            empty = false;
        }
        at = at + 1;
    }
    assert(chars@.take(at as int) =~= text@);
    out
}

/// The first box of a title, from a position on.
pub open spec fn box_from(boxes: Seq<Seq<char>>, title: Seq<char>, from: int) -> Option<int>
    decreases boxes.len() - from,
{
    if from < 0 || from >= boxes.len() {
        None
    } else if collapsed(boxes[from]) == title {
        Some(from)
    } else {
        box_from(boxes, title, from + 1)
    }
}

/// Headings with the boxes that were measured for them, in order. A box belongs
/// to one heading, and a heading without a box is left out.
pub open spec fn paired(
    headings: Seq<Heading>,
    boxes: Seq<Seq<char>>,
    from: int,
) -> Seq<(Heading, int)>
    decreases headings.len(),
{
    if headings.len() == 0 {
        Seq::empty()
    } else {
        match box_from(boxes, collapsed(headings[0].title), from) {
            Some(at) => seq![(headings[0], at)] + paired(headings.skip(1), boxes, at + 1),
            None => paired(headings.skip(1), boxes, from),
        }
    }
}

/// A link from a heading back to the table of contents.
#[derive(Debug, PartialEq, Eq)]
pub struct BackLink {
    pub page: usize,
    pub left: String,
    pub top: String,
    /// Which of the measured boxes is the heading's.
    pub boxed: usize,
}

/// A [`BackLink`] by the characters it holds.
pub struct BackLinkView {
    pub page: usize,
    pub left: Seq<char>,
    pub top: Seq<char>,
    pub boxed: int,
}

impl View for BackLink {
    type V = BackLinkView;

    open spec fn view(&self) -> BackLinkView {
        BackLinkView {
            page: self.page,
            left: self.left@,
            top: self.top@,
            boxed: self.boxed as int,
        }
    }
}

/// The links of a list, by the characters they hold.
pub open spec fn links_of(list: Seq<BackLink>) -> Seq<BackLinkView> {
    list.map_values(|link: BackLink| link@)
}

/// The links of headings that were paired with boxes.
pub open spec fn link_views(pairs: Seq<(Heading, int)>) -> Seq<BackLinkView> {
    pairs.map_values(
        |pair: (Heading, int)|
            BackLinkView {
                page: pair.0.page,
                left: pair.0.left,
                top: pair.0.top,
                boxed: pair.1,
            },
    )
}

fn find_box(boxes: &Vec<String>, title: &str, from: usize) -> (at: Option<usize>)
    requires
        from <= boxes@.len(),
    ensures
        match at {
            Some(at) => box_from(texts(boxes@), title@, from as int) == Some(at as int) && from
                <= at < boxes@.len(),
            None => box_from(texts(boxes@), title@, from as int) is None,
        },
{
    let ghost all = texts(boxes@);
    let size: usize = boxes.len();
    let mut at: usize = from;
    while at < size
        invariant
            from <= at <= size == boxes@.len(),
            all == texts(boxes@),
            box_from(all, title@, from as int) == box_from(all, title@, at as int),
        decreases size - at,
    {
        assert(all[at as int] == boxes@[at as int]@);
        if same(&collapse(&boxes[at]), title) {
            return Some(at);
        }
        at = at + 1;
    }
    None
}

/// The headings of the trees that begin on some pages, in reading order.
fn own_headings(items: &Vec<OutlineItem>, after: usize, upto: usize) -> (list: Vec<FlatHeading>)
    ensures
        headings_of(list@) == flat(on_pages(items@, after as int, upto as int), 1),
{
    let mut list: Vec<FlatHeading> = Vec::new();
    let size: usize = items.len();
    let mut at: usize = 0;
    assert(items@.take(0) =~= Seq::empty());
    assert(headings_of(list@) =~= Seq::empty());
    while at < size
        invariant
            at <= size == items@.len(),
            headings_of(list@) == flat(
                on_pages(items@.take(at as int), after as int, upto as int),
                1,
            ),
        decreases size - at,
    {
        assert(items@.take(at + 1).drop_last() =~= items@.take(at as int));
        assert(items@.take(at + 1).last() == items@[at as int]);
        let item = &items[at];
        if after < item.page && item.page <= upto {
            let ghost earlier = on_pages(items@.take(at as int), after as int, upto as int);
            let ghost before = headings_of(list@);
            assert(earlier.push(*item).drop_last() =~= earlier);
            list.push(
                FlatHeading {
                    level: 1,
                    page: item.page,
                    title: item.title.clone(),
                    left: item.left.clone(),
                    top: item.top.clone(),
                },
            );
            assert(headings_of(list@) =~= before + seq![heading_of(*item, 1)]);
            walk(&item.children, 2, &mut list);
            assert(deeper(1) == 2);
        }
        at = at + 1;
    }
    assert(items@.take(at as int) =~= items@);
    list
}

/// The links of a document's headings back to the table of contents. The
/// headings are those of the pages behind one and up to another, and `boxes` are
/// the titles that were measured in the document.
pub fn back_links_of(items: &Vec<OutlineItem>, after: usize, upto: usize, boxes: &Vec<String>) -> (links:
    Vec<BackLink>)
    ensures
        links_of(links@) == link_views(
            paired(flat(on_pages(items@, after as int, upto as int), 1), texts(boxes@), 0),
        ),
{
    let headings = own_headings(items, after, upto);
    let ghost all = headings_of(headings@);
    let ghost measured = texts(boxes@);
    let mut links: Vec<BackLink> = Vec::new();
    let size: usize = headings.len();
    let count: usize = boxes.len();
    let mut next: usize = 0;
    let mut at: usize = 0;
    assert(all.skip(0) =~= all);
    assert(links_of(links@) + link_views(paired(all, measured, 0)) =~= link_views(
        paired(all, measured, 0),
    ));
    while at < size
        invariant
            at <= size == headings@.len(),
            next <= count == boxes@.len(),
            all == headings_of(headings@),
            measured == texts(boxes@),
            link_views(paired(all, measured, 0)) == links_of(links@) + link_views(
                paired(all.skip(at as int), measured, next as int),
            ),
        decreases size - at,
    {
        let ghost left = all.skip(at as int);
        let heading = &headings[at];
        assert(left[0] == heading@);
        assert(left.skip(1) =~= all.skip(at + 1));
        if let Some(found) = find_box(boxes, &collapse(&heading.title), next) {
            let ghost before = links_of(links@);
            let link = BackLink {
                page: heading.page,
                left: heading.left.clone(),
                top: heading.top.clone(),
                boxed: found,
            };
            let ghost added = link@;
            links.push(link);
            assert(links_of(links@) =~= before.push(added));
            let ghost rest = paired(all.skip(at + 1), measured, found + 1);
            assert(link_views(seq![(heading@, found as int)] + rest) =~= seq![added] + link_views(
                rest,
            ));
            assert(before + (seq![added] + link_views(rest)) =~= links_of(links@) + link_views(
                rest,
            ));
            next = found + 1;
        }
        at = at + 1;
    }
    assert(link_views(paired(all.skip(at as int), measured, next as int)) =~= Seq::empty());
    assert(links_of(links@) + Seq::<BackLinkView>::empty() =~= links_of(links@));
    links
}

/// The link of a table's own heading begins at the top of its page.
pub open spec fn from_the_top(links: Seq<BackLinkView>) -> Seq<BackLinkView> {
    if links.len() == 0 {
        links
    } else {
        links.update(0, BackLinkView { left: "0"@, top: TOP_OF_THE_PAGE@, ..links[0] })
    }
}

/// Let the link of a table's own heading begin at the top of its page.
pub fn lift_first(links: Vec<BackLink>) -> (lifted: Vec<BackLink>)
    ensures
        links_of(lifted@) == from_the_top(links_of(links@)),
{
    let ghost all = links_of(links@);
    let mut lifted = links;
    if lifted.len() > 0 {
        let page: usize = lifted[0].page;
        let boxed: usize = lifted[0].boxed;
        assert(all[0] == lifted@[0]@);
        lifted.set(
            0,
            BackLink { page, left: "0".to_owned(), top: TOP_OF_THE_PAGE.to_owned(), boxed },
        );
        assert(links_of(lifted@) =~= from_the_top(all));
    } else {
        assert(links_of(lifted@) =~= all);
    }
    lifted
}

/// Where a table of contents stands in the file, and whether its links stay.
#[derive(Clone, Copy, Debug, PartialEq, Eq)]
pub struct ContentsPart {
    pub first_page: usize,
    pub pages: usize,
    pub keep_links: bool,
}

/// The tables of contents of a file.
pub open spec fn contents_parts_of(
    pieces: Seq<Piece>,
    objects: Seq<ObjectSettingsView>,
) -> Seq<ContentsPart>
    decreases pieces.len(),
{
    if pieces.len() == 0 {
        Seq::empty()
    } else {
        let earlier = contents_parts_of(pieces.drop_last(), objects);
        let object = objects[pieces.last().index as int];
        if object.kind == ObjectKind::Toc {
            earlier.push(
                ContentsPart {
                    first_page: (total(pieces.drop_last()) + 1) as usize,
                    pages: pieces.last().pages,
                    keep_links: object.toc.links,
                },
            )
        } else {
            earlier
        }
    }
}

/// The tables of contents of a file.
pub fn contents_parts(pieces: &Vec<Piece>, objects: &Vec<ObjectSettings>) -> (list: Vec<
    ContentsPart,
>)
    requires
        known(pieces@, objects@.len() as int),
        total(pieces@) < usize::MAX,
    ensures
        list@ == contents_parts_of(pieces@, settings_of(objects@)),
{
    let mut list: Vec<ContentsPart> = Vec::new();
    let ghost all = settings_of(objects@);
    let size: usize = pieces.len();
    let mut before: usize = 0;
    let mut at: usize = 0;
    assert(pieces@.take(0) =~= Seq::empty());
    while at < size
        invariant
            at <= size == pieces@.len(),
            all == settings_of(objects@),
            known(pieces@, objects@.len() as int),
            total(pieces@) < usize::MAX,
            before == total(pieces@.take(at as int)),
            list@ == contents_parts_of(pieces@.take(at as int), all),
        decreases size - at,
    {
        assert(pieces@.take(at + 1).drop_last() =~= pieces@.take(at as int));
        assert(pieces@.take(at + 1).last() == pieces@[at as int]);
        proof {
            crate::layout::lemma_total(pieces@, at + 1);
        }
        let piece = pieces[at];
        assert(pieces@[at as int].index < objects@.len());
        let object = &objects[piece.index];
        assert(all[piece.index as int] == object@);
        if let ObjectKind::Toc = object.kind {
            list.push(
                ContentsPart {
                    first_page: before + 1,
                    pages: piece.pages,
                    keep_links: object.toc.links,
                },
            );
        }
        before = before + piece.pages;
        at = at + 1;
    }
    assert(pieces@.take(at as int) =~= pieces@);
    list
}

proof fn lemma_box_from(boxes: Seq<Seq<char>>, title: Seq<char>, from: int)
    requires
        0 <= from,
    ensures
        match box_from(boxes, title, from) {
            Some(at) => from <= at < boxes.len() && collapsed(boxes[at]) == title,
            None => true,
        },
    decreases boxes.len() - from,
{
    if from < boxes.len() && collapsed(boxes[from]) != title {
        lemma_box_from(boxes, title, from + 1);
    }
}

/// A box belongs to one heading of its title, and the headings keep their order.
pub proof fn law_boxes_are_used_once(headings: Seq<Heading>, boxes: Seq<Seq<char>>, from: int)
    requires
        0 <= from,
    ensures
        forall|i: int|
            0 <= i < paired(headings, boxes, from).len() ==> from <= (#[trigger] paired(
                headings,
                boxes,
                from,
            )[i]).1 < boxes.len() && collapsed(boxes[paired(headings, boxes, from)[i].1])
                == collapsed(paired(headings, boxes, from)[i].0.title),
        forall|i: int, j: int|
            0 <= i < j < paired(headings, boxes, from).len() ==> (#[trigger] paired(
                headings,
                boxes,
                from,
            )[i]).1 < (#[trigger] paired(headings, boxes, from)[j]).1,
    decreases headings.len(),
{
    if headings.len() > 0 {
        let title = collapsed(headings[0].title);
        lemma_box_from(boxes, title, from);
        match box_from(boxes, title, from) {
            Some(at) => {
                law_boxes_are_used_once(headings.skip(1), boxes, at + 1);
                let rest = paired(headings.skip(1), boxes, at + 1);
                let all = paired(headings, boxes, from);
                assert(all =~= seq![(headings[0], at)] + rest);
                assert forall|i: int| 0 <= i < all.len() implies from <= (#[trigger] all[i]).1
                    < boxes.len() && collapsed(boxes[all[i].1]) == collapsed(all[i].0.title) by {
                    if i > 0 {
                        assert(all[i] == rest[i - 1]);
                    }
                }
                assert forall|i: int, j: int| 0 <= i < j < all.len() implies (
                #[trigger] all[i]).1 < (#[trigger] all[j]).1 by {
                    assert(all[j] == rest[j - 1]);
                    if i > 0 {
                        assert(all[i] == rest[i - 1]);
                    }
                }
            },
            None => {
                law_boxes_are_used_once(headings.skip(1), boxes, from);
                assert(paired(headings, boxes, from) == paired(headings.skip(1), boxes, from));
            },
        }
    }
}

/// A document that did not load ends the conversion, is left out, or is printed,
/// as its handling says; one that did load is always printed.
pub proof fn law_handling_decides(report: LoadReportView, handling: LoadErrorHandling)
    ensures
        report.document is None ==> judged(report, handling) == Judgement::Print,
        judged(report, handling) == Judgement::Abort <==> report.document is Some && handling
            == LoadErrorHandling::Abort,
        judged(report, handling) == Judgement::Skip <==> report.document is Some && handling
            == LoadErrorHandling::Skip,
{
}

/// A conversion that met with nothing succeeds, and one that refused a request
/// never does.
pub proof fn law_a_refusal_fails_the_conversion(
    outcomes: OutcomesView,
    objects: Seq<ObjectSettingsView>,
)
    ensures
        outcomes.refused.len() > 0 ==> exit_error(outcomes, objects) is Some,
        outcomes.media.len() == 0 && outcomes.refused.len() == 0 && outcomes.failed.len() == 0
            ==> exit_error(outcomes, objects) is None,
{
}

/// Texts are joined in their order, with the separator between each two.
pub proof fn law_texts_are_joined(list: Seq<Seq<char>>, text: Seq<char>, separator: Seq<char>)
    ensures
        joined_texts(seq![text], separator) == text,
        list.len() > 0 ==> joined_texts(list.push(text), separator) == joined_texts(list, separator)
            + separator + text,
        joined_texts(Seq::empty(), separator).len() == 0,
{
    assert(list.push(text).drop_last() =~= list);
    assert(list.push(text).last() == text);
}

/// A conversion that came to nothing says why, in the words of what went wrong.
pub proof fn law_why_a_conversion_came_to_nothing(error: ConvertError)
    ensures
        error matches ConvertError::Unsupported(what) ==> convert_message(error) == what@,
        error matches ConvertError::NothingLeft(failures) ==> convert_message(error)
            == "--load-error-handling skip left nothing to convert: "@ + joined_texts(
            texts(failures@),
            "; "@,
        ),
        error matches ConvertError::Dump { path, reason } ==> convert_message(error)
            == "could not write the outline to "@ + path@ + ": "@ + reason@,
        error matches ConvertError::DocumentFailed(failed) ==> convert_message(error)
            == "could not load "@ + failed@.url + ": "@ + error_name(failed@.error)@
            && counts_as(error) == Some(failed.error),
        error matches ConvertError::Input(input) ==> convert_message(error) == "could not read "@
            + input.input@ + ": "@ + input.reason@ && counts_as(error) == Some(input.error),
        error matches ConvertError::Output(output) ==> counts_as(error) is None && match output.path {
            Some(path) => convert_message(error) == "could not write "@ + path@ + ": "@
                + output.source@,
            None => convert_message(error) == "could not write to standard output: "@
                + output.source@,
        },
        !(error is DocumentFailed) && !(error is Input) ==> counts_as(error) is None,
{
}

/// Every object that is read from standard input counts.
pub proof fn law_standard_input_is_counted(
    first: Seq<ObjectSettingsView>,
    second: Seq<ObjectSettingsView>,
    object: ObjectSettingsView,
)
    ensures
        stdin_count(first + second) == stdin_count(first) + stdin_count(second),
        object.input == Some(InputView::Stdin) ==> stdin_count(seq![object]) == 1,
        object.input != Some(InputView::Stdin) ==> stdin_count(seq![object]) == 0,
    decreases second.len(),
{
    reveal_with_fuel(stdin_count, 2);
    assert(seq![object].drop_last() =~= Seq::empty());
    if second.len() == 0 {
        assert(first + second =~= first);
    } else {
        assert((first + second).drop_last() =~= first + second.drop_last());
        assert((first + second).last() == second.last());
        law_standard_input_is_counted(first, second.drop_last(), object);
    }
}

/// The tables of contents are exactly the objects that are one, in their order.
pub proof fn law_where_the_tables_are(objects: Seq<ObjectSettingsView>)
    requires
        objects.len() <= usize::MAX,
    ensures
        forall|i: int|
            0 <= i < objects.len() ==> (table_positions(objects).contains(i as usize) <==> (
            #[trigger] objects[i]).kind == ObjectKind::Toc),
        forall|i: int|
            0 <= i < table_positions(objects).len() ==> #[trigger] table_positions(objects)[i]
                < objects.len(),
        forall|i: int, j: int|
            0 <= i < j < table_positions(objects).len() ==> #[trigger] table_positions(objects)[i]
                < #[trigger] table_positions(objects)[j],
    decreases objects.len(),
{
    if objects.len() > 0 {
        let before = objects.drop_last();
        law_where_the_tables_are(before);
        let earlier = table_positions(before);
        let all = table_positions(objects);
        let last = objects.len() - 1;
        assert forall|i: int| 0 <= i < objects.len() implies (all.contains(i as usize) <==> (
        #[trigger] objects[i]).kind == ObjectKind::Toc) by {
            if i < last {
                assert(before[i] == objects[i]);
                assert(earlier.contains(i as usize) <==> before[i].kind == ObjectKind::Toc);
                if earlier.contains(i as usize) {
                    let k = choose|k: int| 0 <= k < earlier.len() && earlier[k] == i as usize;
                    assert(all[k] == i as usize);
                }
                if all.contains(i as usize) {
                    let k = choose|k: int| 0 <= k < all.len() && all[k] == i as usize;
                    if k < earlier.len() {
                        assert(earlier[k] == i as usize);
                    }
                }
            } else {
                if objects[i].kind == ObjectKind::Toc {
                    assert(all[all.len() - 1] == i as usize);
                } else if all.contains(i as usize) {
                    let k = choose|k: int| 0 <= k < all.len() && all[k] == i as usize;
                    assert(earlier[k] < before.len());
                }
            }
        }
    }
}

/// The delay of the bands is the longest of the objects whose bands are documents: none
/// of them asks for more, and one of them asks for it unless it is nothing.
pub proof fn law_the_longest_delay(objects: Seq<ObjectSettingsView>)
    ensures
        forall|i: int|
            0 <= i < objects.len() && ((#[trigger] objects[i]).header.html is Some
                || objects[i].footer.html is Some) ==> objects[i].load.javascript_delay
                <= longest_delay(objects),
        longest_delay(objects) == 0 || exists|i: int|
            0 <= i < objects.len() && ((#[trigger] objects[i]).header.html is Some
                || objects[i].footer.html is Some) && objects[i].load.javascript_delay
                == longest_delay(objects),
    decreases objects.len(),
{
    if objects.len() > 0 {
        let before = objects.drop_last();
        law_the_longest_delay(before);
        let last = objects.len() - 1;
        assert forall|i: int|
            0 <= i < objects.len() && ((#[trigger] objects[i]).header.html is Some
                || objects[i].footer.html is Some) implies objects[i].load.javascript_delay
            <= longest_delay(objects) by {
            if i < last {
                assert(before[i] == objects[i]);
            }
        }
        if longest_delay(objects) != 0 {
            if longest_delay(objects) == longest_delay(before) {
                let i = choose|i: int|
                    0 <= i < before.len() && ((#[trigger] before[i]).header.html is Some
                        || before[i].footer.html is Some) && before[i].load.javascript_delay
                        == longest_delay(before);
                assert(objects[i] == before[i]);
            } else {
                assert(objects[last].load.javascript_delay == longest_delay(objects));
            }
        }
    }
}

/// What is said of settings that do not apply: the encoding of a document that is no file,
/// and cookies of one that is not asked for over HTTP, each once and only where there is
/// such an object.
pub proof fn law_what_is_warned_about(objects: Seq<ObjectSettingsView>, urls: Seq<Seq<char>>)
    ensures
        warned(objects, urls).contains(ENCODING_WARNING@) <==> exists|i: int|
            0 <= i < objects.len() && (#[trigger] objects[i]).web.encoding is Some && path_of(
                urls[i],
            ) is None,
        warned(objects, urls).contains(COOKIE_WARNING@) <==> exists|i: int|
            0 <= i < objects.len() && (#[trigger] objects[i]).web.cookies.len() > 0
                && !cookies_apply(urls[i]),
        warned(objects, urls).no_duplicates(),
        forall|i: int|
            0 <= i < warned(objects, urls).len() ==> #[trigger] warned(objects, urls)[i]
                == ENCODING_WARNING@ || warned(objects, urls)[i] == COOKIE_WARNING@,
    decreases objects.len(),
{
    lemma_two_warnings();
    if objects.len() > 0 {
        let before = objects.drop_last();
        let last = objects.len() - 1;
        law_what_is_warned_about(before, urls);
        let first = warned(before, urls);
        let object = objects.last();
        let url = urls[last];
        let encoding = object.web.encoding is Some && path_of(url) is None;
        let cookies = object.web.cookies.len() > 0 && !cookies_apply(url);
        let second = if encoding {
            said(first, ENCODING_WARNING@)
        } else {
            first
        };
        lemma_said(first, ENCODING_WARNING@, COOKIE_WARNING@);
        lemma_said(second, COOKIE_WARNING@, ENCODING_WARNING@);
        if exists|i: int|
            0 <= i < before.len() && (#[trigger] before[i]).web.encoding is Some && path_of(urls[i])
                is None {
            let i = choose|i: int|
                0 <= i < before.len() && (#[trigger] before[i]).web.encoding is Some && path_of(
                    urls[i],
                ) is None;
            assert(objects[i] == before[i]);
        }
        if exists|i: int|
            0 <= i < before.len() && (#[trigger] before[i]).web.cookies.len() > 0
                && !cookies_apply(urls[i]) {
            let i = choose|i: int|
                0 <= i < before.len() && (#[trigger] before[i]).web.cookies.len() > 0
                    && !cookies_apply(urls[i]);
            assert(objects[i] == before[i]);
        }
        assert(objects[last] == object);
        assert(forall|i: int| 0 <= i < last ==> before[i] == #[trigger] objects[i]);
    }
}

proof fn lemma_two_warnings()
    ensures
        ENCODING_WARNING@ != COOKIE_WARNING@,
{
    reveal_strlit(
        "--encoding does not apply to a document fetched over the network; it is read as the server said it should be",
    );
    reveal_strlit(
        "--cookie needs a document fetched over http or https; a local document has no origin to scope a cookie to, so it is being ignored",
    );
    assert(ENCODING_WARNING@.len() != COOKIE_WARNING@.len());
}

proof fn lemma_said(lines: Seq<Seq<char>>, line: Seq<char>, other: Seq<char>)
    requires
        lines.no_duplicates(),
        line != other,
    ensures
        said(lines, line).contains(line),
        said(lines, line).contains(other) == lines.contains(other),
        said(lines, line).no_duplicates(),
        forall|i: int| 0 <= i < said(lines, line).len() ==> #[trigger] said(lines, line)[i] == line
            || lines.contains(said(lines, line)[i]),
{
    if !lines.contains(line) {
        let all = lines.push(line);
        assert(all[lines.len() as int] == line);
        if lines.contains(other) {
            let k = choose|k: int| 0 <= k < lines.len() && lines[k] == other;
            assert(all[k] == other);
        }
        if all.contains(other) {
            let k = choose|k: int| 0 <= k < all.len() && all[k] == other;
            assert(lines[k] == other);
        }
        assert forall|i: int| 0 <= i < all.len() implies #[trigger] all[i] == line || lines.contains(
            all[i],
        ) by {
            if i < lines.len() {
                assert(all[i] == lines[i]);
            }
        }
        assert forall|i: int, j: int| 0 <= i < all.len() && 0 <= j < all.len() && i != j implies all[i]
            != all[j] by {
            if i < lines.len() {
                assert(lines.contains(lines[i]));
            }
            if j < lines.len() {
                assert(lines.contains(lines[j]));
            }
        }
    }
}

/// A document that failed is printed where that is ignored: as it is where the browser got
/// there, and blank where it did not. What is known afterwards says which documents failed
/// and which were left out.
pub proof fn law_what_becomes_of_a_failed_document(
    outcomes: OutcomesView,
    report: LoadReportView,
    handling: LoadErrorHandling,
)
    ensures
        ({
            let after = outcomes_after(outcomes, report, handling);
            let failed = report.document->0;
            &&& report.document is None || handling == LoadErrorHandling::Abort ==> after
                == outcomes
            &&& report.document is Some && handling == LoadErrorHandling::Ignore
                && report.navigation_failed ==> judged(report, handling) == Judgement::PrintBlank
                && after == (OutcomesView { failed: outcomes.failed.push(failed), ..outcomes })
            &&& report.document is Some && handling == LoadErrorHandling::Ignore
                && !report.navigation_failed ==> judged(report, handling) == Judgement::Print
                && after == outcomes
            &&& report.document is Some && handling == LoadErrorHandling::Skip
                ==> after.skipped == outcomes.skipped.push(
                "could not load "@ + failed.url + ": "@ + error_name(failed.error)@,
            ) && after.media == outcomes.media && after.refused == outcomes.refused
            &&& report.document is Some && handling == LoadErrorHandling::Skip
                && report.navigation_failed ==> after.failed == outcomes.failed.push(failed)
            &&& report.document is Some && handling == LoadErrorHandling::Skip
                && !report.navigation_failed ==> after.failed == outcomes.failed
        }),
{
}

/// The failed requests are those of every object in its order, without the ones that were
/// refused.
pub proof fn law_which_failures_are_left(
    first: Seq<(usize, Seq<FailedView>)>,
    second: Seq<(usize, Seq<FailedView>)>,
    refused: Seq<RefusalView>,
    index: usize,
    failures: Seq<FailedView>,
    failed: FailedView,
)
    ensures
        failures_left(first + second, refused) == failures_left(first, refused) + failures_left(
            second,
            refused,
        ),
        (forall|i: int| 0 <= i < refused.len() ==> (#[trigger] refused[i]).url != failed.url)
            ==> failures_left(seq![(index, failures.push(failed))], refused) == failures_left(
            seq![(index, failures)],
            refused,
        ).push((index, failed)),
        (exists|i: int| 0 <= i < refused.len() && (#[trigger] refused[i]).url == failed.url)
            ==> failures_left(seq![(index, failures.push(failed))], refused) == failures_left(
            seq![(index, failures)],
            refused,
        ),
        failures_left(seq![(index, Seq::<FailedView>::empty())], refused).len() == 0,
    decreases second.len(),
{
    reveal_with_fuel(failures_left, 2);
    reveal_with_fuel(unrefused, 2);
    let none = Seq::<FailedView>::empty();
    lemma_one_object(index, failures, refused);
    lemma_one_object(index, failures.push(failed), refused);
    lemma_one_object(index, none, refused);
    assert(failures.push(failed).drop_last() =~= failures);
    assert(failures.push(failed).last() == failed);
    if second.len() == 0 {
        assert(first + second =~= first);
        assert(failures_left(first, refused) + failures_left(second, refused) =~= failures_left(
            first,
            refused,
        ));
    } else {
        assert((first + second).drop_last() =~= first + second.drop_last());
        assert((first + second).last() == second.last());
        law_which_failures_are_left(first, second.drop_last(), refused, index, failures, failed);
        assert(failures_left(first + second, refused) =~= failures_left(first, refused)
            + failures_left(second, refused));
    }
}

proof fn lemma_one_object(index: usize, failures: Seq<FailedView>, refused: Seq<RefusalView>)
    ensures
        failures_left(seq![(index, failures)], refused) == unrefused(index, failures, refused),
{
    let one = seq![(index, failures)];
    assert(one.drop_last() =~= Seq::empty());
    assert(failures_left(one.drop_last(), refused) =~= Seq::empty());
    assert(one.last() == (index, failures));
    assert(Seq::empty() + unrefused(index, failures, refused) =~= unrefused(
        index,
        failures,
        refused,
    ));
}

/// The first failed request that counts decides: one that is no media file, or one whose
/// object does not miss media files. Where none counts, none decides.
pub proof fn law_the_first_failure_that_counts_decides(
    before: Seq<(usize, FailedView)>,
    failure: (usize, FailedView),
    after: Seq<(usize, FailedView)>,
    objects: Seq<ObjectSettingsView>,
)
    requires
        forall|i: int|
            0 <= i < before.len() ==> names_media((#[trigger] before[i]).1.url)
                && objects[before[i].0 as int].load.on_media_error != LoadErrorHandling::Abort,
    ensures
        first_decisive(before, objects) is None,
        !names_media(failure.1.url) || objects[failure.0 as int].load.on_media_error
            == LoadErrorHandling::Abort ==> first_decisive(before + seq![failure] + after, objects)
            == Some(failure.1.error),
    decreases before.len() + after.len(),
{
    let all = before + seq![failure] + after;
    if after.len() > 0 {
        assert(all.drop_last() =~= before + seq![failure] + after.drop_last());
        law_the_first_failure_that_counts_decides(before, failure, after.drop_last(), objects);
    } else {
        assert(all.drop_last() =~= before);
        assert(all.last() == failure);
        if before.len() > 0 {
            assert(before[before.len() - 1] == before.last());
            assert forall|i: int| 0 <= i < before.drop_last().len() implies names_media(
                (#[trigger] before.drop_last()[i]).1.url,
            ) && objects[before.drop_last()[i].0 as int].load.on_media_error
                != LoadErrorHandling::Abort by {
                assert(before.drop_last()[i] == before[i]);
            }
            law_the_first_failure_that_counts_decides(
                before.drop_last(),
                before.last(),
                Seq::empty(),
                objects,
            );
        }
    }
}

/// A conversion ends with the failure of a request that counts, or else with a refusal, or
/// else with the first document that could not be gone to, or else with none.
pub proof fn law_what_a_conversion_ends_with(
    outcomes: OutcomesView,
    objects: Seq<ObjectSettingsView>,
)
    ensures
        ({
            let decisive = first_decisive(
                failures_left(outcomes.media, outcomes.refused),
                objects,
            );
            &&& decisive is Some ==> exit_error(outcomes, objects) == decisive
            &&& decisive is None && outcomes.refused.len() > 0 ==> exit_error(outcomes, objects)
                == Some(NetworkError::ContentAccessDenied)
            &&& decisive is None && outcomes.refused.len() == 0 && outcomes.failed.len() > 0
                ==> exit_error(outcomes, objects) == Some(outcomes.failed[0].error)
            &&& decisive is None && outcomes.refused.len() == 0 && outcomes.failed.len() == 0
                ==> exit_error(outcomes, objects) is None
        }),
{
}

/// The lines that say how far a conversion is and what went wrong.
pub proof fn law_what_is_said_along_the_way(
    index: int,
    total: int,
    failed: FailedView,
    url: Seq<char>,
)
    ensures
        total == 1 ==> loading_text(index, total) == "Loading page (1/2)"@,
        total != 1 ==> loading_text(index, total) == "Loading page "@ + decimal(index + 1)
            + " of "@ + decimal(total) + " (1/2)"@,
        failed_request_text(failed) == "rchtmltopdf"@ + ": Failed to load "@ + failed.url
            + ", with network status code "@ + decimal(error_code(failed.error) as int)
            + " and http status code "@ + decimal(failed.http_status as int) + " - "@ + error_name(
            failed.error,
        )@,
        judgement_text(Judgement::Skip, url) == Some(
            "failed loading page "@ + url + " (skipped)"@,
        ),
        judgement_text(Judgement::PrintBlank, url) == Some(
            "failed loading page "@ + url + " (ignored)"@,
        ),
        judgement_text(Judgement::Print, url) is None,
        judgement_text(Judgement::Abort, url) is None,
{
}

/// The title of a file is that of the first piece that is no table of contents.
pub proof fn law_the_title_of_the_first_document(
    pieces: Seq<Piece>,
    titles: Seq<Seq<char>>,
    tables: Seq<usize>,
    at: int,
)
    requires
        0 <= at < pieces.len() <= titles.len(),
        !tables.contains(pieces[at].index),
        forall|i: int| 0 <= i < at ==> tables.contains((#[trigger] pieces[i]).index),
    ensures
        first_title(pieces, titles, tables) == titles[at],
    decreases at,
{
    if at > 0 {
        assert(tables.contains(pieces[0].index));
        assert forall|i: int| 0 <= i < at - 1 implies tables.contains(
            (#[trigger] pieces.skip(1)[i]).index,
        ) by {
            assert(pieces.skip(1)[i] == pieces[i + 1]);
        }
        law_the_title_of_the_first_document(pieces.skip(1), titles.skip(1), tables, at - 1);
    }
}

/// A sheet has its header from the header and its footer from the footer, each as a frame
/// where it is a document and as a row where it is not.
pub proof fn law_a_sheet_has_the_bands_of_its_page(
    sheet: Sheet,
    dress: Dress,
    named: NamedMargins,
    numbers: NumbersView,
)
    requires
        is_sheet_of(sheet, dress, named, numbers),
    ensures
        dress.header.url is None ==> sheet.header@ == row_html(
            dress.bands@.header,
            Edge::Header,
            dress.header.row,
            dress.context@,
            numbers,
        ),
        dress.footer.url is None ==> sheet.footer@ == row_html(
            dress.bands@.footer,
            Edge::Footer,
            dress.footer.row,
            dress.context@,
            numbers,
        ),
        dress.header.url matches Some(url) ==> sheet.header@ == frame_html(
            joined_query(url@, query_of(query_pairs(dress.context@, numbers))),
            Edge::Header,
            named,
            dress.header.frame,
        ),
        dress.footer.url matches Some(url) ==> sheet.footer@ == frame_html(
            joined_query(url@, query_of(query_pairs(dress.context@, numbers))),
            Edge::Footer,
            named,
            dress.footer.frame,
        ),
{
}

proof fn lemma_collapsed_word(before: Seq<char>, word: Seq<char>)
    requires
        forall|i: int| 0 <= i < word.len() ==> !is_space(#[trigger] word[i]),
        before.len() == 0 || !is_space(before.last()),
    ensures
        collapsed(before + word) == collapsed(before) + word,
    decreases word.len(),
{
    let all = before + word;
    if word.len() == 0 {
        assert(all =~= before);
        assert(collapsed(before) + word =~= collapsed(before));
    } else {
        assert(all.drop_last() =~= before + word.drop_last());
        assert(all.last() == word[word.len() - 1]);
        assert forall|i: int| 0 <= i < word.drop_last().len() implies !is_space(
            #[trigger] word.drop_last()[i],
        ) by {
            assert(word.drop_last()[i] == word[i]);
        }
        lemma_collapsed_word(before, word.drop_last());
        if all.len() > 1 {
            if word.len() > 1 {
                assert(all[all.len() - 2] == word[word.len() - 2]);
            } else {
                assert(all[all.len() - 2] == before.last());
            }
        }
        assert(collapsed(all) =~= collapsed(before) + word);
    }
}

proof fn lemma_collapsed_gap(before: Seq<char>, gap: Seq<char>)
    requires
        forall|i: int| 0 <= i < gap.len() ==> is_space(#[trigger] gap[i]),
    ensures
        collapsed(before + gap) == collapsed(before),
    decreases gap.len(),
{
    let all = before + gap;
    if gap.len() == 0 {
        assert(all =~= before);
    } else {
        assert(all.drop_last() =~= before + gap.drop_last());
        assert(all.last() == gap[gap.len() - 1]);
        assert forall|i: int| 0 <= i < gap.drop_last().len() implies is_space(
            #[trigger] gap.drop_last()[i],
        ) by {
            assert(gap.drop_last()[i] == gap[i]);
        }
        lemma_collapsed_gap(before, gap.drop_last());
    }
}

/// The words of a text are kept and what stands between two of them is one space, however
/// much white space it was; before the first and behind the last nothing is left.
pub proof fn law_white_space_collapses(before: Seq<char>, gap: Seq<char>, word: Seq<char>)
    requires
        forall|i: int| 0 <= i < gap.len() ==> is_space(#[trigger] gap[i]),
        forall|i: int| 0 <= i < word.len() ==> !is_space(#[trigger] word[i]),
        gap.len() > 0,
        word.len() > 0,
    ensures
        collapsed(word) == word,
        collapsed(before + gap) == collapsed(before),
        collapsed(gap + word) == word,
        collapsed(before).len() > 0 ==> collapsed(before + gap + word) == collapsed(before)
            + seq![' '] + word,
        collapsed(before).len() == 0 ==> collapsed(before + gap + word) == word,
{
    let none = Seq::<char>::empty();
    lemma_collapsed_word(none, word);
    assert(none + word =~= word);
    assert(collapsed(none) + word =~= word);
    lemma_collapsed_gap(before, gap);
    lemma_collapsed_gap(none, gap);
    assert(none + gap =~= gap);
    let first = word.take(1);
    let rest = word.skip(1);
    let head = before + gap + first;
    assert(head.drop_last() =~= before + gap);
    assert(head.last() == word[0]);
    assert(head[head.len() - 2] == gap[gap.len() - 1]);
    let alone = gap + first;
    assert(alone.drop_last() =~= gap);
    assert(alone.last() == word[0]);
    assert(alone[alone.len() - 2] == gap[gap.len() - 1]);
    assert forall|i: int| 0 <= i < rest.len() implies !is_space(#[trigger] rest[i]) by {
        assert(rest[i] == word[i + 1]);
    }
    lemma_collapsed_word(head, rest);
    lemma_collapsed_word(alone, rest);
    assert(head + rest =~= before + gap + word);
    assert(alone + rest =~= gap + word);
    assert(first =~= seq![word[0]]);
    assert(collapsed(alone) =~= first);
    assert(first + rest =~= word);
    if collapsed(before).len() > 0 {
        assert(collapsed(head) =~= collapsed(before) + seq![' '] + first);
        assert(collapsed(before) + seq![' '] + first + rest =~= collapsed(before) + seq![' ']
            + word);
    } else {
        assert(collapsed(head) =~= first);
    }
}

/// A heading has the first box of its words that no earlier heading has; where there is
/// none it is left out, and the box is left to the next.
pub proof fn law_a_heading_has_its_first_box(
    heading: Heading,
    rest: Seq<Heading>,
    boxes: Seq<Seq<char>>,
    from: int,
    at: int,
)
    requires
        0 <= from <= at,
        forall|i: int|
            from <= i < at && i < boxes.len() ==> collapsed(#[trigger] boxes[i]) != collapsed(
                heading.title,
            ),
    ensures
        at < boxes.len() && collapsed(boxes[at]) == collapsed(heading.title) ==> paired(
            seq![heading] + rest,
            boxes,
            from,
        ) == seq![(heading, at)] + paired(rest, boxes, at + 1),
        at >= boxes.len() ==> paired(seq![heading] + rest, boxes, from) == paired(
            rest,
            boxes,
            from,
        ),
{
    let all = seq![heading] + rest;
    assert(all[0] == heading);
    assert(all.skip(1) =~= rest);
    lemma_first_box(boxes, collapsed(heading.title), from, at);
}

proof fn lemma_first_box(boxes: Seq<Seq<char>>, title: Seq<char>, from: int, at: int)
    requires
        0 <= from <= at,
        forall|i: int|
            from <= i < at && i < boxes.len() ==> collapsed(#[trigger] boxes[i]) != title,
    ensures
        at < boxes.len() && collapsed(boxes[at]) == title ==> box_from(boxes, title, from) == Some(
            at,
        ),
        at >= boxes.len() ==> box_from(boxes, title, from) is None,
    decreases at - from,
{
    if from < at && from < boxes.len() {
        assert(collapsed(boxes[from]) != title);
        lemma_first_box(boxes, title, from + 1, at);
    }
}

/// A link back stands where its heading does; that of a table's own heading begins at the
/// top of its page.
pub proof fn law_where_links_back_stand(pairs: Seq<(Heading, int)>, at: int)
    requires
        0 <= at < pairs.len(),
    ensures
        link_views(pairs).len() == pairs.len(),
        link_views(pairs)[at].page == pairs[at].0.page,
        link_views(pairs)[at].left == pairs[at].0.left,
        link_views(pairs)[at].top == pairs[at].0.top,
        link_views(pairs)[at].boxed == pairs[at].1,
        from_the_top(link_views(pairs)).len() == pairs.len(),
        at > 0 ==> from_the_top(link_views(pairs))[at] == link_views(pairs)[at],
        from_the_top(link_views(pairs))[0].left == "0"@,
        from_the_top(link_views(pairs))[0].top == TOP_OF_THE_PAGE@,
        from_the_top(link_views(pairs))[0].page == pairs[0].0.page,
        from_the_top(link_views(pairs))[0].boxed == pairs[0].1,
{
}

/// The tables of contents of a file are the pieces whose objects are one, each on the page
/// behind the pieces before it.
pub proof fn law_the_tables_of_a_file(
    pieces: Seq<Piece>,
    piece: Piece,
    objects: Seq<ObjectSettingsView>,
)
    ensures
        objects[piece.index as int].kind != ObjectKind::Toc ==> contents_parts_of(
            pieces.push(piece),
            objects,
        ) == contents_parts_of(pieces, objects),
        objects[piece.index as int].kind == ObjectKind::Toc ==> {
            let all = contents_parts_of(pieces.push(piece), objects);
            &&& all.drop_last() == contents_parts_of(pieces, objects)
            &&& all.len() == contents_parts_of(pieces, objects).len() + 1
            &&& 0 <= total(pieces) < usize::MAX ==> all.last().first_page == total(pieces) + 1
            &&& all.last().pages == piece.pages
            &&& all.last().keep_links == objects[piece.index as int].toc.links
        },
        contents_parts_of(Seq::empty(), objects).len() == 0,
{
    assert(pieces.push(piece).drop_last() =~= pieces);
    assert(pieces.push(piece).last() == piece);
    let all = contents_parts_of(pieces.push(piece), objects);
    if objects[piece.index as int].kind == ObjectKind::Toc {
        assert(all.drop_last() =~= contents_parts_of(pieces, objects));
    }
}

/// In a dump of the outline a table of contents goes by its own heading, a document by its
/// title, and an object that is kept out has none; each has all its pages.
pub proof fn law_what_a_piece_is_dumped_as(
    object: Object,
    piece: Piece,
    title: Seq<char>,
    settings: ObjectSettingsView,
)
    requires
        dumped_as(object, piece, title, settings),
    ensures
        object.pages == piece.pages,
        settings.kind == ObjectKind::Toc ==> object.role is Contents && object.title@
            == settings.toc.header_text,
        settings.kind != ObjectKind::Toc && settings.in_outline ==> object.role is Document
            && object.title@ == title,
        settings.kind != ObjectKind::Toc && !settings.in_outline ==> object.role is Excluded
            && object.title@.len() == 0,
{
}

} // verus!
