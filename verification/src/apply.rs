//! Turning a command line into settings.
//!
//! Each option sets one thing. What was written before the first object is
//! inherited by every object, and an object's own options are applied on top.

use crate::document::{Input, InputView};
use crate::numbers::{read_signed, read_unsigned, signed_value, trim, trimmed, unsigned};
use crate::settings::{
    all_names, default_band, default_global_settings, handling_of, length_of, log_level_of,
    lookup_paper, orientation_of, page_settings, pairs_of, paper_names, paper_of, real_of,
    settings_of, Band, BandView, BrowserSettingsView, GlobalSettings, GlobalSettingsView, Length,
    LengthView, LinkSettings, LoadErrorHandling, LoadSettings, LoadSettingsView, LogLevel,
    MarginsView, MediaType, NamedMargins, ObjectSettings, ObjectSettingsView, Orientation,
    OutlineSettingsView, PageDimensions, PageDimensionsView, PageSetupView, Pair, PairView, Real,
    Settings, SettingsView, TocSettings, TocSettingsView, WebSettings, WebSettingsView,
};
use crate::text::{chars_of, find_either, maybe, position_of, same, text_of, texts};
use crate::tokenizer::{
    object_options, objects_of, occurrences_of, Object, ObjectKind, ObjectKindView, ObjectView, Occurrence,
    OccurrenceView, Tokenized, TokenizedView,
};
use vstd::prelude::*;

verus! {

/// A value that cannot be understood.
#[derive(Debug, PartialEq, Eq)]
pub struct ApplyError {
    /// The option as it was written.
    pub option: String,
    pub reason: String,
}

/// An [`ApplyError`] by the characters it holds.
pub struct ApplyErrorView {
    pub option: Seq<char>,
    pub reason: Seq<char>,
}

impl View for ApplyError {
    type V = ApplyErrorView;

    open spec fn view(&self) -> ApplyErrorView {
        ApplyErrorView { option: self.option@, reason: self.reason@ }
    }
}

impl ApplyError {
    /// The sentence that the command line is answered with.
    pub fn message(&self) -> (text: String)
        ensures
            text@ == self.option@ + ": "@ + self.reason@,
    {
        let mut text = self.option.clone();
        text.push_str(": ");
        text.push_str(&self.reason);
        text
    }
}

/// What became of an option.
#[derive(Clone, Copy, Debug, PartialEq, Eq)]
pub enum Applied {
    /// It set something.
    Here,
    /// It is answered elsewhere.
    Elsewhere,
    /// Nothing acts on it.
    NotYet,
}

/// What an option does to some settings.
pub enum Outcome<S> {
    /// It sets something: this is what they become.
    Here(S),
    /// It is answered elsewhere.
    Elsewhere,
    /// Nothing acts on it.
    NotYet,
    /// Its value is refused, for this reason.
    Refused(Seq<char>),
}

/// What was returned, and what the settings became, is what an option does.
pub open spec fn settled<S>(
    expected: Outcome<S>,
    outcome: Result<Applied, ApplyError>,
    occurrence: OccurrenceView,
    before: S,
    after: S,
) -> bool {
    match outcome {
        Ok(Applied::Here) => expected == Outcome::Here(after),
        Ok(Applied::Elsewhere) => expected is Elsewhere && after == before,
        Ok(Applied::NotYet) => expected is NotYet && after == before,
        Err(error) => expected == Outcome::<S>::Refused(error@.reason) && error@.option
            == occurrence.as_written && after == before,
    }
}

/// The value of an option, or its first value. Nothing where it has none.
pub open spec fn first_value(occurrence: OccurrenceView) -> Seq<char> {
    if occurrence.values.len() > 0 {
        occurrence.values[0]
    } else {
        Seq::empty()
    }
}

/// The two values of an option.
pub open spec fn pair_value(occurrence: OccurrenceView) -> PairView {
    PairView {
        name: first_value(occurrence),
        value: if occurrence.values.len() > 1 {
            occurrence.values[1]
        } else {
            Seq::empty()
        },
    }
}

/// The file that an option names. An empty value names none.
pub open spec fn file_value(occurrence: OccurrenceView) -> Option<Seq<char>> {
    if first_value(occurrence).len() == 0 {
        None
    } else {
        Some(first_value(occurrence))
    }
}

/// The whole number up to a limit that an option gives.
pub open spec fn whole_value(occurrence: OccurrenceView, limit: int) -> Option<int> {
    unsigned(trimmed(first_value(occurrence)), limit)
}

/// The two numbers of a size, on either side of the first `x`.
pub open spec fn viewport_of(text: Seq<char>) -> Option<(u32, u32)> {
    match find_either(text, 'x', 'X') {
        Some(at) => match unsigned(trimmed(text.take(at)), u32::MAX as int) {
            Some(width) => match unsigned(trimmed(text.skip(at + 1)), u32::MAX as int) {
                Some(height) => Some((width as u32, height as u32)),
                None => None,
            },
            None => None,
        },
        None => None,
    }
}

pub open spec fn not_a_number(raw: Seq<char>) -> Seq<char> {
    "`"@ + raw + "` is not a number"@
}

pub open spec fn not_a_length(raw: Seq<char>) -> Seq<char> {
    "`"@ + raw + "` is not a length; expected a number, with mm, cm, in, pt or px behind it"@
}

pub open spec fn not_a_size(raw: Seq<char>) -> Seq<char> {
    "`"@ + raw + "` is not a size; expected 1024x768"@
}

pub open spec fn unknown_orientation(raw: Seq<char>) -> Seq<char> {
    "unknown orientation `"@ + raw + "`; expected Portrait or Landscape"@
}

pub open spec fn unknown_level(raw: Seq<char>) -> Seq<char> {
    "unknown log level `"@ + raw + "`; expected none, error, warn or info"@
}

pub open spec fn unknown_handler(raw: Seq<char>) -> Seq<char> {
    "unknown handler `"@ + raw + "`; expected abort, ignore or skip"@
}

/// Names with a comma between each two.
pub open spec fn listed(names: Seq<&'static str>) -> Seq<char>
    decreases names.len(),
{
    if names.len() == 0 {
        Seq::empty()
    } else if names.len() == 1 {
        names[0]@
    } else {
        listed(names.drop_last()) + ", "@ + names.last()@
    }
}

pub open spec fn unknown_paper(raw: Seq<char>) -> Seq<char> {
    "unknown page size `"@ + raw + "`; expected one of: "@ + listed(paper_names())
}

/// The value of an option, or its first value.
pub fn value(occurrence: &Occurrence) -> (text: String)
    ensures
        text@ == first_value(occurrence@),
{
    if occurrence.values.len() > 0 {
        occurrence.values[0].clone()
    } else {
        String::new()
    }
}

/// The two values of an option.
fn pair(occurrence: &Occurrence) -> (pair: Pair)
    ensures
        pair@ == pair_value(occurrence@),
{
    let second = if occurrence.values.len() > 1 {
        occurrence.values[1].clone()
    } else {
        String::new()
    };
    Pair { name: value(occurrence), value: second }
}

/// The file that an option names.
pub fn file(occurrence: &Occurrence) -> (path: Option<String>)
    ensures
        maybe(path) == file_value(occurrence@),
{
    let path = value(occurrence);
    let size: usize = chars_of(&path).len();
    if size == 0 {
        None
    } else {
        Some(path)
    }
}

/// The refusal of an option's value.
pub fn fail(occurrence: &Occurrence, reason: String) -> (error: ApplyError)
    ensures
        error@.option == occurrence@.as_written,
        error@.reason == reason@,
{
    ApplyError { option: occurrence.as_written.clone(), reason }
}

/// A refusal with the value between two texts.
fn fail_between(occurrence: &Occurrence, before: &str, after: &str) -> (error: ApplyError)
    ensures
        error@.option == occurrence@.as_written,
        error@.reason == before@ + first_value(occurrence@) + after@,
{
    let mut reason = before.to_owned();
    let raw = value(occurrence);
    reason.push_str(&raw);
    reason.push_str(after);
    fail(occurrence, reason)
}

/// The whole number up to a limit that an option gives.
pub fn number(occurrence: &Occurrence, limit: u64) -> (outcome: Result<u64, ApplyError>)
    ensures
        match outcome {
            Ok(value) => whole_value(occurrence@, limit as int) == Some(value as int),
            Err(error) => whole_value(occurrence@, limit as int) is None && error@.option
                == occurrence@.as_written && error@.reason == not_a_number(
                first_value(occurrence@),
            ),
        },
{
    match read_unsigned(&trim(&value(occurrence)), limit) {
        Some(number) => Ok(number),
        None => Err(fail_between(occurrence, "`", "` is not a number")),
    }
}

/// The real number that an option gives.
fn real_value(occurrence: &Occurrence) -> (outcome: Result<Real, ApplyError>)
    ensures
        match outcome {
            Ok(value) => real_of(first_value(occurrence@)) == Some(value@),
            Err(error) => real_of(first_value(occurrence@)) is None && error@.option
                == occurrence@.as_written && error@.reason == not_a_number(
                first_value(occurrence@),
            ),
        },
{
    match Real::parse(&value(occurrence)) {
        Some(number) => Ok(number),
        None => Err(fail_between(occurrence, "`", "` is not a number")),
    }
}

/// The length that an option gives.
fn length(occurrence: &Occurrence) -> (outcome: Result<Length, ApplyError>)
    ensures
        match outcome {
            Ok(value) => length_of(first_value(occurrence@)) == Some(value@),
            Err(error) => length_of(first_value(occurrence@)) is None && error@.option
                == occurrence@.as_written && error@.reason == not_a_length(
                first_value(occurrence@),
            ),
        },
{
    match Length::parse(&value(occurrence)) {
        Some(length) => Ok(length),
        None => Err(
            fail_between(
                occurrence,
                "`",
                "` is not a length; expected a number, with mm, cm, in, pt or px behind it",
            ),
        ),
    }
}

/// The paper that an option names.
fn paper(occurrence: &Occurrence) -> (outcome: Result<PageDimensions, ApplyError>)
    ensures
        match outcome {
            Ok(value) => paper_of(first_value(occurrence@)) == Some(value@),
            Err(error) => paper_of(first_value(occurrence@)) is None && error@.option
                == occurrence@.as_written && error@.reason == unknown_paper(
                first_value(occurrence@),
            ),
        },
{
    match lookup_paper(&value(occurrence)) {
        Some(size) => Ok(size),
        None => {
            let names = all_names();
            let mut list = String::new();
            let mut at: usize = 0;
            assert(names@.take(0) =~= Seq::empty());
            while at < names.len()
                invariant
                    at <= names@.len(),
                    names@ == paper_names(),
                    list@ == listed(names@.take(at as int)),
                decreases names@.len() - at,
            {
                assert(names@.take(at + 1).drop_last() =~= names@.take(at as int));
                if at > 0 {
                    list.push_str(", ");
                    list.push_str(names[at]);
                } else {
                    list.push_str(names[at]);
                    assert(list@ =~= names@[0]@);
                }
                at = at + 1;
            }
            assert(names@.take(names@.len() as int) =~= names@);
            let raw = value(occurrence);
            let mut reason = "unknown page size `".to_owned();
            reason.push_str(&raw);
            reason.push_str("`; expected one of: ");
            reason.push_str(&list);
            Err(fail(occurrence, reason))
        },
    }
}

/// The orientation that an option names.
fn orientation(occurrence: &Occurrence) -> (outcome: Result<Orientation, ApplyError>)
    ensures
        match outcome {
            Ok(value) => orientation_of(first_value(occurrence@)) == Some(value),
            Err(error) => orientation_of(first_value(occurrence@)) is None && error@.option
                == occurrence@.as_written && error@.reason == unknown_orientation(
                first_value(occurrence@),
            ),
        },
{
    match Orientation::parse(&value(occurrence)) {
        Some(orientation) => Ok(orientation),
        None => Err(
            fail_between(
                occurrence,
                "unknown orientation `",
                "`; expected Portrait or Landscape",
            ),
        ),
    }
}

/// The log level that an option names.
fn level(occurrence: &Occurrence) -> (outcome: Result<LogLevel, ApplyError>)
    ensures
        match outcome {
            Ok(value) => log_level_of(first_value(occurrence@)) == Some(value),
            Err(error) => log_level_of(first_value(occurrence@)) is None && error@.option
                == occurrence@.as_written && error@.reason == unknown_level(
                first_value(occurrence@),
            ),
        },
{
    match LogLevel::parse(&value(occurrence)) {
        Some(level) => Ok(level),
        None => Err(
            fail_between(
                occurrence,
                "unknown log level `",
                "`; expected none, error, warn or info",
            ),
        ),
    }
}

/// The handling of a failure that an option names.
fn handling(occurrence: &Occurrence) -> (outcome: Result<LoadErrorHandling, ApplyError>)
    ensures
        match outcome {
            Ok(value) => handling_of(first_value(occurrence@)) == Some(value),
            Err(error) => handling_of(first_value(occurrence@)) is None && error@.option
                == occurrence@.as_written && error@.reason == unknown_handler(
                first_value(occurrence@),
            ),
        },
{
    match LoadErrorHandling::parse(&value(occurrence)) {
        Some(handling) => Ok(handling),
        None => Err(
            fail_between(occurrence, "unknown handler `", "`; expected abort, ignore or skip"),
        ),
    }
}

/// The size of the window that an option gives.
pub fn viewport(occurrence: &Occurrence) -> (outcome: Result<(u32, u32), ApplyError>)
    ensures
        match outcome {
            Ok(value) => viewport_of(first_value(occurrence@)) == Some(value),
            Err(error) => viewport_of(first_value(occurrence@)) is None && error@.option
                == occurrence@.as_written && error@.reason == not_a_size(first_value(occurrence@)),
        },
{
    let raw = value(occurrence);
    let chars = chars_of(&raw);
    let size: usize = chars.len();
    if let Some(at) = position_of(&chars, 'x', 'X') {
        let left = text_of(&chars, 0, at);
        let right = text_of(&chars, at + 1, size);
        assert(left@ =~= raw@.take(at as int));
        assert(right@ =~= raw@.skip(at + 1));
        if let Some(width) = read_unsigned(&trim(&left), u32::MAX as u64) {
            if let Some(height) = read_unsigned(&trim(&right), u32::MAX as u64) {
                return Ok((width as u32, height as u32));
            }
        }
    }
    Err(fail_between(occurrence, "`", "` is not a size; expected 1024x768"))
}

/// What an option outside any conversion is: answered elsewhere.
pub fn answered_elsewhere(occurrence: &Occurrence) -> (applied: Option<Applied>)
    ensures
        applied == if occurrence@.spec.support is Meta {
            Some(Applied::Elsewhere)
        } else {
            None
        },
{
    if occurrence.spec.support.is_meta() {
        Some(Applied::Elsewhere)
    } else {
        None
    }
}

/// An option that sets something of the whole run, but for the sides of the paper.
pub open spec fn global_value(occurrence: OccurrenceView, global: GlobalSettingsView) -> Outcome<GlobalSettingsView> {
    let name = occurrence.spec.long@;
    if name == "page-size"@ {
        match paper_of(first_value(occurrence)) {
            Some(value) => Outcome::Here(GlobalSettingsView { page: PageSetupView { size: value, ..global.page }, ..global }),
            None => Outcome::Refused(unknown_paper(first_value(occurrence))),
        }
    } else if name == "margin-top"@ {
        match length_of(first_value(occurrence)) {
            Some(value) => Outcome::Here(GlobalSettingsView { page: PageSetupView { margins: MarginsView { top: value, ..global.page.margins }, named: NamedMargins { top: true, ..global.page.named }, ..global.page }, ..global }),
            None => Outcome::Refused(not_a_length(first_value(occurrence))),
        }
    } else if name == "margin-right"@ {
        match length_of(first_value(occurrence)) {
            Some(value) => Outcome::Here(GlobalSettingsView { page: PageSetupView { margins: MarginsView { right: value, ..global.page.margins }, ..global.page }, ..global }),
            None => Outcome::Refused(not_a_length(first_value(occurrence))),
        }
    } else if name == "margin-bottom"@ {
        match length_of(first_value(occurrence)) {
            Some(value) => Outcome::Here(GlobalSettingsView { page: PageSetupView { margins: MarginsView { bottom: value, ..global.page.margins }, named: NamedMargins { bottom: true, ..global.page.named }, ..global.page }, ..global }),
            None => Outcome::Refused(not_a_length(first_value(occurrence))),
        }
    } else if name == "margin-left"@ {
        match length_of(first_value(occurrence)) {
            Some(value) => Outcome::Here(GlobalSettingsView { page: PageSetupView { margins: MarginsView { left: value, ..global.page.margins }, ..global.page }, ..global }),
            None => Outcome::Refused(not_a_length(first_value(occurrence))),
        }
    } else if name == "orientation"@ {
        match orientation_of(first_value(occurrence)) {
            Some(value) => Outcome::Here(GlobalSettingsView { page: PageSetupView { orientation: value, ..global.page }, ..global }),
            None => Outcome::Refused(unknown_orientation(first_value(occurrence))),
        }
    } else if name == "title"@ {
        Outcome::Here(GlobalSettingsView { title: Some(first_value(occurrence)), ..global })
    } else if name == "quiet"@ {
        Outcome::Here(GlobalSettingsView { log_level: LogLevel::Quiet, ..global })
    } else if name == "log-level"@ {
        match log_level_of(first_value(occurrence)) {
            Some(value) => Outcome::Here(GlobalSettingsView { log_level: value, ..global }),
            None => Outcome::Refused(unknown_level(first_value(occurrence))),
        }
    } else if name == "timeout"@ {
        match whole_value(occurrence, u64::MAX as int) {
            Some(value) => Outcome::Here(GlobalSettingsView { timeout: if value > 0 { Some(value as u64) } else { None }, ..global }),
            None => Outcome::Refused(not_a_number(first_value(occurrence))),
        }
    } else if name == "chromium-path"@ {
        Outcome::Here(GlobalSettingsView { browser: BrowserSettingsView { path: Some(first_value(occurrence)), ..global.browser }, ..global })
    } else if name == "chromium-arg"@ {
        Outcome::Here(GlobalSettingsView { browser: BrowserSettingsView { extra_args: global.browser.extra_args.push(first_value(occurrence)), ..global.browser }, ..global })
    } else if name == "no-sandbox"@ {
        Outcome::Here(GlobalSettingsView { browser: BrowserSettingsView { no_sandbox: true, ..global.browser }, ..global })
    } else if name == "tagged-pdf"@ {
        Outcome::Here(GlobalSettingsView { tagged_pdf: true, ..global })
    } else if name == "outline"@ {
        Outcome::Here(GlobalSettingsView { outline: OutlineSettingsView { enabled: true, ..global.outline }, ..global })
    } else if name == "no-outline"@ {
        Outcome::Here(GlobalSettingsView { outline: OutlineSettingsView { enabled: false, ..global.outline }, ..global })
    } else if name == "outline-depth"@ {
        match whole_value(occurrence, u64::MAX as int) {
            Some(value) => Outcome::Here(GlobalSettingsView { outline: OutlineSettingsView { depth: value as u64, ..global.outline }, ..global }),
            None => Outcome::Refused(not_a_number(first_value(occurrence))),
        }
    } else if name == "dump-outline"@ {
        Outcome::Here(GlobalSettingsView { outline: OutlineSettingsView { dump: Some(first_value(occurrence)), ..global.outline }, ..global })
    } else {
        Outcome::NotYet
    }
}

/// Set something of the whole run, but for the sides of the paper.
#[verifier::rlimit(60)]
fn apply_run(occurrence: &Occurrence, global: &mut GlobalSettings) -> (outcome: Result<Applied, ApplyError>)
    ensures
        settled(global_value(occurrence@, old(global)@), outcome, occurrence@, old(global)@, final(global)@),
{
    let name = occurrence.spec.long;
    if same(name, "page-size") {
        match paper(occurrence) {
            Ok(value) => {
                global.page.size = value;
            },
            Err(error) => {
                return Err(error);
            },
        }
        return Ok(Applied::Here);
    }
    if same(name, "margin-top") {
        match length(occurrence) {
            Ok(value) => {
                global.page.margins.top = value;
                global.page.named.top = true;
            },
            Err(error) => {
                return Err(error);
            },
        }
        return Ok(Applied::Here);
    }
    if same(name, "margin-right") {
        match length(occurrence) {
            Ok(value) => {
                global.page.margins.right = value;
            },
            Err(error) => {
                return Err(error);
            },
        }
        return Ok(Applied::Here);
    }
    if same(name, "margin-bottom") {
        match length(occurrence) {
            Ok(value) => {
                global.page.margins.bottom = value;
                global.page.named.bottom = true;
            },
            Err(error) => {
                return Err(error);
            },
        }
        return Ok(Applied::Here);
    }
    if same(name, "margin-left") {
        match length(occurrence) {
            Ok(value) => {
                global.page.margins.left = value;
            },
            Err(error) => {
                return Err(error);
            },
        }
        return Ok(Applied::Here);
    }
    if same(name, "orientation") {
        match orientation(occurrence) {
            Ok(value) => {
                global.page.orientation = value;
            },
            Err(error) => {
                return Err(error);
            },
        }
        return Ok(Applied::Here);
    }
    if same(name, "title") {
        global.title = Some(value(occurrence));
        return Ok(Applied::Here);
    }
    if same(name, "quiet") {
        global.log_level = LogLevel::Quiet;
        return Ok(Applied::Here);
    }
    if same(name, "log-level") {
        match level(occurrence) {
            Ok(value) => {
                global.log_level = value;
            },
            Err(error) => {
                return Err(error);
            },
        }
        return Ok(Applied::Here);
    }
    if same(name, "timeout") {
        match number(occurrence, u64::MAX) {
            Ok(value) => {
                global.timeout = if value > 0 {
                    Some(value)
                } else {
                    None
                };
            },
            Err(error) => {
                return Err(error);
            },
        }
        return Ok(Applied::Here);
    }
    if same(name, "chromium-path") {
        global.browser.path = Some(value(occurrence));
        return Ok(Applied::Here);
    }
    if same(name, "chromium-arg") {
        let ghost before = texts(global.browser.extra_args@);
        global.browser.extra_args.push(value(occurrence));
        assert(texts(global.browser.extra_args@) =~= before.push(first_value(occurrence@)));
        return Ok(Applied::Here);
    }
    if same(name, "no-sandbox") {
        global.browser.no_sandbox = true;
        return Ok(Applied::Here);
    }
    if same(name, "tagged-pdf") {
        global.tagged_pdf = true;
        return Ok(Applied::Here);
    }
    if same(name, "outline") {
        global.outline.enabled = true;
        return Ok(Applied::Here);
    }
    if same(name, "no-outline") {
        global.outline.enabled = false;
        return Ok(Applied::Here);
    }
    if same(name, "outline-depth") {
        match number(occurrence, u64::MAX) {
            Ok(value) => {
                global.outline.depth = value;
            },
            Err(error) => {
                return Err(error);
            },
        }
        return Ok(Applied::Here);
    }
    if same(name, "dump-outline") {
        global.outline.dump = Some(value(occurrence));
        return Ok(Applied::Here);
    }
    Ok(Applied::NotYet)
}

/// An option that sets what a document may do.
pub open spec fn web_value(occurrence: OccurrenceView, web: WebSettingsView) -> Outcome<WebSettingsView> {
    let name = occurrence.spec.long@;
    if name == "enable-javascript"@ {
        Outcome::Here(WebSettingsView { javascript: true, ..web })
    } else if name == "disable-javascript"@ {
        Outcome::Here(WebSettingsView { javascript: false, ..web })
    } else if name == "images"@ {
        Outcome::Here(WebSettingsView { images: true, ..web })
    } else if name == "no-images"@ {
        Outcome::Here(WebSettingsView { images: false, ..web })
    } else if name == "background"@ {
        Outcome::Here(WebSettingsView { background: true, ..web })
    } else if name == "no-background"@ {
        Outcome::Here(WebSettingsView { background: false, ..web })
    } else if name == "print-media-type"@ {
        Outcome::Here(WebSettingsView { media_type: MediaType::Print, ..web })
    } else if name == "no-print-media-type"@ {
        Outcome::Here(WebSettingsView { media_type: MediaType::Screen, ..web })
    } else if name == "zoom"@ {
        match real_of(first_value(occurrence)) {
            Some(value) => Outcome::Here(WebSettingsView { zoom: value, ..web }),
            None => Outcome::Refused(not_a_number(first_value(occurrence))),
        }
    } else if name == "encoding"@ {
        Outcome::Here(WebSettingsView { encoding: Some(first_value(occurrence)), ..web })
    } else if name == "minimum-font-size"@ {
        match whole_value(occurrence, u32::MAX as int) {
            Some(value) => Outcome::Here(WebSettingsView { minimum_font_size: Some(value as u32), ..web }),
            None => Outcome::Refused(not_a_number(first_value(occurrence))),
        }
    } else if name == "viewport-size"@ {
        match viewport_of(first_value(occurrence)) {
            Some(value) => Outcome::Here(WebSettingsView { viewport: value, ..web }),
            None => Outcome::Refused(not_a_size(first_value(occurrence))),
        }
    } else if name == "username"@ {
        Outcome::Here(WebSettingsView { username: Some(first_value(occurrence)), ..web })
    } else if name == "password"@ {
        Outcome::Here(WebSettingsView { password: Some(first_value(occurrence)), ..web })
    } else if name == "proxy"@ {
        Outcome::Here(WebSettingsView { proxy: Some(first_value(occurrence)), ..web })
    } else if name == "cookie"@ {
        Outcome::Here(WebSettingsView { cookies: web.cookies.push(pair_value(occurrence)), ..web })
    } else if name == "custom-header"@ {
        Outcome::Here(WebSettingsView { custom_headers: web.custom_headers.push(pair_value(occurrence)), ..web })
    } else if name == "custom-header-propagation"@ {
        Outcome::Here(WebSettingsView { propagate_custom_headers: true, ..web })
    } else if name == "no-custom-header-propagation"@ {
        Outcome::Here(WebSettingsView { propagate_custom_headers: false, ..web })
    } else if name == "bypass-proxy-for"@ {
        Outcome::Here(WebSettingsView { bypass_proxy_for: web.bypass_proxy_for.push(first_value(occurrence)), ..web })
    } else if name == "cache-dir"@ {
        Outcome::Here(WebSettingsView { cache_dir: Some(first_value(occurrence)), ..web })
    } else if name == "enable-local-file-access"@ {
        Outcome::Here(WebSettingsView { local_file_access: true, ..web })
    } else if name == "disable-local-file-access"@ {
        Outcome::Here(WebSettingsView { local_file_access: false, ..web })
    } else if name == "allow"@ {
        Outcome::Here(WebSettingsView { allowed_paths: web.allowed_paths.push(first_value(occurrence)), ..web })
    } else {
        Outcome::NotYet
    }
}

/// Set what a document may do.
#[verifier::rlimit(60)]
fn apply_web(occurrence: &Occurrence, web: &mut WebSettings) -> (outcome: Result<Applied, ApplyError>)
    ensures
        settled(web_value(occurrence@, old(web)@), outcome, occurrence@, old(web)@, final(web)@),
{
    let name = occurrence.spec.long;
    if same(name, "enable-javascript") {
        web.javascript = true;
        return Ok(Applied::Here);
    }
    if same(name, "disable-javascript") {
        web.javascript = false;
        return Ok(Applied::Here);
    }
    if same(name, "images") {
        web.images = true;
        return Ok(Applied::Here);
    }
    if same(name, "no-images") {
        web.images = false;
        return Ok(Applied::Here);
    }
    if same(name, "background") {
        web.background = true;
        return Ok(Applied::Here);
    }
    if same(name, "no-background") {
        web.background = false;
        return Ok(Applied::Here);
    }
    if same(name, "print-media-type") {
        web.media_type = MediaType::Print;
        return Ok(Applied::Here);
    }
    if same(name, "no-print-media-type") {
        web.media_type = MediaType::Screen;
        return Ok(Applied::Here);
    }
    if same(name, "zoom") {
        match real_value(occurrence) {
            Ok(value) => {
                web.zoom = value;
            },
            Err(error) => {
                return Err(error);
            },
        }
        return Ok(Applied::Here);
    }
    if same(name, "encoding") {
        web.encoding = Some(value(occurrence));
        return Ok(Applied::Here);
    }
    if same(name, "minimum-font-size") {
        match number(occurrence, u32::MAX as u64) {
            Ok(value) => {
                web.minimum_font_size = Some(value as u32);
            },
            Err(error) => {
                return Err(error);
            },
        }
        return Ok(Applied::Here);
    }
    if same(name, "viewport-size") {
        match viewport(occurrence) {
            Ok(value) => {
                web.viewport = value;
            },
            Err(error) => {
                return Err(error);
            },
        }
        return Ok(Applied::Here);
    }
    if same(name, "username") {
        web.username = Some(value(occurrence));
        return Ok(Applied::Here);
    }
    if same(name, "password") {
        web.password = Some(value(occurrence));
        return Ok(Applied::Here);
    }
    if same(name, "proxy") {
        web.proxy = Some(value(occurrence));
        return Ok(Applied::Here);
    }
    if same(name, "cookie") {
        let ghost before = pairs_of(web.cookies@);
        web.cookies.push(pair(occurrence));
        assert(pairs_of(web.cookies@) =~= before.push(pair_value(occurrence@)));
        return Ok(Applied::Here);
    }
    if same(name, "custom-header") {
        let ghost before = pairs_of(web.custom_headers@);
        web.custom_headers.push(pair(occurrence));
        assert(pairs_of(web.custom_headers@) =~= before.push(pair_value(occurrence@)));
        return Ok(Applied::Here);
    }
    if same(name, "custom-header-propagation") {
        web.propagate_custom_headers = true;
        return Ok(Applied::Here);
    }
    if same(name, "no-custom-header-propagation") {
        web.propagate_custom_headers = false;
        return Ok(Applied::Here);
    }
    if same(name, "bypass-proxy-for") {
        let ghost before = texts(web.bypass_proxy_for@);
        web.bypass_proxy_for.push(value(occurrence));
        assert(texts(web.bypass_proxy_for@) =~= before.push(first_value(occurrence@)));
        return Ok(Applied::Here);
    }
    if same(name, "cache-dir") {
        web.cache_dir = Some(value(occurrence));
        return Ok(Applied::Here);
    }
    if same(name, "enable-local-file-access") {
        web.local_file_access = true;
        return Ok(Applied::Here);
    }
    if same(name, "disable-local-file-access") {
        web.local_file_access = false;
        return Ok(Applied::Here);
    }
    if same(name, "allow") {
        let ghost before = texts(web.allowed_paths@);
        web.allowed_paths.push(value(occurrence));
        assert(texts(web.allowed_paths@) =~= before.push(first_value(occurrence@)));
        return Ok(Applied::Here);
    }
    Ok(Applied::NotYet)
}

/// An option that sets how a document is loaded.
pub open spec fn load_value(occurrence: OccurrenceView, load: LoadSettingsView) -> Outcome<LoadSettingsView> {
    let name = occurrence.spec.long@;
    if name == "javascript-delay"@ {
        match whole_value(occurrence, u64::MAX as int) {
            Some(value) => Outcome::Here(LoadSettingsView { javascript_delay: value as u64, ..load }),
            None => Outcome::Refused(not_a_number(first_value(occurrence))),
        }
    } else if name == "window-status"@ {
        Outcome::Here(LoadSettingsView { window_status: Some(first_value(occurrence)), ..load })
    } else if name == "run-script"@ {
        Outcome::Here(LoadSettingsView { run_scripts: load.run_scripts.push(first_value(occurrence)), ..load })
    } else if name == "user-style-sheet"@ {
        Outcome::Here(LoadSettingsView { user_style_sheet: file_value(occurrence), ..load })
    } else if name == "no-stop-slow-scripts"@ {
        Outcome::Here(LoadSettingsView { stop_slow_scripts: false, ..load })
    } else if name == "load-error-handling"@ {
        match handling_of(first_value(occurrence)) {
            Some(value) => Outcome::Here(LoadSettingsView { on_document_error: value, ..load }),
            None => Outcome::Refused(unknown_handler(first_value(occurrence))),
        }
    } else if name == "load-media-error-handling"@ {
        match handling_of(first_value(occurrence)) {
            Some(value) => Outcome::Here(LoadSettingsView { on_media_error: value, ..load }),
            None => Outcome::Refused(unknown_handler(first_value(occurrence))),
        }
    } else {
        Outcome::NotYet
    }
}

/// Set how a document is loaded.
#[verifier::rlimit(60)]
fn apply_load(occurrence: &Occurrence, load: &mut LoadSettings) -> (outcome: Result<Applied, ApplyError>)
    ensures
        settled(load_value(occurrence@, old(load)@), outcome, occurrence@, old(load)@, final(load)@),
{
    let name = occurrence.spec.long;
    if same(name, "javascript-delay") {
        match number(occurrence, u64::MAX) {
            Ok(value) => {
                load.javascript_delay = value;
            },
            Err(error) => {
                return Err(error);
            },
        }
        return Ok(Applied::Here);
    }
    if same(name, "window-status") {
        load.window_status = Some(value(occurrence));
        return Ok(Applied::Here);
    }
    if same(name, "run-script") {
        let ghost before = texts(load.run_scripts@);
        load.run_scripts.push(value(occurrence));
        assert(texts(load.run_scripts@) =~= before.push(first_value(occurrence@)));
        return Ok(Applied::Here);
    }
    if same(name, "user-style-sheet") {
        load.user_style_sheet = file(occurrence);
        return Ok(Applied::Here);
    }
    if same(name, "no-stop-slow-scripts") {
        load.stop_slow_scripts = false;
        return Ok(Applied::Here);
    }
    if same(name, "load-error-handling") {
        match handling(occurrence) {
            Ok(value) => {
                load.on_document_error = value;
            },
            Err(error) => {
                return Err(error);
            },
        }
        return Ok(Applied::Here);
    }
    if same(name, "load-media-error-handling") {
        match handling(occurrence) {
            Ok(value) => {
                load.on_media_error = value;
            },
            Err(error) => {
                return Err(error);
            },
        }
        return Ok(Applied::Here);
    }
    Ok(Applied::NotYet)
}

/// An option that sets how a table of contents looks.
pub open spec fn toc_value(occurrence: OccurrenceView, toc: TocSettingsView) -> Outcome<TocSettingsView> {
    let name = occurrence.spec.long@;
    if name == "toc-header-text"@ {
        Outcome::Here(TocSettingsView { header_text: first_value(occurrence), ..toc })
    } else if name == "toc-level-indentation"@ {
        Outcome::Here(TocSettingsView { level_indentation: first_value(occurrence), ..toc })
    } else if name == "toc-text-size-shrink"@ {
        match real_of(first_value(occurrence)) {
            Some(value) => Outcome::Here(TocSettingsView { text_size_shrink: value, ..toc }),
            None => Outcome::Refused(not_a_number(first_value(occurrence))),
        }
    } else if name == "disable-dotted-lines"@ {
        Outcome::Here(TocSettingsView { dotted_lines: false, ..toc })
    } else if name == "disable-toc-links"@ {
        Outcome::Here(TocSettingsView { links: false, ..toc })
    } else if name == "enable-toc-back-links"@ {
        Outcome::Here(TocSettingsView { back_links: true, ..toc })
    } else if name == "disable-toc-back-links"@ {
        Outcome::Here(TocSettingsView { back_links: false, ..toc })
    } else {
        Outcome::NotYet
    }
}

/// Set how a table of contents looks.
#[verifier::rlimit(60)]
fn apply_toc(occurrence: &Occurrence, toc: &mut TocSettings) -> (outcome: Result<Applied, ApplyError>)
    ensures
        settled(toc_value(occurrence@, old(toc)@), outcome, occurrence@, old(toc)@, final(toc)@),
{
    let name = occurrence.spec.long;
    if same(name, "toc-header-text") {
        toc.header_text = value(occurrence);
        return Ok(Applied::Here);
    }
    if same(name, "toc-level-indentation") {
        toc.level_indentation = value(occurrence);
        return Ok(Applied::Here);
    }
    if same(name, "toc-text-size-shrink") {
        match real_value(occurrence) {
            Ok(value) => {
                toc.text_size_shrink = value;
            },
            Err(error) => {
                return Err(error);
            },
        }
        return Ok(Applied::Here);
    }
    if same(name, "disable-dotted-lines") {
        toc.dotted_lines = false;
        return Ok(Applied::Here);
    }
    if same(name, "disable-toc-links") {
        toc.links = false;
        return Ok(Applied::Here);
    }
    if same(name, "enable-toc-back-links") {
        toc.back_links = true;
        return Ok(Applied::Here);
    }
    if same(name, "disable-toc-back-links") {
        toc.back_links = false;
        return Ok(Applied::Here);
    }
    Ok(Applied::NotYet)
}

/// An option that sets the header.
pub open spec fn header_value(occurrence: OccurrenceView, header: BandView) -> Outcome<BandView> {
    let name = occurrence.spec.long@;
    if name == "header-left"@ {
        Outcome::Here(BandView { left: Some(first_value(occurrence)), ..header })
    } else if name == "header-center"@ {
        Outcome::Here(BandView { center: Some(first_value(occurrence)), ..header })
    } else if name == "header-right"@ {
        Outcome::Here(BandView { right: Some(first_value(occurrence)), ..header })
    } else if name == "header-font-name"@ {
        Outcome::Here(BandView { font_name: Some(first_value(occurrence)), ..header })
    } else if name == "header-font-size"@ {
        match real_of(first_value(occurrence)) {
            Some(value) => Outcome::Here(BandView { font_size: Some(value), ..header }),
            None => Outcome::Refused(not_a_number(first_value(occurrence))),
        }
    } else if name == "header-spacing"@ {
        match real_of(first_value(occurrence)) {
            Some(value) => Outcome::Here(BandView { spacing: Some(value), ..header }),
            None => Outcome::Refused(not_a_number(first_value(occurrence))),
        }
    } else if name == "header-line"@ {
        Outcome::Here(BandView { line: true, ..header })
    } else if name == "no-header-line"@ {
        Outcome::Here(BandView { line: false, ..header })
    } else if name == "header-html"@ {
        Outcome::Here(BandView { html: file_value(occurrence), ..header })
    } else {
        Outcome::NotYet
    }
}

/// Set the header.
#[verifier::rlimit(60)]
fn apply_header(occurrence: &Occurrence, header: &mut Band) -> (outcome: Result<Applied, ApplyError>)
    ensures
        settled(header_value(occurrence@, old(header)@), outcome, occurrence@, old(header)@, final(header)@),
{
    let name = occurrence.spec.long;
    if same(name, "header-left") {
        header.left = Some(value(occurrence));
        return Ok(Applied::Here);
    }
    if same(name, "header-center") {
        header.center = Some(value(occurrence));
        return Ok(Applied::Here);
    }
    if same(name, "header-right") {
        header.right = Some(value(occurrence));
        return Ok(Applied::Here);
    }
    if same(name, "header-font-name") {
        header.font_name = Some(value(occurrence));
        return Ok(Applied::Here);
    }
    if same(name, "header-font-size") {
        match real_value(occurrence) {
            Ok(value) => {
                header.font_size = Some(value);
            },
            Err(error) => {
                return Err(error);
            },
        }
        return Ok(Applied::Here);
    }
    if same(name, "header-spacing") {
        match real_value(occurrence) {
            Ok(value) => {
                header.spacing = Some(value);
            },
            Err(error) => {
                return Err(error);
            },
        }
        return Ok(Applied::Here);
    }
    if same(name, "header-line") {
        header.line = true;
        return Ok(Applied::Here);
    }
    if same(name, "no-header-line") {
        header.line = false;
        return Ok(Applied::Here);
    }
    if same(name, "header-html") {
        header.html = file(occurrence);
        return Ok(Applied::Here);
    }
    Ok(Applied::NotYet)
}

/// An option that sets the footer.
pub open spec fn footer_value(occurrence: OccurrenceView, footer: BandView) -> Outcome<BandView> {
    let name = occurrence.spec.long@;
    if name == "footer-left"@ {
        Outcome::Here(BandView { left: Some(first_value(occurrence)), ..footer })
    } else if name == "footer-center"@ {
        Outcome::Here(BandView { center: Some(first_value(occurrence)), ..footer })
    } else if name == "footer-right"@ {
        Outcome::Here(BandView { right: Some(first_value(occurrence)), ..footer })
    } else if name == "footer-font-name"@ {
        Outcome::Here(BandView { font_name: Some(first_value(occurrence)), ..footer })
    } else if name == "footer-font-size"@ {
        match real_of(first_value(occurrence)) {
            Some(value) => Outcome::Here(BandView { font_size: Some(value), ..footer }),
            None => Outcome::Refused(not_a_number(first_value(occurrence))),
        }
    } else if name == "footer-spacing"@ {
        match real_of(first_value(occurrence)) {
            Some(value) => Outcome::Here(BandView { spacing: Some(value), ..footer }),
            None => Outcome::Refused(not_a_number(first_value(occurrence))),
        }
    } else if name == "footer-line"@ {
        Outcome::Here(BandView { line: true, ..footer })
    } else if name == "no-footer-line"@ {
        Outcome::Here(BandView { line: false, ..footer })
    } else if name == "footer-html"@ {
        Outcome::Here(BandView { html: file_value(occurrence), ..footer })
    } else {
        Outcome::NotYet
    }
}

/// Set the footer.
#[verifier::rlimit(60)]
fn apply_footer(occurrence: &Occurrence, footer: &mut Band) -> (outcome: Result<Applied, ApplyError>)
    ensures
        settled(footer_value(occurrence@, old(footer)@), outcome, occurrence@, old(footer)@, final(footer)@),
{
    let name = occurrence.spec.long;
    if same(name, "footer-left") {
        footer.left = Some(value(occurrence));
        return Ok(Applied::Here);
    }
    if same(name, "footer-center") {
        footer.center = Some(value(occurrence));
        return Ok(Applied::Here);
    }
    if same(name, "footer-right") {
        footer.right = Some(value(occurrence));
        return Ok(Applied::Here);
    }
    if same(name, "footer-font-name") {
        footer.font_name = Some(value(occurrence));
        return Ok(Applied::Here);
    }
    if same(name, "footer-font-size") {
        match real_value(occurrence) {
            Ok(value) => {
                footer.font_size = Some(value);
            },
            Err(error) => {
                return Err(error);
            },
        }
        return Ok(Applied::Here);
    }
    if same(name, "footer-spacing") {
        match real_value(occurrence) {
            Ok(value) => {
                footer.spacing = Some(value);
            },
            Err(error) => {
                return Err(error);
            },
        }
        return Ok(Applied::Here);
    }
    if same(name, "footer-line") {
        footer.line = true;
        return Ok(Applied::Here);
    }
    if same(name, "no-footer-line") {
        footer.line = false;
        return Ok(Applied::Here);
    }
    if same(name, "footer-html") {
        footer.html = file(occurrence);
        return Ok(Applied::Here);
    }
    Ok(Applied::NotYet)
}

/// An option that sets which links are kept.
pub open spec fn links_value(occurrence: OccurrenceView, links: LinkSettings) -> Outcome<LinkSettings> {
    let name = occurrence.spec.long@;
    if name == "enable-external-links"@ {
        Outcome::Here(LinkSettings { external: true, ..links })
    } else if name == "disable-external-links"@ {
        Outcome::Here(LinkSettings { external: false, ..links })
    } else if name == "enable-internal-links"@ {
        Outcome::Here(LinkSettings { internal: true, ..links })
    } else if name == "disable-internal-links"@ {
        Outcome::Here(LinkSettings { internal: false, ..links })
    } else if name == "resolve-relative-links"@ {
        Outcome::Here(LinkSettings { resolve_relative: true, ..links })
    } else if name == "keep-relative-links"@ {
        Outcome::Here(LinkSettings { resolve_relative: false, ..links })
    } else {
        Outcome::NotYet
    }
}

/// Set which links are kept.
fn apply_links(occurrence: &Occurrence, links: &mut LinkSettings) -> (outcome: Result<Applied, ApplyError>)
    ensures
        settled(links_value(occurrence@, *old(links)), outcome, occurrence@, *old(links), *final(links)),
{
    let name = occurrence.spec.long;
    if same(name, "enable-external-links") {
        links.external = true;
        return Ok(Applied::Here);
    }
    if same(name, "disable-external-links") {
        links.external = false;
        return Ok(Applied::Here);
    }
    if same(name, "enable-internal-links") {
        links.internal = true;
        return Ok(Applied::Here);
    }
    if same(name, "disable-internal-links") {
        links.internal = false;
        return Ok(Applied::Here);
    }
    if same(name, "resolve-relative-links") {
        links.resolve_relative = true;
        return Ok(Applied::Here);
    }
    if same(name, "keep-relative-links") {
        links.resolve_relative = false;
        return Ok(Applied::Here);
    }
    Ok(Applied::NotYet)
}

/// The sides of the paper that were written on the command line.
#[derive(Debug, PartialEq, Eq)]
pub struct PageOverrides {
    pub width: Option<Length>,
    pub height: Option<Length>,
}

/// A [`PageOverrides`] by the characters it holds.
pub struct PageOverridesView {
    pub width: Option<LengthView>,
    pub height: Option<LengthView>,
}

impl View for PageOverrides {
    type V = PageOverridesView;

    open spec fn view(&self) -> PageOverridesView {
        PageOverridesView {
            width: crate::settings::maybe_length(self.width),
            height: crate::settings::maybe_length(self.height),
        }
    }
}

impl Default for PageOverrides {
    fn default() -> (page: PageOverrides)
        ensures
            page@ == (PageOverridesView { width: None, height: None }),
    {
        PageOverrides { width: None, height: None }
    }
}

/// The settings with the written sides of the paper in place of the named ones.
pub open spec fn overridden(
    page: PageOverridesView,
    global: GlobalSettingsView,
) -> GlobalSettingsView {
    let size = global.page.size;
    GlobalSettingsView {
        page: PageSetupView {
            size: PageDimensionsView {
                width: match page.width {
                    Some(width) => width,
                    None => size.width,
                },
                height: match page.height {
                    Some(height) => height,
                    None => size.height,
                },
            },
            ..global.page
        },
        ..global
    }
}

impl PageOverrides {
    /// Put the written sides of the paper in place of the named ones.
    pub fn resolve(&self, global: &mut GlobalSettings)
        ensures
            final(global)@ == overridden(self@, old(global)@),
    {
        if let Some(width) = &self.width {
            global.page.size.width = width.clone();
        }
        if let Some(height) = &self.height {
            global.page.size.height = height.clone();
        }
    }
}

/// What an option does to the settings of the whole run. The sides of the paper
/// are kept apart until every option has been read.
pub open spec fn global_outcome(
    occurrence: OccurrenceView,
    global: GlobalSettingsView,
    page: PageOverridesView,
) -> Outcome<(GlobalSettingsView, PageOverridesView)> {
    let name = occurrence.spec.long@;
    if occurrence.spec.support is Meta {
        Outcome::Elsewhere
    } else if name == "page-width"@ {
        match length_of(first_value(occurrence)) {
            Some(width) => Outcome::Here((global, PageOverridesView { width: Some(width), ..page })),
            None => Outcome::Refused(not_a_length(first_value(occurrence))),
        }
    } else if name == "page-height"@ {
        match length_of(first_value(occurrence)) {
            Some(height) => Outcome::Here(
                (global, PageOverridesView { height: Some(height), ..page }),
            ),
            None => Outcome::Refused(not_a_length(first_value(occurrence))),
        }
    } else if name == "dump-parse"@ {
        Outcome::Elsewhere
    } else {
        match global_value(occurrence, global) {
            Outcome::Here(global) => Outcome::Here((global, page)),
            Outcome::Elsewhere => Outcome::Elsewhere,
            Outcome::NotYet => Outcome::NotYet,
            Outcome::Refused(reason) => Outcome::Refused(reason),
        }
    }
}

/// Apply an option to the whole run.
pub fn apply_global(
    occurrence: &Occurrence,
    global: &mut GlobalSettings,
    page: &mut PageOverrides,
) -> (outcome: Result<Applied, ApplyError>)
    ensures
        settled(
            global_outcome(occurrence@, old(global)@, old(page)@),
            outcome,
            occurrence@,
            (old(global)@, old(page)@),
            (final(global)@, final(page)@),
        ),
{
    if let Some(applied) = answered_elsewhere(occurrence) {
        return Ok(applied);
    }
    let name = occurrence.spec.long;
    if same(name, "page-width") {
        match length(occurrence) {
            Ok(width) => {
                page.width = Some(width);
            },
            Err(error) => {
                return Err(error);
            },
        }
        return Ok(Applied::Here);
    }
    if same(name, "page-height") {
        match length(occurrence) {
            Ok(height) => {
                page.height = Some(height);
            },
            Err(error) => {
                return Err(error);
            },
        }
        return Ok(Applied::Here);
    }
    if same(name, "dump-parse") {
        return Ok(Applied::Elsewhere);
    }
    apply_run(occurrence, global)
}

/// The header that one option asks for: the document on the left, the page on
/// the right, and a line below.
pub open spec fn default_header_band() -> BandView {
    BandView {
        left: Some("[webpage]"@),
        right: Some("[page]/[topage]"@),
        line: true,
        ..default_band()
    }
}

fn default_header() -> (band: Band)
    ensures
        band@ == default_header_band(),
{
    let mut band = Band::default();
    band.left = Some("[webpage]".to_owned());
    band.right = Some("[page]/[topage]".to_owned());
    band.line = true;
    band
}

/// An option of the object itself, rather than of one of its parts.
pub open spec fn own_value(
    occurrence: OccurrenceView,
    object: ObjectSettingsView,
) -> Outcome<ObjectSettingsView> {
    let name = occurrence.spec.long@;
    if name == "include-in-outline"@ {
        Outcome::Here(ObjectSettingsView { in_outline: true, ..object })
    } else if name == "exclude-from-outline"@ {
        Outcome::Here(ObjectSettingsView { in_outline: false, ..object })
    } else if name == "replace"@ {
        Outcome::Here(
            ObjectSettingsView {
                replacements: object.replacements.push(pair_value(occurrence)),
                ..object
            },
        )
    } else if name == "default-header"@ {
        Outcome::Here(ObjectSettingsView { header: default_header_band(), ..object })
    } else {
        Outcome::NotYet
    }
}

/// What an option does to the object it is written on: to the document, to how
/// it is loaded, to the table of contents, to the links, to the two bands, or to
/// the object itself.
pub open spec fn own_outcome(
    occurrence: OccurrenceView,
    object: ObjectSettingsView,
) -> Outcome<ObjectSettingsView> {
    match web_value(occurrence, object.web) {
        Outcome::Here(web) => Outcome::Here(ObjectSettingsView { web, ..object }),
        Outcome::Refused(reason) => Outcome::Refused(reason),
        _ => match load_value(occurrence, object.load) {
            Outcome::Here(load) => Outcome::Here(ObjectSettingsView { load, ..object }),
            Outcome::Refused(reason) => Outcome::Refused(reason),
            _ => match toc_value(occurrence, object.toc) {
                Outcome::Here(toc) => Outcome::Here(ObjectSettingsView { toc, ..object }),
                Outcome::Refused(reason) => Outcome::Refused(reason),
                _ => match links_value(occurrence, object.links) {
                    Outcome::Here(links) => Outcome::Here(
                        ObjectSettingsView { links, ..object },
                    ),
                    Outcome::Refused(reason) => Outcome::Refused(reason),
                    _ => match header_value(occurrence, object.header) {
                        Outcome::Here(header) => Outcome::Here(
                            ObjectSettingsView { header, ..object },
                        ),
                        Outcome::Refused(reason) => Outcome::Refused(reason),
                        _ => match footer_value(occurrence, object.footer) {
                            Outcome::Here(footer) => Outcome::Here(
                                ObjectSettingsView { footer, ..object },
                            ),
                            Outcome::Refused(reason) => Outcome::Refused(reason),
                            _ => own_value(occurrence, object),
                        },
                    },
                },
            },
        },
    }
}

/// What an option written on an object does. One number for the pages of the
/// whole output may be written there too; every other option belongs to the
/// object.
pub open spec fn object_outcome(
    occurrence: OccurrenceView,
    object: ObjectSettingsView,
    global: GlobalSettingsView,
) -> Outcome<(ObjectSettingsView, GlobalSettingsView)> {
    if occurrence.spec.support is Meta {
        Outcome::Elsewhere
    } else if occurrence.spec.long@ == "page-offset"@ {
        match signed_value(trimmed(first_value(occurrence))) {
            Some(offset) => Outcome::Here(
                (object, GlobalSettingsView { page_offset: offset as i64, ..global }),
            ),
            None => Outcome::Refused(not_a_number(first_value(occurrence))),
        }
    } else {
        match own_outcome(occurrence, object) {
            Outcome::Here(object) => Outcome::Here((object, global)),
            Outcome::Refused(reason) => Outcome::Refused(reason),
            Outcome::Elsewhere => Outcome::Elsewhere,
            Outcome::NotYet => Outcome::NotYet,
        }
    }
}

/// Apply an option of the object itself.
fn apply_own(occurrence: &Occurrence, object: &mut ObjectSettings) -> (outcome: Result<
    Applied,
    ApplyError,
>)
    ensures
        settled(
            own_value(occurrence@, old(object)@),
            outcome,
            occurrence@,
            old(object)@,
            final(object)@,
        ),
{
    let name = occurrence.spec.long;
    if same(name, "include-in-outline") {
        object.in_outline = true;
        return Ok(Applied::Here);
    }
    if same(name, "exclude-from-outline") {
        object.in_outline = false;
        return Ok(Applied::Here);
    }
    if same(name, "replace") {
        let ghost before = pairs_of(object.replacements@);
        object.replacements.push(pair(occurrence));
        assert(pairs_of(object.replacements@) =~= before.push(pair_value(occurrence@)));
        return Ok(Applied::Here);
    }
    if same(name, "default-header") {
        object.header = default_header();
        return Ok(Applied::Here);
    }
    Ok(Applied::NotYet)
}

/// Apply an option to the object it is written on.
fn apply_to_object(occurrence: &Occurrence, object: &mut ObjectSettings) -> (outcome: Result<
    Applied,
    ApplyError,
>)
    ensures
        settled(
            own_outcome(occurrence@, old(object)@),
            outcome,
            occurrence@,
            old(object)@,
            final(object)@,
        ),
{
    match apply_web(occurrence, &mut object.web) {
        Ok(Applied::NotYet) => {},
        done => {
            return done;
        },
    }
    match apply_load(occurrence, &mut object.load) {
        Ok(Applied::NotYet) => {},
        done => {
            return done;
        },
    }
    match apply_toc(occurrence, &mut object.toc) {
        Ok(Applied::NotYet) => {},
        done => {
            return done;
        },
    }
    match apply_links(occurrence, &mut object.links) {
        Ok(Applied::NotYet) => {},
        done => {
            return done;
        },
    }
    match apply_header(occurrence, &mut object.header) {
        Ok(Applied::NotYet) => {},
        done => {
            return done;
        },
    }
    match apply_footer(occurrence, &mut object.footer) {
        Ok(Applied::NotYet) => {},
        done => {
            return done;
        },
    }
    apply_own(occurrence, object)
}

/// Apply an option written on an object, or before the first one.
pub fn apply_object(
    occurrence: &Occurrence,
    object: &mut ObjectSettings,
    global: &mut GlobalSettings,
) -> (outcome: Result<Applied, ApplyError>)
    ensures
        settled(
            object_outcome(occurrence@, old(object)@, old(global)@),
            outcome,
            occurrence@,
            (old(object)@, old(global)@),
            (final(object)@, final(global)@),
        ),
{
    if let Some(applied) = answered_elsewhere(occurrence) {
        return Ok(applied);
    }
    if same(occurrence.spec.long, "page-offset") {
        match read_signed(&trim(&value(occurrence))) {
            Some(offset) => {
                global.page_offset = offset;
            },
            None => {
                return Err(fail_between(occurrence, "`", "` is not a number"));
            },
        }
        return Ok(Applied::Here);
    }
    apply_to_object(occurrence, object)
}

/// Options written on an object, applied one after the other, up to the first
/// that is refused.
pub open spec fn object_after(
    options: Seq<OccurrenceView>,
    object: ObjectSettingsView,
    global: GlobalSettingsView,
) -> Result<(ObjectSettingsView, GlobalSettingsView), ApplyErrorView>
    decreases options.len(),
{
    if options.len() == 0 {
        Ok((object, global))
    } else {
        match object_after(options.drop_last(), object, global) {
            Err(error) => Err(error),
            Ok(so_far) => match object_outcome(options.last(), so_far.0, so_far.1) {
                Outcome::Here(next) => Ok(next),
                Outcome::Refused(reason) => Err(
                    ApplyErrorView { option: options.last().as_written, reason },
                ),
                _ => Ok(so_far),
            },
        }
    }
}

/// Options applied to the whole run one after the other, up to the first that
/// is refused.
pub open spec fn global_after(
    options: Seq<OccurrenceView>,
    global: GlobalSettingsView,
    page: PageOverridesView,
) -> Result<(GlobalSettingsView, PageOverridesView), ApplyErrorView>
    decreases options.len(),
{
    if options.len() == 0 {
        Ok((global, page))
    } else {
        match global_after(options.drop_last(), global, page) {
            Err(error) => Err(error),
            Ok(so_far) => match global_outcome(options.last(), so_far.0, so_far.1) {
                Outcome::Here(next) => Ok(next),
                Outcome::Refused(reason) => Err(
                    ApplyErrorView { option: options.last().as_written, reason },
                ),
                _ => Ok(so_far),
            },
        }
    }
}

proof fn lemma_object_refusal_sticks(
    options: Seq<OccurrenceView>,
    at: int,
    object: ObjectSettingsView,
    global: GlobalSettingsView,
)
    requires
        0 <= at <= options.len(),
        object_after(options.take(at), object, global) is Err,
    ensures
        object_after(options, object, global) == object_after(options.take(at), object, global),
    decreases options.len(),
{
    if at == options.len() {
        assert(options.take(at) =~= options);
    } else {
        assert(options.drop_last().take(at) =~= options.take(at));
        lemma_object_refusal_sticks(options.drop_last(), at, object, global);
    }
}

proof fn lemma_global_refusal_sticks(
    options: Seq<OccurrenceView>,
    at: int,
    global: GlobalSettingsView,
    page: PageOverridesView,
    error: ApplyErrorView,
)
    requires
        0 <= at <= options.len(),
        global_after(options.take(at), global, page) == Err::<
            (GlobalSettingsView, PageOverridesView),
            ApplyErrorView,
        >(error),
    ensures
        global_after(options, global, page) == Err::<
            (GlobalSettingsView, PageOverridesView),
            ApplyErrorView,
        >(error),
    decreases options.len(),
{
    if at == options.len() {
        assert(options.take(at) =~= options);
    } else {
        assert(options.drop_last().take(at) =~= options.take(at));
        lemma_global_refusal_sticks(options.drop_last(), at, global, page, error);
    }
}

/// Apply options written on an object, one after the other.
fn apply_each(
    options: &Vec<Occurrence>,
    object: &mut ObjectSettings,
    global: &mut GlobalSettings,
) -> (outcome: Result<(), ApplyError>)
    ensures
        match outcome {
            Ok(_) => object_after(occurrences_of(options@), old(object)@, old(global)@) == Ok::<
                (ObjectSettingsView, GlobalSettingsView),
                ApplyErrorView,
            >((final(object)@, final(global)@)),
            Err(error) => object_after(occurrences_of(options@), old(object)@, old(global)@)
                == Err::<(ObjectSettingsView, GlobalSettingsView), ApplyErrorView>(error@),
        },
{
    let ghost all = occurrences_of(options@);
    let ghost (start, run) = (object@, global@);
    let mut at: usize = 0;
    assert(all.take(0) =~= Seq::empty());
    while at < options.len()
        invariant
            at <= options@.len(),
            all == occurrences_of(options@),
            start == old(object)@,
            run == old(global)@,
            object_after(all.take(at as int), start, run) == Ok::<
                (ObjectSettingsView, GlobalSettingsView),
                ApplyErrorView,
            >((object@, global@)),
        decreases options@.len() - at,
    {
        assert(all.take(at + 1).drop_last() =~= all.take(at as int));
        assert(all.take(at + 1).last() == options@[at as int]@);
        match apply_object(&options[at], object, global) {
            Ok(_) => {},
            Err(error) => {
                proof {
                    lemma_object_refusal_sticks(all, at + 1, start, run);
                }
                return Err(error);
            },
        }
        at = at + 1;
    }
    assert(all.take(all.len() as int) =~= all);
    Ok(())
}

/// An object before its own options: what it inherits, with its own kind and
/// document. A cover inherits no bands and stays out of the outline.
pub open spec fn inherited_by(
    kind: ObjectKindView,
    inherited: ObjectSettingsView,
) -> ObjectSettingsView {
    match kind {
        ObjectKindView::Page(input) => ObjectSettingsView {
            kind: crate::settings::ObjectKind::Page,
            input: Some(input),
            ..inherited
        },
        ObjectKindView::Cover(input) => ObjectSettingsView {
            kind: crate::settings::ObjectKind::Cover,
            input: Some(input),
            header: default_band(),
            footer: default_band(),
            in_outline: false,
            ..inherited
        },
        ObjectKindView::Toc => ObjectSettingsView {
            kind: crate::settings::ObjectKind::Toc,
            input: None,
            ..inherited
        },
    }
}

/// The settings of an object, and those of the run after it.
pub open spec fn built(
    object: ObjectView,
    inherited: ObjectSettingsView,
    global: GlobalSettingsView,
) -> Result<(ObjectSettingsView, GlobalSettingsView), ApplyErrorView> {
    object_after(object.options, inherited_by(object.kind, inherited), global)
}

/// Build the settings of an object.
pub fn build_object(
    object: &Object,
    inherited: &ObjectSettings,
    global: &mut GlobalSettings,
) -> (outcome: Result<ObjectSettings, ApplyError>)
    ensures
        match outcome {
            Ok(settings) => built(object@, inherited@, old(global)@) == Ok::<
                (ObjectSettingsView, GlobalSettingsView),
                ApplyErrorView,
            >((settings@, final(global)@)),
            Err(error) => built(object@, inherited@, old(global)@) == Err::<
                (ObjectSettingsView, GlobalSettingsView),
                ApplyErrorView,
            >(error@),
        },
{
    let mut settings = inherited.clone();
    match &object.kind {
        ObjectKind::Page(input) => {
            settings.kind = crate::settings::ObjectKind::Page;
            settings.input = Some(input.clone());
        },
        ObjectKind::Cover(input) => {
            settings.kind = crate::settings::ObjectKind::Cover;
            settings.input = Some(input.clone());
            settings.header = Band::default();
            settings.footer = Band::default();
            settings.in_outline = false;
        },
        ObjectKind::Toc => {
            settings.kind = crate::settings::ObjectKind::Toc;
            settings.input = None;
        },
    }
    match apply_each(&object.options, &mut settings, global) {
        Ok(_) => Ok(settings),
        Err(error) => Err(error),
    }
}

/// The settings of objects, and those of the run after them, up to the first
/// that is refused.
pub open spec fn all_built(
    objects: Seq<ObjectView>,
    inherited: ObjectSettingsView,
    global: GlobalSettingsView,
) -> Result<(Seq<ObjectSettingsView>, GlobalSettingsView), ApplyErrorView>
    decreases objects.len(),
{
    if objects.len() == 0 {
        Ok((Seq::empty(), global))
    } else {
        match all_built(objects.drop_last(), inherited, global) {
            Err(error) => Err(error),
            Ok((so_far, run)) => match built(objects.last(), inherited, run) {
                Err(error) => Err(error),
                Ok((object, next)) => Ok((so_far.push(object), next)),
            },
        }
    }
}

proof fn lemma_built_refusal_sticks(
    objects: Seq<ObjectView>,
    at: int,
    inherited: ObjectSettingsView,
    global: GlobalSettingsView,
)
    requires
        0 <= at <= objects.len(),
        all_built(objects.take(at), inherited, global) is Err,
    ensures
        all_built(objects, inherited, global) == all_built(objects.take(at), inherited, global),
    decreases objects.len(),
{
    if at == objects.len() {
        assert(objects.take(at) =~= objects);
    } else {
        assert(objects.drop_last().take(at) =~= objects.take(at));
        lemma_built_refusal_sticks(objects.drop_last(), at, inherited, global);
    }
}

/// The settings that a command line asks for. The options of the run come
/// first, then what every object inherits, then each object; the first refusal
/// is the one reported.
pub open spec fn applied(parsed: TokenizedView) -> Result<SettingsView, ApplyErrorView> {
    let global = GlobalSettingsView { output: parsed.output, ..default_global_settings() };
    let page = PageOverridesView { width: None, height: None };
    match global_after(parsed.globals, global, page) {
        Err(error) => Err(error),
        Ok((global, page)) => match object_after(
            parsed.defaults,
            page_settings(InputView::Stdin),
            global,
        ) {
            Err(error) => Err(error),
            Ok((inherited, global)) => match all_built(parsed.objects, inherited, global) {
                Err(error) => Err(error),
                Ok((objects, global)) => Ok(
                    SettingsView { global: overridden(page, global), objects },
                ),
            },
        },
    }
}

/// Apply the options of the run, one after the other.
fn apply_globals(
    options: &Vec<Occurrence>,
    global: &mut GlobalSettings,
    page: &mut PageOverrides,
) -> (outcome: Result<(), ApplyError>)
    ensures
        match outcome {
            Ok(_) => global_after(occurrences_of(options@), old(global)@, old(page)@) == Ok::<
                (GlobalSettingsView, PageOverridesView),
                ApplyErrorView,
            >((final(global)@, final(page)@)),
            Err(error) => global_after(occurrences_of(options@), old(global)@, old(page)@) == Err::<
                (GlobalSettingsView, PageOverridesView),
                ApplyErrorView,
            >(error@),
        },
{
    let ghost all = occurrences_of(options@);
    let ghost (start, sides) = (global@, page@);
    let mut at: usize = 0;
    assert(all.take(0) =~= Seq::empty());
    while at < options.len()
        invariant
            at <= options@.len(),
            all == occurrences_of(options@),
            start == old(global)@,
            sides == old(page)@,
            global_after(all.take(at as int), start, sides) == Ok::<
                (GlobalSettingsView, PageOverridesView),
                ApplyErrorView,
            >((global@, page@)),
        decreases options@.len() - at,
    {
        assert(all.take(at + 1).drop_last() =~= all.take(at as int));
        assert(all.take(at + 1).last() == options@[at as int]@);
        match apply_global(&options[at], global, page) {
            Ok(_) => {},
            Err(error) => {
                proof {
                    lemma_global_refusal_sticks(all, at + 1, start, sides, error@);
                }
                return Err(error);
            },
        }
        at = at + 1;
    }
    assert(all.take(all.len() as int) =~= all);
    Ok(())
}

/// Turn a command line into settings.
pub fn apply(parsed: &Tokenized) -> (outcome: Result<Settings, ApplyError>)
    ensures
        match outcome {
            Ok(settings) => applied(parsed@) == Ok::<SettingsView, ApplyErrorView>(settings@),
            Err(error) => applied(parsed@) == Err::<SettingsView, ApplyErrorView>(error@),
        },
{
    let mut global = GlobalSettings::default();
    global.output = parsed.output.clone();
    let mut page = PageOverrides::default();
    if let Err(error) = apply_globals(&parsed.globals, &mut global, &mut page) {
        return Err(error);
    }
    let mut inherited = ObjectSettings::page(Input::Stdin);
    if let Err(error) = apply_each(&parsed.defaults, &mut inherited, &mut global) {
        return Err(error);
    }
    let ghost all = objects_of(parsed.objects@);
    let ghost run = global@;
    let mut objects: Vec<ObjectSettings> = Vec::new();
    let mut at: usize = 0;
    assert(all.take(0) =~= Seq::empty());
    assert(settings_of(objects@) =~= Seq::empty());
    while at < parsed.objects.len()
        invariant
            at <= parsed.objects@.len(),
            all == objects_of(parsed.objects@),
            applied(parsed@) == match all_built(all, inherited@, run) {
                Err(error) => Err::<SettingsView, ApplyErrorView>(error),
                Ok((objects, after)) => Ok::<SettingsView, ApplyErrorView>(
                    SettingsView { global: overridden(page@, after), objects },
                ),
            },
            all_built(all.take(at as int), inherited@, run) == Ok::<
                (Seq<ObjectSettingsView>, GlobalSettingsView),
                ApplyErrorView,
            >((settings_of(objects@), global@)),
        decreases parsed.objects@.len() - at,
    {
        assert(all.take(at + 1).drop_last() =~= all.take(at as int));
        assert(all.take(at + 1).last() == parsed.objects@[at as int]@);
        let ghost before = settings_of(objects@);
        match build_object(&parsed.objects[at], &inherited, &mut global) {
            Ok(object) => {
                objects.push(object);
                assert(settings_of(objects@) =~= before.push(object@));
            },
            Err(error) => {
                proof {
                    lemma_built_refusal_sticks(all, at + 1, inherited@, run);
                }
                return Err(error);
            },
        }
        at = at + 1;
    }
    assert(all.take(all.len() as int) =~= all);
    page.resolve(&mut global);
    Ok(Settings { global, objects })
}

/// An option that is written on an object belongs to that object alone, but for
/// the page offset, which leaves the object as it was and changes nothing else of
/// the run.
pub proof fn law_an_object_option_stays_with_its_object(
    occurrence: OccurrenceView,
    object: ObjectSettingsView,
    global: GlobalSettingsView,
)
    ensures
        object_outcome(occurrence, object, global) matches Outcome::Here((own, run)) ==> {
            if occurrence.spec.long@ == "page-offset"@ {
                own == object && run == (GlobalSettingsView {
                    page_offset: run.page_offset,
                    ..global
                })
            } else {
                run == global
            }
        },
{
}

/// The object that options make, and whether they are refused, does not depend
/// on the settings of the run; of those, only the page offset changes, to the
/// last one written.
proof fn lemma_object_after(
    options: Seq<OccurrenceView>,
    object: ObjectSettingsView,
    one: GlobalSettingsView,
    other: GlobalSettingsView,
)
    ensures
        match object_after(options, object, one) {
            Ok((made, run)) => {
                &&& object_after(options, object, other) matches Ok((same, _)) && same == made
                &&& run == (GlobalSettingsView {
                    page_offset: last_offset(options, one.page_offset),
                    ..one
                })
            },
            Err(error) => object_after(options, object, other) == Err::<
                (ObjectSettingsView, GlobalSettingsView),
                ApplyErrorView,
            >(error),
        },
    decreases options.len(),
{
    if options.len() > 0 {
        lemma_object_after(options.drop_last(), object, one, other);
    }
}

/// The page offset that options leave behind: the last one written, or the one
/// there was.
pub open spec fn last_offset(options: Seq<OccurrenceView>, before: i64) -> i64
    decreases options.len(),
{
    if options.len() == 0 {
        before
    } else {
        let last = options.last();
        if !(last.spec.support is Meta) && last.spec.long@ == "page-offset"@ && signed_value(
            trimmed(first_value(last)),
        ) is Some {
            signed_value(trimmed(first_value(last)))->0 as i64
        } else {
            last_offset(options.drop_last(), before)
        }
    }
}

/// Every object of the command line comes out, and what it is depends on its own
/// options and on the defaults alone, whatever the settings of the run are.
pub proof fn law_objects_are_independent(
    objects: Seq<ObjectView>,
    inherited: ObjectSettingsView,
    global: GlobalSettingsView,
    other: GlobalSettingsView,
    at: int,
)
    requires
        all_built(objects, inherited, global) is Ok,
        0 <= at < objects.len(),
    ensures
        all_built(objects, inherited, global)->Ok_0.0.len() == objects.len(),
        built(objects[at], inherited, other) matches Ok((object, _)) && object == all_built(
            objects,
            inherited,
            global,
        )->Ok_0.0[at],
    decreases objects.len(),
{
    let earlier = objects.drop_last();
    let (so_far, run) = all_built(earlier, inherited, global)->Ok_0;
    if at < earlier.len() {
        law_objects_are_independent(earlier, inherited, global, other, at);
    } else {
        if earlier.len() > 0 {
            law_objects_are_independent(earlier, inherited, global, other, 0);
        }
        lemma_object_after(
            objects[at].options,
            inherited_by(objects[at].kind, inherited),
            run,
            other,
        );
    }
}

proof fn lemma_last_offset(first: Seq<OccurrenceView>, second: Seq<OccurrenceView>, before: i64)
    ensures
        last_offset(first + second, before) == last_offset(second, last_offset(first, before)),
    decreases second.len(),
{
    if second.len() == 0 {
        assert(first + second =~= first);
    } else {
        assert((first + second).drop_last() =~= first + second.drop_last());
        lemma_last_offset(first, second.drop_last(), before);
    }
}

proof fn lemma_all_built(
    objects: Seq<ObjectView>,
    inherited: ObjectSettingsView,
    global: GlobalSettingsView,
)
    requires
        all_built(objects, inherited, global) is Ok,
    ensures
        all_built(objects, inherited, global)->Ok_0.1 == (GlobalSettingsView {
            page_offset: last_offset(object_options(objects), global.page_offset),
            ..global
        }),
    decreases objects.len(),
{
    if objects.len() > 0 {
        lemma_all_built(objects.drop_last(), inherited, global);
        let run = all_built(objects.drop_last(), inherited, global)->Ok_0.1;
        let own = objects.last();
        lemma_object_after(own.options, inherited_by(own.kind, inherited), run, run);
        lemma_last_offset(
            object_options(objects.drop_last()),
            own.options,
            global.page_offset,
        );
    }
}

proof fn lemma_global_offset(
    options: Seq<OccurrenceView>,
    global: GlobalSettingsView,
    page: PageOverridesView,
)
    requires
        global_after(options, global, page) is Ok,
    ensures
        global_after(options, global, page)->Ok_0.0.page_offset == global.page_offset,
    decreases options.len(),
{
    if options.len() > 0 {
        lemma_global_offset(options.drop_last(), global, page);
    }
}

/// There is one page offset for the whole output, wherever it is written, and
/// the last one written is the one that counts.
pub proof fn law_the_last_offset_counts(parsed: TokenizedView)
    requires
        applied(parsed) is Ok,
    ensures
        applied(parsed)->Ok_0.global.page_offset == last_offset(
            parsed.defaults + object_options(parsed.objects),
            0,
        ),
{
    let global = GlobalSettingsView { output: parsed.output, ..default_global_settings() };
    let page = PageOverridesView { width: None, height: None };
    lemma_global_offset(parsed.globals, global, page);
    let (run, sides) = global_after(parsed.globals, global, page)->Ok_0;
    lemma_object_after(parsed.defaults, page_settings(InputView::Stdin), run, run);
    let (inherited, next) = object_after(
        parsed.defaults,
        page_settings(InputView::Stdin),
        run,
    )->Ok_0;
    lemma_all_built(parsed.objects, inherited, next);
    lemma_last_offset(parsed.defaults, object_options(parsed.objects), 0);
}

/// A side of the paper that was written wins over a named size, whichever was
/// written first.
pub proof fn law_a_written_side_wins_in_either_order(
    named: OccurrenceView,
    side: OccurrenceView,
    global: GlobalSettingsView,
    page: PageOverridesView,
)
    requires
        named.spec.long@ == "page-size"@,
        !(named.spec.support is Meta),
        paper_of(first_value(named)) is Some,
        side.spec.long@ == "page-width"@ || side.spec.long@ == "page-height"@,
        !(side.spec.support is Meta),
        length_of(first_value(side)) is Some,
    ensures
        ({
            let length = length_of(first_value(side))->0;
            let first = global_after(seq![named, side], global, page);
            let second = global_after(seq![side, named], global, page);
            &&& first is Ok
            &&& first == second
            &&& side.spec.long@ == "page-width"@ ==> overridden(
                first->Ok_0.1,
                first->Ok_0.0,
            ).page.size.width == length
            &&& side.spec.long@ == "page-height"@ ==> overridden(
                first->Ok_0.1,
                first->Ok_0.0,
            ).page.size.height == length
        }),
{
    reveal_with_fuel(global_after, 3);
    reveal_strlit("page-size");
    reveal_strlit("page-width");
    reveal_strlit("page-height");
    reveal_strlit("dump-parse");
    assert("page-size"@.len() == 9);
    assert("page-width"@.len() == 10);
    assert("page-height"@.len() == 11);
    assert("dump-parse"@[0] == 'd' && "page-size"@[0] == 'p' && "page-width"@[0] == 'p'
        && "page-height"@[0] == 'p');
    let one = seq![named, side];
    let other = seq![side, named];
    assert(one.drop_last() =~= seq![named]);
    assert(other.drop_last() =~= seq![side]);
    assert(seq![named].drop_last() =~= Seq::empty());
    assert(seq![side].drop_last() =~= Seq::empty());
}

/// A cover carries no header and no footer of the defaults, and takes no part in
/// the outline.
pub proof fn law_a_cover_stands_alone(input: InputView, inherited: ObjectSettingsView)
    ensures
        ({
            let cover = inherited_by(ObjectKindView::Cover(input), inherited);
            &&& cover.header == default_band()
            &&& cover.footer == default_band()
            &&& !cover.in_outline
            &&& cover.web == inherited.web
            &&& cover.load == inherited.load
        }),
{
}

/// The first option that is refused is the one that is reported.
pub proof fn law_the_first_refusal_is_reported(
    options: Seq<OccurrenceView>,
    at: int,
    object: ObjectSettingsView,
    global: GlobalSettingsView,
)
    requires
        0 <= at <= options.len(),
        object_after(options.take(at), object, global) is Err,
    ensures
        object_after(options, object, global) == object_after(options.take(at), object, global),
{
    lemma_object_refusal_sticks(options, at, object, global);
}

} // verus!
