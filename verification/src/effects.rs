//! What each option sets.
//!
//! An option sets the one thing that it names and leaves every other as it was.
//! What is said of an option here goes by its name and by the values written
//! behind it.

use crate::apply::{
    all_built, applied, global_after, global_outcome, inherited_by, listed, object_after, object_outcome,
    ApplyErrorView, Outcome, PageOverridesView,
};
use crate::document::{InputView, OutputView};
use crate::numbers::{
    law_a_written_number_is_read_back, law_white_space_is_dropped, signed_value, trimmed, unsigned,
};
use crate::settings::{
    handling_of, length_of, log_level_of, orientation_of, paper_names, paper_of, real_of, BandView,
    BrowserSettingsView, GlobalSettingsView, LengthView, LinkSettings, LoadErrorHandling,
    LoadSettingsView, LogLevel, MarginsView, MediaType, NamedMargins, ObjectKind,
    ObjectSettingsView, Orientation, OutlineSettingsView, PageDimensionsView, PageSetupView,
    PairView, SettingsView, TocSettingsView, Unit, WebSettingsView,
};
use crate::text::{
    decimal, digits_of, first_of, law_decimal_spells_its_number, lemma_find, lemma_find_none,
};
use crate::tokenizer::{ObjectKindView, ObjectView, OccurrenceView, TokenizedView};
use vstd::prelude::*;

verus! {

/// An option of a name, with at least so many values, that a conversion acts on.
pub open spec fn is_option(occurrence: OccurrenceView, name: Seq<char>, values: nat) -> bool {
    &&& occurrence.spec.long@ == name
    &&& !(occurrence.spec.support is Meta)
    &&& occurrence.values.len() >= values
}

spec fn letter(name: Seq<char>, at: int) -> int {
    if 0 <= at < name.len() {
        name[at] as int
    } else {
        0
    }
}

/// A number that tells the names of the options apart, by a few of their letters.
spec fn mark(name: Seq<char>) -> int {
    letter(name, 3) + 0x80 * letter(name, 8) + 0x4000 * letter(name, name.len() - 3) + 0x200000 * letter(name, name.len() - 7)
}

#[verifier::spinoff_prover]
proof fn lemma_marks_a()
    ensures
        mark("enable-javascript"@) == 0xc3a70e2,
        mark("disable-javascript"@) == 0xc3a7561,
        mark("images"@) == 0x19c067,
        mark("no-images"@) == 0x5b9f9e9,
        mark("background"@) == 0xd7d776b,
        mark("no-background"@) == 0xd7d7962,
        mark("print-media-type"@) == 0xd3e726e,
        mark("no-print-media-type"@) == 0xd3e56f0,
        mark("zoom"@) == 0x1bc06d,
        mark("encoding"@) == 0xdda406f,
        mark("minimum-font-size"@) == 0xdda7369,
        mark("viewport-size"@) == 0xe5a56f7,
{
    reveal_strlit("enable-javascript");
    reveal_strlit("disable-javascript");
    reveal_strlit("images");
    reveal_strlit("no-images");
    reveal_strlit("background");
    reveal_strlit("no-background");
    reveal_strlit("print-media-type");
    reveal_strlit("no-print-media-type");
    reveal_strlit("zoom");
    reveal_strlit("encoding");
    reveal_strlit("minimum-font-size");
    reveal_strlit("viewport-size");
}

#[verifier::spinoff_prover]
proof fn lemma_marks_b()
    ensures
        mark("username"@) == 0xe784072,
        mark("password"@) == 0xc3bc073,
        mark("proxy"@) == 0x1bc078,
        mark("cookie"@) == 0x1ac06b,
        mark("custom-header"@) == 0x5b932f4,
        mark("custom-header-propagation"@) == 0xc3a72f4,
        mark("no-custom-header-propagation"@) == 0xc3a76e3,
        mark("bypass-proxy-for"@) == 0xdf9b961,
        mark("cache-dir"@) == 0xc793968,
        mark("enable-local-file-access"@) == 0x5b977e2,
        mark("disable-local-file-access"@) == 0x5b97661,
        mark("allow"@) == 0x1b006f,
{
    reveal_strlit("username");
    reveal_strlit("password");
    reveal_strlit("proxy");
    reveal_strlit("cookie");
    reveal_strlit("custom-header");
    reveal_strlit("custom-header-propagation");
    reveal_strlit("no-custom-header-propagation");
    reveal_strlit("bypass-proxy-for");
    reveal_strlit("cache-dir");
    reveal_strlit("enable-local-file-access");
    reveal_strlit("disable-local-file-access");
    reveal_strlit("allow");
}

#[verifier::spinoff_prover]
proof fn lemma_marks_c()
    ensures
        mark("javascript-delay"@) == 0xe9b3861,
        mark("window-status"@) == 0x5bd3a64,
        mark("run-script"@) == 0x5ba782d,
        mark("user-style-sheet"@) == 0xcb97672,
        mark("no-stop-slow-scripts"@) == 0xe7c39f3,
        mark("load-error-handling"@) == 0xc3a77e4,
        mark("load-media-error-handling"@) == 0xc3a74e4,
        mark("toc-header-text"@) == 0xcb972ad,
        mark("toc-level-indentation"@) == 0xdda762d,
        mark("toc-text-size-shrink"@) == 0x5ba56ad,
        mark("disable-dotted-lines"@) == 0xc9bb261,
        mark("disable-toc-links"@) == 0xc7bba61,
{
    reveal_strlit("javascript-delay");
    reveal_strlit("window-status");
    reveal_strlit("run-script");
    reveal_strlit("user-style-sheet");
    reveal_strlit("no-stop-slow-scripts");
    reveal_strlit("load-error-handling");
    reveal_strlit("load-media-error-handling");
    reveal_strlit("toc-header-text");
    reveal_strlit("toc-level-indentation");
    reveal_strlit("toc-text-size-shrink");
    reveal_strlit("disable-dotted-lines");
    reveal_strlit("disable-toc-links");
}

#[verifier::spinoff_prover]
proof fn lemma_marks_d()
    ensures
        mark("enable-toc-back-links"@) == 0xd7bb7e2,
        mark("disable-toc-back-links"@) == 0xd7bba61,
        mark("enable-external-links"@) == 0xd9bbc62,
        mark("disable-external-links"@) == 0xd9bb2e1,
        mark("enable-internal-links"@) == 0xd9bb762,
        mark("disable-internal-links"@) == 0xd9bb4e1,
        mark("resolve-relative-links"@) == 0xcbbb96f,
        mark("keep-relative-links"@) == 0xcbbb0f0,
        mark("header-left"@) == 0xcb972e4,
        mark("header-center"@) == 0x5bd32e4,
        mark("header-right"@) == 0xe59f4e4,
        mark("header-font-name"@) == 0xdd877e4,
{
    reveal_strlit("enable-toc-back-links");
    reveal_strlit("disable-toc-back-links");
    reveal_strlit("enable-external-links");
    reveal_strlit("disable-external-links");
    reveal_strlit("enable-internal-links");
    reveal_strlit("disable-internal-links");
    reveal_strlit("resolve-relative-links");
    reveal_strlit("keep-relative-links");
    reveal_strlit("header-left");
    reveal_strlit("header-center");
    reveal_strlit("header-right");
    reveal_strlit("header-font-name");
}

#[verifier::spinoff_prover]
proof fn lemma_marks_e()
    ensures
        mark("header-font-size"@) == 0xdda77e4,
        mark("header-spacing"@) == 0xe7a7864,
        mark("header-line"@) == 0xcba74e4,
        mark("no-header-line"@) == 0xcba7968,
        mark("header-html"@) == 0xcbd3a64,
        mark("footer-left"@) == 0xcb972f4,
        mark("footer-center"@) == 0x5bd32f4,
        mark("footer-right"@) == 0xe59f4f4,
        mark("footer-font-name"@) == 0xdd877f4,
        mark("footer-font-size"@) == 0xdda77f4,
        mark("footer-spacing"@) == 0xe7a7874,
        mark("footer-line"@) == 0xcba74f4,
{
    reveal_strlit("header-font-size");
    reveal_strlit("header-spacing");
    reveal_strlit("header-line");
    reveal_strlit("no-header-line");
    reveal_strlit("header-html");
    reveal_strlit("footer-left");
    reveal_strlit("footer-center");
    reveal_strlit("footer-right");
    reveal_strlit("footer-font-name");
    reveal_strlit("footer-font-size");
    reveal_strlit("footer-spacing");
    reveal_strlit("footer-line");
}

#[verifier::spinoff_prover]
proof fn lemma_marks_f()
    ensures
        mark("no-footer-line"@) == 0xcba7966,
        mark("footer-html"@) == 0xcbd3a74,
        mark("include-in-outline"@) == 0xdfa74ec,
        mark("exclude-from-outline"@) == 0xdfa736c,
        mark("replace"@) == 0xe58406c,
        mark("default-header"@) == 0x5b93461,
        mark("page-offset"@) == 0x5bcf9e5,
        mark("page-size"@) == 0xcfa72e5,
        mark("margin-top"@) == 0xcfd37e7,
        mark("margin-right"@) == 0xdd9f4e7,
        mark("margin-bottom"@) == 0x5bd37e7,
        mark("margin-left"@) == 0xd3972e7,
{
    reveal_strlit("no-footer-line");
    reveal_strlit("footer-html");
    reveal_strlit("include-in-outline");
    reveal_strlit("exclude-from-outline");
    reveal_strlit("replace");
    reveal_strlit("default-header");
    reveal_strlit("page-offset");
    reveal_strlit("page-size");
    reveal_strlit("margin-top");
    reveal_strlit("margin-right");
    reveal_strlit("margin-bottom");
    reveal_strlit("margin-left");
}

#[verifier::spinoff_prover]
proof fn lemma_marks_g()
    ensures
        mark("orientation"@) == 0xdda74e5,
        mark("title"@) == 0x1d006c,
        mark("quiet"@) == 0x1a4065,
        mark("log-level"@) == 0xcfdb62d,
        mark("timeout"@) == 0xe9bc065,
        mark("chromium-path"@) == 0xeb856ef,
        mark("chromium-arg"@) == 0xd3856ef,
        mark("no-sandbox"@) == 0xe78b7f3,
        mark("tagged-pdf"@) == 0xcfc3267,
        mark("outline"@) == 0xdfa406c,
        mark("no-outline"@) == 0xdfa776f,
        mark("outline-depth"@) == 0xcbc326c,
{
    reveal_strlit("orientation");
    reveal_strlit("title");
    reveal_strlit("quiet");
    reveal_strlit("log-level");
    reveal_strlit("timeout");
    reveal_strlit("chromium-path");
    reveal_strlit("chromium-arg");
    reveal_strlit("no-sandbox");
    reveal_strlit("tagged-pdf");
    reveal_strlit("outline");
    reveal_strlit("no-outline");
    reveal_strlit("outline-depth");
}

#[verifier::spinoff_prover]
proof fn lemma_marks_h()
    ensures
        mark("dump-outline"@) == 0xdfa7670,
        mark("page-width"@) == 0xcb93a65,
        mark("page-height"@) == 0x5b9f3e5,
        mark("dump-parse"@) == 0xe1cb9f0,
{
    reveal_strlit("dump-outline");
    reveal_strlit("page-width");
    reveal_strlit("page-height");
    reveal_strlit("dump-parse");
}

/// The names of the options differ.
proof fn lemma_marks()
    ensures
        mark("enable-javascript"@) == 0xc3a70e2,
        mark("disable-javascript"@) == 0xc3a7561,
        mark("images"@) == 0x19c067,
        mark("no-images"@) == 0x5b9f9e9,
        mark("background"@) == 0xd7d776b,
        mark("no-background"@) == 0xd7d7962,
        mark("print-media-type"@) == 0xd3e726e,
        mark("no-print-media-type"@) == 0xd3e56f0,
        mark("zoom"@) == 0x1bc06d,
        mark("encoding"@) == 0xdda406f,
        mark("minimum-font-size"@) == 0xdda7369,
        mark("viewport-size"@) == 0xe5a56f7,
        mark("username"@) == 0xe784072,
        mark("password"@) == 0xc3bc073,
        mark("proxy"@) == 0x1bc078,
        mark("cookie"@) == 0x1ac06b,
        mark("custom-header"@) == 0x5b932f4,
        mark("custom-header-propagation"@) == 0xc3a72f4,
        mark("no-custom-header-propagation"@) == 0xc3a76e3,
        mark("bypass-proxy-for"@) == 0xdf9b961,
        mark("cache-dir"@) == 0xc793968,
        mark("enable-local-file-access"@) == 0x5b977e2,
        mark("disable-local-file-access"@) == 0x5b97661,
        mark("allow"@) == 0x1b006f,
        mark("javascript-delay"@) == 0xe9b3861,
        mark("window-status"@) == 0x5bd3a64,
        mark("run-script"@) == 0x5ba782d,
        mark("user-style-sheet"@) == 0xcb97672,
        mark("no-stop-slow-scripts"@) == 0xe7c39f3,
        mark("load-error-handling"@) == 0xc3a77e4,
        mark("load-media-error-handling"@) == 0xc3a74e4,
        mark("toc-header-text"@) == 0xcb972ad,
        mark("toc-level-indentation"@) == 0xdda762d,
        mark("toc-text-size-shrink"@) == 0x5ba56ad,
        mark("disable-dotted-lines"@) == 0xc9bb261,
        mark("disable-toc-links"@) == 0xc7bba61,
        mark("enable-toc-back-links"@) == 0xd7bb7e2,
        mark("disable-toc-back-links"@) == 0xd7bba61,
        mark("enable-external-links"@) == 0xd9bbc62,
        mark("disable-external-links"@) == 0xd9bb2e1,
        mark("enable-internal-links"@) == 0xd9bb762,
        mark("disable-internal-links"@) == 0xd9bb4e1,
        mark("resolve-relative-links"@) == 0xcbbb96f,
        mark("keep-relative-links"@) == 0xcbbb0f0,
        mark("header-left"@) == 0xcb972e4,
        mark("header-center"@) == 0x5bd32e4,
        mark("header-right"@) == 0xe59f4e4,
        mark("header-font-name"@) == 0xdd877e4,
        mark("header-font-size"@) == 0xdda77e4,
        mark("header-spacing"@) == 0xe7a7864,
        mark("header-line"@) == 0xcba74e4,
        mark("no-header-line"@) == 0xcba7968,
        mark("header-html"@) == 0xcbd3a64,
        mark("footer-left"@) == 0xcb972f4,
        mark("footer-center"@) == 0x5bd32f4,
        mark("footer-right"@) == 0xe59f4f4,
        mark("footer-font-name"@) == 0xdd877f4,
        mark("footer-font-size"@) == 0xdda77f4,
        mark("footer-spacing"@) == 0xe7a7874,
        mark("footer-line"@) == 0xcba74f4,
        mark("no-footer-line"@) == 0xcba7966,
        mark("footer-html"@) == 0xcbd3a74,
        mark("include-in-outline"@) == 0xdfa74ec,
        mark("exclude-from-outline"@) == 0xdfa736c,
        mark("replace"@) == 0xe58406c,
        mark("default-header"@) == 0x5b93461,
        mark("page-offset"@) == 0x5bcf9e5,
        mark("page-size"@) == 0xcfa72e5,
        mark("margin-top"@) == 0xcfd37e7,
        mark("margin-right"@) == 0xdd9f4e7,
        mark("margin-bottom"@) == 0x5bd37e7,
        mark("margin-left"@) == 0xd3972e7,
        mark("orientation"@) == 0xdda74e5,
        mark("title"@) == 0x1d006c,
        mark("quiet"@) == 0x1a4065,
        mark("log-level"@) == 0xcfdb62d,
        mark("timeout"@) == 0xe9bc065,
        mark("chromium-path"@) == 0xeb856ef,
        mark("chromium-arg"@) == 0xd3856ef,
        mark("no-sandbox"@) == 0xe78b7f3,
        mark("tagged-pdf"@) == 0xcfc3267,
        mark("outline"@) == 0xdfa406c,
        mark("no-outline"@) == 0xdfa776f,
        mark("outline-depth"@) == 0xcbc326c,
        mark("dump-outline"@) == 0xdfa7670,
        mark("page-width"@) == 0xcb93a65,
        mark("page-height"@) == 0x5b9f3e5,
        mark("dump-parse"@) == 0xe1cb9f0,
{
    lemma_marks_a();
    lemma_marks_b();
    lemma_marks_c();
    lemma_marks_d();
    lemma_marks_e();
    lemma_marks_f();
    lemma_marks_g();
    lemma_marks_h();
}

/// What a document may do is set by the options that name it.
#[verifier::spinoff_prover]
#[verifier::rlimit(60)]
pub proof fn law_options_of_rendering(
    occurrence: OccurrenceView,
    object: ObjectSettingsView,
    global: GlobalSettingsView,
)
    ensures
        is_option(occurrence, "enable-javascript"@, 0) ==> object_outcome(occurrence, object, global) == Outcome::Here(
            (
                ObjectSettingsView {
                    web: WebSettingsView { javascript: true, ..object.web },
                    ..object
                },
                global,
            ),
        ),
        is_option(occurrence, "disable-javascript"@, 0) ==> object_outcome(occurrence, object, global) == Outcome::Here(
            (
                ObjectSettingsView {
                    web: WebSettingsView { javascript: false, ..object.web },
                    ..object
                },
                global,
            ),
        ),
        is_option(occurrence, "images"@, 0) ==> object_outcome(occurrence, object, global) == Outcome::Here(
            (
                ObjectSettingsView {
                    web: WebSettingsView { images: true, ..object.web },
                    ..object
                },
                global,
            ),
        ),
        is_option(occurrence, "no-images"@, 0) ==> object_outcome(occurrence, object, global) == Outcome::Here(
            (
                ObjectSettingsView {
                    web: WebSettingsView { images: false, ..object.web },
                    ..object
                },
                global,
            ),
        ),
        is_option(occurrence, "background"@, 0) ==> object_outcome(occurrence, object, global) == Outcome::Here(
            (
                ObjectSettingsView {
                    web: WebSettingsView { background: true, ..object.web },
                    ..object
                },
                global,
            ),
        ),
        is_option(occurrence, "no-background"@, 0) ==> object_outcome(occurrence, object, global) == Outcome::Here(
            (
                ObjectSettingsView {
                    web: WebSettingsView { background: false, ..object.web },
                    ..object
                },
                global,
            ),
        ),
        is_option(occurrence, "print-media-type"@, 0) ==> object_outcome(occurrence, object, global) == Outcome::Here(
            (
                ObjectSettingsView {
                    web: WebSettingsView { media_type: MediaType::Print, ..object.web },
                    ..object
                },
                global,
            ),
        ),
        is_option(occurrence, "no-print-media-type"@, 0) ==> object_outcome(occurrence, object, global) == Outcome::Here(
            (
                ObjectSettingsView {
                    web: WebSettingsView { media_type: MediaType::Screen, ..object.web },
                    ..object
                },
                global,
            ),
        ),
        is_option(occurrence, "zoom"@, 1) && real_of(occurrence.values[0]) is Some ==> object_outcome(occurrence, object, global) == Outcome::Here(
            (
                ObjectSettingsView {
                    web: WebSettingsView { zoom: real_of(occurrence.values[0])->0, ..object.web },
                    ..object
                },
                global,
            ),
        ),
        is_option(occurrence, "zoom"@, 1) && real_of(occurrence.values[0]) is None ==> object_outcome(occurrence, object, global) == Outcome::<(ObjectSettingsView, GlobalSettingsView)>::Refused(
            "`"@ + occurrence.values[0] + "` is not a number"@,
        ),
{
    lemma_marks();
}

/// What a document may do is set by the options that name it.
#[verifier::spinoff_prover]
#[verifier::rlimit(60)]
pub proof fn law_options_of_requests(
    occurrence: OccurrenceView,
    object: ObjectSettingsView,
    global: GlobalSettingsView,
)
    ensures
        is_option(occurrence, "encoding"@, 1) ==> object_outcome(occurrence, object, global) == Outcome::Here(
            (
                ObjectSettingsView {
                    web: WebSettingsView { encoding: Some(occurrence.values[0]), ..object.web },
                    ..object
                },
                global,
            ),
        ),
        is_option(occurrence, "minimum-font-size"@, 1) && unsigned(trimmed(occurrence.values[0]), u32::MAX as int) is Some ==> object_outcome(occurrence, object, global) == Outcome::Here(
            (
                ObjectSettingsView {
                    web: WebSettingsView { minimum_font_size: Some((unsigned(trimmed(occurrence.values[0]), u32::MAX as int)->0 as u32)), ..object.web },
                    ..object
                },
                global,
            ),
        ),
        is_option(occurrence, "minimum-font-size"@, 1) && unsigned(trimmed(occurrence.values[0]), u32::MAX as int) is None ==> object_outcome(occurrence, object, global) == Outcome::<(ObjectSettingsView, GlobalSettingsView)>::Refused(
            "`"@ + occurrence.values[0] + "` is not a number"@,
        ),
        is_option(occurrence, "username"@, 1) ==> object_outcome(occurrence, object, global) == Outcome::Here(
            (
                ObjectSettingsView {
                    web: WebSettingsView { username: Some(occurrence.values[0]), ..object.web },
                    ..object
                },
                global,
            ),
        ),
        is_option(occurrence, "password"@, 1) ==> object_outcome(occurrence, object, global) == Outcome::Here(
            (
                ObjectSettingsView {
                    web: WebSettingsView { password: Some(occurrence.values[0]), ..object.web },
                    ..object
                },
                global,
            ),
        ),
        is_option(occurrence, "proxy"@, 1) ==> object_outcome(occurrence, object, global) == Outcome::Here(
            (
                ObjectSettingsView {
                    web: WebSettingsView { proxy: Some(occurrence.values[0]), ..object.web },
                    ..object
                },
                global,
            ),
        ),
        is_option(occurrence, "cookie"@, 2) ==> object_outcome(occurrence, object, global) == Outcome::Here(
            (
                ObjectSettingsView {
                    web: WebSettingsView { cookies: object.web.cookies.push(
                        PairView { name: occurrence.values[0], value: occurrence.values[1] },
                    ), ..object.web },
                    ..object
                },
                global,
            ),
        ),
        is_option(occurrence, "custom-header"@, 2) ==> object_outcome(occurrence, object, global) == Outcome::Here(
            (
                ObjectSettingsView {
                    web: WebSettingsView { custom_headers: object.web.custom_headers.push(
                        PairView { name: occurrence.values[0], value: occurrence.values[1] },
                    ), ..object.web },
                    ..object
                },
                global,
            ),
        ),
        is_option(occurrence, "custom-header-propagation"@, 0) ==> object_outcome(occurrence, object, global) == Outcome::Here(
            (
                ObjectSettingsView {
                    web: WebSettingsView { propagate_custom_headers: true, ..object.web },
                    ..object
                },
                global,
            ),
        ),
{
    lemma_marks();
}

/// What a document may do is set by the options that name it.
#[verifier::spinoff_prover]
#[verifier::rlimit(60)]
pub proof fn law_options_of_access(
    occurrence: OccurrenceView,
    object: ObjectSettingsView,
    global: GlobalSettingsView,
)
    ensures
        is_option(occurrence, "no-custom-header-propagation"@, 0) ==> object_outcome(occurrence, object, global) == Outcome::Here(
            (
                ObjectSettingsView {
                    web: WebSettingsView { propagate_custom_headers: false, ..object.web },
                    ..object
                },
                global,
            ),
        ),
        is_option(occurrence, "bypass-proxy-for"@, 1) ==> object_outcome(occurrence, object, global) == Outcome::Here(
            (
                ObjectSettingsView {
                    web: WebSettingsView { bypass_proxy_for: object.web.bypass_proxy_for.push(occurrence.values[0]), ..object.web },
                    ..object
                },
                global,
            ),
        ),
        is_option(occurrence, "cache-dir"@, 1) ==> object_outcome(occurrence, object, global) == Outcome::Here(
            (
                ObjectSettingsView {
                    web: WebSettingsView { cache_dir: Some(occurrence.values[0]), ..object.web },
                    ..object
                },
                global,
            ),
        ),
        is_option(occurrence, "enable-local-file-access"@, 0) ==> object_outcome(occurrence, object, global) == Outcome::Here(
            (
                ObjectSettingsView {
                    web: WebSettingsView { local_file_access: true, ..object.web },
                    ..object
                },
                global,
            ),
        ),
        is_option(occurrence, "disable-local-file-access"@, 0) ==> object_outcome(occurrence, object, global) == Outcome::Here(
            (
                ObjectSettingsView {
                    web: WebSettingsView { local_file_access: false, ..object.web },
                    ..object
                },
                global,
            ),
        ),
        is_option(occurrence, "allow"@, 1) ==> object_outcome(occurrence, object, global) == Outcome::Here(
            (
                ObjectSettingsView {
                    web: WebSettingsView { allowed_paths: object.web.allowed_paths.push(occurrence.values[0]), ..object.web },
                    ..object
                },
                global,
            ),
        ),
{
    lemma_marks();
}

/// How a document is loaded is set by the options that name it.
#[verifier::spinoff_prover]
#[verifier::rlimit(60)]
pub proof fn law_options_of_loading(
    occurrence: OccurrenceView,
    object: ObjectSettingsView,
    global: GlobalSettingsView,
)
    ensures
        is_option(occurrence, "javascript-delay"@, 1) && unsigned(trimmed(occurrence.values[0]), u64::MAX as int) is Some ==> object_outcome(occurrence, object, global) == Outcome::Here(
            (
                ObjectSettingsView {
                    load: LoadSettingsView { javascript_delay: (unsigned(trimmed(occurrence.values[0]), u64::MAX as int)->0 as u64), ..object.load },
                    ..object
                },
                global,
            ),
        ),
        is_option(occurrence, "javascript-delay"@, 1) && unsigned(trimmed(occurrence.values[0]), u64::MAX as int) is None ==> object_outcome(occurrence, object, global) == Outcome::<(ObjectSettingsView, GlobalSettingsView)>::Refused(
            "`"@ + occurrence.values[0] + "` is not a number"@,
        ),
        is_option(occurrence, "window-status"@, 1) ==> object_outcome(occurrence, object, global) == Outcome::Here(
            (
                ObjectSettingsView {
                    load: LoadSettingsView { window_status: Some(occurrence.values[0]), ..object.load },
                    ..object
                },
                global,
            ),
        ),
        is_option(occurrence, "run-script"@, 1) ==> object_outcome(occurrence, object, global) == Outcome::Here(
            (
                ObjectSettingsView {
                    load: LoadSettingsView { run_scripts: object.load.run_scripts.push(occurrence.values[0]), ..object.load },
                    ..object
                },
                global,
            ),
        ),
        is_option(occurrence, "user-style-sheet"@, 1) && occurrence.values[0].len() > 0 ==> object_outcome(occurrence, object, global) == Outcome::Here(
            (
                ObjectSettingsView {
                    load: LoadSettingsView { user_style_sheet: Some(occurrence.values[0]), ..object.load },
                    ..object
                },
                global,
            ),
        ),
        is_option(occurrence, "user-style-sheet"@, 1) && occurrence.values[0].len() == 0 ==> object_outcome(occurrence, object, global) == Outcome::Here(
            (
                ObjectSettingsView {
                    load: LoadSettingsView { user_style_sheet: None, ..object.load },
                    ..object
                },
                global,
            ),
        ),
        is_option(occurrence, "no-stop-slow-scripts"@, 0) ==> object_outcome(occurrence, object, global) == Outcome::Here(
            (
                ObjectSettingsView {
                    load: LoadSettingsView { stop_slow_scripts: false, ..object.load },
                    ..object
                },
                global,
            ),
        ),
        is_option(occurrence, "load-error-handling"@, 1) && handling_of(occurrence.values[0]) is Some ==> object_outcome(occurrence, object, global) == Outcome::Here(
            (
                ObjectSettingsView {
                    load: LoadSettingsView { on_document_error: handling_of(occurrence.values[0])->0, ..object.load },
                    ..object
                },
                global,
            ),
        ),
        is_option(occurrence, "load-error-handling"@, 1) && handling_of(occurrence.values[0]) is None ==> object_outcome(occurrence, object, global) == Outcome::<(ObjectSettingsView, GlobalSettingsView)>::Refused(
            "unknown handler `"@ + occurrence.values[0] + "`; expected abort, ignore or skip"@,
        ),
        is_option(occurrence, "load-media-error-handling"@, 1) && handling_of(occurrence.values[0]) is Some ==> object_outcome(occurrence, object, global) == Outcome::Here(
            (
                ObjectSettingsView {
                    load: LoadSettingsView { on_media_error: handling_of(occurrence.values[0])->0, ..object.load },
                    ..object
                },
                global,
            ),
        ),
        is_option(occurrence, "load-media-error-handling"@, 1) && handling_of(occurrence.values[0]) is None ==> object_outcome(occurrence, object, global) == Outcome::<(ObjectSettingsView, GlobalSettingsView)>::Refused(
            "unknown handler `"@ + occurrence.values[0] + "`; expected abort, ignore or skip"@,
        ),
{
    lemma_marks();
}

/// How a table of contents looks is set by the options that name it.
#[verifier::spinoff_prover]
#[verifier::rlimit(60)]
pub proof fn law_options_of_a_table_of_contents(
    occurrence: OccurrenceView,
    object: ObjectSettingsView,
    global: GlobalSettingsView,
)
    ensures
        is_option(occurrence, "toc-header-text"@, 1) ==> object_outcome(occurrence, object, global) == Outcome::Here(
            (
                ObjectSettingsView {
                    toc: TocSettingsView { header_text: occurrence.values[0], ..object.toc },
                    ..object
                },
                global,
            ),
        ),
        is_option(occurrence, "toc-level-indentation"@, 1) ==> object_outcome(occurrence, object, global) == Outcome::Here(
            (
                ObjectSettingsView {
                    toc: TocSettingsView { level_indentation: occurrence.values[0], ..object.toc },
                    ..object
                },
                global,
            ),
        ),
        is_option(occurrence, "toc-text-size-shrink"@, 1) && real_of(occurrence.values[0]) is Some ==> object_outcome(occurrence, object, global) == Outcome::Here(
            (
                ObjectSettingsView {
                    toc: TocSettingsView { text_size_shrink: real_of(occurrence.values[0])->0, ..object.toc },
                    ..object
                },
                global,
            ),
        ),
        is_option(occurrence, "toc-text-size-shrink"@, 1) && real_of(occurrence.values[0]) is None ==> object_outcome(occurrence, object, global) == Outcome::<(ObjectSettingsView, GlobalSettingsView)>::Refused(
            "`"@ + occurrence.values[0] + "` is not a number"@,
        ),
        is_option(occurrence, "disable-dotted-lines"@, 0) ==> object_outcome(occurrence, object, global) == Outcome::Here(
            (
                ObjectSettingsView {
                    toc: TocSettingsView { dotted_lines: false, ..object.toc },
                    ..object
                },
                global,
            ),
        ),
        is_option(occurrence, "disable-toc-links"@, 0) ==> object_outcome(occurrence, object, global) == Outcome::Here(
            (
                ObjectSettingsView {
                    toc: TocSettingsView { links: false, ..object.toc },
                    ..object
                },
                global,
            ),
        ),
        is_option(occurrence, "enable-toc-back-links"@, 0) ==> object_outcome(occurrence, object, global) == Outcome::Here(
            (
                ObjectSettingsView {
                    toc: TocSettingsView { back_links: true, ..object.toc },
                    ..object
                },
                global,
            ),
        ),
        is_option(occurrence, "disable-toc-back-links"@, 0) ==> object_outcome(occurrence, object, global) == Outcome::Here(
            (
                ObjectSettingsView {
                    toc: TocSettingsView { back_links: false, ..object.toc },
                    ..object
                },
                global,
            ),
        ),
{
    lemma_marks();
}

/// What becomes of links is set by the options that name them.
#[verifier::spinoff_prover]
#[verifier::rlimit(60)]
pub proof fn law_options_of_links(
    occurrence: OccurrenceView,
    object: ObjectSettingsView,
    global: GlobalSettingsView,
)
    ensures
        is_option(occurrence, "enable-external-links"@, 0) ==> object_outcome(occurrence, object, global) == Outcome::Here(
            (
                ObjectSettingsView {
                    links: LinkSettings { external: true, ..object.links },
                    ..object
                },
                global,
            ),
        ),
        is_option(occurrence, "disable-external-links"@, 0) ==> object_outcome(occurrence, object, global) == Outcome::Here(
            (
                ObjectSettingsView {
                    links: LinkSettings { external: false, ..object.links },
                    ..object
                },
                global,
            ),
        ),
        is_option(occurrence, "enable-internal-links"@, 0) ==> object_outcome(occurrence, object, global) == Outcome::Here(
            (
                ObjectSettingsView {
                    links: LinkSettings { internal: true, ..object.links },
                    ..object
                },
                global,
            ),
        ),
        is_option(occurrence, "disable-internal-links"@, 0) ==> object_outcome(occurrence, object, global) == Outcome::Here(
            (
                ObjectSettingsView {
                    links: LinkSettings { internal: false, ..object.links },
                    ..object
                },
                global,
            ),
        ),
        is_option(occurrence, "resolve-relative-links"@, 0) ==> object_outcome(occurrence, object, global) == Outcome::Here(
            (
                ObjectSettingsView {
                    links: LinkSettings { resolve_relative: true, ..object.links },
                    ..object
                },
                global,
            ),
        ),
        is_option(occurrence, "keep-relative-links"@, 0) ==> object_outcome(occurrence, object, global) == Outcome::Here(
            (
                ObjectSettingsView {
                    links: LinkSettings { resolve_relative: false, ..object.links },
                    ..object
                },
                global,
            ),
        ),
{
    lemma_marks();
}

/// Each option of the header sets the cell, or the look, that it names, and no other.
#[verifier::spinoff_prover]
#[verifier::rlimit(60)]
pub proof fn law_options_of_the_header(
    occurrence: OccurrenceView,
    object: ObjectSettingsView,
    global: GlobalSettingsView,
)
    ensures
        is_option(occurrence, "header-left"@, 1) ==> object_outcome(occurrence, object, global) == Outcome::Here(
            (
                ObjectSettingsView {
                    header: BandView { left: Some(occurrence.values[0]), ..object.header },
                    ..object
                },
                global,
            ),
        ),
        is_option(occurrence, "header-center"@, 1) ==> object_outcome(occurrence, object, global) == Outcome::Here(
            (
                ObjectSettingsView {
                    header: BandView { center: Some(occurrence.values[0]), ..object.header },
                    ..object
                },
                global,
            ),
        ),
        is_option(occurrence, "header-right"@, 1) ==> object_outcome(occurrence, object, global) == Outcome::Here(
            (
                ObjectSettingsView {
                    header: BandView { right: Some(occurrence.values[0]), ..object.header },
                    ..object
                },
                global,
            ),
        ),
        is_option(occurrence, "header-font-name"@, 1) ==> object_outcome(occurrence, object, global) == Outcome::Here(
            (
                ObjectSettingsView {
                    header: BandView { font_name: Some(occurrence.values[0]), ..object.header },
                    ..object
                },
                global,
            ),
        ),
        is_option(occurrence, "header-font-size"@, 1) && real_of(occurrence.values[0]) is Some ==> object_outcome(occurrence, object, global) == Outcome::Here(
            (
                ObjectSettingsView {
                    header: BandView { font_size: Some(real_of(occurrence.values[0])->0), ..object.header },
                    ..object
                },
                global,
            ),
        ),
        is_option(occurrence, "header-font-size"@, 1) && real_of(occurrence.values[0]) is None ==> object_outcome(occurrence, object, global) == Outcome::<(ObjectSettingsView, GlobalSettingsView)>::Refused(
            "`"@ + occurrence.values[0] + "` is not a number"@,
        ),
        is_option(occurrence, "header-spacing"@, 1) && real_of(occurrence.values[0]) is Some ==> object_outcome(occurrence, object, global) == Outcome::Here(
            (
                ObjectSettingsView {
                    header: BandView { spacing: Some(real_of(occurrence.values[0])->0), ..object.header },
                    ..object
                },
                global,
            ),
        ),
        is_option(occurrence, "header-spacing"@, 1) && real_of(occurrence.values[0]) is None ==> object_outcome(occurrence, object, global) == Outcome::<(ObjectSettingsView, GlobalSettingsView)>::Refused(
            "`"@ + occurrence.values[0] + "` is not a number"@,
        ),
        is_option(occurrence, "header-line"@, 0) ==> object_outcome(occurrence, object, global) == Outcome::Here(
            (
                ObjectSettingsView {
                    header: BandView { line: true, ..object.header },
                    ..object
                },
                global,
            ),
        ),
        is_option(occurrence, "no-header-line"@, 0) ==> object_outcome(occurrence, object, global) == Outcome::Here(
            (
                ObjectSettingsView {
                    header: BandView { line: false, ..object.header },
                    ..object
                },
                global,
            ),
        ),
        is_option(occurrence, "header-html"@, 1) && occurrence.values[0].len() > 0 ==> object_outcome(occurrence, object, global) == Outcome::Here(
            (
                ObjectSettingsView {
                    header: BandView { html: Some(occurrence.values[0]), ..object.header },
                    ..object
                },
                global,
            ),
        ),
        is_option(occurrence, "header-html"@, 1) && occurrence.values[0].len() == 0 ==> object_outcome(occurrence, object, global) == Outcome::Here(
            (
                ObjectSettingsView {
                    header: BandView { html: None, ..object.header },
                    ..object
                },
                global,
            ),
        ),
{
    lemma_marks();
}

/// Each option of the footer sets the cell, or the look, that it names, and no other.
#[verifier::spinoff_prover]
#[verifier::rlimit(60)]
pub proof fn law_options_of_the_footer(
    occurrence: OccurrenceView,
    object: ObjectSettingsView,
    global: GlobalSettingsView,
)
    ensures
        is_option(occurrence, "footer-left"@, 1) ==> object_outcome(occurrence, object, global) == Outcome::Here(
            (
                ObjectSettingsView {
                    footer: BandView { left: Some(occurrence.values[0]), ..object.footer },
                    ..object
                },
                global,
            ),
        ),
        is_option(occurrence, "footer-center"@, 1) ==> object_outcome(occurrence, object, global) == Outcome::Here(
            (
                ObjectSettingsView {
                    footer: BandView { center: Some(occurrence.values[0]), ..object.footer },
                    ..object
                },
                global,
            ),
        ),
        is_option(occurrence, "footer-right"@, 1) ==> object_outcome(occurrence, object, global) == Outcome::Here(
            (
                ObjectSettingsView {
                    footer: BandView { right: Some(occurrence.values[0]), ..object.footer },
                    ..object
                },
                global,
            ),
        ),
        is_option(occurrence, "footer-font-name"@, 1) ==> object_outcome(occurrence, object, global) == Outcome::Here(
            (
                ObjectSettingsView {
                    footer: BandView { font_name: Some(occurrence.values[0]), ..object.footer },
                    ..object
                },
                global,
            ),
        ),
        is_option(occurrence, "footer-font-size"@, 1) && real_of(occurrence.values[0]) is Some ==> object_outcome(occurrence, object, global) == Outcome::Here(
            (
                ObjectSettingsView {
                    footer: BandView { font_size: Some(real_of(occurrence.values[0])->0), ..object.footer },
                    ..object
                },
                global,
            ),
        ),
        is_option(occurrence, "footer-font-size"@, 1) && real_of(occurrence.values[0]) is None ==> object_outcome(occurrence, object, global) == Outcome::<(ObjectSettingsView, GlobalSettingsView)>::Refused(
            "`"@ + occurrence.values[0] + "` is not a number"@,
        ),
        is_option(occurrence, "footer-spacing"@, 1) && real_of(occurrence.values[0]) is Some ==> object_outcome(occurrence, object, global) == Outcome::Here(
            (
                ObjectSettingsView {
                    footer: BandView { spacing: Some(real_of(occurrence.values[0])->0), ..object.footer },
                    ..object
                },
                global,
            ),
        ),
        is_option(occurrence, "footer-spacing"@, 1) && real_of(occurrence.values[0]) is None ==> object_outcome(occurrence, object, global) == Outcome::<(ObjectSettingsView, GlobalSettingsView)>::Refused(
            "`"@ + occurrence.values[0] + "` is not a number"@,
        ),
        is_option(occurrence, "footer-line"@, 0) ==> object_outcome(occurrence, object, global) == Outcome::Here(
            (
                ObjectSettingsView {
                    footer: BandView { line: true, ..object.footer },
                    ..object
                },
                global,
            ),
        ),
        is_option(occurrence, "no-footer-line"@, 0) ==> object_outcome(occurrence, object, global) == Outcome::Here(
            (
                ObjectSettingsView {
                    footer: BandView { line: false, ..object.footer },
                    ..object
                },
                global,
            ),
        ),
        is_option(occurrence, "footer-html"@, 1) && occurrence.values[0].len() > 0 ==> object_outcome(occurrence, object, global) == Outcome::Here(
            (
                ObjectSettingsView {
                    footer: BandView { html: Some(occurrence.values[0]), ..object.footer },
                    ..object
                },
                global,
            ),
        ),
        is_option(occurrence, "footer-html"@, 1) && occurrence.values[0].len() == 0 ==> object_outcome(occurrence, object, global) == Outcome::Here(
            (
                ObjectSettingsView {
                    footer: BandView { html: None, ..object.footer },
                    ..object
                },
                global,
            ),
        ),
{
    lemma_marks();
}

/// An object is filed in the outline or kept out, a placeholder is added behind the
/// others, and one option asks for a whole header.
#[verifier::spinoff_prover]
#[verifier::rlimit(60)]
pub proof fn law_options_of_the_object(
    occurrence: OccurrenceView,
    object: ObjectSettingsView,
    global: GlobalSettingsView,
)
    ensures
        is_option(occurrence, "include-in-outline"@, 0) ==> object_outcome(
            occurrence,
            object,
            global,
        ) == Outcome::Here((ObjectSettingsView { in_outline: true, ..object }, global)),
        is_option(occurrence, "exclude-from-outline"@, 0) ==> object_outcome(
            occurrence,
            object,
            global,
        ) == Outcome::Here((ObjectSettingsView { in_outline: false, ..object }, global)),
        is_option(occurrence, "replace"@, 2) ==> object_outcome(occurrence, object, global)
            == Outcome::Here(
            (
                ObjectSettingsView {
                    replacements: object.replacements.push(
                        PairView { name: occurrence.values[0], value: occurrence.values[1] },
                    ),
                    ..object
                },
                global,
            ),
        ),
        is_option(occurrence, "default-header"@, 0) ==> object_outcome(occurrence, object, global)
            == Outcome::Here(
            (
                ObjectSettingsView {
                    header: BandView {
                        left: Some("[webpage]"@),
                        center: None,
                        right: Some("[page]/[topage]"@),
                        font_name: None,
                        font_size: None,
                        spacing: None,
                        line: true,
                        html: None,
                    },
                    ..object
                },
                global,
            ),
        ),
        is_option(occurrence, "page-offset"@, 1) && signed_value(trimmed(occurrence.values[0]))
            is Some ==> object_outcome(occurrence, object, global) == Outcome::Here(
            (
                object,
                GlobalSettingsView {
                    page_offset: signed_value(trimmed(occurrence.values[0]))->0 as i64,
                    ..global
                },
            ),
        ),
        is_option(occurrence, "page-offset"@, 1) && signed_value(trimmed(occurrence.values[0]))
            is None ==> object_outcome(occurrence, object, global) == Outcome::<
            (ObjectSettingsView, GlobalSettingsView),
        >::Refused("`"@ + occurrence.values[0] + "` is not a number"@),
{
    lemma_marks();
}

/// An option that is answered before a conversion sets nothing, and neither does one
/// that nothing acts on.
#[verifier::spinoff_prover]
#[verifier::rlimit(60)]
pub proof fn law_other_options_set_nothing(
    occurrence: OccurrenceView,
    object: ObjectSettingsView,
    global: GlobalSettingsView,
    page: PageOverridesView,
)
    ensures
        occurrence.spec.support is Meta ==> object_outcome(occurrence, object, global) is Elsewhere,
        occurrence.spec.support is Meta ==> global_outcome(occurrence, global, page) is Elsewhere,
        is_option(occurrence, "dump-parse"@, 0) ==> global_outcome(occurrence, global, page)
            is Elsewhere,
        is_option(occurrence, occurrence.spec.long@, 0)
            && occurrence.spec.long@ != "enable-javascript"@
            && occurrence.spec.long@ != "disable-javascript"@
            && occurrence.spec.long@ != "images"@
            && occurrence.spec.long@ != "no-images"@
            && occurrence.spec.long@ != "background"@
            && occurrence.spec.long@ != "no-background"@
            && occurrence.spec.long@ != "print-media-type"@
            && occurrence.spec.long@ != "no-print-media-type"@
            && occurrence.spec.long@ != "zoom"@
            && occurrence.spec.long@ != "encoding"@
            && occurrence.spec.long@ != "minimum-font-size"@
            && occurrence.spec.long@ != "viewport-size"@
            && occurrence.spec.long@ != "username"@
            && occurrence.spec.long@ != "password"@
            && occurrence.spec.long@ != "proxy"@
            && occurrence.spec.long@ != "cookie"@
            && occurrence.spec.long@ != "custom-header"@
            && occurrence.spec.long@ != "custom-header-propagation"@
            && occurrence.spec.long@ != "no-custom-header-propagation"@
            && occurrence.spec.long@ != "bypass-proxy-for"@
            && occurrence.spec.long@ != "cache-dir"@
            && occurrence.spec.long@ != "enable-local-file-access"@
            && occurrence.spec.long@ != "disable-local-file-access"@
            && occurrence.spec.long@ != "allow"@
            && occurrence.spec.long@ != "javascript-delay"@
            && occurrence.spec.long@ != "window-status"@
            && occurrence.spec.long@ != "run-script"@
            && occurrence.spec.long@ != "user-style-sheet"@
            && occurrence.spec.long@ != "no-stop-slow-scripts"@
            && occurrence.spec.long@ != "load-error-handling"@
            && occurrence.spec.long@ != "load-media-error-handling"@
            && occurrence.spec.long@ != "toc-header-text"@
            && occurrence.spec.long@ != "toc-level-indentation"@
            && occurrence.spec.long@ != "toc-text-size-shrink"@
            && occurrence.spec.long@ != "disable-dotted-lines"@
            && occurrence.spec.long@ != "disable-toc-links"@
            && occurrence.spec.long@ != "enable-toc-back-links"@
            && occurrence.spec.long@ != "disable-toc-back-links"@
            && occurrence.spec.long@ != "enable-external-links"@
            && occurrence.spec.long@ != "disable-external-links"@
            && occurrence.spec.long@ != "enable-internal-links"@
            && occurrence.spec.long@ != "disable-internal-links"@
            && occurrence.spec.long@ != "resolve-relative-links"@
            && occurrence.spec.long@ != "keep-relative-links"@
            && occurrence.spec.long@ != "header-left"@
            && occurrence.spec.long@ != "header-center"@
            && occurrence.spec.long@ != "header-right"@
            && occurrence.spec.long@ != "header-font-name"@
            && occurrence.spec.long@ != "header-font-size"@
            && occurrence.spec.long@ != "header-spacing"@
            && occurrence.spec.long@ != "header-line"@
            && occurrence.spec.long@ != "no-header-line"@
            && occurrence.spec.long@ != "header-html"@
            && occurrence.spec.long@ != "footer-left"@
            && occurrence.spec.long@ != "footer-center"@
            && occurrence.spec.long@ != "footer-right"@
            && occurrence.spec.long@ != "footer-font-name"@
            && occurrence.spec.long@ != "footer-font-size"@
            && occurrence.spec.long@ != "footer-spacing"@
            && occurrence.spec.long@ != "footer-line"@
            && occurrence.spec.long@ != "no-footer-line"@
            && occurrence.spec.long@ != "footer-html"@
            && occurrence.spec.long@ != "include-in-outline"@
            && occurrence.spec.long@ != "exclude-from-outline"@
            && occurrence.spec.long@ != "replace"@
            && occurrence.spec.long@ != "default-header"@
            && occurrence.spec.long@ != "page-offset"@
            ==> object_outcome(occurrence, object, global) is NotYet,
        is_option(occurrence, occurrence.spec.long@, 0)
            && occurrence.spec.long@ != "page-size"@
            && occurrence.spec.long@ != "margin-top"@
            && occurrence.spec.long@ != "margin-right"@
            && occurrence.spec.long@ != "margin-bottom"@
            && occurrence.spec.long@ != "margin-left"@
            && occurrence.spec.long@ != "orientation"@
            && occurrence.spec.long@ != "title"@
            && occurrence.spec.long@ != "quiet"@
            && occurrence.spec.long@ != "log-level"@
            && occurrence.spec.long@ != "timeout"@
            && occurrence.spec.long@ != "chromium-path"@
            && occurrence.spec.long@ != "chromium-arg"@
            && occurrence.spec.long@ != "no-sandbox"@
            && occurrence.spec.long@ != "tagged-pdf"@
            && occurrence.spec.long@ != "outline"@
            && occurrence.spec.long@ != "no-outline"@
            && occurrence.spec.long@ != "outline-depth"@
            && occurrence.spec.long@ != "dump-outline"@
            && occurrence.spec.long@ != "page-width"@
            && occurrence.spec.long@ != "page-height"@
            && occurrence.spec.long@ != "dump-parse"@
            ==> global_outcome(occurrence, global, page) is NotYet,
{
    lemma_marks();
}

/// The paper, its sides, its margins and its orientation are set by the options that name
/// them.
#[verifier::spinoff_prover]
#[verifier::rlimit(60)]
pub proof fn law_options_of_the_paper(
    occurrence: OccurrenceView,
    global: GlobalSettingsView,
    page: PageOverridesView,
)
    ensures
        is_option(occurrence, "page-size"@, 1) && paper_of(occurrence.values[0]) is Some ==> global_outcome(occurrence, global, page) == Outcome::Here((GlobalSettingsView { page: PageSetupView { size: paper_of(occurrence.values[0])->0, ..global.page }, ..global }, page)),
        is_option(occurrence, "page-size"@, 1) && paper_of(occurrence.values[0]) is None ==> global_outcome(occurrence, global, page) is Refused,
        is_option(occurrence, "margin-top"@, 1) && length_of(occurrence.values[0]) is Some ==> global_outcome(occurrence, global, page) == Outcome::Here((GlobalSettingsView { page: PageSetupView { margins: MarginsView { top: length_of(occurrence.values[0])->0, ..global.page.margins }, named: NamedMargins { top: true, ..global.page.named }, ..global.page }, ..global }, page)),
        is_option(occurrence, "margin-top"@, 1) && length_of(occurrence.values[0]) is None ==> global_outcome(occurrence, global, page) == Outcome::<(GlobalSettingsView, PageOverridesView)>::Refused("`"@ + occurrence.values[0] + "` is not a length; expected a number, with mm, cm, in, pt or px behind it"@),
        is_option(occurrence, "margin-right"@, 1) && length_of(occurrence.values[0]) is Some ==> global_outcome(occurrence, global, page) == Outcome::Here((GlobalSettingsView { page: PageSetupView { margins: MarginsView { right: length_of(occurrence.values[0])->0, ..global.page.margins }, ..global.page }, ..global }, page)),
        is_option(occurrence, "margin-right"@, 1) && length_of(occurrence.values[0]) is None ==> global_outcome(occurrence, global, page) == Outcome::<(GlobalSettingsView, PageOverridesView)>::Refused("`"@ + occurrence.values[0] + "` is not a length; expected a number, with mm, cm, in, pt or px behind it"@),
        is_option(occurrence, "margin-bottom"@, 1) && length_of(occurrence.values[0]) is Some ==> global_outcome(occurrence, global, page) == Outcome::Here((GlobalSettingsView { page: PageSetupView { margins: MarginsView { bottom: length_of(occurrence.values[0])->0, ..global.page.margins }, named: NamedMargins { bottom: true, ..global.page.named }, ..global.page }, ..global }, page)),
        is_option(occurrence, "margin-bottom"@, 1) && length_of(occurrence.values[0]) is None ==> global_outcome(occurrence, global, page) == Outcome::<(GlobalSettingsView, PageOverridesView)>::Refused("`"@ + occurrence.values[0] + "` is not a length; expected a number, with mm, cm, in, pt or px behind it"@),
        is_option(occurrence, "margin-left"@, 1) && length_of(occurrence.values[0]) is Some ==> global_outcome(occurrence, global, page) == Outcome::Here((GlobalSettingsView { page: PageSetupView { margins: MarginsView { left: length_of(occurrence.values[0])->0, ..global.page.margins }, ..global.page }, ..global }, page)),
        is_option(occurrence, "margin-left"@, 1) && length_of(occurrence.values[0]) is None ==> global_outcome(occurrence, global, page) == Outcome::<(GlobalSettingsView, PageOverridesView)>::Refused("`"@ + occurrence.values[0] + "` is not a length; expected a number, with mm, cm, in, pt or px behind it"@),
        is_option(occurrence, "orientation"@, 1) && orientation_of(occurrence.values[0]) is Some ==> global_outcome(occurrence, global, page) == Outcome::Here((GlobalSettingsView { page: PageSetupView { orientation: orientation_of(occurrence.values[0])->0, ..global.page }, ..global }, page)),
        is_option(occurrence, "orientation"@, 1) && orientation_of(occurrence.values[0]) is None ==> global_outcome(occurrence, global, page) == Outcome::<(GlobalSettingsView, PageOverridesView)>::Refused("unknown orientation `"@ + occurrence.values[0] + "`; expected Portrait or Landscape"@),
        is_option(occurrence, "page-width"@, 1) && length_of(occurrence.values[0]) is Some ==> global_outcome(occurrence, global, page) == Outcome::Here((global, PageOverridesView { width: Some(length_of(occurrence.values[0])->0), ..page })),
        is_option(occurrence, "page-width"@, 1) && length_of(occurrence.values[0]) is None ==> global_outcome(occurrence, global, page) == Outcome::<(GlobalSettingsView, PageOverridesView)>::Refused("`"@ + occurrence.values[0] + "` is not a length; expected a number, with mm, cm, in, pt or px behind it"@),
        is_option(occurrence, "page-height"@, 1) && length_of(occurrence.values[0]) is Some ==> global_outcome(occurrence, global, page) == Outcome::Here((global, PageOverridesView { height: Some(length_of(occurrence.values[0])->0), ..page })),
        is_option(occurrence, "page-height"@, 1) && length_of(occurrence.values[0]) is None ==> global_outcome(occurrence, global, page) == Outcome::<(GlobalSettingsView, PageOverridesView)>::Refused("`"@ + occurrence.values[0] + "` is not a length; expected a number, with mm, cm, in, pt or px behind it"@),
{
    lemma_marks();
}

/// What concerns the whole run is set by the options that name it.
#[verifier::spinoff_prover]
#[verifier::rlimit(60)]
pub proof fn law_options_of_the_run(
    occurrence: OccurrenceView,
    global: GlobalSettingsView,
    page: PageOverridesView,
)
    ensures
        is_option(occurrence, "title"@, 1) ==> global_outcome(occurrence, global, page) == Outcome::Here((GlobalSettingsView { title: Some(occurrence.values[0]), ..global }, page)),
        is_option(occurrence, "quiet"@, 0) ==> global_outcome(occurrence, global, page) == Outcome::Here((GlobalSettingsView { log_level: LogLevel::Quiet, ..global }, page)),
        is_option(occurrence, "log-level"@, 1) && log_level_of(occurrence.values[0]) is Some ==> global_outcome(occurrence, global, page) == Outcome::Here((GlobalSettingsView { log_level: log_level_of(occurrence.values[0])->0, ..global }, page)),
        is_option(occurrence, "log-level"@, 1) && log_level_of(occurrence.values[0]) is None ==> global_outcome(occurrence, global, page) == Outcome::<(GlobalSettingsView, PageOverridesView)>::Refused("unknown log level `"@ + occurrence.values[0] + "`; expected none, error, warn or info"@),
        is_option(occurrence, "timeout"@, 1) && unsigned(trimmed(occurrence.values[0]), u64::MAX as int) is Some && unsigned(trimmed(occurrence.values[0]), u64::MAX as int)->0 > 0 ==> global_outcome(occurrence, global, page) == Outcome::Here((GlobalSettingsView { timeout: Some((unsigned(trimmed(occurrence.values[0]), u64::MAX as int)->0 as u64)), ..global }, page)),
        is_option(occurrence, "timeout"@, 1) && unsigned(trimmed(occurrence.values[0]), u64::MAX as int) == Some(0int) ==> global_outcome(occurrence, global, page) == Outcome::Here((GlobalSettingsView { timeout: None, ..global }, page)),
        is_option(occurrence, "timeout"@, 1) && unsigned(trimmed(occurrence.values[0]), u64::MAX as int) is None ==> global_outcome(occurrence, global, page) == Outcome::<(GlobalSettingsView, PageOverridesView)>::Refused("`"@ + occurrence.values[0] + "` is not a number"@),
        is_option(occurrence, "chromium-path"@, 1) ==> global_outcome(occurrence, global, page) == Outcome::Here((GlobalSettingsView { browser: BrowserSettingsView { path: Some(occurrence.values[0]), ..global.browser }, ..global }, page)),
        is_option(occurrence, "chromium-arg"@, 1) ==> global_outcome(occurrence, global, page) == Outcome::Here((GlobalSettingsView { browser: BrowserSettingsView { extra_args: global.browser.extra_args.push(occurrence.values[0]), ..global.browser }, ..global }, page)),
        is_option(occurrence, "no-sandbox"@, 0) ==> global_outcome(occurrence, global, page) == Outcome::Here((GlobalSettingsView { browser: BrowserSettingsView { no_sandbox: true, ..global.browser }, ..global }, page)),
        is_option(occurrence, "tagged-pdf"@, 0) ==> global_outcome(occurrence, global, page) == Outcome::Here((GlobalSettingsView { tagged_pdf: true, ..global }, page)),
        is_option(occurrence, "outline"@, 0) ==> global_outcome(occurrence, global, page) == Outcome::Here((GlobalSettingsView { outline: OutlineSettingsView { enabled: true, ..global.outline }, ..global }, page)),
        is_option(occurrence, "no-outline"@, 0) ==> global_outcome(occurrence, global, page) == Outcome::Here((GlobalSettingsView { outline: OutlineSettingsView { enabled: false, ..global.outline }, ..global }, page)),
        is_option(occurrence, "outline-depth"@, 1) && unsigned(trimmed(occurrence.values[0]), u64::MAX as int) is Some ==> global_outcome(occurrence, global, page) == Outcome::Here((GlobalSettingsView { outline: OutlineSettingsView { depth: (unsigned(trimmed(occurrence.values[0]), u64::MAX as int)->0 as u64), ..global.outline }, ..global }, page)),
        is_option(occurrence, "outline-depth"@, 1) && unsigned(trimmed(occurrence.values[0]), u64::MAX as int) is None ==> global_outcome(occurrence, global, page) == Outcome::<(GlobalSettingsView, PageOverridesView)>::Refused("`"@ + occurrence.values[0] + "` is not a number"@),
        is_option(occurrence, "dump-outline"@, 1) ==> global_outcome(occurrence, global, page) == Outcome::Here((GlobalSettingsView { outline: OutlineSettingsView { dump: Some(occurrence.values[0]), ..global.outline }, ..global }, page)),
{
    lemma_marks();
}

/// A window is as wide and as high as the two numbers of its size say.
pub proof fn law_the_window_is_as_large_as_asked(
    occurrence: OccurrenceView,
    object: ObjectSettingsView,
    global: GlobalSettingsView,
    width: u32,
    height: u32,
    cross: char,
)
    requires
        is_option(occurrence, "viewport-size"@, 1),
        cross == 'x' || cross == 'X',
        occurrence.values[0] == decimal(width as int) + seq![cross] + decimal(height as int),
    ensures
        object_outcome(occurrence, object, global) == Outcome::Here(
            (
                ObjectSettingsView {
                    web: WebSettingsView { viewport: (width, height), ..object.web },
                    ..object
                },
                global,
            ),
        ),
{
    lemma_marks();
    let one = decimal(width as int);
    let two = decimal(height as int);
    let text = occurrence.values[0];
    law_decimal_spells_its_number(width as int);
    law_decimal_spells_its_number(height as int);
    let at = one.len() as int;
    assert forall|i: int| 0 <= i < at implies text[i] != 'x' && text[i] != 'X' by {
        assert(text[i] == digits_of(width as int)[i]);
    }
    assert(first_of(text, 'x', 'X', at));
    lemma_find(text, 'x', 'X', at);
    assert(text.take(at) =~= one);
    assert(text.skip(at + 1) =~= two);
    lemma_trimmed_number(width as int);
    lemma_trimmed_number(height as int);
    law_a_written_number_is_read_back(width as int, u32::MAX as int);
    law_a_written_number_is_read_back(height as int, u32::MAX as int);
}

/// What is no two numbers with a cross between them is refused as a size.
pub proof fn law_a_size_without_a_cross_is_refused(
    occurrence: OccurrenceView,
    object: ObjectSettingsView,
    global: GlobalSettingsView,
)
    requires
        is_option(occurrence, "viewport-size"@, 1),
        !occurrence.values[0].contains('x'),
        !occurrence.values[0].contains('X'),
    ensures
        object_outcome(occurrence, object, global) == Outcome::<
            (ObjectSettingsView, GlobalSettingsView),
        >::Refused("`"@ + occurrence.values[0] + "` is not a size; expected 1024x768"@),
{
    lemma_marks();
    let text = occurrence.values[0];
    assert forall|i: int| 0 <= i < text.len() implies text[i] != 'x' && text[i] != 'X' by {
        assert(text.contains(text[i]));
    }
    lemma_find_none(text, 'x', 'X');
}

proof fn lemma_trimmed_number(value: int)
    requires
        value >= 0,
    ensures
        trimmed(decimal(value)) == decimal(value),
{
    law_decimal_spells_its_number(value);
    let text = decimal(value);
    let none = Seq::<char>::empty();
    assert(text == digits_of(value));
    assert('0' <= text[0] && text[0] <= '9');
    assert('0' <= text[text.len() - 1] && text[text.len() - 1] <= '9');
    law_white_space_is_dropped(none, text, none);
    assert(none + text + none =~= text);
}

/// Options are applied one after the other: what the first ones made of the settings is
/// what the next ones find, and after a refusal nothing more is done.
pub proof fn law_options_are_applied_in_turn(
    first: Seq<OccurrenceView>,
    second: Seq<OccurrenceView>,
    object: ObjectSettingsView,
    global: GlobalSettingsView,
    page: PageOverridesView,
)
    ensures
        object_after(first + second, object, global) == match object_after(first, object, global) {
            Ok((object, global)) => object_after(second, object, global),
            Err(error) => Err(error),
        },
        global_after(first + second, global, page) == match global_after(first, global, page) {
            Ok((global, page)) => global_after(second, global, page),
            Err(error) => Err(error),
        },
    decreases second.len(),
{
    if second.len() == 0 {
        assert(first + second =~= first);
    } else {
        assert((first + second).drop_last() =~= first + second.drop_last());
        assert((first + second).last() == second.last());
        law_options_are_applied_in_turn(first, second.drop_last(), object, global, page);
    }
}

/// One option sets what it sets; where it is answered elsewhere, or where nothing acts
/// on it, the settings stay as they are; where its value is refused, so is the option,
/// as it was written.
pub proof fn law_one_option_is_applied(
    occurrence: OccurrenceView,
    object: ObjectSettingsView,
    global: GlobalSettingsView,
    page: PageOverridesView,
)
    ensures
        object_after(seq![occurrence], object, global) == match object_outcome(
            occurrence,
            object,
            global,
        ) {
            Outcome::Here(next) => Ok(next),
            Outcome::Elsewhere => Ok((object, global)),
            Outcome::NotYet => Ok((object, global)),
            Outcome::Refused(reason) => Err(
                ApplyErrorView { option: occurrence.as_written, reason },
            ),
        },
        global_after(seq![occurrence], global, page) == match global_outcome(
            occurrence,
            global,
            page,
        ) {
            Outcome::Here(next) => Ok(next),
            Outcome::Elsewhere => Ok((global, page)),
            Outcome::NotYet => Ok((global, page)),
            Outcome::Refused(reason) => Err(
                ApplyErrorView { option: occurrence.as_written, reason },
            ),
        },
        object_after(Seq::empty(), object, global) == Ok::<
            (ObjectSettingsView, GlobalSettingsView),
            ApplyErrorView,
        >((object, global)),
        global_after(Seq::empty(), global, page) == Ok::<
            (GlobalSettingsView, PageOverridesView),
            ApplyErrorView,
        >((global, page)),
{
    reveal_with_fuel(object_after, 2);
    reveal_with_fuel(global_after, 2);
    assert(seq![occurrence].drop_last() =~= Seq::empty());
}

/// Where nothing is asked for, the paper is A4 upright with ten millimetres round the
/// content, and the run has half a minute.
pub open spec fn usual_run(output: OutputView) -> GlobalSettingsView {
    let ten = LengthView { amount: "10"@, unit: Unit::Mm };
    GlobalSettingsView {
        output,
        page: PageSetupView {
            size: PageDimensionsView {
                width: LengthView { amount: "210"@, unit: Unit::Mm },
                height: LengthView { amount: "297"@, unit: Unit::Mm },
            },
            orientation: Orientation::Portrait,
            margins: MarginsView { top: ten, right: ten, bottom: ten, left: ten },
            named: NamedMargins { top: false, bottom: false },
        },
        title: None,
        log_level: LogLevel::Info,
        timeout: Some(30),
        browser: BrowserSettingsView { path: None, extra_args: Seq::empty(), no_sandbox: false },
        tagged_pdf: false,
        outline: OutlineSettingsView { enabled: true, depth: 4, dump: None },
        page_offset: 0,
    }
}

/// Where nothing is asked for, a document runs its scripts, shows its images and its
/// backgrounds as on a screen, reads no local file, stands in the outline, and fails the
/// run where it does not load.
pub open spec fn usual_object(kind: ObjectKind, input: Option<InputView>) -> ObjectSettingsView {
    let band = BandView {
        left: None,
        center: None,
        right: None,
        font_name: None,
        font_size: None,
        spacing: None,
        line: false,
        html: None,
    };
    ObjectSettingsView {
        kind,
        input,
        load: LoadSettingsView {
            javascript_delay: 200,
            window_status: None,
            run_scripts: Seq::empty(),
            user_style_sheet: None,
            stop_slow_scripts: true,
            on_document_error: LoadErrorHandling::Abort,
            on_media_error: LoadErrorHandling::Ignore,
        },
        web: WebSettingsView {
            javascript: true,
            images: true,
            background: true,
            media_type: MediaType::Screen,
            zoom: "1"@,
            encoding: None,
            minimum_font_size: None,
            viewport: (1024, 768),
            username: None,
            password: None,
            proxy: None,
            bypass_proxy_for: Seq::empty(),
            cache_dir: None,
            cookies: Seq::empty(),
            custom_headers: Seq::empty(),
            propagate_custom_headers: false,
            local_file_access: false,
            allowed_paths: Seq::empty(),
        },
        header: band,
        footer: band,
        replacements: Seq::empty(),
        toc: TocSettingsView {
            header_text: "Table of Contents"@,
            level_indentation: "1em"@,
            text_size_shrink: "0.8"@,
            dotted_lines: true,
            links: true,
            back_links: false,
        },
        links: LinkSettings { external: true, internal: true, resolve_relative: true },
        in_outline: true,
    }
}

proof fn lemma_all_usual(
    objects: Seq<ObjectView>,
    inherited: ObjectSettingsView,
    global: GlobalSettingsView,
)
    requires
        forall|i: int| 0 <= i < objects.len() ==> (#[trigger] objects[i]).options.len() == 0,
    ensures
        all_built(objects, inherited, global) is Ok,
        all_built(objects, inherited, global)->Ok_0 == (
            Seq::new(objects.len(), |i: int| inherited_by(objects[i].kind, inherited)),
            global,
        ),
    decreases objects.len(),
{
    if objects.len() > 0 {
        assert(objects[objects.len() - 1].options.len() == 0);
        assert forall|i: int| 0 <= i < objects.drop_last().len() implies (
        #[trigger] objects.drop_last()[i]).options.len() == 0 by {
            assert(objects.drop_last()[i] == objects[i]);
        }
        lemma_all_usual(objects.drop_last(), inherited, global);
        let all = Seq::new(objects.len(), |i: int| inherited_by(objects[i].kind, inherited));
        let before = Seq::new(
            objects.drop_last().len(),
            |i: int| inherited_by(objects.drop_last()[i].kind, inherited),
        );
        assert(before.push(inherited_by(objects.last().kind, inherited)) =~= all);
    } else {
        assert(Seq::<ObjectSettingsView>::empty() =~= Seq::new(
            objects.len(),
            |i: int| inherited_by(objects[i].kind, inherited),
        ));
    }
}

/// A command line without options asks for what is usual, whatever its objects are.
pub proof fn law_without_options_all_is_usual(parsed: TokenizedView, at: int)
    requires
        parsed.globals.len() == 0,
        parsed.defaults.len() == 0,
        forall|i: int|
            0 <= i < parsed.objects.len() ==> (#[trigger] parsed.objects[i]).options.len() == 0,
    ensures
        applied(parsed) is Ok,
        applied(parsed)->Ok_0.global == usual_run(parsed.output),
        applied(parsed)->Ok_0.objects.len() == parsed.objects.len(),
        0 <= at < parsed.objects.len() ==> applied(parsed)->Ok_0.objects[at]
            == match parsed.objects[at].kind {
            ObjectKindView::Page(input) => usual_object(ObjectKind::Page, Some(input)),
            ObjectKindView::Toc => usual_object(ObjectKind::Toc, None),
            ObjectKindView::Cover(input) => ObjectSettingsView {
                in_outline: false,
                ..usual_object(ObjectKind::Cover, Some(input))
            },
        },
{
    lemma_all_usual(
        parsed.objects,
        crate::settings::page_settings(InputView::Stdin),
        GlobalSettingsView {
            output: parsed.output,
            ..crate::settings::default_global_settings()
        },
    );
}

/// What an object starts from: what every object inherits, but for what it is and what
/// it prints; and a cover has no bands and stands outside the outline.
pub proof fn law_what_an_object_starts_from(kind: ObjectKindView, inherited: ObjectSettingsView)
    ensures
        kind matches ObjectKindView::Page(input) ==> inherited_by(kind, inherited) == (
        ObjectSettingsView { kind: ObjectKind::Page, input: Some(input), ..inherited }),
        kind is Toc ==> inherited_by(kind, inherited) == (ObjectSettingsView {
            kind: ObjectKind::Toc,
            input: None,
            ..inherited
        }),
        kind matches ObjectKindView::Cover(input) ==> inherited_by(kind, inherited) == (
        ObjectSettingsView {
            kind: ObjectKind::Cover,
            input: Some(input),
            header: usual_object(ObjectKind::Page, None).header,
            footer: usual_object(ObjectKind::Page, None).footer,
            in_outline: false,
            ..inherited
        }),
{
}

/// The objects are built in their order, each from what every object inherits and from
/// the options behind it.
pub proof fn law_every_object_is_built(
    objects: Seq<ObjectView>,
    inherited: ObjectSettingsView,
    global: GlobalSettingsView,
    at: int,
)
    requires
        0 <= at < objects.len(),
        all_built(objects, inherited, global) is Ok,
    ensures
        all_built(objects, inherited, global)->Ok_0.0.len() == objects.len(),
        exists|run: GlobalSettingsView|
            (#[trigger] object_after(
                objects[at].options,
                inherited_by(objects[at].kind, inherited),
                run,
            )) matches Ok((object, _)) && object == all_built(
                objects,
                inherited,
                global,
            )->Ok_0.0[at],
    decreases objects.len(),
{
    let before = all_built(objects.drop_last(), inherited, global);
    let run = before->Ok_0.1;
    if objects.len() > 1 {
        law_every_object_is_built(
            objects.drop_last(),
            inherited,
            global,
            if at < objects.len() - 1 {
                at
            } else {
                0
            },
        );
    }
    assert(before->Ok_0.0.len() == objects.len() - 1);
    if at == objects.len() - 1 {
        assert(object_after(
            objects[at].options,
            inherited_by(objects[at].kind, inherited),
            run,
        ) is Ok);
    } else {
        assert(objects.drop_last()[at] == objects[at]);
    }
}

/// The options of the run are applied to what is usual; what was written before the
/// first object is applied next, to what every object inherits; each object comes after
/// that; and the written sides of the paper are put in place at the end.
pub proof fn law_the_order_of_application(parsed: TokenizedView)
    ensures
        applied(parsed) == match global_after(
            parsed.globals,
            usual_run(parsed.output),
            (PageOverridesView { width: None, height: None }),
        ) {
            Err(error) => Err(error),
            Ok((run, page)) => match object_after(
                parsed.defaults,
                usual_object(ObjectKind::Page, Some(InputView::Stdin)),
                run,
            ) {
                Err(error) => Err(error),
                Ok((inherited, run)) => match all_built(parsed.objects, inherited, run) {
                    Err(error) => Err(error),
                    Ok((objects, run)) => Ok(
                        SettingsView {
                            global: GlobalSettingsView {
                                page: PageSetupView {
                                    size: PageDimensionsView {
                                        width: if page.width is Some {
                                            page.width->0
                                        } else {
                                            run.page.size.width
                                        },
                                        height: if page.height is Some {
                                            page.height->0
                                        } else {
                                            run.page.size.height
                                        },
                                    },
                                    ..run.page
                                },
                                ..run
                            },
                            objects,
                        },
                    ),
                },
            },
        },
{
}

/// A paper that nobody knows is refused with the names of those that are known.
pub proof fn law_an_unknown_paper_is_refused(
    occurrence: OccurrenceView,
    global: GlobalSettingsView,
    page: PageOverridesView,
    names: Seq<&'static str>,
    name: &'static str,
)
    ensures
        is_option(occurrence, "page-size"@, 1) && paper_of(occurrence.values[0]) is None
            ==> global_outcome(occurrence, global, page) == Outcome::<
            (GlobalSettingsView, PageOverridesView),
        >::Refused(
            "unknown page size `"@ + occurrence.values[0] + "`; expected one of: "@ + listed(
                paper_names(),
            ),
        ),
        listed(seq![name]) == name@,
        names.len() > 0 ==> listed(names.push(name)) == listed(names) + ", "@ + name@,
{
    lemma_marks();
    assert(names.push(name).drop_last() =~= names);
    assert(names.push(name).last() == name);
}

} // verus!
