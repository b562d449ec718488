use rchtmltopdf::convert::{
    back_links_of, band_delay, band_object, collapse, contents_parts, document_of, dump_objects,
    exit_code, exit_line, failed_request_line, file_title, judgement_warning, lift_first,
    loading_line, media_warning, missing_is_fatal, missing_report, needs_browser,
    own_document_failed, pages, producer, tables, warning_line, warnings, BackLink, ContentsPart,
    ConvertError, ExitCode, Judgement, Outcomes, COOKIE_WARNING, ENCODING_WARNING,
};
use rchtmltopdf::document::Input;
use rchtmltopdf::error::Error;
use rchtmltopdf::input::InputError;
use rchtmltopdf::intercept::Refusal;
use rchtmltopdf::launch::LaunchOptions;
use rchtmltopdf::layout::Piece;
use rchtmltopdf::network::NetworkError;
use rchtmltopdf::numbering::OutlineItem;
use rchtmltopdf::outline::Role;
use rchtmltopdf::output::OutputError;
use rchtmltopdf::render::{Failed, LoadReport};
use rchtmltopdf::settings::{LoadErrorHandling, ObjectKind, ObjectSettings, Pair, Settings};

fn with(objects: Vec<ObjectSettings>) -> Settings {
    Settings {
        objects,
        ..Settings::default()
    }
}

fn page() -> ObjectSettings {
    ObjectSettings::page(Input::classify("a.html"))
}

#[test]
fn one_page_or_several_are_what_gets_converted() {
    assert_eq!(pages(&with(vec![page()])).unwrap().len(), 1);
    assert_eq!(pages(&with(vec![page(), page(), page()])).unwrap().len(), 3);
}

fn heading(title: &str, page: usize, top: &str, children: Vec<OutlineItem>) -> OutlineItem {
    OutlineItem {
        title: title.into(),
        page,
        left: "34".into(),
        top: top.into(),
        children,
    }
}

#[test]
fn back_links_pair_headings_with_their_measured_boxes() {
    let items = vec![
        heading("Before", 1, "800", vec![]),
        heading("One", 2, "803", vec![heading("One A", 2, "700", vec![])]),
        heading("Two", 3, "790", vec![]),
        heading("After", 4, "800", vec![]),
    ];
    let heights = [40.0, 30.0, 40.0];
    let boxes = vec!["One".to_string(), "One  A".to_string(), "Two".to_string()];
    let links = back_links_of(&items, 1, 3, &boxes);
    let summary: Vec<(usize, f64, f64)> = links
        .iter()
        .map(|l| (l.page, l.top.parse().unwrap(), heights[l.boxed] * 0.75))
        .collect();
    assert_eq!(
        summary,
        [(2, 803.0, 30.0), (2, 700.0, 22.5), (3, 790.0, 30.0)]
    );
    assert!(links.iter().all(|l| l.left == "34"));
}

#[test]
fn a_heading_without_a_box_gets_no_back_link() {
    let items = vec![
        heading("One", 1, "803", vec![]),
        heading("Hidden", 1, "750", vec![]),
        heading("Two", 1, "700", vec![]),
    ];
    let heights = [40.0, 20.0];
    let boxes = vec!["One".to_string(), "Two".to_string()];
    let links = back_links_of(&items, 0, 1, &boxes);
    let summary: Vec<(f64, f64)> = links
        .iter()
        .map(|l| (l.top.parse().unwrap(), heights[l.boxed]))
        .collect();
    assert_eq!(summary, [(803.0, 40.0), (700.0, 20.0)]);
}

#[test]
fn a_cover_is_converted_like_a_page() {
    let mut cover = page();
    cover.kind = ObjectKind::Cover;
    assert_eq!(pages(&with(vec![cover, page()])).unwrap().len(), 2);
}

#[test]
fn a_table_of_contents_is_an_object_like_the_others() {
    let mut toc = page();
    toc.kind = ObjectKind::Toc;
    toc.input = None;
    assert_eq!(pages(&with(vec![toc, page()])).unwrap().len(), 2);
}

#[test]
fn a_table_of_contents_alone_is_still_a_conversion() {
    let mut toc = page();
    toc.kind = ObjectKind::Toc;
    toc.input = None;
    assert_eq!(pages(&with(vec![toc])).unwrap().len(), 1);
}

#[test]
fn standard_input_twice_is_refused_rather_than_read_empty() {
    let stdin = || ObjectSettings::page(Input::Stdin);
    assert!(pages(&with(vec![stdin(), page()])).is_ok());
    let settings = with(vec![stdin(), page(), stdin()]);
    let message = pages(&settings).unwrap_err().message();
    assert!(message.contains("standard input"), "{message}");
    assert!(message.contains('2'), "{message}");
}

#[test]
fn nothing_to_convert_is_reported_rather_than_panicking() {
    assert!(pages(&with(vec![])).is_err());
}

#[test]
fn the_progress_line_says_which_document_only_when_there_are_several() {
    assert_eq!(loading_line(0, 1), "Loading page (1/2)");
    assert_eq!(loading_line(0, 3), "Loading page 1 of 3 (1/2)");
    assert_eq!(loading_line(2, 3), "Loading page 3 of 3 (1/2)");
}

#[test]
fn nothing_left_names_every_document_that_was_skipped() {
    let error = ConvertError::NothingLeft(vec![
        "could not load a: ContentNotFoundError".into(),
        "could not load b: HostNotFoundError".into(),
    ]);
    let message = error.message();
    assert!(message.contains("skip"), "{message}");
    assert!(message.contains("could not load a"), "{message}");
    assert!(message.contains("could not load b"), "{message}");
}

fn failed(url: &str, error: NetworkError, http_status: u16) -> Failed {
    Failed {
        url: url.into(),
        error,
        http_status,
    }
}

fn report(status: u16) -> LoadReport {
    LoadReport {
        document: Some(failed("http://x/", NetworkError::ContentNotFound, status)),
        navigation_failed: false,
        media: vec![],
    }
}

#[test]
fn ignore_prints_the_document_that_did_load() {
    let mut outcomes = Outcomes::new();
    assert_eq!(
        outcomes.judge(&report(404), LoadErrorHandling::Ignore),
        Judgement::Print
    );
    let mut broken = report(0);
    broken.navigation_failed = true;
    assert_eq!(
        outcomes.judge(&broken, LoadErrorHandling::Ignore),
        Judgement::PrintBlank
    );
    assert_eq!(
        outcomes.judge(&report(404), LoadErrorHandling::Skip),
        Judgement::Skip
    );
    assert_eq!(outcomes.skipped.len(), 1);
    assert_eq!(
        outcomes.judge(&report(404), LoadErrorHandling::Abort),
        Judgement::Abort
    );
    let mut fine = Outcomes::new();
    let good = LoadReport {
        document: None,
        navigation_failed: false,
        media: vec![],
    };
    assert_eq!(fine.judge(&good, LoadErrorHandling::Abort), Judgement::Print);
    assert_eq!(fine.exit(&vec![page()]), None);
}

#[test]
fn a_failed_subresource_is_judged_by_the_media_handler() {
    let mut abort = page();
    abort.load.on_media_error = LoadErrorHandling::Abort;
    let mut outcomes = Outcomes::new();
    outcomes.note_media(
        0,
        vec![failed("http://x/a.png", NetworkError::ContentNotFound, 404)],
    );
    assert_eq!(outcomes.exit(&vec![page()]), None);
    assert_eq!(
        outcomes.exit(&vec![abort]),
        Some(NetworkError::ContentNotFound)
    );
    let listed = outcomes.failures();
    assert_eq!(listed.len(), 1);
    assert_eq!(listed[0].0, 0);
}

#[test]
fn a_refused_request_is_said_once() {
    let mut outcomes = Outcomes::new();
    outcomes.note_media(
        0,
        vec![failed(
            "file:///etc/hosts",
            NetworkError::ContentAccessDenied,
            0,
        )],
    );
    outcomes.refuse(vec![Refusal {
        url: "file:///etc/hosts".into(),
        reason: "no",
    }]);
    assert!(outcomes.failures().is_empty());
}

#[test]
fn nothing_is_left_only_without_pages_and_tables() {
    let mut outcomes = Outcomes::new();
    outcomes.judge(&report(404), LoadErrorHandling::Skip);
    assert!(matches!(
        outcomes.nothing_left(0, 0),
        Some(ConvertError::NothingLeft(lines)) if lines.len() == 1
    ));
    assert!(outcomes.nothing_left(1, 0).is_none());
    assert!(outcomes.nothing_left(0, 1).is_none());
}

#[test]
fn a_network_error_is_an_exit_code_and_a_line() {
    assert_eq!(exit_code(None).as_i32(), 0);
    assert_eq!(exit_code(Some(NetworkError::HostNotFound)), ExitCode::Failure);
    assert_eq!(ExitCode::Failure.as_i32(), 1);
    assert_eq!(
        exit_line(NetworkError::ContentNotFound),
        "Exit with code 1 due to network error: ContentNotFoundError"
    );
}

#[test]
fn every_way_to_fail_has_words() {
    let input: ConvertError = InputError {
        input: "a.html".into(),
        reason: "no such file".into(),
        error: NetworkError::ContentNotFound,
    }
    .into();
    assert_eq!(input.message(), "could not read a.html: no such file");
    assert_eq!(input.network_error(), Some(NetworkError::ContentNotFound));
    let output: ConvertError = OutputError {
        path: None,
        source: "closed".into(),
    }
    .into();
    assert_eq!(
        output.message(),
        "could not write to standard output: closed"
    );
    assert_eq!(output.network_error(), None);
    let browser: ConvertError = Error::ConnectionClosed.into();
    assert_eq!(browser.message(), "the connection to the browser closed");
    let document = ConvertError::DocumentFailed(failed(
        "http://x/",
        NetworkError::ContentNotFound,
        404,
    ));
    assert_eq!(document.network_error(), Some(NetworkError::ContentNotFound));
    assert_eq!(ConvertError::Unsupported("no".into()).message(), "no");
    assert!(ConvertError::Pdf("broken".into()).message().contains("broken"));
}

#[test]
fn what_does_not_apply_is_warned_about_once() {
    let mut object = page();
    object.web.encoding = Some("utf-8".into());
    object.web.cookies = vec![Pair {
        name: "a".into(),
        value: "b".into(),
    }];
    let urls = |url: &str| vec![url.to_string(), url.to_string()];
    let objects = vec![object.clone(), object];
    assert_eq!(warnings(&objects, &urls("https://x/")), [ENCODING_WARNING]);
    assert_eq!(warnings(&objects, &urls("file:///a")), [COOKIE_WARNING]);
    assert!(warnings(&vec![page()], &vec!["file:///a".to_string()]).is_empty());
}

#[test]
fn a_browser_is_started_again_only_where_it_has_to_differ() {
    let plain = LaunchOptions::default();
    let other = LaunchOptions {
        no_images: true,
        ..LaunchOptions::default()
    };
    assert!(needs_browser(None, &plain));
    assert!(!needs_browser(Some(&plain), &LaunchOptions::default()));
    assert!(needs_browser(Some(&plain), &other));
}

#[test]
fn tables_and_bands_are_found_among_the_objects() {
    let mut toc = page();
    toc.kind = ObjectKind::Toc;
    toc.input = None;
    let mut banded = page();
    banded.footer.html = Some("f.html".into());
    banded.load.javascript_delay = 900;
    let objects = vec![page(), toc, banded];
    assert_eq!(tables(&objects), [1]);
    assert_eq!(band_object(&objects), Some(2));
    assert_eq!(band_delay(&objects), 900);
    assert_eq!(document_of(&objects[1]), Ok(None));
    assert_eq!(
        document_of(&objects[0]),
        Ok(Some(&Input::Path("a.html".into())))
    );
    let mut lost = page();
    lost.input = None;
    assert!(document_of(&lost).is_err());
    assert!(missing_is_fatal(&page()));
    let missing = missing_report("file:///a.html", NetworkError::ContentNotFound);
    assert!(missing.navigation_failed);
}

#[test]
fn the_file_is_titled_after_its_first_document() {
    let pieces = vec![
        Piece { index: 0, pages: 1 },
        Piece { index: 1, pages: 2 },
    ];
    let titles = vec!["Table".to_string(), "Body".to_string()];
    assert_eq!(
        file_title(&Some("Given".to_string()), &pieces, &titles, &vec![0]),
        "Given"
    );
    assert_eq!(file_title(&None, &pieces, &titles, &vec![0]), "Body");
    let mut toc = page();
    toc.kind = ObjectKind::Toc;
    let objects = vec![toc, page()];
    let listed = dump_objects(&objects, &pieces, &titles);
    assert_eq!(listed[0].role, Role::Contents);
    assert_eq!(listed[1].title, "Body");
    assert_eq!(
        contents_parts(&pieces, &objects),
        [ContentsPart {
            first_page: 1,
            pages: 1,
            keep_links: true
        }]
    );
}

#[test]
fn lines_say_what_happened() {
    let missing = failed("http://x/a.png", NetworkError::ContentNotFound, 404);
    assert!(failed_request_line(&missing).starts_with("rchtmltopdf: Failed to load http://x/a.png"));
    assert_eq!(warning_line("x"), "rchtmltopdf: warning: x");
    assert!(media_warning(&missing).ends_with(" was not loaded"));
    assert!(judgement_warning(Judgement::Print, "u").is_none());
    assert!(judgement_warning(Judgement::Skip, "u")
        .unwrap()
        .ends_with(" (skipped)"));
    assert!(own_document_failed(&missing, "header")
        .message()
        .contains("ContentNotFoundError (header)"));
    assert_eq!(producer(), "rchtmltopdf 0.1.0");
}

#[test]
fn the_heading_of_a_table_is_reached_from_the_top() {
    assert_eq!(collapse("  a \n b\t"), "a b");
    let links = lift_first(vec![BackLink {
        page: 2,
        left: "34".into(),
        top: "700".into(),
        boxed: 0,
    }]);
    assert_eq!(links[0].top, "10000");
    assert_eq!(links[0].left, "0");
    assert!(lift_first(vec![]).is_empty());
}
