use rchtmltopdf::document::{has_url_scheme, Input, Output};
use rchtmltopdf::input::{
    existing_file, own_scratch, source, unread, unreadable_directory, unwritable, InputError, Lookup,
    Resolved, Source,
};
use rchtmltopdf::network::NetworkError;
use rchtmltopdf::output::{scratch_path, OutputError};

/// Resolve an input where looking a file up finds this.
fn resolve_here(input: &Input, directory: &str, found: Lookup) -> Result<Resolved, InputError> {
    match source(input, directory, 7) {
        Source::Fetched(resolved) => Ok(resolved),
        Source::File(path) => existing_file(&path, found),
        Source::Stdin { scratch } => match found {
            Lookup::File(path) => Ok(Resolved::at_scratch(&path, scratch)),
            _ => Err(unwritable(&scratch, "No such file or directory (os error 2)")),
        },
    }
}

#[test]
fn a_url_is_handed_over_untouched() {
    let resolved = resolve_here(
        &Input::Url("https://example.com/invoice/42?a=1#b".into()),
        "/tmp",
        Lookup::Missing,
    )
    .unwrap();
    assert_eq!(resolved.url(), "https://example.com/invoice/42?a=1#b");
    assert!(resolved.scratch_path().is_none());
}

#[test]
fn a_file_becomes_an_absolute_file_url() {
    let resolved = resolve_here(
        &Input::Path("page.html".into()),
        "/tmp",
        Lookup::File("/srv/page.html".into()),
    )
    .unwrap();
    assert!(resolved.url().starts_with("file:///"), "{}", resolved.url());
    assert!(resolved.url().ends_with("page.html"), "{}", resolved.url());
    assert_eq!(resolved.url(), "file:///srv/page.html");
}

#[test]
fn awkward_characters_in_a_path_are_encoded() {
    let url = resolve_here(
        &Input::Path("my page.html".into()),
        "/tmp",
        Lookup::File("/tmp/a dir#with stuff/my page.html".into()),
    )
    .unwrap();
    assert!(url.url().contains("%20"), "{}", url.url());
    assert!(url.url().contains("%23"), "{}", url.url());
    assert!(!url.url().contains(' '), "{}", url.url());
}

#[test]
fn a_missing_file_fails_before_any_browser_is_started() {
    let error = resolve_here(
        &Input::Path("/nowhere/page.html".into()),
        "/tmp",
        Lookup::Missing,
    )
    .unwrap_err();
    let message = error.message();
    assert!(message.contains("/nowhere/page.html"), "{message}");
    assert!(message.contains("no such file"), "{message}");
}

#[test]
fn a_directory_is_not_a_document() {
    let error = resolve_here(&Input::Path("/tmp".into()), "/tmp", Lookup::NotAFile).unwrap_err();
    assert!(error.message().contains("not a file"), "{}", error.message());
}

#[test]
fn standard_input_becomes_a_file_beside_the_working_directory() {
    let resolved = resolve_here(
        &Input::Stdin,
        "/work",
        Lookup::File("/work/.rchtmltopdf-7.html".into()),
    )
    .unwrap();
    let written = resolved.scratch_path().expect("a file was written");
    assert!(written.starts_with("/work/"), "beside the cwd: {written}");
    assert!(!written["/work/".len()..].contains('/'), "{written}");
    assert!(resolved.url().starts_with("file:///"));
}

#[test]
fn the_written_file_is_named_as_html() {
    match source(&Input::Stdin, "/work", 7) {
        Source::Stdin { scratch } => assert!(scratch.ends_with(".html"), "{scratch}"),
        other => panic!("{other:?}"),
    }
}

#[test]
fn an_unwritable_working_directory_says_why_it_matters() {
    let error = resolve_here(&Input::Stdin, "/nowhere/at/all", Lookup::Missing).unwrap_err();
    let message = error.message();
    assert!(message.contains("writable working directory"), "{message}");
    assert!(message.contains("relative links"), "{message}");
}

#[test]
fn a_windows_style_path_is_a_path_not_a_url() {
    let input = Input::classify(r"C:\tmp\page.html");
    assert!(matches!(input, Input::Path(_)));
    let error = resolve_here(&input, "/tmp", Lookup::Missing).unwrap_err();
    assert!(error.message().contains("no such file"), "{}", error.message());
}

#[test]
fn a_file_that_may_not_be_read_is_told_apart() {
    let denied = existing_file("a.html", Lookup::Denied).unwrap_err();
    assert_eq!(denied.message(), "could not read a.html: permission denied");
    assert_eq!(denied.error, NetworkError::ContentAccessDenied);
    let missing = existing_file("a.html", Lookup::Missing).unwrap_err();
    assert_eq!(missing.error, NetworkError::ContentNotFound);
    let other = existing_file("a.html", Lookup::Failed("too many links".into())).unwrap_err();
    assert_eq!(other.message(), "could not read a.html: too many links");
}

#[test]
fn standard_input_fails_by_name() {
    assert_eq!(unread("broken pipe").message(), "could not read standard input: broken pipe");
    assert_eq!(
        unreadable_directory("gone").message(),
        "could not read -: the working directory is unreadable: gone"
    );
    assert_eq!(
        own_scratch("/work", "bands", 7),
        "/work/.rchtmltopdf-bands-7.html"
    );
}

#[test]
fn an_argument_is_a_url_a_path_or_standard_input() {
    assert_eq!(Input::classify("-"), Input::Stdin);
    assert_eq!(Input::classify("http://x/"), Input::Url("http://x/".into()));
    assert_eq!(Input::classify("a/b.html"), Input::Path("a/b.html".into()));
    assert_eq!(Input::classify("-").as_written(), "-");
    assert_eq!(Output::classify("-"), Output::Stdout);
    assert_eq!(Output::classify("a.pdf"), Output::Path("a.pdf".into()));
    assert!(has_url_scheme("ftp://x"));
    assert!(!has_url_scheme("://x"));
    assert!(!has_url_scheme("C:\\x"));
}

#[test]
fn an_unwritable_directory_is_reported_with_the_path() {
    let error = OutputError {
        path: Some("/nowhere/at/all/out.pdf".into()),
        source: "No such file or directory (os error 2)".into(),
    };
    let message = error.message();
    assert!(message.contains("/nowhere/at/all/out.pdf"), "{message}");
    assert!(message.starts_with("could not write"), "{message}");
    let stdout = OutputError {
        path: None,
        source: "broken pipe".into(),
    };
    assert_eq!(
        stdout.message(),
        "could not write to standard output: broken pipe"
    );
}

#[test]
fn the_scratch_file_sits_beside_the_target() {
    let scratch = scratch_path("/some/where/out.pdf", 7);
    assert!(scratch.starts_with("/some/where/"), "{scratch:?}");
    assert!(!scratch["/some/where/".len()..].contains('/'), "{scratch:?}");
    assert!(scratch.ends_with(".part"), "{scratch:?}");
    assert_ne!(scratch, "/some/where/out.pdf");
    assert_eq!(scratch, "/some/where/out.pdf.rchtmltopdf-7.part");
}
