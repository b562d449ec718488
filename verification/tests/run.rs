use rchtmltopdf::convert::warning_line;
use rchtmltopdf::document::Input;
use rchtmltopdf::locate::{Executable, Origin};
use rchtmltopdf::run::{
    browser_flag, browser_report, describe_input, help, meta_answer, option_warnings, usage,
    MetaAnswer, Run,
};
use rchtmltopdf::table::lookup_long;
use rchtmltopdf::tokenizer::{find_meta_option, tokenize};

/// What the program says: its exit code, standard output and standard error.
fn run(args: &[&str]) -> (i32, String, String) {
    let args: Vec<String> = args.iter().map(|arg| arg.to_string()).collect();
    let lines = |lines: Vec<String>| {
        lines
            .iter()
            .map(|line| format!("{}\n", warning_line(line)))
            .collect::<String>()
    };
    match rchtmltopdf::run::run(&args) {
        Run::Usage => (1, String::new(), usage()),
        Run::Meta(MetaAnswer::Text(text)) => (0, text, String::new()),
        Run::Meta(MetaAnswer::Unknown(text)) => (1, String::new(), text),
        Run::Meta(MetaAnswer::Chromium) => (0, "chromium".into(), String::new()),
        Run::Refused { warnings, reason } => (1, String::new(), lines(warnings) + &reason),
        Run::Shown { warnings, text } => (0, text, lines(warnings)),
        Run::Convert { warnings, .. } => (0, String::new(), lines(warnings)),
    }
}

fn assert_outcome(output: &(i32, String, String), code: i32, stderr_empty: bool) {
    assert_eq!(output.0, code, "exit code");
    assert_eq!(
        output.2.trim().is_empty(),
        stderr_empty,
        "stderr was {:?}",
        output.2
    );
}

#[test]
fn no_arguments_prints_usage_and_fails() {
    let output = run(&[]);
    assert_outcome(&output, 1, false);
    assert!(output.2.contains("Usage:"));
    assert!(output.1.is_empty(), "usage belongs on stderr");
}

#[test]
fn help_succeeds_and_writes_only_to_stdout() {
    for flag in ["-h", "--help", "-H", "--extended-help"] {
        let output = run(&[flag]);
        assert_outcome(&output, 0, true);
        assert!(output.1.contains("Usage:"), "{flag}");
    }
}

#[test]
fn extended_help_lists_more_than_short_help() {
    let short = run(&["--help"]).1.lines().count();
    let extended = run(&["--extended-help"]).1.lines().count();
    assert!(extended > short, "short {short}, extended {extended}");
    assert!(run(&["--extended-help"]).1.contains("[accepted, ignored]"));
    assert_eq!(help(false), run(&["--help"]).1);
}

#[test]
fn help_describes_what_the_program_does() {
    let help = run(&["--help"]).1;
    assert!(help.contains("Chromium"), "{help}");
    assert!(
        !help.contains("not implemented yet"),
        "the note should be gone"
    );
}

#[test]
fn version_succeeds_and_names_the_program() {
    let output = run(&["--version"]);
    assert_outcome(&output, 0, true);
    assert!(output.1.starts_with("rchtmltopdf "));
}

#[test]
fn the_licence_is_reported() {
    let output = run(&["--license"]);
    assert_outcome(&output, 0, true);
    assert!(output.1.contains("MIT OR Apache-2.0"));
}

#[test]
fn unbuilt_meta_options_say_so_and_fail() {
    for flag in ["--manpage", "--readme", "--htmldoc"] {
        let output = run(&[flag]);
        assert_outcome(&output, 1, false);
        assert!(output.2.contains("not implemented"), "{flag}");
    }
}

#[test]
fn a_meta_option_as_a_value_is_not_a_request() {
    let output = run(&[
        "-q",
        "--footer-center",
        "-h",
        "page.html",
        "out.pdf",
        "--dump-parse",
    ]);
    assert_outcome(&output, 0, true);
    assert!(output.1.contains(r#"--footer-center "-h""#), "{}", output.1);
}

#[test]
fn dump_chromium_needs_no_document_and_still_reads_the_path() {
    let args = ["--chromium-path", "/definitely-not-a-browser", "--dump-chromium"];
    let output = run(&args);
    assert_eq!(output.1, "chromium", "{output:?}");
    let args: Vec<String> = args.iter().map(|arg| arg.to_string()).collect();
    assert_eq!(
        browser_flag(&args).as_deref(),
        Some("/definitely-not-a-browser")
    );
    assert_eq!(find_meta_option(&args).unwrap().long, "dump-chromium");
}

#[test]
fn an_unknown_option_fails_with_wkhtmltopdfs_wording() {
    let output = run(&["--invent-a-flag", "a.html", "out.pdf"]);
    assert_outcome(&output, 1, false);
    assert!(output
        .2
        .contains("Unknown long argument --invent-a-flag"));
}

#[test]
fn too_few_arguments_fails_with_wkhtmltopdfs_wording() {
    let output = run(&["out.pdf"]);
    assert_outcome(&output, 1, false);
    assert!(output
        .2
        .contains("You need to specify at least one input file, and exactly one output file"));
}

#[test]
fn an_unknown_log_level_is_reported_rather_than_ignored() {
    let output = run(&["--log-level", "shout", "a.html", "out.pdf"]);
    assert_outcome(&output, 1, false);
    let message = output.2;
    assert!(message.contains("--log-level"), "{message}");
    assert!(message.contains("unknown log level `shout`"), "{message}");
}

fn warnings(args: &[&str]) -> usize {
    run(args)
        .2
        .lines()
        .filter(|line| line.contains("warning:"))
        .count()
}

#[test]
fn an_ignored_option_warns_but_does_not_fail() {
    let output = run(&["--grayscale", "a.html", "out.pdf", "--dump-parse"]);
    assert_outcome(&output, 0, false);
    assert!(output.2.contains("--grayscale"));
    assert!(output.2.contains("no Chromium equivalent"));
}

#[test]
fn log_level_decides_whether_warnings_are_shown() {
    let noisy = |level: &str| -> usize {
        warnings(&[
            "--log-level",
            level,
            "--grayscale",
            "a.html",
            "out.pdf",
            "--dump-parse",
        ])
    };
    assert_eq!(
        warnings(&["--grayscale", "a.html", "out.pdf", "--dump-parse"]),
        1,
        "the default should warn"
    );
    assert_eq!(noisy("info"), 1);
    assert_eq!(noisy("warn"), 1);
    assert_eq!(noisy("error"), 0);
    assert_eq!(noisy("none"), 0);
}

#[test]
fn quiet_is_shorthand_for_log_level_none() {
    assert_eq!(
        warnings(&["-q", "--grayscale", "a.html", "out.pdf", "--dump-parse"]),
        0
    );
    assert_eq!(
        warnings(&[
            "-q",
            "--log-level",
            "info",
            "--grayscale",
            "a.html",
            "out.pdf",
            "--dump-parse"
        ]),
        1
    );
    assert_eq!(
        warnings(&[
            "--log-level",
            "info",
            "-q",
            "--grayscale",
            "a.html",
            "out.pdf",
            "--dump-parse"
        ]),
        0
    );
}

#[test]
fn a_repeated_option_warns_once_not_once_per_occurrence() {
    assert_eq!(
        warnings(&[
            "--grayscale",
            "--grayscale",
            "--grayscale",
            "a.html",
            "out.pdf",
            "--dump-parse"
        ]),
        1
    );
    assert_eq!(
        warnings(&[
            "--grayscale",
            "--lowquality",
            "a.html",
            "out.pdf",
            "--dump-parse"
        ]),
        2
    );
}

#[test]
fn diagnostics_never_reach_stdout() {
    let output = run(&["--grayscale", "a.html", "out.pdf", "--dump-parse"]);
    assert!(!output.1.contains("warning"));
    assert!(output.2.contains("warning"));
}

#[test]
fn a_parse_is_shown_in_the_order_of_the_line() {
    let output = run(&["--page-size", "A4", "--zoom", "2", "a.html", "out.pdf", "--dump-parse"]);
    assert_eq!(output.0, 0);
    let globals = output.1.find(r#"--page-size "A4""#).expect("the size");
    let defaults = output.1.find(r#"--zoom "2""#).expect("the zoom");
    assert!(globals < defaults, "{}", output.1);
}

#[test]
fn options_are_warned_about_as_they_were_written() {
    let args = ["--grayscale", "--copies", "2", "a.html", "out.pdf"];
    let parsed = tokenize(args.iter().map(|arg| arg.to_string()).collect()).unwrap();
    let lines = option_warnings(&parsed);
    assert_eq!(lines.len(), 2);
    assert!(lines[0].contains("--grayscale"), "{lines:?}");
    assert!(lines[1].contains("--copies"), "{lines:?}");
}

#[test]
fn a_browser_is_reported_with_where_it_came_from() {
    let found = Executable::at("/opt/chrome".into(), Origin::Flag);
    let report = browser_report(&found, &Some("/opt/chrome".to_string()));
    assert!(report.starts_with("path:    /opt/chrome\nsource:  "), "{report}");
    assert!(report.contains("flavour: "), "{report}");
    assert_eq!(describe_input(&Input::Stdin), "<stdin>");
    assert!(matches!(
        meta_answer(&lookup_long("dump-chromium").unwrap()),
        MetaAnswer::Chromium
    ));
}

#[test]
fn warnings_come_in_the_order_the_options_are_written() {
    let output = run(&["--enable-plugins", "--grayscale", "a.html", "out.pdf"]);
    let lines: Vec<&str> = output.2.lines().collect();
    assert_eq!(lines.len(), 2);
    assert!(lines[0].contains("--enable-plugins is accepted"));
    assert!(lines[1].contains("--grayscale is accepted"));
}
