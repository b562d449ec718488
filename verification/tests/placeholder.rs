use rchtmltopdf::clock::Clock;
use rchtmltopdf::placeholder::{
    escape, expand, names_a_section, query, resolve, with_query, Context, Numbers,
};
use rchtmltopdf::settings::Pair;

fn clock() -> Clock {
    Clock {
        year: 2026,
        month: 9,
        day: 12,
        hour: 14,
        minute: 5,
        second: 9,
        utc_offset_seconds: 2 * 3600,
    }
}

fn pair(name: &str, value: &str) -> Pair {
    Pair {
        name: name.into(),
        value: value.into(),
    }
}

fn context(replacements: &[Pair]) -> Context {
    Context {
        webpage: "https://example.com/invoice".into(),
        title: "Invoice 42".into(),
        replacements: replacements.to_vec(),
        clock: clock(),
    }
}

fn numbers() -> Numbers {
    Numbers {
        page: 4,
        topage: 5,
        frompage: 4,
        sitepage: 1,
        sitepages: 2,
        section: "Chapter Two".into(),
        subsection: "Section 2.1".into(),
        subsubsection: String::new(),
    }
}

fn html(text: &str) -> String {
    expand(text, &context(&[]), &numbers())
}

#[test]
fn the_example_everything_quotes_expands() {
    assert_eq!(html("Page [page] / [topage]"), "Page 4 / 5");
}

#[test]
fn the_counts_come_from_the_conversion_in_both_frames() {
    assert_eq!(html("[page]/[topage]"), "4/5");
    assert_eq!(html("[sitepage]/[sitepages]"), "1/2");
    assert_eq!(html("[frompage]"), "4");
}

#[test]
fn the_sections_name_the_headings_in_force() {
    assert_eq!(
        html("[section] / [subsection] / [subsubsection]"),
        "Chapter Two / Section 2.1 / "
    );
    assert!(names_a_section("in [section] here"));
    assert!(names_a_section("[subsubsection]"));
    assert!(!names_a_section("[page] of [topage]"));
    assert!(!names_a_section("section"));
}

#[test]
fn the_command_line_answers_the_rest() {
    assert_eq!(html("[webpage]"), "https://example.com/invoice");
    assert_eq!(html("[title]"), "Invoice 42");
    assert_eq!(html("[doctitle]"), "Invoice 42");
    assert_eq!(html("[date]"), "2026-09-12");
    assert_eq!(html("[time]"), "14:05:09");
    assert_eq!(html("[isodate]"), "2026-09-12T14:05:09+02:00");
}

#[test]
fn a_western_offset_is_signed_the_other_way() {
    let behind = Clock {
        utc_offset_seconds: -(5 * 3600 + 30 * 60),
        ..clock()
    };
    assert!(behind.iso().ends_with("-05:30"), "{}", behind.iso());
}

#[test]
fn a_clock_that_was_never_set_is_all_zeros() {
    assert_eq!(Clock::default().iso(), "0000-00-00T00:00:00+00:00");
    let ancient = Clock { year: -5, ..clock() };
    assert_eq!(ancient.date(), "-005-09-12");
    let far = Clock { year: 12026, ..clock() };
    assert_eq!(far.date(), "12026-09-12");
}

#[test]
fn replace_defines_placeholders_and_wins() {
    let replacements = [
        pair("client", "Acme Ltd"),
        pair("page", "none of your business"),
    ];
    let expansion = expand("[client] [page]", &context(&replacements), &numbers());
    assert_eq!(expansion, "Acme Ltd none of your business");
}

#[test]
fn a_replacement_value_is_not_expanded_again() {
    let replacements = [pair("x", "[page]")];
    let expansion = expand("[x]", &context(&replacements), &numbers());
    assert_eq!(expansion, "[page]");
}

#[test]
fn substituted_values_are_escaped() {
    let context = Context {
        title: "Tom & Jerry <b>".into(),
        ..context(&[])
    };
    assert_eq!(
        expand("[title]", &context, &numbers()),
        "Tom &amp; Jerry &lt;b&gt;"
    );
    let numbers = Numbers {
        section: "Terms & <Conditions>".into(),
        ..numbers()
    };
    assert_eq!(
        expand("[section]", &context, &numbers),
        "Terms &amp; &lt;Conditions&gt;"
    );
}

#[test]
fn a_replacement_value_is_escaped_too() {
    let replacements = [pair("x", "<script>alert(1)</script>")];
    let expansion = expand("[x]", &context(&replacements), &numbers());
    assert!(!expansion.contains("<script>"), "{expansion}");
    assert_eq!(escape("a'b\"c"), "a&#39;b&quot;c");
}

#[test]
fn text_that_merely_looks_like_a_placeholder_is_text() {
    assert_eq!(html("[see note]"), "[see note]");
    assert_eq!(html("[draft"), "[draft");
    assert_eq!(html("]stray["), "]stray[");
    assert_eq!(html("[]"), "[]");
}

#[test]
fn text_around_a_placeholder_survives() {
    assert_eq!(html("v1.2 — [frompage] of many"), "v1.2 — 4 of many");
    assert_eq!(html(""), "");
    assert_eq!(html("no placeholders here"), "no placeholders here");
}

#[test]
fn the_query_names_every_placeholder_with_the_pages_numbers() {
    let query = query(&context(&[]), &numbers());
    for expected in [
        "page=4",
        "topage=5",
        "frompage=4",
        "sitepage=1",
        "sitepages=2",
        "section=Chapter%20Two",
        "subsection=Section%202.1",
        "subsubsection=",
        "webpage=https%3A%2F%2Fexample.com%2Finvoice",
        "title=Invoice%2042",
        "doctitle=Invoice%2042",
        "date=",
        "isodate=2026-09-12",
        "time=",
    ] {
        assert!(
            query.split('&').any(|pair| pair.starts_with(expected)),
            "{expected:?} missing from {query:?}"
        );
    }
}

#[test]
fn values_are_percent_encoded() {
    let mut with_title = context(&[]);
    with_title.title = "Tom & Jerry = friends".into();
    let query = query(&with_title, &numbers());
    assert!(
        query.contains("title=Tom%20%26%20Jerry%20%3D%20friends"),
        "{query}"
    );
    assert_eq!(
        query
            .split('&')
            .filter(|pair| pair.starts_with("title="))
            .count(),
        1
    );
}

#[test]
fn replacements_are_added_and_built_ins_win_over_them() {
    let replacements = [
        pair("client", "Acme Ltd"),
        pair("page", "none of your business"),
    ];
    let query = query(&context(&replacements), &numbers());
    assert!(query.contains("client=Acme%20Ltd"), "{query}");
    assert!(query.contains("page=4"), "{query}");
    assert!(!query.contains("business"), "{query}");
}

#[test]
fn the_query_joins_what_the_url_already_says() {
    assert_eq!(
        with_query("file:///h.html", "page=1"),
        "file:///h.html?page=1"
    );
    assert_eq!(
        with_query("http://x/h?theme=dark", "page=1"),
        "http://x/h?theme=dark&page=1"
    );
    assert_eq!(
        with_query("file:///h.html#top", "page=1"),
        "file:///h.html?page=1#top"
    );
}

#[test]
fn an_unset_title_expands_to_nothing() {
    let context = Context {
        title: String::new(),
        ..context(&[])
    };
    assert_eq!(expand("[title]", &context, &numbers()), "");
}

#[test]
fn a_placeholder_stands_for_the_first_replacement_of_its_name() {
    let replacements = [pair("x", "one"), pair("x", "two")];
    let context = context(&replacements);
    assert_eq!(resolve("x", &context, &numbers()).as_deref(), Some("one"));
    assert_eq!(resolve("nothing", &context, &numbers()), None);
}
