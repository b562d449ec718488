use rchtmltopdf::numbering::OutlineItem;
use rchtmltopdf::settings::{Real, TocSettings};
use rchtmltopdf::toc::{document, entries, style, Entry, Target, CONTENTS_SCHEME, TOP_OF_THE_PAGE};

fn entry(level: usize, title: &str, page: i64) -> Entry {
    Entry {
        level,
        title: title.into(),
        page,
        target: Target {
            page: page.max(0) as usize,
            left: "0".into(),
            top: "0".into(),
        },
    }
}

fn default_document(entries: Vec<Entry>) -> String {
    document(&entries, &TocSettings::default(), "80")
}

fn item(title: &str, page: usize, children: Vec<OutlineItem>) -> OutlineItem {
    OutlineItem {
        title: title.into(),
        page,
        left: "0".into(),
        top: "0".into(),
        children,
    }
}

fn plain(page: usize) -> i64 {
    page as i64
}

#[test]
fn a_heading_is_numbered_where_it_lands() {
    let outline = vec![
        item("One", 1, vec![item("One A", 1, vec![])]),
        item("Two", 2, vec![]),
    ];
    let entries = entries(
        &outline,
        |page| page + 1,
        &vec![(1, "Table of Contents".to_string())],
        plain,
    );
    assert_eq!(
        entries
            .iter()
            .map(|e| (e.level, e.title.as_str(), e.page))
            .collect::<Vec<_>>(),
        [
            (1, "Table of Contents", 1),
            (1, "One", 2),
            (2, "One A", 2),
            (1, "Two", 3),
        ]
    );
    assert_eq!(entries[0].target.top, TOP_OF_THE_PAGE);
    assert_eq!(entries[1].target.page, 2);
}

#[test]
fn a_table_is_listed_where_it_sits() {
    let outline = vec![item("One", 1, vec![]), item("Two", 2, vec![])];
    let entries = entries(
        &outline,
        |page| if page > 1 { page + 1 } else { page },
        &vec![(2, "Contents".to_string())],
        plain,
    );
    assert_eq!(
        entries
            .iter()
            .map(|e| (e.title.as_str(), e.page))
            .collect::<Vec<_>>(),
        [("One", 1), ("Contents", 2), ("Two", 3)]
    );
}

#[test]
fn the_numbers_go_through_the_mapping() {
    let outline = vec![item("One", 1, vec![])];
    let entries = entries(&outline, |page| page, &vec![], |page| page as i64 + 100);
    assert_eq!(entries[0].page, 101);
}

#[test]
fn nothing_to_list_still_lists_the_table_itself() {
    let entries = entries(
        &vec![],
        |page| page,
        &vec![(1, "Table of Contents".to_string())],
        plain,
    );
    assert_eq!(entries.len(), 1);
    assert_eq!(entries[0].title, "Table of Contents");
}

#[test]
fn the_shape_is_what_the_default_stylesheet_produced() {
    let html = default_document(vec![
        entry(1, "One", 2),
        entry(2, "One A", 2),
        entry(1, "Two", 3),
    ]);
    assert!(html.contains("<h1>Table of Contents</h1>"), "{html}");
    assert!(html.contains(">One </a><span> 2 </span></div>"), "{html}");
    assert!(html.contains(">One A </a><span> 2 </span></div>"), "{html}");
    let one = html.find("One <").expect("the first entry");
    let one_a = html.find("One A").expect("the nested entry");
    let two = html.find("Two <").expect("the last entry");
    assert!(one < one_a && one_a < two, "{html}");
    assert_eq!(html.matches("<ul>").count(), 2, "one nested list: {html}");
}

#[test]
fn the_options_land_where_the_stylesheet_carried_them() {
    let toc = TocSettings {
        header_text: "Sommaire".into(),
        level_indentation: "3em".into(),
        text_size_shrink: Real::parse("0.5").unwrap(),
        dotted_lines: false,
        links: true,
        ..TocSettings::default()
    };
    let html = document(&vec![entry(1, "One", 1)], &toc, "50");
    assert!(html.contains("<h1>Sommaire</h1>"), "{html}");
    assert!(html.contains("ul ul {padding-left: 3em;}"), "{html}");
    assert!(html.contains("ul ul {font-size: 50%; }"), "{html}");
    assert!(!html.contains("border-bottom"), "{html}");
}

#[test]
fn the_defaults_are_the_stylesheets_own() {
    let html = default_document(vec![entry(1, "One", 1)]);
    assert!(html.contains("ul ul {padding-left: 1em;}"), "{html}");
    assert!(html.contains("ul ul {font-size: 80%; }"), "{html}");
    assert!(
        html.contains("div {border-bottom: 1px dashed rgb(200,200,200);}"),
        "{html}"
    );
    assert_eq!(TocSettings::default().text_size_shrink.as_str(), "0.8");
    assert!(html.contains(&style(&TocSettings::default(), "80")));
}

#[test]
fn an_entry_names_the_heading_it_links_to() {
    let entry = Entry {
        level: 1,
        title: "One".into(),
        page: 12,
        target: Target {
            page: 2,
            left: "34.5".into(),
            top: "803.25".into(),
        },
    };
    let html = default_document(vec![entry]);
    assert!(
        html.contains("href=\"rchtmltopdf-contents:2,34.5,803.25\""),
        "{html}"
    );
    assert!(html.contains("<span> 12 </span>"), "{html}");
    assert_eq!(CONTENTS_SCHEME, "rchtmltopdf-contents:");
}

#[test]
fn disable_toc_links_leaves_the_entries_unlinked() {
    let toc = TocSettings {
        links: false,
        ..TocSettings::default()
    };
    let html = document(&vec![entry(1, "One", 2)], &toc, "80");
    assert!(!html.contains("href"), "{html}");
    assert!(
        html.contains("<a>One </a>"),
        "the entry is still there: {html}"
    );
}

#[test]
fn a_skipped_level_opens_one_list() {
    let html = default_document(vec![entry(1, "One", 1), entry(3, "Deep", 1)]);
    assert_eq!(html.matches("<ul>").count(), 2, "{html}");
    assert!(html.contains(">Deep </a>"), "{html}");
}

#[test]
fn coming_back_out_closes_the_deeper_list() {
    let html = default_document(vec![
        entry(1, "One", 1),
        entry(2, "One A", 1),
        entry(1, "Two", 2),
    ]);
    assert_eq!(html.matches("<ul>").count(), 2, "{html}");
    assert_eq!(html.matches("</ul>").count(), 2, "{html}");
}

#[test]
fn a_title_is_escaped() {
    let html = default_document(vec![entry(1, "Terms & <Conditions>", 1)]);
    assert!(html.contains("Terms &amp; &lt;Conditions&gt;"), "{html}");
    assert!(!html.contains("<Conditions>"), "{html}");
}

#[test]
fn the_header_text_is_escaped() {
    let toc = TocSettings {
        header_text: "R&D <draft>".into(),
        ..TocSettings::default()
    };
    let html = document(&vec![], &toc, "80");
    assert!(html.contains("<h1>R&amp;D &lt;draft&gt;</h1>"), "{html}");
}

#[test]
fn no_entries_is_still_a_document() {
    let html = default_document(vec![]);
    assert!(html.contains("<h1>Table of Contents</h1>"), "{html}");
    assert!(html.contains("<ul>\n</ul>"), "{html}");
}

#[test]
fn a_number_is_written_as_it_comes() {
    let html = default_document(vec![entry(1, "One", -2)]);
    assert!(html.contains("<span> -2 </span>"), "{html}");
}
