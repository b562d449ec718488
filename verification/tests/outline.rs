use rchtmltopdf::numbering::OutlineItem;
use rchtmltopdf::outline::{anchor, dump, escape, xml, Entry, Object, Role};

fn entry(title: &str, page: i64, children: Vec<Entry>) -> Entry {
    Entry {
        title: title.into(),
        page,
        link: String::new(),
        back_link: String::new(),
        children,
    }
}

fn linked(title: &str, page: i64, first: u64, children: Vec<Entry>) -> Entry {
    Entry {
        link: anchor(first),
        back_link: anchor(first + 1),
        ..entry(title, page, children)
    }
}

fn aliased(title: &str, page: i64, first: u64, children: Vec<Entry>) -> Entry {
    Entry {
        link: anchor(first),
        back_link: anchor(first),
        ..entry(title, page, children)
    }
}

fn item(title: &str, page: usize, children: Vec<OutlineItem>) -> OutlineItem {
    OutlineItem {
        title: title.into(),
        page,
        left: "0".into(),
        top: "0".into(),
        children,
    }
}

fn object(title: &str, pages: usize) -> Object {
    Object {
        title: title.into(),
        pages,
        role: Role::Document,
    }
}

fn excluded(pages: usize) -> Object {
    Object {
        title: String::new(),
        pages,
        role: Role::Excluded,
    }
}

fn contents(pages: usize) -> Object {
    Object {
        title: "Table of Contents".into(),
        pages,
        role: Role::Contents,
    }
}

#[test]
fn the_shape_is_wkhtmltopdfs() {
    let out = xml(&vec![
        entry("One", 1, vec![entry("One A", 1, vec![])]),
        entry("Two", 2, vec![]),
    ]);
    assert_eq!(
        out,
        "<?xml version=\"1.0\" encoding=\"UTF-8\"?>\n\
         <outline xmlns=\"http://wkhtmltopdf.org/outline\">\n  \
           <item title=\"One\" page=\"1\" link=\"\" backLink=\"\">\n    \
             <item title=\"One A\" page=\"1\" link=\"\" backLink=\"\"/>\n  \
           </item>\n  \
           <item title=\"Two\" page=\"2\" link=\"\" backLink=\"\"/>\n\
         </outline>\n"
    );
}

#[test]
fn an_empty_outline_is_still_a_document() {
    assert_eq!(
        xml(&vec![]),
        "<?xml version=\"1.0\" encoding=\"UTF-8\"?>\n\
         <outline xmlns=\"http://wkhtmltopdf.org/outline\">\n\
         </outline>\n"
    );
}

#[test]
fn a_title_is_escaped_for_an_attribute() {
    let out = xml(&vec![entry("Terms & \"Conditions\" <draft> 'v2'", 3, vec![])]);
    assert!(
        out.contains("title=\"Terms &amp; &quot;Conditions&quot; &lt;draft&gt; &apos;v2&apos;\""),
        "{out}"
    );
}

#[test]
fn a_control_character_is_dropped_rather_than_written() {
    let out = xml(&vec![entry("A\u{0}B", 1, vec![])]);
    assert!(out.contains("title=\"AB\""), "{out}");
}

#[test]
fn a_negative_page_is_written_as_it_is() {
    let out = xml(&vec![entry("One", -2, vec![])]);
    assert!(out.contains("title=\"One\" page=\"-2\""), "{out}");
}

#[test]
fn text_outside_ascii_is_written_as_it_is() {
    let out = xml(&vec![entry("Résumé — plan", 1, vec![])]);
    assert!(out.contains("title=\"Résumé — plan\""), "{out}");
}

#[test]
fn each_object_wraps_the_headings_on_its_own_pages() {
    let headings = vec![
        item("Alpha", 1, vec![]),
        item("Beta", 2, vec![item("Beta A", 2, vec![])]),
        item("Gamma", 3, vec![]),
        item("Solo", 4, vec![]),
    ];
    assert_eq!(
        dump(&vec![object("Three", 3), object("One", 1)], &headings, 0),
        [
            linked(
                "Three",
                0,
                0,
                vec![
                    linked("Alpha", 1, 2, vec![]),
                    linked("Beta", 2, 4, vec![linked("Beta A", 2, 6, vec![])]),
                    linked("Gamma", 3, 8, vec![]),
                ]
            ),
            linked("One", 3, 10, vec![linked("Solo", 4, 12, vec![])]),
        ]
    );
}

#[test]
fn an_object_kept_out_of_the_outline_keeps_an_empty_item() {
    let headings = vec![item("Solo", 3, vec![])];
    assert_eq!(
        dump(&vec![excluded(2), object("One", 1)], &headings, 0),
        [
            entry("", 0, vec![]),
            linked("One", 2, 0, vec![linked("Solo", 3, 2, vec![])]),
        ]
    );
}

#[test]
fn the_offset_shifts_every_entry() {
    let headings = vec![item("Alpha", 1, vec![]), item("Solo", 2, vec![])];
    assert_eq!(
        dump(&vec![object("A", 1), object("B", 1)], &headings, 10),
        [
            linked("A", 10, 0, vec![linked("Alpha", 11, 2, vec![])]),
            linked("B", 11, 4, vec![linked("Solo", 12, 6, vec![])]),
        ]
    );
}

#[test]
fn a_heading_that_points_nowhere_is_left_out() {
    let headings = vec![item("Lost", 0, vec![]), item("Found", 1, vec![])];
    assert_eq!(
        dump(&vec![object("A", 1)], &headings, 0),
        [linked("A", 0, 0, vec![linked("Found", 1, 2, vec![])])]
    );
}

#[test]
fn a_table_of_contents_is_named_after_the_documents_with_one_name_twice() {
    let headings = vec![
        item("Solo", 1, vec![]),
        item("Table of Contents", 2, vec![]),
        item("Alpha", 3, vec![]),
        item("Beta", 4, vec![]),
        item("Gamma", 5, vec![]),
    ];
    assert_eq!(
        dump(
            &vec![object("One", 1), contents(1), object("Three", 3)],
            &headings,
            0
        ),
        [
            linked("One", 0, 0, vec![linked("Solo", 1, 2, vec![])]),
            aliased(
                "Table of Contents",
                1,
                12,
                vec![aliased("Table of Contents", 2, 14, vec![])]
            ),
            linked(
                "Three",
                2,
                4,
                vec![
                    linked("Alpha", 3, 6, vec![]),
                    linked("Beta", 4, 8, vec![]),
                    linked("Gamma", 5, 10, vec![]),
                ]
            ),
        ]
    );
}

#[test]
fn anchors_count_in_base_36() {
    assert_eq!(anchor(0), "__WKANCHOR_0");
    assert_eq!(anchor(10), "__WKANCHOR_a");
    assert_eq!(anchor(35), "__WKANCHOR_z");
    assert_eq!(anchor(36), "__WKANCHOR_10");
    assert_eq!(anchor(1295), "__WKANCHOR_zz");
}

#[test]
fn the_anchors_are_written_as_attributes() {
    let out = xml(&vec![linked("One", 1, 0, vec![])]);
    assert!(
        out.contains("link=\"__WKANCHOR_0\" backLink=\"__WKANCHOR_1\""),
        "{out}"
    );
}

#[test]
fn no_objects_is_no_entries() {
    assert!(dump(&vec![], &vec![item("Ghost", 1, vec![])], 0).is_empty());
}

#[test]
fn white_space_in_a_title_is_kept() {
    assert_eq!(escape("a\tb\nc\u{1}d"), "a\tb\ncd");
}

#[test]
fn an_object_kept_out_of_the_outline_has_nothing_in_it() {
    let headings = vec![item("Cover", 1, vec![item("Below", 1, vec![])]), item("One", 2, vec![])];
    let listed = dump(&vec![excluded(1), object("Doc", 1)], &headings, 0);
    assert_eq!(listed[0], entry("", 0, vec![]));
    assert_eq!(
        listed[1],
        linked("Doc", 1, 0, vec![linked("One", 2, 2, vec![])])
    );
}
