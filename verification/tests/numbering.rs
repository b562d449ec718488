use rchtmltopdf::layout::{
    contents_lines, first_page, moved, ordered, parts, table_pieces, Passes, Piece,
};
use rchtmltopdf::numbering::{dump_page, flatten, number, Numbers, OutlineItem, Part};
use rchtmltopdf::plan::Numbering;

fn part(pages: usize) -> Part {
    Part {
        pages,
        counted: true,
        page_offset: 0,
    }
}

fn pages(numbered: &[(usize, Numbers)]) -> Vec<(i64, i64, i64, i64, i64)> {
    numbered
        .iter()
        .map(|(_, n)| (n.page, n.topage, n.frompage, n.sitepage, n.sitepages))
        .collect()
}

#[test]
fn the_numbers_run_across_documents_and_restart_within_them() {
    let numbered = number(&vec![part(3), part(2)], &vec![]);
    assert_eq!(
        pages(&numbered),
        [
            (1, 5, 1, 1, 3),
            (2, 5, 1, 2, 3),
            (3, 5, 1, 3, 3),
            (4, 5, 4, 1, 2),
            (5, 5, 4, 2, 2),
        ]
    );
    let parts: Vec<usize> = numbered.iter().map(|(part, _)| *part).collect();
    assert_eq!(parts, [0, 0, 0, 1, 1]);
}

#[test]
fn a_cover_is_not_counted() {
    let cover = Part {
        pages: 1,
        counted: false,
        page_offset: 0,
    };
    let numbered = number(&vec![cover, part(2)], &vec![]);
    assert_eq!(pages(&numbered)[1], (1, 2, 1, 1, 2));
    assert_eq!(pages(&numbered)[2], (2, 2, 1, 2, 2));
    assert_eq!(pages(&numbered)[0], (0, 2, 1, 1, 1));
}

#[test]
fn the_offset_shifts_the_document_it_was_written_on() {
    let shifted = Part {
        pages: 2,
        counted: true,
        page_offset: 10,
    };
    let numbered = number(&vec![part(1), shifted], &vec![]);
    assert_eq!(pages(&numbered)[0], (1, 3, 1, 1, 1));
    assert_eq!(pages(&numbered)[1], (12, 13, 12, 1, 2));
    assert_eq!(pages(&numbered)[2], (13, 13, 12, 2, 2));
}

fn item(title: &str, page: usize, children: Vec<OutlineItem>) -> OutlineItem {
    OutlineItem {
        title: title.into(),
        page,
        left: "0".into(),
        top: "0".into(),
        children,
    }
}

#[test]
fn sections_follow_the_headings_within_a_document() {
    let outline = vec![
        item(
            "One",
            1,
            vec![item("One A", 1, vec![item("Deep", 2, vec![])])],
        ),
        item("Two", 3, vec![]),
        item("Appendix", 4, vec![]),
    ];
    let numbered = number(&vec![part(3), part(1)], &outline);
    let sections: Vec<(&str, &str, &str)> = numbered
        .iter()
        .map(|(_, n)| {
            (
                n.section.as_str(),
                n.subsection.as_str(),
                n.subsubsection.as_str(),
            )
        })
        .collect();
    assert_eq!(
        sections,
        [
            ("One", "One A", ""),
            ("One", "One A", "Deep"),
            ("Two", "One A", "Deep"),
            ("Appendix", "", ""),
        ]
    );
}

#[test]
fn the_dump_numbers_a_page_of_the_file_and_a_cover_is_one() {
    let cover = Part {
        pages: 1,
        counted: false,
        page_offset: 0,
    };
    let parts = vec![cover, part(2)];
    assert_eq!(
        [
            dump_page(&parts, 1),
            dump_page(&parts, 2),
            dump_page(&parts, 3)
        ],
        [1, 2, 3]
    );
    assert_eq!(pages(&number(&parts, &vec![]))[1].0, 1);
}

#[test]
fn the_dump_adds_the_offset_of_the_documents_own_pages() {
    let parts = [
        Part {
            pages: 2,
            counted: true,
            page_offset: 10,
        },
        Part {
            pages: 1,
            counted: true,
            page_offset: 100,
        },
    ];
    let numbered: Vec<i64> = (1..=3).map(|page| dump_page(&parts, page)).collect();
    assert_eq!(numbered, [11, 12, 103]);
}

#[test]
fn the_dump_without_an_offset_is_the_physical_page() {
    let parts = [part(2), part(1)];
    let numbered: Vec<i64> = (1..=3).map(|page| dump_page(&parts, page)).collect();
    assert_eq!(numbered, [1, 2, 3]);
    assert_eq!(dump_page(&[], 1), 1);
}

#[test]
fn a_negative_offset_goes_below_zero_rather_than_wrapping() {
    let parts = [Part {
        pages: 2,
        counted: true,
        page_offset: -3,
    }];
    assert_eq!([dump_page(&parts, 1), dump_page(&parts, 2)], [-2, -1]);
}

#[test]
fn nothing_to_number_is_nothing() {
    assert!(number(&vec![], &vec![]).is_empty());
    assert!(number(&vec![part(0)], &vec![]).is_empty());
}

#[test]
fn headings_are_listed_in_reading_order() {
    let list = flatten(&vec![
        item("One", 1, vec![item("One A", 2, vec![])]),
        item("Two", 3, vec![]),
    ]);
    let summary: Vec<(usize, usize, &str)> = list
        .iter()
        .map(|h| (h.level, h.page, h.title.as_str()))
        .collect();
    assert_eq!(summary, [(1, 1, "One"), (2, 2, "One A"), (1, 3, "Two")]);
}

fn piece(index: usize, pages: usize) -> Piece {
    Piece { index, pages }
}

#[test]
fn the_pieces_follow_the_command_line() {
    let printed = vec![piece(0, 2), piece(2, 3)];
    let tables = vec![piece(1, 1)];
    let all = ordered(&printed, &tables);
    assert_eq!(all, [piece(0, 2), piece(1, 1), piece(2, 3)]);
    assert_eq!(first_page(&all, 1), Some(3));
    assert_eq!(first_page(&all, 2), Some(4));
    assert_eq!(first_page(&all, 3), None);
}

#[test]
fn a_page_moves_behind_the_tables_before_it() {
    let printed = vec![piece(0, 2), piece(2, 3)];
    let all = ordered(&printed, &vec![piece(1, 1)]);
    let landed: Vec<usize> = (1..=5).map(|page| moved(page, &printed, &all)).collect();
    assert_eq!(landed, [1, 2, 4, 5, 6]);
    assert_eq!(moved(4, &printed, &printed), 4);
}

#[test]
fn the_parts_take_the_numbering_of_their_objects() {
    let numberings = vec![
        Numbering {
            counted: false,
            page_offset: 0,
        },
        Numbering {
            counted: true,
            page_offset: 5,
        },
    ];
    let list = parts(&vec![piece(0, 1), piece(1, 2)], &numberings);
    assert_eq!(
        list,
        [
            Part {
                pages: 1,
                counted: false,
                page_offset: 0
            },
            Part {
                pages: 2,
                counted: true,
                page_offset: 5
            },
        ]
    );
}

#[test]
fn the_lines_of_a_table_say_where_the_headings_land() {
    let numberings: Vec<Numbering> = (0..2)
        .map(|_| Numbering {
            counted: true,
            page_offset: 0,
        })
        .collect();
    let lines = contents_lines(
        &vec![item("One", 1, vec![])],
        &vec![piece(1, 1)],
        &vec![piece(0, 1)],
        &vec!["Table of Contents".to_string()],
        &numberings,
    );
    let summary: Vec<(&str, i64)> = lines.iter().map(|l| (l.title.as_str(), l.page)).collect();
    assert_eq!(summary, [("Table of Contents", 1), ("One", 2)]);
}

#[test]
fn a_table_is_measured_until_it_stops_growing() {
    let mut passes = Passes::new(1);
    assert_eq!(passes.lengths(), &vec![1]);
    assert!(!passes.measured(vec![2]));
    assert_eq!(passes.lengths(), &vec![2]);
    assert!(passes.measured(vec![2]));
}

#[test]
fn a_table_that_never_settles_is_given_up_on() {
    let mut passes = Passes::new(1);
    let mut tries = 0;
    loop {
        tries += 1;
        if passes.measured(vec![1 + tries]) {
            break;
        }
    }
    assert_eq!(tries, 4);
    assert_eq!(
        table_pieces(&vec![3], passes.lengths()),
        [piece(3, 5)]
    );
}
