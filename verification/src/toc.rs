//! The table of contents, as a document to be printed.

use crate::numbering::{flat, flatten, headings_of, Heading, OutlineItem};
use crate::placeholder::{escape, html};
use crate::settings::{TocSettings, TocSettingsView};
use crate::text::{
    decimal, lemma_piece, occurs, pieces_of, push_number, push_signed, stands_at,
};
use vstd::prelude::*;

verus! {

/// The scheme of the links that the table carries until the file is finished.
pub const CONTENTS_SCHEME: &'static str = "rchtmltopdf-contents:";

/// A place on a page above everything that stands on it.
pub const TOP_OF_THE_PAGE: &'static str = "10000";

/// Where an entry leads.
#[derive(Debug, PartialEq, Eq)]
pub struct Target {
    pub page: usize,
    pub left: String,
    pub top: String,
}

/// A line of the table.
#[derive(Debug, PartialEq, Eq)]
pub struct Entry {
    pub level: usize,
    pub title: String,
    /// The number that is printed.
    pub page: i64,
    pub target: Target,
}

/// An [`Entry`] by the characters it holds.
pub struct EntryView {
    pub level: usize,
    pub title: Seq<char>,
    pub page: int,
    pub target_page: int,
    pub left: Seq<char>,
    pub top: Seq<char>,
}

impl View for Entry {
    type V = EntryView;

    open spec fn view(&self) -> EntryView {
        EntryView {
            level: self.level,
            title: self.title@,
            page: self.page as int,
            target_page: self.target.page as int,
            left: self.target.left@,
            top: self.target.top@,
        }
    }
}

/// The entries of a list.
pub open spec fn entries_of(list: Seq<Entry>) -> Seq<EntryView> {
    list.map_values(|entry: Entry| entry@)
}

/// An entry in a list that is sorted by page, behind those of the same page.
pub open spec fn inserted(sorted: Seq<EntryView>, entry: EntryView) -> Seq<EntryView>
    decreases sorted.len(),
{
    if sorted.len() > 0 && sorted.last().target_page > entry.target_page {
        inserted(sorted.drop_last(), entry).push(sorted.last())
    } else {
        sorted.push(entry)
    }
}

/// Entries sorted by page. Those of one page stay in their order.
pub open spec fn sorted_by_page(entries: Seq<EntryView>) -> Seq<EntryView>
    decreases entries.len(),
{
    if entries.len() == 0 {
        Seq::empty()
    } else {
        inserted(sorted_by_page(entries.drop_last()), entries.last())
    }
}

/// The entry of a heading, on the page that it moves to and with the number of
/// that page.
pub open spec fn heading_entry(heading: Heading, page: usize, number: i64) -> EntryView {
    EntryView {
        level: heading.level,
        title: heading.title,
        page: number as int,
        target_page: page as int,
        left: heading.left,
        top: heading.top,
    }
}

/// The entry of a table of contents itself, at the top of its first page.
pub open spec fn contents_entry(page: usize, title: Seq<char>, number: i64) -> EntryView {
    EntryView {
        level: 1,
        title,
        page: number as int,
        target_page: page as int,
        left: "0"@,
        top: TOP_OF_THE_PAGE@,
    }
}

/// An entry is that of a heading, on the page that `moved` puts it and with the
/// number that `number` gives that page.
pub open spec fn is_heading_entry<M: Fn(usize) -> usize, N: Fn(usize) -> i64>(
    entry: EntryView,
    heading: Heading,
    moved: M,
    number: N,
) -> bool {
    exists|page: usize, value: i64|
        {
            &&& moved.ensures((heading.page,), page)
            &&& number.ensures((page,), value)
            &&& entry == #[trigger] heading_entry(heading, page, value)
        }
}

/// An entry is that of a table of contents, with the number that `number` gives
/// its page.
pub open spec fn is_contents_entry<N: Fn(usize) -> i64>(
    entry: EntryView,
    contents: (usize, String),
    number: N,
) -> bool {
    exists|value: i64|
        {
            &&& number.ensures((contents.0,), value)
            &&& entry == #[trigger] contents_entry(contents.0, contents.1@, value)
        }
}

/// The entries before they are sorted: the headings in reading order, then the
/// tables.
pub open spec fn placed<M: Fn(usize) -> usize, N: Fn(usize) -> i64>(
    headings: Seq<Heading>,
    moved: M,
    contents: Seq<(usize, String)>,
    number: N,
    entries: Seq<EntryView>,
) -> bool {
    &&& entries.len() == headings.len() + contents.len()
    &&& forall|i: int|
        0 <= i < headings.len() ==> is_heading_entry(
            #[trigger] entries[i],
            headings[i],
            moved,
            number,
        )
    &&& forall|i: int|
        headings.len() <= i < entries.len() ==> is_contents_entry(
            #[trigger] entries[i],
            contents[i - headings.len()],
            number,
        )
}

/// Put an entry where it belongs in a list that is sorted by page.
fn insert(sorted: &mut Vec<Entry>, entry: Entry)
    ensures
        entries_of(final(sorted)@) == inserted(entries_of(old(sorted)@), entry@),
{
    let ghost all = entries_of(sorted@);
    let mut at: usize = sorted.len();
    let ghost end = at as int;
    assert(all.take(end) =~= all);
    assert(inserted(all, entry@) =~= inserted(all.take(end), entry@) + all.skip(end));
    while at > 0 && sorted[at - 1].target.page > entry.target.page
        invariant
            at <= sorted@.len(),
            all == entries_of(sorted@),
            inserted(all, entry@) == inserted(all.take(at as int), entry@) + all.skip(at as int),
        decreases at,
    {
        assert(all.take(at as int).last() == sorted@[at - 1]@);
        assert(all.take(at as int).drop_last() =~= all.take(at - 1));
        assert(inserted(all.take(at as int), entry@) + all.skip(at as int) =~= inserted(
            all.take(at - 1),
            entry@,
        ) + all.skip(at - 1));
        at = at - 1;
    }
    assert(at > 0 ==> all.take(at as int).last() == sorted@[at - 1]@);
    let ghost view = entry@;
    sorted.insert(at, entry);
    assert(entries_of(sorted@) =~= all.take(at as int).push(view) + all.skip(at as int));
}

/// The lines of a table of contents.
///
/// The headings are moved to where the tables push them, the tables list
/// themselves, and everything is sorted by page.
pub fn entries<M: Fn(usize) -> usize, N: Fn(usize) -> i64>(
    outline: &Vec<OutlineItem>,
    moved: M,
    contents: &Vec<(usize, String)>,
    number: N,
) -> (list: Vec<Entry>)
    requires
        forall|i: int|
            0 <= i < flat(outline@, 1).len() ==> moved.requires(
                ((#[trigger] flat(outline@, 1)[i]).page,),
            ),
        forall|i: int, page: usize|
            0 <= i < flat(outline@, 1).len() && #[trigger] moved.ensures(
                (flat(outline@, 1)[i].page,),
                page,
            ) ==> number.requires((page,)),
        forall|i: int| 0 <= i < contents@.len() ==> number.requires(((#[trigger] contents@[i]).0,)),
    ensures
        exists|unsorted: Seq<EntryView>|
            placed(flat(outline@, 1), moved, contents@, number, unsorted) && entries_of(list@)
                == sorted_by_page(unsorted),
{
    let headings = flatten(outline);
    let ghost flat_headings = flat(outline@, 1);
    let mut list: Vec<Entry> = Vec::new();
    let ghost mut unsorted: Seq<EntryView> = Seq::empty();
    let mut at: usize = 0;
    assert(entries_of(list@) =~= sorted_by_page(unsorted));
    while at < headings.len()
        invariant
            at <= headings@.len(),
            headings_of(headings@) == flat_headings,
            forall|i: int|
                0 <= i < flat_headings.len() ==> moved.requires(
                    ((#[trigger] flat_headings[i]).page,),
                ),
            forall|i: int, page: usize|
                0 <= i < flat_headings.len() && #[trigger] moved.ensures(
                    (flat_headings[i].page,),
                    page,
                ) ==> number.requires((page,)),
            unsorted.len() == at,
            entries_of(list@) == sorted_by_page(unsorted),
            forall|i: int|
                0 <= i < at ==> is_heading_entry(
                    #[trigger] unsorted[i],
                    flat_headings[i],
                    moved,
                    number,
                ),
        decreases headings@.len() - at,
    {
        let heading = &headings[at];
        assert(flat_headings[at as int] == heading@);
        let page: usize = moved(heading.page);
        let value: i64 = number(page);
        let entry = Entry {
            level: heading.level,
            title: heading.title.clone(),
            page: value,
            target: Target { page, left: heading.left.clone(), top: heading.top.clone() },
        };
        let ghost before = unsorted;
        proof {
            unsorted = before.push(entry@);
            assert(unsorted.drop_last() =~= before);
            assert(entry@ == heading_entry(flat_headings[at as int], page, value));
            assert(is_heading_entry(entry@, flat_headings[at as int], moved, number));
        }
        insert(&mut list, entry);
        at = at + 1;
    }
    let ghost count = at as int;
    let mut at: usize = 0;
    while at < contents.len()
        invariant
            at <= contents@.len(),
            count == flat_headings.len(),
            forall|i: int|
                0 <= i < contents@.len() ==> number.requires(((#[trigger] contents@[i]).0,)),
            unsorted.len() == count + at,
            entries_of(list@) == sorted_by_page(unsorted),
            forall|i: int|
                0 <= i < count ==> is_heading_entry(
                    #[trigger] unsorted[i],
                    flat_headings[i],
                    moved,
                    number,
                ),
            forall|i: int|
                count <= i < count + at ==> is_contents_entry(
                    #[trigger] unsorted[i],
                    contents@[i - count],
                    number,
                ),
        decreases contents@.len() - at,
    {
        let page: usize = contents[at].0;
        let value: i64 = number(page);
        let entry = Entry {
            level: 1,
            title: contents[at].1.clone(),
            page: value,
            target: Target { page, left: "0".to_owned(), top: TOP_OF_THE_PAGE.to_owned() },
        };
        let ghost before = unsorted;
        proof {
            unsorted = before.push(entry@);
            assert(unsorted.drop_last() =~= before);
            assert(entry@ == contents_entry(contents@[at as int].0, contents@[at as int].1@, value));
            assert(is_contents_entry(entry@, contents@[at as int], number));
        }
        insert(&mut list, entry);
        at = at + 1;
    }
    assert(placed(flat(outline@, 1), moved, contents@, number, unsorted));
    list
}

/// How many entries at the start of a list are no less deep than a level.
pub open spec fn run(entries: Seq<EntryView>, level: usize) -> nat
    decreases entries.len(),
{
    if entries.len() > 0 && entries[0].level >= level {
        1 + run(entries.skip(1), level)
    } else {
        0
    }
}

/// The link of an entry.
pub open spec fn href(entry: EntryView, links: bool) -> Seq<char> {
    if links {
        " href=\""@ + CONTENTS_SCHEME@ + decimal(entry.target_page) + ","@ + entry.left + ","@
            + entry.top + "\""@
    } else {
        Seq::empty()
    }
}

/// The line of an entry.
pub open spec fn line(entry: EntryView, links: bool) -> Seq<char> {
    "<li><div><a"@ + href(entry, links) + ">"@ + html(entry.title) + " </a><span> "@ + decimal(
        entry.page,
    ) + " </span></div>"@
}

/// Entries as items of a list of their level. Deeper entries make a list of
/// their own: inside the item that they follow, or by themselves where they
/// come first.
pub open spec fn items(entries: Seq<EntryView>, level: usize, links: bool) -> Seq<char>
    decreases
            entries.len(),
            (if entries.len() > 0 && entries[0].level > level {
                2nat
            } else {
                0nat
            }),
{
    if entries.len() == 0 {
        Seq::empty()
    } else if entries[0].level > level {
        let below = run(entries, entries[0].level);
        proof {
            lemma_run(entries, entries[0].level);
        }
        list_of(entries.take(below as int), entries[0].level, links) + items(
            entries.skip(below as int),
            level,
            links,
        )
    } else {
        let rest = entries.skip(1);
        if rest.len() > 0 && rest[0].level > level {
            let below = run(rest, rest[0].level);
            proof {
                lemma_run(rest, rest[0].level);
            }
            line(entries[0], links) + list_of(rest.take(below as int), rest[0].level, links)
                + "</li>\n"@ + items(rest.skip(below as int), level, links)
        } else {
            line(entries[0], links) + "</li>\n"@ + items(rest, level, links)
        }
    }
}

/// Entries as a list of their level.
pub open spec fn list_of(entries: Seq<EntryView>, level: usize, links: bool) -> Seq<char>
    decreases
            entries.len(),
            (if entries.len() > 0 && entries[0].level > level {
                3nat
            } else {
                1nat
            }),
{
    "<ul>\n"@ + items(entries, level, links) + "</ul>\n"@
}

/// The stylesheet of the table. `shrink` is the percentage that each level is
/// scaled by.
pub open spec fn style_of(toc: TocSettingsView, shrink: Seq<char>) -> Seq<char> {
    "<style>\n          h1 {\n            text-align: center;\n            font-size: 20px;\n            font-family: arial;\n          }\n"@
        + if toc.dotted_lines {
        "          div {border-bottom: 1px dashed rgb(200,200,200);}\n"@
    } else {
        Seq::empty()
    }
        + "          span {float: right;}\n          li {list-style: none;}\n          ul {\n            font-size: 20px;\n            font-family: arial;\n          }\n          ul ul {font-size: "@
        + shrink + "%; }\n          ul {padding-left: 0em;}\n          ul ul {padding-left: "@
        + html(toc.level_indentation)
        + ";}\n          a {text-decoration:none; color: black;}\n</style>\n"@
}

/// The table as a document.
pub open spec fn document_of(
    entries: Seq<EntryView>,
    toc: TocSettingsView,
    shrink: Seq<char>,
) -> Seq<char> {
    "<!DOCTYPE html>\n<html>\n<head>\n<meta charset=\"utf-8\">\n<title>Table of Contents</title>\n"@
        + style_of(toc, shrink) + "</head>\n<body>\n<h1>"@ + html(toc.header_text) + "</h1>\n"@
        + list_of(entries.take(run(entries, 1) as int), 1, toc.links) + "</body>\n</html>\n"@
}

/// A run is as long as the entries at the start that are no less deep.
pub proof fn lemma_run(entries: Seq<EntryView>, level: usize)
    ensures
        run(entries, level) <= entries.len(),
        forall|i: int| 0 <= i < run(entries, level) ==> (#[trigger] entries[i]).level >= level,
        run(entries, level) < entries.len() ==> entries[run(entries, level) as int].level < level,
    decreases entries.len(),
{
    if entries.len() > 0 && entries[0].level >= level {
        let rest = entries.skip(1);
        lemma_run(rest, level);
        assert forall|i: int| 0 <= i < run(entries, level) implies (#[trigger] entries[i]).level
            >= level by {
            if i > 0 {
                assert(rest[i - 1] == entries[i]);
            }
        }
        if run(entries, level) < entries.len() {
            assert(rest[run(rest, level) as int] == entries[run(entries, level) as int]);
        }
    }
}

proof fn lemma_run_is(entries: Seq<EntryView>, level: usize, count: int)
    requires
        0 <= count <= entries.len(),
        forall|i: int| 0 <= i < count ==> (#[trigger] entries[i]).level >= level,
        count < entries.len() ==> entries[count].level < level,
    ensures
        run(entries, level) == count,
{
    lemma_run(entries, level);
    let found = run(entries, level) as int;
    if found < count {
        assert(entries[found].level >= level);
    }
    if count < found {
        assert(entries[count].level >= level);
    }
}

/// Write the line of an entry.
fn write_line(out: &mut String, entry: &Entry, links: bool)
    ensures
        final(out)@ == old(out)@ + line(entry@, links),
{
    let mut text = "<li><div><a".to_owned();
    let mut link = String::new();
    if links {
        link = " href=\"".to_owned();
        link.push_str(CONTENTS_SCHEME);
        push_number(&mut link, entry.target.page as u64);
        link.push_str(",");
        link.push_str(&entry.target.left);
        link.push_str(",");
        link.push_str(&entry.target.top);
        link.push_str("\"");
    }
    text.push_str(&link);
    text.push_str(">");
    text.push_str(&escape(&entry.title));
    text.push_str(" </a><span> ");
    push_signed(&mut text, entry.page);
    text.push_str(" </span></div>");
    out.push_str(&text);
}

/// Write the entries from a position on as a list of a level, up to the first
/// that is less deep, and return where that one stands.
#[verifier::rlimit(60)]
fn write_level(out: &mut String, entries: &Vec<Entry>, from: usize, level: usize, links: bool) -> (
next: usize)
    requires
        from <= entries@.len(),
    ensures
        ({
            let rest = entries_of(entries@).skip(from as int);
            &&& next == from + run(rest, level)
            &&& from <= next <= entries@.len()
            &&& final(out)@ == old(out)@ + list_of(rest.take(run(rest, level) as int), level, links)
        }),
    decreases
            entries@.len() - from,
            (if from < entries@.len() && entries@[from as int].level > level {
                2nat
            } else {
                0nat
            }),
{
    let ghost all = entries_of(entries@);
    let ghost rest = all.skip(from as int);
    let ghost end = from + run(rest, level);
    let ghost own = all.subrange(from as int, end);
    proof {
        lemma_run(rest, level);
        assert(rest.take(run(rest, level) as int) =~= own);
        assert forall|i: int| from <= i < end implies (#[trigger] all[i]).level >= level by {
            assert(rest[i - from] == all[i]);
        }
        if end < all.len() {
            assert(rest[end - from] == all[end]);
        }
    }
    let ghost start = out@;
    out.push_str("<ul>\n");
    let ghost opened = out@;
    let mut at: usize = from;
    assert(opened + items(own, level, links) =~= out@ + items(all.subrange(at as int, end), level, links));
    while at < entries.len() && entries[at].level >= level
        invariant
            from <= at <= end <= entries@.len(),
            all == entries_of(entries@),
            forall|i: int| from <= i < end ==> (#[trigger] all[i]).level >= level,
            end < all.len() ==> all[end].level < level,
            opened + items(own, level, links) == out@ + items(
                all.subrange(at as int, end),
                level,
                links,
            ),
        decreases entries@.len() - at,
    {
        let ghost left = all.subrange(at as int, end);
        assert(at < end) by {
            if at == end {
                assert(all[end] == entries@[end]@);
            }
        }
        assert(left[0] == entries@[at as int]@);
        let ghost before = out@;
        let ghost begun = before + items(left, level, links);
        if entries[at].level > level {
            let deep: usize = entries[at].level;
            let ghost below = run(left, deep) as int;
            proof {
                lemma_run(left, deep);
                lemma_tail_run(all, at as int, end, deep, level);
                assert(all.skip(at as int).take(below) =~= left.take(below));
                assert(left.skip(below) =~= all.subrange(at + below, end));
                lemma_deep(before, left, level, links);
            }
            let next: usize = write_level(out, entries, at, deep, links);
            assert(begun == out@ + items(all.subrange(next as int, end), level, links));
            at = next;
        } else {
            write_line(out, &entries[at], links);
            let ghost after = left.skip(1);
            assert(after =~= all.subrange(at + 1, end));
            let mut next: usize = at + 1;
            if next < entries.len() && entries[next].level > level {
                let deep: usize = entries[next].level;
                assert(next < end) by {
                    if next == end {
                        assert(all[end] == entries@[end]@);
                    }
                }
                assert(after[0] == entries@[next as int]@);
                let ghost below = run(after, deep) as int;
                proof {
                    lemma_run(after, deep);
                    lemma_tail_run(all, next as int, end, deep, level);
                    assert(all.skip(next as int).take(below) =~= after.take(below));
                    assert(after.skip(below) =~= all.subrange(next + below, end));
                    lemma_nested(before, left, level, links);
                }
                next = write_level(out, entries, next, deep, links);
            } else {
                proof {
                    if after.len() > 0 {
                        assert(after[0] == entries@[next as int]@);
                    }
                    lemma_plain(before, left, level, links);
                }
            }
            out.push_str("</li>\n");
            assert(begun == out@ + items(all.subrange(next as int, end), level, links));
            at = next;
        }
    }
    assert(at == end) by {
        if at < end {
            assert(all[at as int] == entries@[at as int]@);
            assert(all[at as int].level >= level);
        }
    }
    assert(all.subrange(at as int, end) =~= Seq::empty());
    out.push_str("</ul>\n");
    assert(out@ =~= start + list_of(own, level, links));
    at
}

proof fn lemma_deep(before: Seq<char>, left: Seq<EntryView>, level: usize, links: bool)
    requires
        left.len() > 0,
        left[0].level > level,
    ensures
        ({
            let below = run(left, left[0].level) as int;
            &&& below >= 1
            &&& before + items(left, level, links) == before + list_of(
                left.take(below),
                left[0].level,
                links,
            ) + items(left.skip(below), level, links)
        }),
{
    let below = run(left, left[0].level) as int;
    let inner = list_of(left.take(below), left[0].level, links);
    let rest = items(left.skip(below), level, links);
    assert(items(left, level, links) == inner + rest);
    assert(before + (inner + rest) =~= before + inner + rest);
}

proof fn lemma_nested(before: Seq<char>, left: Seq<EntryView>, level: usize, links: bool)
    requires
        left.len() > 1,
        left[0].level <= level,
        left[1].level > level,
    ensures
        ({
            let after = left.skip(1);
            let below = run(after, after[0].level) as int;
            before + items(left, level, links) == before + line(left[0], links) + list_of(
                after.take(below),
                after[0].level,
                links,
            ) + "</li>\n"@ + items(after.skip(below), level, links)
        }),
{
    let after = left.skip(1);
    let below = run(after, after[0].level) as int;
    let own = line(left[0], links);
    let inner = list_of(after.take(below), after[0].level, links);
    let close = "</li>\n"@;
    let rest = items(after.skip(below), level, links);
    assert(items(left, level, links) == own + inner + close + rest);
    assert(before + (own + inner + close + rest) =~= before + own + inner + close + rest);
}

proof fn lemma_plain(before: Seq<char>, left: Seq<EntryView>, level: usize, links: bool)
    requires
        left.len() > 0,
        left[0].level <= level,
        left.len() > 1 ==> left[1].level <= level,
    ensures
        before + items(left, level, links) == before + line(left[0], links) + "</li>\n"@ + items(
            left.skip(1),
            level,
            links,
        ),
{
    let own = line(left[0], links);
    let close = "</li>\n"@;
    let rest = items(left.skip(1), level, links);
    assert(items(left, level, links) == own + close + rest);
    assert(before + (own + close + rest) =~= before + own + close + rest);
}

/// A deeper run within a run ends no later, so it is found in either.
proof fn lemma_tail_run(all: Seq<EntryView>, at: int, end: int, deep: usize, level: usize)
    requires
        0 <= at < end <= all.len(),
        level <= deep,
        all[at].level >= deep,
        end < all.len() ==> all[end].level < level,
    ensures
        run(all.skip(at), deep) == run(all.subrange(at, end), deep),
{
    let inner = all.subrange(at, end);
    lemma_run(inner, deep);
    let count = run(inner, deep) as int;
    assert forall|i: int| 0 <= i < count implies (#[trigger] all.skip(at)[i]).level >= deep by {
        assert(inner[i] == all.skip(at)[i]);
    }
    if count < inner.len() {
        assert(inner[count] == all.skip(at)[count]);
    }
    lemma_run_is(all.skip(at), deep, count);
}

/// The stylesheet of the table.
pub fn style(toc: &TocSettings, shrink: &str) -> (text: String)
    ensures
        text@ == style_of(toc@, shrink@),
{
    let mut text =
        "<style>\n          h1 {\n            text-align: center;\n            font-size: 20px;\n            font-family: arial;\n          }\n".to_owned();
    if toc.dotted_lines {
        text.push_str("          div {border-bottom: 1px dashed rgb(200,200,200);}\n");
    } else {
        assert(text@ =~= text@ + Seq::<char>::empty());
    }
    text.push_str(
        "          span {float: right;}\n          li {list-style: none;}\n          ul {\n            font-size: 20px;\n            font-family: arial;\n          }\n          ul ul {font-size: ",
    );
    text.push_str(shrink);
    text.push_str("%; }\n          ul {padding-left: 0em;}\n          ul ul {padding-left: ");
    text.push_str(&escape(&toc.level_indentation));
    text.push_str(";}\n          a {text-decoration:none; color: black;}\n</style>\n");
    text
}

/// The table as a document to be printed. `shrink` is the percentage that each
/// level is scaled by.
pub fn document(entries: &Vec<Entry>, toc: &TocSettings, shrink: &str) -> (text: String)
    ensures
        text@ == document_of(entries_of(entries@), toc@, shrink@),
{
    let mut text =
        "<!DOCTYPE html>\n<html>\n<head>\n<meta charset=\"utf-8\">\n<title>Table of Contents</title>\n".to_owned();
    text.push_str(&style(toc, shrink));
    text.push_str("</head>\n<body>\n<h1>");
    text.push_str(&escape(&toc.header_text));
    text.push_str("</h1>\n");
    assert(entries_of(entries@).skip(0) =~= entries_of(entries@));
    let _ = write_level(&mut text, entries, 0, 1, toc.links);
    text.push_str("</body>\n</html>\n");
    text
}

/// Sorting keeps every entry, and puts them in the order of their pages.
pub proof fn law_sorted_by_page(entries: Seq<EntryView>)
    ensures
        sorted_by_page(entries).to_multiset() == entries.to_multiset(),
        forall|i: int, j: int|
            0 <= i <= j < sorted_by_page(entries).len() ==> (#[trigger] sorted_by_page(
                entries,
            )[i]).target_page <= (#[trigger] sorted_by_page(entries)[j]).target_page,
    decreases entries.len(),
{
    broadcast use vstd::seq_lib::group_to_multiset_ensures;

    if entries.len() > 0 {
        law_sorted_by_page(entries.drop_last());
        lemma_inserted(sorted_by_page(entries.drop_last()), entries.last());
        assert(entries =~= entries.drop_last().push(entries.last()));
    } else {
        assert(sorted_by_page(entries) =~= entries);
    }
}

proof fn lemma_inserted(sorted: Seq<EntryView>, entry: EntryView)
    requires
        forall|i: int, j: int|
            0 <= i <= j < sorted.len() ==> (#[trigger] sorted[i]).target_page <= (
            #[trigger] sorted[j]).target_page,
    ensures
        inserted(sorted, entry).to_multiset() == sorted.to_multiset().insert(entry),
        inserted(sorted, entry).len() == sorted.len() + 1,
        forall|i: int, j: int|
            0 <= i <= j < inserted(sorted, entry).len() ==> (#[trigger] inserted(
                sorted,
                entry,
            )[i]).target_page <= (#[trigger] inserted(sorted, entry)[j]).target_page,
        forall|i: int|
            0 <= i < inserted(sorted, entry).len() ==> (#[trigger] inserted(
                sorted,
                entry,
            )[i]).target_page <= entry.target_page || (sorted.len() > 0 && inserted(
                sorted,
                entry,
            )[i].target_page <= sorted.last().target_page),
    decreases sorted.len(),
{
    broadcast use vstd::seq_lib::group_to_multiset_ensures;

    if sorted.len() > 0 && sorted.last().target_page > entry.target_page {
        lemma_inserted(sorted.drop_last(), entry);
        assert(sorted =~= sorted.drop_last().push(sorted.last()));
        let inner = inserted(sorted.drop_last(), entry);
        assert forall|i: int| 0 <= i < inner.len() implies (#[trigger] inner[i]).target_page
            <= sorted.last().target_page by {
            if sorted.len() > 1 {
                assert(sorted[sorted.len() - 2].target_page <= sorted.last().target_page);
            }
        }
    }
}

/// Where each entry of a list stands once the list is sorted: entries keep their
/// order unless the later one is on an earlier page. `at` is the place of each.
pub open spec fn is_stable_order(
    entries: Seq<EntryView>,
    sorted: Seq<EntryView>,
    at: Seq<int>,
) -> bool {
    &&& sorted.len() == entries.len() == at.len()
    &&& forall|i: int|
        0 <= i < entries.len() ==> 0 <= #[trigger] at[i] < sorted.len() && sorted[at[i]]
            == entries[i]
    &&& forall|i: int, j: int|
        #![trigger at[i], at[j]]
        0 <= i < j < entries.len() ==> {
            if entries[i].target_page <= entries[j].target_page {
                at[i] < at[j]
            } else {
                at[j] < at[i]
            }
        }
}

/// A new entry takes one place among sorted ones: behind all that are on its page
/// or before it, ahead of all that are behind it.
proof fn lemma_inserted_at(sorted: Seq<EntryView>, entry: EntryView) -> (k: int)
    requires
        forall|i: int, j: int|
            0 <= i <= j < sorted.len() ==> (#[trigger] sorted[i]).target_page <= (
            #[trigger] sorted[j]).target_page,
    ensures
        0 <= k <= sorted.len(),
        inserted(sorted, entry) == sorted.insert(k, entry),
        forall|i: int| 0 <= i < k ==> (#[trigger] sorted[i]).target_page <= entry.target_page,
        forall|i: int|
            k <= i < sorted.len() ==> (#[trigger] sorted[i]).target_page > entry.target_page,
    decreases sorted.len(),
{
    if sorted.len() > 0 && sorted.last().target_page > entry.target_page {
        let rest = sorted.drop_last();
        let k = lemma_inserted_at(rest, entry);
        assert(rest.insert(k, entry).push(sorted.last()) =~= sorted.insert(k, entry));
        assert forall|i: int| 0 <= i < k implies (#[trigger] sorted[i]).target_page
            <= entry.target_page by {
            assert(rest[i] == sorted[i]);
        }
        assert forall|i: int| k <= i < sorted.len() implies (#[trigger] sorted[i]).target_page
            > entry.target_page by {
            if i < rest.len() {
                assert(rest[i] == sorted[i]);
            }
        }
        k
    } else {
        assert(sorted.push(entry) =~= sorted.insert(sorted.len() as int, entry));
        assert forall|i: int| 0 <= i < sorted.len() implies (#[trigger] sorted[i]).target_page
            <= entry.target_page by {
            assert(sorted[i].target_page <= sorted[sorted.len() - 1].target_page);
        }
        sorted.len() as int
    }
}

/// Sorting by page keeps the reading order of whatever it may: an entry stands
/// ahead of every later one that is on its page or behind it. What is given back
/// is the place of each entry in the sorted list.
pub proof fn law_sorting_keeps_the_reading_order(entries: Seq<EntryView>) -> (at: Seq<int>)
    ensures
        is_stable_order(entries, sorted_by_page(entries), at),
    decreases entries.len(),
{
    if entries.len() == 0 {
        Seq::empty()
    } else {
        let rest = entries.drop_last();
        let entry = entries.last();
        let before = law_sorting_keeps_the_reading_order(rest);
        law_sorted_by_page(rest);
        let sorted = sorted_by_page(rest);
        let k = lemma_inserted_at(sorted, entry);
        let all = sorted.insert(k, entry);
        let at = Seq::new(
            entries.len(),
            |i: int|
                if i == entries.len() - 1 {
                    k
                } else if before[i] < k {
                    before[i]
                } else {
                    before[i] + 1
                },
        );
        assert(sorted_by_page(entries) == all);
        assert forall|i: int| 0 <= i < entries.len() implies 0 <= #[trigger] at[i] < all.len()
            && all[at[i]] == entries[i] by {
            if i < rest.len() {
                assert(rest[i] == entries[i]);
                assert(0 <= before[i] < sorted.len() && sorted[before[i]] == rest[i]);
            }
        }
        assert forall|i: int, j: int|
            #![trigger at[i], at[j]]
            0 <= i < j < entries.len() implies {
            if entries[i].target_page <= entries[j].target_page {
                at[i] < at[j]
            } else {
                at[j] < at[i]
            }
        } by {
            assert(rest[i] == entries[i]);
            assert(0 <= before[i] < sorted.len() && sorted[before[i]] == rest[i]);
            if j < rest.len() {
                assert(rest[j] == entries[j]);
                assert(0 <= before[j] < sorted.len() && sorted[before[j]] == rest[j]);
            }
        }
        at
    }
}

/// A list that is in the order of its pages already stays as it is.
pub proof fn law_a_sorted_list_stays(entries: Seq<EntryView>)
    requires
        forall|i: int, j: int|
            0 <= i <= j < entries.len() ==> (#[trigger] entries[i]).target_page <= (
            #[trigger] entries[j]).target_page,
    ensures
        sorted_by_page(entries) == entries,
    decreases entries.len(),
{
    if entries.len() > 0 {
        let rest = entries.drop_last();
        assert forall|i: int, j: int| 0 <= i <= j < rest.len() implies (
        #[trigger] rest[i]).target_page <= (#[trigger] rest[j]).target_page by {
            assert(rest[i] == entries[i] && rest[j] == entries[j]);
        }
        law_a_sorted_list_stays(rest);
        if rest.len() > 0 {
            assert(entries[rest.len() - 1].target_page <= entries[rest.len() as int].target_page);
        }
        assert(sorted_by_page(entries) =~= entries);
    } else {
        assert(sorted_by_page(entries) =~= entries);
    }
}

/// The entry of a heading carries its title, its level and its place on the page,
/// and leads to the page that it was moved to.
pub proof fn law_an_entry_names_its_heading(heading: Heading, page: usize, number: i64)
    ensures
        ({
            let entry = heading_entry(heading, page, number);
            &&& entry.title == heading.title
            &&& entry.level == heading.level
            &&& entry.page == number
            &&& entry.target_page == page
            &&& entry.left == heading.left
            &&& entry.top == heading.top
        }),
{
}

/// What a table shows, in order: the text of each link and of each number behind
/// one.
#[verifier::opaque]
pub open spec fn shown(pieces: Seq<(Seq<char>, Seq<char>)>) -> Seq<Seq<char>>
    decreases pieces.len(),
{
    if pieces.len() == 0 {
        Seq::empty()
    } else {
        let (tag, text) = pieces[0];
        if tag == "span"@ || (tag.len() > 0 && tag[0] == 'a') {
            seq![text] + shown(pieces.skip(1))
        } else {
            shown(pieces.skip(1))
        }
    }
}

/// What is to be read of entries: each title, and behind it the number of its page.
pub open spec fn listing(entries: Seq<EntryView>) -> Seq<Seq<char>>
    decreases entries.len(),
{
    if entries.len() == 0 {
        Seq::empty()
    } else {
        listing(entries.drop_last()) + seq![
            html(entries.last().title) + " "@,
            " "@ + decimal(entries.last().page) + " "@,
        ]
    }
}

proof fn lemma_listing(first: Seq<EntryView>, second: Seq<EntryView>)
    ensures
        listing(first + second) == listing(first) + listing(second),
    decreases second.len(),
{
    if second.len() == 0 {
        assert(first + second =~= first);
        assert(listing(first) + listing(second) =~= listing(first));
    } else {
        assert((first + second).drop_last() =~= first + second.drop_last());
        lemma_listing(first, second.drop_last());
        assert(listing(first + second) =~= listing(first) + listing(second));
    }
}

/// Whether no link of a list could end its tag.
pub open spec fn linkable(entries: Seq<EntryView>) -> bool {
    forall|i: int|
        0 <= i < entries.len() ==> !(#[trigger] entries[i]).left.contains('>')
            && !entries[i].top.contains('>')
}

proof fn lemma_shown(
    tag: Seq<char>,
    text: Seq<char>,
    rest: Seq<char>,
)
    requires
        !tag.contains('>'),
        !text.contains('<'),
        rest.len() == 0 || rest[0] == '<',
    ensures
        shown(pieces_of("<"@ + tag + ">"@ + text + rest)) == if tag == "span"@ || (tag.len() > 0
            && tag[0] == 'a') {
            seq![text] + shown(pieces_of(rest))
        } else {
            shown(pieces_of(rest))
        },
{
    reveal(shown);
    lemma_piece(tag, text, rest);
    let all = seq![(tag, text)] + pieces_of(rest);
    assert(all.skip(1) =~= pieces_of(rest));
    assert(all[0] == (tag, text));
}

proof fn lemma_no(text: Seq<char>, c: char)
    requires
        forall|i: int| 0 <= i < text.len() ==> text[i] != c,
    ensures
        !text.contains(c),
{
}

proof fn lemma_link(entry: EntryView, links: bool)
    requires
        !entry.left.contains('>'),
        !entry.top.contains('>'),
    ensures
        forall|i: int|
            0 <= i < ("a"@ + href(entry, links)).len() ==> #[trigger] ("a"@ + href(
                entry,
                links,
            ))[i] != '>',
{
    let link = "a"@ + href(entry, links);
    reveal_strlit("a");
    reveal_strlit(" href=\"");
    reveal_strlit("\"");
    reveal_strlit(",");
    reveal_strlit("rchtmltopdf-contents:");
    crate::text::lemma_decimal_chars(entry.target_page);
    assert forall|i: int| 0 <= i < link.len() implies link[i] != '>' by {
        if links && i >= 1 {
            let h = href(entry, links);
            assert(link[i] == h[i - 1]);
            let a = " href=\""@ + CONTENTS_SCHEME@;
            let b = a + decimal(entry.target_page);
            let c = b + ","@ + entry.left;
            let k = i - 1;
            assert(h =~= c + ","@ + entry.top + "\""@);
            if k < a.len() {
                assert(h[k] == a[k]);
            } else if k < b.len() {
                assert(h[k] == decimal(entry.target_page)[k - a.len()]);
            } else if b.len() + 1 <= k < c.len() {
                assert(h[k] == entry.left[k - b.len() - 1]);
                assert(entry.left.contains(h[k]));
            } else if c.len() + 1 <= k < c.len() + 1 + entry.top.len() {
                assert(h[k] == entry.top[k - c.len() - 1]);
                assert(entry.top.contains(h[k]));
            }
        }
    }
}

/// The line of an entry shows its title and its number, and what follows it shows
/// the rest.
#[verifier::spinoff_prover]
#[verifier::rlimit(100)]
proof fn lemma_line_shows(entry: EntryView, links: bool, rest: Seq<char>)
    requires
        !entry.left.contains('>'),
        !entry.top.contains('>'),
        rest.len() == 0 || rest[0] == '<',
    ensures
        shown(pieces_of(line(entry, links) + rest)) == listing(seq![entry]) + shown(
            pieces_of(rest),
        ),
{
    let none = Seq::<char>::empty();
    let title = html(entry.title) + " "@;
    let number = " "@ + decimal(entry.page) + " "@;
    let link = "a"@ + href(entry, links);
    reveal_strlit("<");
    reveal_strlit(">");
    reveal_strlit(" ");
    reveal_strlit("a");
    reveal_strlit("li");
    reveal_strlit("div");
    reveal_strlit("/a");
    reveal_strlit("span");
    reveal_strlit("/span");
    reveal_strlit("/div");
    reveal_strlit("<li><div><a");
    reveal_strlit(" </a><span> ");
    reveal_strlit(" </span></div>");
    assert forall|i: int| 0 <= i < title.len() implies title[i] != '<' by {
        if i < html(entry.title).len() {
            crate::placeholder::law_html_holds_no_markup(entry.title, i);
        }
    }
    crate::text::lemma_decimal_chars(entry.page);
    assert forall|i: int| 0 <= i < number.len() implies number[i] != '<' by {
        if 1 <= i < number.len() - 1 {
            assert(number[i] == decimal(entry.page)[i - 1]);
        }
    }
    lemma_link(entry, links);
    lemma_no(title, '<');
    lemma_no(number, '<');
    lemma_no(link, '>');
    let r7 = "<"@ + "/div"@ + ">"@ + none + rest;
    let r6 = "<"@ + "/span"@ + ">"@ + none + r7;
    let r5 = "<"@ + "span"@ + ">"@ + number + r6;
    let r4 = "<"@ + "/a"@ + ">"@ + none + r5;
    let r3 = "<"@ + link + ">"@ + title + r4;
    let r2 = "<"@ + "div"@ + ">"@ + none + r3;
    let r1 = "<"@ + "li"@ + ">"@ + none + r2;
    lemma_shown("/div"@, none, rest);
    lemma_shown("/span"@, none, r7);
    lemma_shown("span"@, number, r6);
    lemma_shown("/a"@, none, r5);
    lemma_shown(link, title, r4);
    lemma_shown("div"@, none, r3);
    lemma_shown("li"@, none, r2);
    assert("/div"@ != "span"@ && "/span"@ != "span"@ && "/a"@ != "span"@ && "div"@ != "span"@
        && "li"@ != "span"@) by {
        assert("/div"@[0] == '/' && "span"@[0] == 's');
        assert("/span"@.len() != "span"@.len());
        assert("/a"@.len() != "span"@.len());
        assert("div"@.len() != "span"@.len());
        assert("li"@.len() != "span"@.len());
    }
    assert(line(entry, links) + rest =~= r1);
    assert(listing(seq![entry].drop_last()) =~= Seq::empty());
    assert(listing(seq![entry]) =~= seq![title, number]);
    assert(seq![title] + (seq![number] + shown(pieces_of(rest))) =~= seq![title, number] + shown(
        pieces_of(rest),
    ));
}

/// The item of an entry, with whatever list stands inside it, and what follows.
proof fn lemma_item_shows(
    own: EntryView,
    links: bool,
    inner: Seq<char>,
    within: Seq<Seq<char>>,
    last: Seq<char>,
)
    requires
        !own.left.contains('>'),
        !own.top.contains('>'),
        inner.len() == 0 || inner[0] == '<',
        last.len() == 0 || last[0] == '<',
        shown(pieces_of(inner + ("</li>\n"@ + last))) == within + shown(
            pieces_of("</li>\n"@ + last),
        ),
    ensures
        shown(pieces_of(line(own, links) + inner + "</li>\n"@ + last)) == listing(seq![own])
            + within + shown(pieces_of(last)),
{
    reveal_strlit("</li>\n");
    reveal_strlit("<");
    reveal_strlit(">");
    reveal_strlit("\n");
    reveal_strlit("/li");
    reveal_strlit("span");
    let closed = "</li>\n"@ + last;
    assert("/li"@.len() != "span"@.len());
    lemma_shown("/li"@, "\n"@, last);
    assert("<"@ + "/li"@ + ">"@ + "\n"@ + last =~= closed);
    lemma_line_shows(own, links, inner + closed);
    assert(line(own, links) + (inner + closed) =~= line(own, links) + inner + "</li>\n"@ + last);
    assert(listing(seq![own]) + (within + shown(pieces_of(last))) =~= listing(seq![own]) + within
        + shown(pieces_of(last)));
}

proof fn lemma_linkable(entries: Seq<EntryView>, from: int, upto: int)
    requires
        linkable(entries),
        0 <= from <= upto <= entries.len(),
    ensures
        linkable(entries.subrange(from, upto)),
{
    let some = entries.subrange(from, upto);
    assert forall|i: int| 0 <= i < some.len() implies !(#[trigger] some[i]).left.contains('>')
        && !some[i].top.contains('>') by {
        assert(some[i] == entries[i + from]);
    }
}

proof fn lemma_line_begins(entry: EntryView, links: bool)
    ensures
        line(entry, links).len() > 0,
        line(entry, links)[0] == '<',
{
    reveal_strlit("<li><div><a");
}

#[verifier::spinoff_prover]
#[verifier::rlimit(60)]
proof fn lemma_items_show(entries: Seq<EntryView>, level: usize, links: bool, rest: Seq<char>)
    requires
        linkable(entries),
        rest.len() == 0 || rest[0] == '<',
    ensures
        shown(pieces_of(items(entries, level, links) + rest)) == listing(entries) + shown(
            pieces_of(rest),
        ),
        items(entries, level, links).len() == 0 || items(entries, level, links)[0] == '<',
    decreases
            entries.len(),
            (if entries.len() > 0 && entries[0].level > level {
                2nat
            } else {
                0nat
            }),
{
    let end = shown(pieces_of(rest));
    if entries.len() == 0 {
        assert(items(entries, level, links) + rest =~= rest);
        assert(listing(entries) + end =~= end);
    } else if entries[0].level > level {
        let below = run(entries, entries[0].level) as int;
        lemma_run(entries, entries[0].level);
        let (deep, left) = (entries.take(below), entries.skip(below));
        lemma_linkable(entries, 0, below);
        lemma_linkable(entries, below, entries.len() as int);
        assert(entries.subrange(0, below) =~= deep);
        assert(entries.subrange(below, entries.len() as int) =~= left);
        let tail = items(left, level, links);
        let list = list_of(deep, entries[0].level, links);
        lemma_items_show(left, level, links, rest);
        lemma_list_shows(deep, entries[0].level, links, tail + rest);
        assert(items(entries, level, links) == list + tail);
        assert(list + tail + rest =~= list + (tail + rest));
        assert(deep + left =~= entries);
        lemma_listing(deep, left);
        assert(listing(deep) + (listing(left) + end) =~= listing(entries) + end);
    } else {
        let own = entries[0];
        let others = entries.skip(1);
        lemma_line_begins(own, links);
        assert(entries =~= seq![own] + others);
        lemma_linkable(entries, 1, entries.len() as int);
        assert(entries.subrange(1, entries.len() as int) =~= others);
        lemma_listing(seq![own], others);
        let front = line(own, links);
        if others.len() > 0 && others[0].level > level {
            let below = run(others, others[0].level) as int;
            lemma_run(others, others[0].level);
            let (deep, left) = (others.take(below), others.skip(below));
            lemma_linkable(others, 0, below);
            lemma_linkable(others, below, others.len() as int);
            assert(others.subrange(0, below) =~= deep);
            assert(others.subrange(below, others.len() as int) =~= left);
            let tail = items(left, level, links);
            let list = list_of(deep, others[0].level, links);
            lemma_items_show(left, level, links, rest);
            lemma_closed(tail + rest);
            lemma_list_shows(deep, others[0].level, links, "</li>\n"@ + (tail + rest));
            lemma_item_shows(own, links, list, listing(deep), tail + rest);
            assert(items(entries, level, links) == front + list + "</li>\n"@ + tail);
            assert(front + list + "</li>\n"@ + tail + rest =~= front + list + "</li>\n"@ + (tail
                + rest));
            assert(deep + left =~= others);
            lemma_listing(deep, left);
            assert(listing(seq![own]) + listing(deep) + (listing(left) + end) =~= listing(entries)
                + end);
        } else {
            let none = Seq::<char>::empty();
            let tail = items(others, level, links);
            lemma_items_show(others, level, links, rest);
            assert(none + ("</li>\n"@ + (tail + rest)) =~= "</li>\n"@ + (tail + rest));
            assert(Seq::<Seq<char>>::empty() + shown(pieces_of("</li>\n"@ + (tail + rest)))
                =~= shown(pieces_of("</li>\n"@ + (tail + rest))));
            lemma_item_shows(own, links, none, Seq::empty(), tail + rest);
            assert(items(entries, level, links) == front + "</li>\n"@ + tail);
            assert(front + "</li>\n"@ + tail + rest =~= front + none + "</li>\n"@ + (tail + rest));
            assert(listing(seq![own]) + Seq::<Seq<char>>::empty() + (listing(others) + end)
                =~= listing(entries) + end);
        }
    }
}

proof fn lemma_closed(rest: Seq<char>)
    ensures
        ("</li>\n"@ + rest)[0] == '<',
{
    reveal_strlit("</li>\n");
}

proof fn lemma_list_shows(entries: Seq<EntryView>, level: usize, links: bool, rest: Seq<char>)
    requires
        linkable(entries),
        rest.len() == 0 || rest[0] == '<',
    ensures
        shown(pieces_of(list_of(entries, level, links) + rest)) == listing(entries) + shown(
            pieces_of(rest),
        ),
        list_of(entries, level, links)[0] == '<',
    decreases
            entries.len(),
            (if entries.len() > 0 && entries[0].level > level {
                3nat
            } else {
                1nat
            }),
{
    reveal_strlit("<ul>\n");
    reveal_strlit("</ul>\n");
    reveal_strlit("<");
    reveal_strlit(">");
    reveal_strlit("\n");
    reveal_strlit("ul");
    reveal_strlit("/ul");
    reveal_strlit("span");
    let closed = "<"@ + "/ul"@ + ">"@ + "\n"@ + rest;
    lemma_shown("/ul"@, "\n"@, rest);
    lemma_items_show(entries, level, links, closed);
    let inner = items(entries, level, links) + closed;
    lemma_shown("ul"@, "\n"@, inner);
    assert(inner.len() == 0 || inner[0] == '<');
    assert(list_of(entries, level, links) + rest =~= "<"@ + "ul"@ + ">"@ + "\n"@ + inner);
}

/// Whatever the levels of the entries are, and however deep they go, the table
/// shows every entry once and in order: its title, and behind it the number of its
/// page.
pub proof fn law_the_table_shows_every_entry(
    entries: Seq<EntryView>,
    level: usize,
    links: bool,
)
    requires
        linkable(entries),
    ensures
        shown(pieces_of(list_of(entries, level, links))) == listing(entries),
{
    let none = Seq::<char>::empty();
    lemma_list_shows(entries, level, links, none);
    assert(list_of(entries, level, links) + none =~= list_of(entries, level, links));
    crate::text::lemma_find_none(none, '<', '<');
    reveal(pieces_of);
    reveal(shown);
    assert(pieces_of(none) =~= Seq::empty());
    assert(listing(entries) + shown(pieces_of(none)) =~= listing(entries));
}

/// A document lists every heading that it is given: no level of a heading is left
/// out.
pub proof fn law_the_document_lists_every_entry(
    entries: Seq<EntryView>,
    toc: TocSettingsView,
    shrink: Seq<char>,
)
    requires
        forall|i: int| 0 <= i < entries.len() ==> (#[trigger] entries[i]).level >= 1,
    ensures
        exists|head: Seq<char>|
            document_of(entries, toc, shrink) == #[trigger] (head + list_of(entries, 1, toc.links)
                + "</body>\n</html>\n"@) && ("<h1>"@ + html(toc.header_text)
                + "</h1>\n"@).is_suffix_of(head),
{
    lemma_run_is(entries, 1, entries.len() as int);
    assert(entries.take(entries.len() as int) =~= entries);
    let head = "<!DOCTYPE html>\n<html>\n<head>\n<meta charset=\"utf-8\">\n<title>Table of Contents</title>\n"@
        + style_of(toc, shrink) + "</head>\n<body>\n<h1>"@ + html(toc.header_text) + "</h1>\n"@;
    let named = "<h1>"@ + html(toc.header_text) + "</h1>\n"@;
    reveal_strlit("</head>\n<body>\n<h1>");
    reveal_strlit("<h1>");
    assert(head.subrange(head.len() - named.len(), head.len() as int) =~= named);
    assert(document_of(entries, toc, shrink) =~= head + list_of(entries, 1, toc.links)
        + "</body>\n</html>\n"@);
}

/// A line leads to the place of its heading where links are wanted, and nowhere
/// where they are not.
pub proof fn law_a_line_leads_to_its_heading(entry: EntryView)
    ensures
        ("<li><div><a href=\"rchtmltopdf-contents:"@ + decimal(entry.target_page) + ","@
            + entry.left + ","@ + entry.top + "\">"@).is_prefix_of(line(entry, true)),
        "<li><div><a>"@.is_prefix_of(line(entry, false)),
{
    reveal_strlit("<li><div><a");
    reveal_strlit("<li><div><a>");
    reveal_strlit("<li><div><a href=\"rchtmltopdf-contents:");
    reveal_strlit(" href=\"");
    reveal_strlit("rchtmltopdf-contents:");
    reveal_strlit("\"");
    reveal_strlit(">");
    reveal_strlit("\">");
    let wanted = "<li><div><a href=\"rchtmltopdf-contents:"@ + decimal(entry.target_page) + ","@
        + entry.left + ","@ + entry.top + "\">"@;
    let rest = html(entry.title) + " </a><span> "@ + decimal(entry.page) + " </span></div>"@;
    assert(line(entry, true) =~= wanted + rest);
    assert((wanted + rest).subrange(0, wanted.len() as int) =~= wanted);
    assert(line(entry, false) =~= "<li><div><a>"@ + rest);
    assert(("<li><div><a>"@ + rest).subrange(0, 12) =~= "<li><div><a>"@);
}

proof fn lemma_run_of(deeper: Seq<EntryView>, rest: Seq<EntryView>, level: usize)
    requires
        forall|i: int| 0 <= i < deeper.len() ==> (#[trigger] deeper[i]).level >= level,
        rest.len() == 0 || rest[0].level < level,
    ensures
        run(deeper + rest, level) == deeper.len(),
    decreases deeper.len(),
{
    let all = deeper + rest;
    if deeper.len() == 0 {
        assert(all =~= rest);
    } else {
        assert(all[0] == deeper[0]);
        assert(all.skip(1) =~= deeper.skip(1) + rest);
        assert forall|i: int| 0 <= i < deeper.skip(1).len() implies (
        #[trigger] deeper.skip(1)[i]).level >= level by {
            assert(deeper.skip(1)[i] == deeper[i + 1]);
        }
        lemma_run_of(deeper.skip(1), rest, level);
    }
}

/// The deeper entries behind an entry make one list inside its item, whole: from the first
/// of them up to the next that is less deep than it. An entry with none behind it is an
/// item by itself.
pub proof fn law_deeper_entries_stand_inside(
    entry: EntryView,
    deeper: Seq<EntryView>,
    rest: Seq<EntryView>,
    level: usize,
    links: bool,
)
    requires
        entry.level <= level,
        deeper.len() > 0,
        deeper[0].level > level,
        forall|i: int| 0 <= i < deeper.len() ==> (#[trigger] deeper[i]).level >= deeper[0].level,
        rest.len() == 0 || rest[0].level < deeper[0].level,
    ensures
        items(seq![entry] + deeper + rest, level, links) == line(entry, links) + "<ul>\n"@ + items(
            deeper,
            deeper[0].level,
            links,
        ) + "</ul>\n"@ + "</li>\n"@ + items(rest, level, links),
        rest.len() == 0 || rest[0].level <= level ==> items(seq![entry] + rest, level, links)
            == line(entry, links) + "</li>\n"@ + items(rest, level, links),
{
    let all = seq![entry] + deeper + rest;
    let behind = all.skip(1);
    assert(behind =~= deeper + rest);
    assert(all[0] == entry);
    assert(behind[0] == deeper[0]);
    lemma_run_of(deeper, rest, deeper[0].level);
    assert(behind.take(deeper.len() as int) =~= deeper);
    assert(behind.skip(deeper.len() as int) =~= rest);
    let inner = items(deeper, deeper[0].level, links);
    let tail = items(rest, level, links);
    assert(items(all, level, links) == line(entry, links) + list_of(
        deeper,
        deeper[0].level,
        links,
    ) + "</li>\n"@ + tail);
    assert(line(entry, links) + ("<ul>\n"@ + inner + "</ul>\n"@) + "</li>\n"@ + tail =~= line(
        entry,
        links,
    ) + "<ul>\n"@ + inner + "</ul>\n"@ + "</li>\n"@ + tail);
    let alone = seq![entry] + rest;
    assert(alone.skip(1) =~= rest);
    assert(alone[0] == entry);
}

/// How a table looks: dotted where that was not turned off, each level smaller by what was
/// asked for and set in by what was asked for.
pub proof fn law_how_a_table_looks(toc: TocSettingsView, shrink: Seq<char>)
    ensures
        exists|head: Seq<char>, middle: Seq<char>|
            style_of(toc, shrink) == #[trigger] (head + shrink
                + "%; }\n          ul {padding-left: 0em;}\n          ul ul {padding-left: "@ + html(
                toc.level_indentation,
            ) + middle) && (toc.dotted_lines ==> occurs(
                head,
                "          div {border-bottom: 1px dashed rgb(200,200,200);}\n"@,
            )) && ("ul ul {font-size: "@).is_suffix_of(head),
        toc.dotted_lines ==> style_of(toc, shrink).len() > style_of(
            TocSettingsView { dotted_lines: false, ..toc },
            shrink,
        ).len(),
{
    let first = "<style>\n          h1 {\n            text-align: center;\n            font-size: 20px;\n            font-family: arial;\n          }\n"@;
    let dots = if toc.dotted_lines {
        "          div {border-bottom: 1px dashed rgb(200,200,200);}\n"@
    } else {
        Seq::empty()
    };
    let second = "          span {float: right;}\n          li {list-style: none;}\n          ul {\n            font-size: 20px;\n            font-family: arial;\n          }\n          ul ul {font-size: "@;
    let middle = ";}\n          a {text-decoration:none; color: black;}\n</style>\n"@;
    let head = first + dots + second;
    reveal_strlit("          span {float: right;}\n          li {list-style: none;}\n          ul {\n            font-size: 20px;\n            font-family: arial;\n          }\n          ul ul {font-size: ");
    reveal_strlit("ul ul {font-size: ");
    reveal_strlit("          div {border-bottom: 1px dashed rgb(200,200,200);}\n");
    assert(second.skip(second.len() - "ul ul {font-size: "@.len()) =~= "ul ul {font-size: "@);
    assert(head.skip(head.len() - "ul ul {font-size: "@.len()) =~= "ul ul {font-size: "@);
    assert(("ul ul {font-size: "@).is_suffix_of(head));
    assert(head.subrange(first.len() as int, first.len() as int + dots.len()) =~= dots);
    assert(stands_at(head, dots, first.len() as int));
    assert(style_of(toc, shrink) =~= head + shrink
        + "%; }\n          ul {padding-left: 0em;}\n          ul ul {padding-left: "@ + html(
        toc.level_indentation,
    ) + middle);
}

/// The line of a table of contents itself is one of the first level, at the top of its own
/// page.
pub proof fn law_an_entry_names_its_table(page: usize, title: Seq<char>, number: i64)
    ensures
        ({
            let entry = contents_entry(page, title, number);
            &&& entry.level == 1
            &&& entry.title == title
            &&& entry.page == number
            &&& entry.target_page == page
            &&& entry.left == "0"@
            &&& entry.top == TOP_OF_THE_PAGE@
        }),
{
}

/// The lines before they are sorted are those of the headings in their order, each where it
/// moves to and with the number there, and then those of the tables.
pub proof fn law_where_the_lines_lead<M: Fn(usize) -> usize, N: Fn(usize) -> i64>(
    headings: Seq<Heading>,
    moved: M,
    contents: Seq<(usize, String)>,
    number: N,
    entries: Seq<EntryView>,
    at: int,
)
    requires
        placed(headings, moved, contents, number, entries),
    ensures
        entries.len() == headings.len() + contents.len(),
        0 <= at < headings.len() ==> entries[at].title == headings[at].title && entries[at].level
            == headings[at].level && moved.ensures(
            (headings[at].page,),
            entries[at].target_page as usize,
        ) && number.ensures((entries[at].target_page as usize,), entries[at].page as i64),
        0 <= at < contents.len() ==> entries[headings.len() + at].title == contents[at].1@
            && entries[headings.len() + at].target_page == contents[at].0 && number.ensures(
            (contents[at].0,),
            entries[headings.len() + at].page as i64,
        ),
{
    if 0 <= at < headings.len() {
        assert(is_heading_entry(entries[at], headings[at], moved, number));
    }
    if 0 <= at < contents.len() {
        assert(is_contents_entry(
            entries[headings.len() + at],
            contents[headings.len() + at - headings.len()],
            number,
        ));
    }
}

} // verus!
