//! The outline of a file, as a document of its own.
//!
//! Each object of the command line has an entry that wraps the headings on its
//! own pages. Entries are named by anchors that are counted over all documents
//! first and over all tables of contents after them.

use crate::numbering::{deeper, OutlineItem};
use crate::text::{
    chars_of, decimal, find, first_of, in_base, lemma_decimal_chars, lemma_find, lemma_find_none,
    push_in_base, push_signed,
};
use vstd::prelude::*;

verus! {

/// What an object is to the outline.
#[derive(Clone, Copy, Debug, PartialEq, Eq)]
pub enum Role {
    /// A document, named among the documents.
    Document,
    /// A table of contents, named after the documents.
    Contents,
    /// Kept out: an entry of its own, without a name.
    Excluded,
}

/// An object of the command line, as it came out.
#[derive(Debug, PartialEq, Eq)]
pub struct Object {
    pub title: String,
    pub pages: usize,
    pub role: Role,
}

/// An entry of the outline.
#[derive(Debug, PartialEq, Eq)]
pub struct Entry {
    pub title: String,
    pub page: i64,
    pub link: String,
    pub back_link: String,
    pub children: Vec<Entry>,
}

/// An [`Entry`] by the characters it holds.
pub struct EntryView {
    pub title: Seq<char>,
    pub page: int,
    pub link: Seq<char>,
    pub back_link: Seq<char>,
    pub children: Seq<EntryView>,
}

/// Entries by the characters they hold.
pub open spec fn entry_views(entries: Seq<Entry>) -> Seq<EntryView>
    decreases entries,
{
    if entries.len() == 0 {
        Seq::empty()
    } else {
        entry_views(entries.drop_last()).push(
            EntryView {
                title: entries.last().title@,
                page: entries.last().page as int,
                link: entries.last().link@,
                back_link: entries.last().back_link@,
                children: entry_views(entries.last().children@),
            },
        )
    }
}

proof fn lemma_entry_views(entries: Seq<Entry>)
    ensures
        entry_views(entries).len() == entries.len(),
        forall|i: int|
            0 <= i < entries.len() ==> #[trigger] entry_views(entries)[i] == (EntryView {
                title: entries[i].title@,
                page: entries[i].page as int,
                link: entries[i].link@,
                back_link: entries[i].back_link@,
                children: entry_views(entries[i].children@),
            }),
    decreases entries.len(),
{
    if entries.len() > 0 {
        lemma_entry_views(entries.drop_last());
        assert forall|i: int| 0 <= i < entries.len() implies #[trigger] entry_views(entries)[i] == (
        EntryView {
            title: entries[i].title@,
            page: entries[i].page as int,
            link: entries[i].link@,
            back_link: entries[i].back_link@,
            children: entry_views(entries[i].children@),
        }) by {
            if i < entries.len() - 1 {
                assert(entries.drop_last()[i] == entries[i]);
                assert(entry_views(entries)[i] == entry_views(entries.drop_last())[i]);
            }
        }
    }
}

/// The name of an anchor: a counter in base thirty-six.
pub open spec fn anchor_of(number: u64) -> Seq<char> {
    "__WKANCHOR_"@ + in_base(number as nat, 36)
}

/// The name of an anchor.
pub fn anchor(number: u64) -> (name: String)
    ensures
        name@ == anchor_of(number),
{
    let mut name = "__WKANCHOR_".to_owned();
    push_in_base(&mut name, number, 36);
    name
}

/// The headings that stand behind one page and not behind another.
pub open spec fn on_pages(items: Seq<OutlineItem>, after: int, upto: int) -> Seq<OutlineItem>
    decreases items.len(),
{
    if items.len() == 0 {
        Seq::empty()
    } else if after < items.last().page <= upto {
        on_pages(items.drop_last(), after, upto).push(items.last())
    } else {
        on_pages(items.drop_last(), after, upto)
    }
}

/// Headings as entries without names, their pages shifted by an offset.
pub open spec fn shifted(items: Seq<OutlineItem>, offset: int) -> Seq<EntryView>
    decreases items,
{
    if items.len() == 0 {
        Seq::empty()
    } else {
        shifted(items.drop_last(), offset).push(
            EntryView {
                title: items.last().title@,
                page: items.last().page + offset,
                link: Seq::empty(),
                back_link: Seq::empty(),
                children: shifted(items.last().children@, offset),
            },
        )
    }
}

/// How many pages the first objects have.
pub open spec fn pages_until(objects: Seq<Object>, count: int) -> int
    decreases count,
{
    if count <= 0 {
        0
    } else {
        pages_until(objects, count - 1) + objects[count - 1].pages
    }
}

/// The entries of the first objects, without names. An object carries the
/// number of the page before its own first one; one that is kept out of the
/// outline has nothing in it.
pub open spec fn unnamed(
    objects: Seq<Object>,
    headings: Seq<OutlineItem>,
    offset: int,
    count: int,
) -> Seq<EntryView>
    decreases count,
{
    if count <= 0 {
        Seq::empty()
    } else {
        let before = pages_until(objects, count - 1);
        unnamed(objects, headings, offset, count - 1).push(
            EntryView {
                title: objects[count - 1].title@,
                page: before + offset,
                link: Seq::empty(),
                back_link: Seq::empty(),
                children: if objects[count - 1].role is Excluded {
                    Seq::empty()
                } else {
                    shifted(on_pages(headings, before, pages_until(objects, count)), offset)
                },
            },
        )
    }
}

/// A counter moved on, as far as it counts.
pub open spec fn moved_on(counter: u64, by: u64) -> u64 {
    if counter <= u64::MAX - by {
        (counter + by) as u64
    } else {
        u64::MAX
    }
}

/// Entries with their names, each before those below it, and the counter after
/// the last. A table of contents links back to itself.
pub open spec fn named(entries: Seq<EntryView>, role: Role, counter: u64) -> (Seq<EntryView>, u64)
    decreases entries,
{
    if entries.len() == 0 {
        (Seq::empty(), counter)
    } else {
        let (rest, own) = named(entries.drop_last(), role, counter);
        let (children, next) = named(entries.last().children, role, moved_on(own, 2));
        (
            rest.push(
                EntryView {
                    link: anchor_of(own),
                    back_link: if role is Contents {
                        anchor_of(own)
                    } else {
                        anchor_of(moved_on(own, 1))
                    },
                    children,
                    ..entries.last()
                },
            ),
            next,
        )
    }
}

/// The entries of the objects of one role with their names, the others as they
/// are, and the counter after the last.
pub open spec fn named_role(
    objects: Seq<Object>,
    entries: Seq<EntryView>,
    role: Role,
    counter: u64,
) -> (Seq<EntryView>, u64)
    decreases entries.len(),
{
    if entries.len() == 0 {
        (Seq::empty(), counter)
    } else {
        let (rest, next) = named_role(objects, entries.drop_last(), role, counter);
        if objects[entries.len() - 1].role == role {
            let (own, after) = named(seq![entries.last()], role, next);
            (rest + own, after)
        } else {
            (rest.push(entries.last()), next)
        }
    }
}

/// The outline of a file: one entry per object, named over the documents first
/// and over the tables of contents after them.
pub open spec fn dumped(
    objects: Seq<Object>,
    headings: Seq<OutlineItem>,
    offset: int,
) -> Seq<EntryView> {
    let entries = unnamed(objects, headings, offset, objects.len() as int);
    let (entries, counter) = named_role(objects, entries, Role::Document, 0);
    named_role(objects, entries, Role::Contents, counter).0
}

/// The pages of a tree of headings stay within a machine word when shifted.
pub open spec fn shiftable(items: Seq<OutlineItem>, offset: int) -> bool
    decreases items,
{
    items.len() > 0 ==> {
        &&& items.last().page + offset <= i64::MAX
        &&& shiftable(items.last().children@, offset)
        &&& shiftable(items.drop_last(), offset)
    }
}

proof fn lemma_shiftable(items: Seq<OutlineItem>, offset: int, at: int)
    requires
        shiftable(items, offset),
        0 <= at < items.len(),
    ensures
        items[at].page + offset <= i64::MAX,
        shiftable(items[at].children@, offset),
    decreases items.len(),
{
    if at < items.len() - 1 {
        lemma_shiftable(items.drop_last(), offset, at);
    }
}

/// A heading as an entry without a name.
fn numbered(item: &OutlineItem, offset: i64) -> (entry: Entry)
    requires
        item.page + offset <= i64::MAX,
        shiftable(item.children@, offset as int),
    ensures
        entry.title@ == item.title@,
        entry.page == item.page + offset,
        entry.link@ == Seq::<char>::empty(),
        entry.back_link@ == Seq::<char>::empty(),
        entry_views(entry.children@) == shifted(item.children@, offset as int),
    decreases item,
{
    let items = &item.children;
    let mut children: Vec<Entry> = Vec::new();
    let mut at: usize = 0;
    assert(items@.take(0) =~= Seq::empty());
    while at < items.len()
        invariant
            at <= items@.len(),
            *items == item.children,
            shiftable(items@, offset as int),
            entry_views(children@) == shifted(items@.take(at as int), offset as int),
        decreases items@.len() - at,
    {
        proof {
            lemma_shiftable(items@, offset as int, at as int);
            assert(items@.take(at + 1).drop_last() =~= items@.take(at as int));
        }
        let ghost before = children@;
        assert(decreases_to!(item => item.children));
        assert(decreases_to!(item.children@ => item.children@[at as int]));
        children.push(numbered(&items[at], offset));
        assert(children@.drop_last() =~= before);
        at = at + 1;
    }
    assert(items@.take(items@.len() as int) =~= items@);
    Entry {
        title: item.title.clone(),
        page: page_with(item.page, offset),
        link: String::new(),
        back_link: String::new(),
        children,
    }
}

/// A page and an offset.
fn page_with(page: usize, offset: i64) -> (number: i64)
    requires
        page + offset <= i64::MAX,
    ensures
        number == page + offset,
{
    (page as i128 + offset as i128) as i64
}

/// The headings of an object as entries without names.
fn children_of(headings: &Vec<OutlineItem>, after: usize, upto: usize, offset: i64) -> (children:
    Vec<Entry>)
    requires
        shiftable(headings@, offset as int),
    ensures
        entry_views(children@) == shifted(
            on_pages(headings@, after as int, upto as int),
            offset as int,
        ),
{
    let mut children: Vec<Entry> = Vec::new();
    let mut at: usize = 0;
    assert(headings@.take(0) =~= Seq::empty());
    while at < headings.len()
        invariant
            at <= headings@.len(),
            shiftable(headings@, offset as int),
            entry_views(children@) == shifted(
                on_pages(headings@.take(at as int), after as int, upto as int),
                offset as int,
            ),
        decreases headings@.len() - at,
    {
        let ghost kept = on_pages(headings@.take(at as int), after as int, upto as int);
        proof {
            lemma_shiftable(headings@, offset as int, at as int);
            assert(headings@.take(at + 1).drop_last() =~= headings@.take(at as int));
        }
        if after < headings[at].page && headings[at].page <= upto {
            let ghost before = children@;
            children.push(numbered(&headings[at], offset));
            assert(children@.drop_last() =~= before);
            assert(kept.push(headings@[at as int]).drop_last() =~= kept);
        }
        at = at + 1;
    }
    assert(headings@.take(headings@.len() as int) =~= headings@);
    children
}

/// A counter moved on.
fn count_on(counter: u64, by: u64) -> (next: u64)
    ensures
        next == moved_on(counter, by),
{
    if counter <= u64::MAX - by {
        counter + by
    } else {
        u64::MAX
    }
}

/// Entries with their names, and the counter after the last.
fn name_all(entries: &Vec<Entry>, role: Role, counter: u64) -> (outcome: (Vec<Entry>, u64))
    ensures
        (entry_views(outcome.0@), outcome.1) == named(entry_views(entries@), role, counter),
    decreases entries,
{
    let ghost all = entry_views(entries@);
    let mut out: Vec<Entry> = Vec::new();
    let mut next: u64 = counter;
    let mut at: usize = 0;
    proof {
        lemma_entry_views(entries@);
        assert(all.take(0) =~= Seq::empty());
    }
    while at < entries.len()
        invariant
            at <= entries@.len(),
            all == entry_views(entries@),
            all.len() == entries@.len(),
            (entry_views(out@), next) == named(all.take(at as int), role, counter),
        decreases entries@.len() - at,
    {
        proof {
            lemma_entry_views(entries@);
            assert(all.take(at + 1).drop_last() =~= all.take(at as int));
            assert(all.take(at + 1).last() == all[at as int]);
            assert(decreases_to!(entries => entries@));
            assert(decreases_to!(entries@ => entries@[at as int]));
        }
        let entry = &entries[at];
        let link = anchor(next);
        let back_link = match role {
            Role::Contents => anchor(next),
            Role::Document | Role::Excluded => anchor(count_on(next, 1)),
        };
        let (children, after) = name_all(&entry.children, role, count_on(next, 2));
        let ghost before = out@;
        out.push(
            Entry { title: entry.title.clone(), page: entry.page, link, back_link, children },
        );
        assert(out@.drop_last() =~= before);
        next = after;
        at = at + 1;
    }
    assert(all.take(all.len() as int) =~= all);
    (out, next)
}

/// The entries of the objects of one role with their names, the others as they
/// are, and the counter after the last.
fn name_role(objects: &Vec<Object>, entries: Vec<Entry>, role: Role, counter: u64) -> (outcome: (
    Vec<Entry>,
    u64,
))
    requires
        objects@.len() == entries@.len(),
    ensures
        (entry_views(outcome.0@), outcome.1) == named_role(
            objects@,
            entry_views(entries@),
            role,
            counter,
        ),
        outcome.0@.len() == entries@.len(),
{
    let ghost all = entry_views(entries@);
    let mut left = entries;
    let size: usize = left.len();
    let mut out: Vec<Entry> = Vec::new();
    let mut next: u64 = counter;
    let mut at: usize = 0;
    proof {
        lemma_entry_views(entries@);
        assert(all.take(0) =~= Seq::empty());
        assert(entries@.skip(0) =~= entries@);
    }
    while left.len() > 0
        invariant
            at + left@.len() == entries@.len() == size,
            objects@.len() == entries@.len(),
            all == entry_views(entries@),
            all.len() == entries@.len(),
            left@ == entries@.skip(at as int),
            out@.len() == at,
            (entry_views(out@), next) == named_role(objects@, all.take(at as int), role, counter),
        decreases left@.len(),
    {
        proof {
            lemma_entry_views(entries@);
            lemma_entry_views(out@);
            assert(all.take(at + 1).drop_last() =~= all.take(at as int));
            assert(all.take(at + 1).last() == all[at as int]);
        }
        let ghost before = out@;
        let entry = left.remove(0);
        assert(left@ =~= entries@.skip(at + 1));
        let wanted = match (objects[at].role, role) {
            (Role::Document, Role::Document) => true,
            (Role::Contents, Role::Contents) => true,
            (Role::Excluded, Role::Excluded) => true,
            _ => false,
        };
        if wanted {
            let mut own: Vec<Entry> = Vec::new();
            own.push(entry);
            proof {
                lemma_entry_views(own@);
                assert(entry_views(own@) =~= seq![all[at as int]]);
            }
            let (mut own, after) = name_all(&own, role, next);
            proof {
                lemma_named(seq![all[at as int]], role, next);
                lemma_entry_views(own@);
            }
            let ghost named_own = own@;
            out.append(&mut own);
            proof {
                lemma_joined(before, named_own);
            }
            next = after;
        } else {
            out.push(entry);
            assert(out@.drop_last() =~= before);
        }
        at = at + 1;
    }
    assert(all.take(all.len() as int) =~= all);
    (out, next)
}

proof fn lemma_named(entries: Seq<EntryView>, role: Role, counter: u64)
    ensures
        named(entries, role, counter).0.len() == entries.len(),
    decreases entries.len(),
{
    if entries.len() > 0 {
        lemma_named(entries.drop_last(), role, counter);
    }
}

proof fn lemma_joined(first: Seq<Entry>, second: Seq<Entry>)
    ensures
        entry_views(first + second) == entry_views(first) + entry_views(second),
{
    lemma_entry_views(first);
    lemma_entry_views(second);
    lemma_entry_views(first + second);
    assert(entry_views(first + second) =~= entry_views(first) + entry_views(second));
}

/// The outline of a file.
pub fn dump(objects: &Vec<Object>, headings: &Vec<OutlineItem>, offset: i64) -> (entries: Vec<Entry>)
    requires
        pages_until(objects@, objects@.len() as int) <= i64::MAX,
        pages_until(objects@, objects@.len() as int) <= usize::MAX,
        pages_until(objects@, objects@.len() as int) + offset <= i64::MAX,
        shiftable(headings@, offset as int),
    ensures
        entry_views(entries@) == dumped(objects@, headings@, offset as int),
        entries@.len() == objects@.len(),
{
    let count: usize = objects.len();
    let mut entries: Vec<Entry> = Vec::new();
    let mut before: usize = 0;
    let mut at: usize = 0;
    while at < count
        invariant
            at <= count == objects@.len(),
            before == pages_until(objects@, at as int),
            pages_until(objects@, count as int) <= usize::MAX,
            pages_until(objects@, count as int) + offset <= i64::MAX,
            shiftable(headings@, offset as int),
            entries@.len() == at,
            entry_views(entries@) == unnamed(objects@, headings@, offset as int, at as int),
        decreases count - at,
    {
        proof {
            lemma_pages_until(objects@, at + 1, count as int);
            lemma_pages_until(objects@, at as int, count as int);
        }
        let last: usize = before + objects[at].pages;
        let ghost earlier = entries@;
        let children: Vec<Entry> = match objects[at].role {
            Role::Excluded => Vec::new(),
            _ => children_of(headings, before, last, offset),
        };
        assert(entry_views(children@) == unnamed(
            objects@,
            headings@,
            offset as int,
            at + 1,
        ).last().children);
        entries.push(
            Entry {
                title: objects[at].title.clone(),
                page: page_with(before, offset),
                link: String::new(),
                back_link: String::new(),
                children,
            },
        );
        assert(entries@.drop_last() =~= earlier);
        before = last;
        at = at + 1;
    }
    let (entries, counter) = name_role(objects, entries, Role::Document, 0);
    let (entries, _) = name_role(objects, entries, Role::Contents, counter);
    entries
}

proof fn lemma_pages_until(objects: Seq<Object>, low: int, high: int)
    requires
        0 <= low <= high <= objects.len(),
    ensures
        0 <= pages_until(objects, low) <= pages_until(objects, high),
    decreases high,
{
    if low < high {
        lemma_pages_until(objects, low, high - 1);
    } else if low > 0 {
        lemma_pages_until(objects, low - 1, low - 1);
    }
}

/// A control character.
pub open spec fn is_control(c: char) -> bool {
    c <= '\u{1f}' || ('\u{7f}' <= c && c <= '\u{9f}')
}

/// A character as it is written in an attribute. A control character is not
/// written, but for the three that XML allows.
pub open spec fn xml_char(c: char) -> Seq<char> {
    if c == '&' {
        "&amp;"@
    } else if c == '<' {
        "&lt;"@
    } else if c == '>' {
        "&gt;"@
    } else if c == '"' {
        "&quot;"@
    } else if c == '\'' {
        "&apos;"@
    } else if c == '\t' || c == '\n' || c == '\r' {
        seq![c]
    } else if is_control(c) {
        Seq::empty()
    } else {
        seq![c]
    }
}

/// A text as it is written in an attribute.
pub open spec fn xml_text(text: Seq<char>) -> Seq<char>
    decreases text.len(),
{
    if text.len() == 0 {
        Seq::empty()
    } else {
        xml_text(text.drop_last()) + xml_char(text.last())
    }
}

/// Write a text for an attribute.
pub fn escape(raw: &str) -> (out: String)
    ensures
        out@ == xml_text(raw@),
{
    let chars = chars_of(raw);
    let mut out = String::new();
    let mut at: usize = 0;
    assert(raw@.take(0) =~= Seq::empty());
    while at < chars.len()
        invariant
            at <= chars@.len(),
            chars@ == raw@,
            out@ == xml_text(raw@.take(at as int)),
        decreases chars@.len() - at,
    {
        let c = chars[at];
        assert(raw@.take(at + 1).drop_last() =~= raw@.take(at as int));
        let ghost before = out@;
        if c == '&' {
            out.push_str("&amp;");
        } else if c == '<' {
            out.push_str("&lt;");
        } else if c == '>' {
            out.push_str("&gt;");
        } else if c == '"' {
            out.push_str("&quot;");
        } else if c == '\'' {
            out.push_str("&apos;");
        } else if c == '\t' || c == '\n' || c == '\r' || !(c <= '\u{1f}' || ('\u{7f}' <= c && c
            <= '\u{9f}')) {
            out.push(c);
            assert(out@ =~= before + seq![c]);
        } else {
            assert(out@ =~= before + Seq::<char>::empty());
        }
        at = at + 1;
    }
    assert(raw@.take(raw@.len() as int) =~= raw@);
    out
}

/// So many times two spaces.
pub open spec fn indent(depth: usize) -> Seq<char>
    decreases depth,
{
    if depth == 0 {
        Seq::empty()
    } else {
        indent((depth - 1) as usize) + "  "@
    }
}

/// The start of the line of an entry.
pub open spec fn line_of(entry: EntryView, depth: usize) -> Seq<char> {
    indent(depth) + "<item title=\""@ + xml_text(entry.title) + "\" page=\""@ + decimal(entry.page)
        + "\" link=\""@ + xml_text(entry.link) + "\" backLink=\""@ + xml_text(entry.back_link)
        + "\""@
}

/// Entries as they are written, one per line.
pub open spec fn written(entries: Seq<EntryView>, depth: usize) -> Seq<char>
    decreases entries,
{
    if entries.len() == 0 {
        Seq::empty()
    } else {
        let entry = entries.last();
        let line = written(entries.drop_last(), depth) + line_of(entry, depth);
        if entry.children.len() == 0 {
            line + "/>\n"@
        } else {
            line + ">\n"@ + written(entry.children, deeper(depth)) + indent(depth) + "</item>\n"@
        }
    }
}

/// An outline as an XML document.
pub open spec fn xml_of(entries: Seq<EntryView>) -> Seq<char> {
    "<?xml version=\"1.0\" encoding=\"UTF-8\"?>\n<outline xmlns=\"http://wkhtmltopdf.org/outline\">\n"@
        + written(entries, 1) + "</outline>\n"@
}

fn push_indent(out: &mut String, depth: usize)
    ensures
        final(out)@ == old(out)@ + indent(depth),
    decreases depth,
{
    if depth > 0 {
        push_indent(out, depth - 1);
        out.push_str("  ");
    }
    assert(out@ =~= old(out)@ + indent(depth));
}

/// Write the start of the line of an entry.
fn write_line(out: &mut String, entry: &Entry, depth: usize)
    ensures
        final(out)@ == old(out)@ + line_of(
            EntryView {
                title: entry.title@,
                page: entry.page as int,
                link: entry.link@,
                back_link: entry.back_link@,
                children: entry_views(entry.children@),
            },
            depth,
        ),
{
    let mut line = String::new();
    push_indent(&mut line, depth);
    assert(line@ =~= indent(depth));
    line.push_str("<item title=\"");
    line.push_str(&escape(&entry.title));
    line.push_str("\" page=\"");
    push_signed(&mut line, entry.page);
    line.push_str("\" link=\"");
    line.push_str(&escape(&entry.link));
    line.push_str("\" backLink=\"");
    line.push_str(&escape(&entry.back_link));
    line.push_str("\"");
    out.push_str(&line);
}

/// Write entries, one per line.
fn write_entries(out: &mut String, entries: &Vec<Entry>, depth: usize)
    ensures
        final(out)@ == old(out)@ + written(entry_views(entries@), depth),
    decreases entries,
{
    let ghost start = out@;
    let ghost all = entry_views(entries@);
    let mut at: usize = 0;
    proof {
        lemma_entry_views(entries@);
        assert(all.take(0) =~= Seq::empty());
        assert(start + written(all.take(0), depth) =~= start);
    }
    while at < entries.len()
        invariant
            at <= entries@.len(),
            all == entry_views(entries@),
            all.len() == entries@.len(),
            start == old(out)@,
            out@ == start + written(all.take(at as int), depth),
        decreases entries@.len() - at,
    {
        proof {
            lemma_entry_views(entries@);
            assert(all.take(at + 1).drop_last() =~= all.take(at as int));
            assert(all.take(at + 1).last() == all[at as int]);
            assert(decreases_to!(entries => entries@));
            assert(decreases_to!(entries@ => entries@[at as int]));
        }
        let entry = &entries[at];
        let ghost rest = out@;
        write_line(out, entry, depth);
        let ghost line = out@;
        assert(line == rest + line_of(all[at as int], depth));
        proof {
            lemma_entry_views(entry.children@);
        }
        if entry.children.len() == 0 {
            out.push_str("/>\n");
        } else {
            out.push_str(">\n");
            let below: usize = if depth < usize::MAX {
                depth + 1
            } else {
                depth
            };
            write_entries(out, &entry.children, below);
            push_indent(out, depth);
            out.push_str("</item>\n");
        }
        assert(out@ =~= start + written(all.take(at + 1), depth));
        at = at + 1;
    }
    assert(all.take(all.len() as int) =~= all);
}

/// Write an outline as an XML document.
pub fn xml(entries: &Vec<Entry>) -> (text: String)
    ensures
        text@ == xml_of(entry_views(entries@)),
{
    let mut text =
        "<?xml version=\"1.0\" encoding=\"UTF-8\"?>\n<outline xmlns=\"http://wkhtmltopdf.org/outline\">\n".to_owned();
    write_entries(&mut text, entries, 1);
    text.push_str("</outline>\n");
    text
}

/// How many entries there are, with those below them.
pub open spec fn size(entries: Seq<EntryView>) -> nat
    decreases entries,
{
    if entries.len() == 0 {
        0
    } else {
        size(entries.drop_last()) + 1 + size(entries.last().children)
    }
}

/// The links of entries, each before those below it.
pub open spec fn links_of(entries: Seq<EntryView>) -> Seq<Seq<char>>
    decreases entries,
{
    if entries.len() == 0 {
        Seq::empty()
    } else {
        links_of(entries.drop_last()) + seq![entries.last().link] + links_of(
            entries.last().children,
        )
    }
}

/// Naming counts on by two per entry, and the links are the anchors that were
/// counted, in reading order.
pub proof fn law_anchors_count_by_two(entries: Seq<EntryView>, role: Role, counter: u64)
    requires
        counter + 2 * size(entries) <= u64::MAX,
    ensures
        named(entries, role, counter).1 == counter + 2 * size(entries),
        links_of(named(entries, role, counter).0) == Seq::new(
            size(entries),
            |k: int| anchor_of((counter + 2 * k) as u64),
        ),
    decreases entries,
{
    let (all, after) = named(entries, role, counter);
    let expected = Seq::new(size(entries), |k: int| anchor_of((counter + 2 * k) as u64));
    if entries.len() > 0 {
        let (rest, own) = named(entries.drop_last(), role, counter);
        law_anchors_count_by_two(entries.drop_last(), role, counter);
        let (children, next) = named(entries.last().children, role, moved_on(own, 2));
        law_anchors_count_by_two(entries.last().children, role, moved_on(own, 2));
        assert(all.drop_last() =~= rest);
        assert(links_of(all) =~= expected);
    } else {
        assert(links_of(all) =~= expected);
    }
}

/// Two numbers have two anchors.
pub proof fn law_anchors_differ(first: u64, second: u64)
    requires
        first != second,
    ensures
        anchor_of(first) != anchor_of(second),
{
    let prefix = "__WKANCHOR_"@;
    let one = in_base(first as nat, 36);
    let other = in_base(second as nat, 36);
    if anchor_of(first) == anchor_of(second) {
        assert(anchor_of(first).skip(prefix.len() as int) =~= one);
        assert(anchor_of(second).skip(prefix.len() as int) =~= other);
        crate::text::lemma_in_base(first as nat, second as nat, 36);
    }
}

proof fn lemma_other_roles(objects: Seq<Object>, entries: Seq<EntryView>, role: Role, counter: u64)
    requires
        entries.len() <= objects.len(),
    ensures
        named_role(objects, entries, role, counter).0.len() == entries.len(),
        forall|i: int|
            0 <= i < entries.len() && objects[i].role != role ==> #[trigger] named_role(
                objects,
                entries,
                role,
                counter,
            ).0[i] == entries[i],
    decreases entries.len(),
{
    if entries.len() > 0 {
        let (_, next) = named_role(objects, entries.drop_last(), role, counter);
        lemma_other_roles(objects, entries.drop_last(), role, counter);
        lemma_named(seq![entries.last()], role, next);
    }
}

proof fn lemma_unnamed(
    objects: Seq<Object>,
    headings: Seq<OutlineItem>,
    offset: int,
    count: int,
    at: int,
)
    requires
        0 <= count,
        0 <= at,
    ensures
        unnamed(objects, headings, offset, count).len() == count,
        at < count ==> unnamed(objects, headings, offset, count)[at] == unnamed(
            objects,
            headings,
            offset,
            at + 1,
        ).last(),
    decreases count,
{
    if count > 0 {
        lemma_unnamed(objects, headings, offset, count - 1, at);
    }
}

/// An object that is kept out of the outline is an entry with nothing in it and
/// without anchors, whatever headings stand on its pages.
pub proof fn law_an_excluded_object_holds_nothing(
    objects: Seq<Object>,
    headings: Seq<OutlineItem>,
    offset: int,
    at: int,
)
    requires
        0 <= at < objects.len(),
        objects[at].role is Excluded,
    ensures
        dumped(objects, headings, offset).len() == objects.len(),
        dumped(objects, headings, offset)[at] == (EntryView {
            title: objects[at].title@,
            page: pages_until(objects, at) + offset,
            link: Seq::empty(),
            back_link: Seq::empty(),
            children: Seq::empty(),
        }),
{
    let entries = unnamed(objects, headings, offset, objects.len() as int);
    lemma_unnamed(objects, headings, offset, objects.len() as int, at);
    lemma_other_roles(objects, entries, Role::Document, 0);
    let (entries, counter) = named_role(objects, entries, Role::Document, 0);
    lemma_other_roles(objects, entries, Role::Contents, counter);
}

/// A title written into an attribute cannot end it, and holds no character that
/// XML forbids among the controls.
pub proof fn law_xml_text_stays_inside(text: Seq<char>, at: int)
    requires
        0 <= at < xml_text(text).len(),
    ensures
        xml_text(text)[at] != '<',
        xml_text(text)[at] != '>',
        xml_text(text)[at] != '"',
        xml_text(text)[at] != '\'',
        is_control(xml_text(text)[at]) ==> xml_text(text)[at] == '\t' || xml_text(text)[at] == '\n'
            || xml_text(text)[at] == '\r',
    decreases text.len(),
{
    reveal_strlit("&amp;");
    reveal_strlit("&lt;");
    reveal_strlit("&gt;");
    reveal_strlit("&quot;");
    reveal_strlit("&apos;");
    if text.len() > 0 {
        let before = xml_text(text.drop_last());
        if at < before.len() {
            law_xml_text_stays_inside(text.drop_last(), at);
        } else {
            assert(xml_text(text)[at] == xml_char(text.last())[at - before.len()]);
        }
    }
}

/// A text is written into an attribute character by character: the five that mark
/// something as references, a control that XML forbids not at all, and every other
/// one as it is.
pub proof fn law_attributes_go_character_by_character(first: Seq<char>, second: Seq<char>, c: char)
    ensures
        xml_text(first + second) == xml_text(first) + xml_text(second),
        c == '&' ==> xml_text(seq![c]) == "&amp;"@,
        c == '<' ==> xml_text(seq![c]) == "&lt;"@,
        c == '>' ==> xml_text(seq![c]) == "&gt;"@,
        c == '"' ==> xml_text(seq![c]) == "&quot;"@,
        c == '\'' ==> xml_text(seq![c]) == "&apos;"@,
        c == '\t' || c == '\n' || c == '\r' ==> xml_text(seq![c]) == seq![c],
        0x20 > c as u32 && c != '\t' && c != '\n' && c != '\r' ==> xml_text(seq![c]).len() == 0,
        0x7f <= c as u32 && 0x9f >= c as u32 ==> xml_text(seq![c]).len() == 0,
        (0x20 <= c as u32 && 0x7f > c as u32 || 0x9f < c as u32) && c != '&' && c != '<' && c != '>' && c != '"'
            && c != '\'' ==> xml_text(seq![c]) == seq![c],
    decreases second.len(),
{
    reveal_with_fuel(xml_text, 2);
    assert(seq![c].drop_last() =~= Seq::empty());
    assert(xml_text(seq![c]) =~= xml_char(c));
    if second.len() == 0 {
        assert(first + second =~= first);
        assert(xml_text(first) + xml_text(second) =~= xml_text(first));
    } else {
        assert((first + second).drop_last() =~= first + second.drop_last());
        law_attributes_go_character_by_character(first, second.drop_last(), c);
        assert(xml_text(first + second) =~= xml_text(first) + xml_text(second));
    }
}

/// The tag of an entry.
pub open spec fn tag_of(entry: EntryView) -> Seq<char> {
    "item title=\""@ + xml_text(entry.title) + "\" page=\""@ + decimal(entry.page) + "\" link=\""@
        + xml_text(entry.link) + "\" backLink=\""@ + xml_text(entry.back_link) + "\""@
}

/// So many spaces.
pub open spec fn spaces(count: nat) -> Seq<char> {
    Seq::new(count, |i: int| ' ')
}

proof fn lemma_indent(depth: usize)
    ensures
        indent(depth) == spaces((2 * depth) as nat),
    decreases depth,
{
    reveal_strlit("  ");
    if depth > 0 {
        lemma_indent((depth - 1) as usize);
    }
    assert(indent(depth) =~= spaces((2 * depth) as nat));
}

/// Entries are written one after the other.
pub proof fn law_entries_are_written_in_turn(
    first: Seq<EntryView>,
    second: Seq<EntryView>,
    depth: usize,
)
    ensures
        written(first + second, depth) == written(first, depth) + written(second, depth),
    decreases second.len(),
{
    if second.len() == 0 {
        assert(first + second =~= first);
        assert(written(first, depth) + written(second, depth) =~= written(first, depth));
    } else {
        assert((first + second).drop_last() =~= first + second.drop_last());
        assert((first + second).last() == second.last());
        law_entries_are_written_in_turn(first, second.drop_last(), depth);
        assert(written(first + second, depth) =~= written(first, depth) + written(second, depth));
    }
}

/// However deep an entry stands, it is written, and those below it are written
/// inside it, one step further in.
pub proof fn law_an_entry_holds_those_below_it(entry: EntryView, depth: usize)
    requires
        depth < usize::MAX,
    ensures
        entry.children.len() == 0 ==> written(seq![entry], depth) == spaces((2 * depth) as nat)
            + "<"@ + tag_of(entry) + "/>\n"@,
        entry.children.len() > 0 ==> written(seq![entry], depth) == spaces((2 * depth) as nat)
            + "<"@ + tag_of(entry) + ">\n"@ + written(entry.children, (depth + 1) as usize)
            + spaces((2 * depth) as nat) + "</item>\n"@,
{
    lemma_indent(depth);
    reveal_strlit("<");
    reveal_strlit("<item title=\"");
    reveal_strlit("item title=\"");
    assert(seq![entry].drop_last() =~= Seq::empty());
    assert("<item title=\""@ =~= "<"@ + "item title=\""@);
    let line = line_of(entry, depth);
    assert(line =~= spaces((2 * depth) as nat) + "<"@ + tag_of(entry));
    assert(written(seq![entry].drop_last(), depth) =~= Seq::empty());
    assert(Seq::<char>::empty() + line =~= line);
}

/// The tags of a text, in turn.
#[verifier::opaque]
pub open spec fn tags_of(text: Seq<char>) -> Seq<Seq<char>>
    decreases text.len(),
{
    match find(text, '<') {
        None => Seq::empty(),
        Some(at) => {
            let begun = text.skip(at + 1);
            match find(begun, '>') {
                None => Seq::empty(),
                Some(end) => seq![begun.take(end)] + tags_of(begun.skip(end + 1)),
            }
        },
    }
}

proof fn lemma_tag(before: Seq<char>, tag: Seq<char>, rest: Seq<char>)
    requires
        !before.contains('<'),
        !tag.contains('>'),
    ensures
        tags_of(before + "<"@ + tag + ">"@ + rest) == seq![tag] + tags_of(rest),
{
    reveal(tags_of);
    reveal_strlit("<");
    reveal_strlit(">");
    let all = before + "<"@ + tag + ">"@ + rest;
    let at = before.len() as int;
    assert forall|i: int| 0 <= i < at implies all[i] != '<' by {
        assert(all[i] == before[i]);
        assert(before.contains(before[i]));
    }
    assert(first_of(all, '<', '<', at));
    lemma_find(all, '<', '<', at);
    let begun = all.skip(at + 1);
    assert(begun =~= tag + ">"@ + rest);
    let end = tag.len() as int;
    assert forall|i: int| 0 <= i < end implies begun[i] != '>' by {
        assert(begun[i] == tag[i]);
        assert(tag.contains(tag[i]));
    }
    assert(first_of(begun, '>', '>', end));
    lemma_find(begun, '>', '>', end);
    assert(begun.take(end) =~= tag);
    assert(begun.skip(end + 1) =~= rest);
}

/// The tags of a tree of entries: one that is closed at once for an entry with
/// nothing below it, and a pair around those of the entries below it.
pub open spec fn tree_tags(entries: Seq<EntryView>) -> Seq<Seq<char>>
    decreases entries,
{
    if entries.len() == 0 {
        Seq::empty()
    } else {
        let entry = entries.last();
        tree_tags(entries.drop_last()) + if entry.children.len() == 0 {
            seq![tag_of(entry) + "/"@]
        } else {
            seq![tag_of(entry)] + tree_tags(entry.children) + seq!["/item"@]
        }
    }
}

proof fn lemma_tag_of(entry: EntryView)
    ensures
        !tag_of(entry).contains('>'),
        !(tag_of(entry) + "/"@).contains('>'),
        tag_of(entry).len() > 5,
        tag_of(entry).take(5) == "item "@,
        (tag_of(entry) + "/"@).take(5) == "item "@,
{
    reveal_strlit("item title=\"");
    reveal_strlit("\" page=\"");
    reveal_strlit("\" link=\"");
    reveal_strlit("\" backLink=\"");
    reveal_strlit("\"");
    reveal_strlit("/");
    reveal_strlit("item ");
    let one = xml_text(entry.title);
    let two = decimal(entry.page);
    let three = xml_text(entry.link);
    let four = xml_text(entry.back_link);
    assert forall|i: int| 0 <= i < one.len() implies one[i] != '>' by {
        law_xml_text_stays_inside(entry.title, i);
    }
    assert forall|i: int| 0 <= i < two.len() implies two[i] != '>' by {
        lemma_decimal_chars(entry.page);
    }
    assert forall|i: int| 0 <= i < three.len() implies three[i] != '>' by {
        law_xml_text_stays_inside(entry.link, i);
    }
    assert forall|i: int| 0 <= i < four.len() implies four[i] != '>' by {
        law_xml_text_stays_inside(entry.back_link, i);
    }
    lemma_apart(one, two, three, four);
    assert(tag_of(entry).take(5) =~= "item "@);
    assert((tag_of(entry) + "/"@).take(5) =~= "item "@);
}

#[verifier::spinoff_prover]
#[verifier::rlimit(60)]
proof fn lemma_apart(one: Seq<char>, two: Seq<char>, three: Seq<char>, four: Seq<char>)
    requires
        forall|i: int| 0 <= i < one.len() ==> one[i] != '>',
        forall|i: int| 0 <= i < two.len() ==> two[i] != '>',
        forall|i: int| 0 <= i < three.len() ==> three[i] != '>',
        forall|i: int| 0 <= i < four.len() ==> four[i] != '>',
    ensures
        !("item title=\""@ + one + "\" page=\""@ + two + "\" link=\""@ + three + "\" backLink=\""@
            + four + "\""@).contains('>'),
        !("item title=\""@ + one + "\" page=\""@ + two + "\" link=\""@ + three + "\" backLink=\""@
            + four + "\""@ + "/"@).contains('>'),
{
    reveal_strlit("item title=\"");
    reveal_strlit("\" page=\"");
    reveal_strlit("\" link=\"");
    reveal_strlit("\" backLink=\"");
    reveal_strlit("\"");
    reveal_strlit("/");
}

proof fn lemma_leaf_tags(entry: EntryView, depth: usize, rest: Seq<char>)
    ensures
        tags_of(line_of(entry, depth) + "/>\n"@ + rest) == seq![tag_of(entry) + "/"@] + tags_of(
            rest,
        ),
{
    lemma_indent(depth);
    lemma_tag_of(entry);
    reveal_strlit("<");
    reveal_strlit(">");
    reveal_strlit("/");
    reveal_strlit("/>\n");
    reveal_strlit("<item title=\"");
    reveal_strlit("item title=\"");
    assert("<item title=\""@ =~= "<"@ + "item title=\""@);
    assert(line_of(entry, depth) =~= indent(depth) + "<"@ + tag_of(entry));
    let newline = seq!['\n'];
    assert("/>\n"@ =~= "/"@ + ">"@ + newline);
    let all = line_of(entry, depth) + "/>\n"@ + rest;
    assert(all =~= indent(depth) + "<"@ + (tag_of(entry) + "/"@) + ">"@ + (newline + rest));
    lemma_tag(indent(depth), tag_of(entry) + "/"@, newline + rest);
    lemma_no_tag(newline, rest);
}

proof fn lemma_open_tags(entry: EntryView, depth: usize, rest: Seq<char>)
    ensures
        tags_of(line_of(entry, depth) + ">\n"@ + rest) == seq![tag_of(entry)] + tags_of(rest),
{
    lemma_indent(depth);
    lemma_tag_of(entry);
    reveal_strlit("<");
    reveal_strlit(">");
    reveal_strlit(">\n");
    reveal_strlit("<item title=\"");
    reveal_strlit("item title=\"");
    assert("<item title=\""@ =~= "<"@ + "item title=\""@);
    assert(line_of(entry, depth) =~= indent(depth) + "<"@ + tag_of(entry));
    let newline = seq!['\n'];
    assert(">\n"@ =~= ">"@ + newline);
    let all = line_of(entry, depth) + ">\n"@ + rest;
    assert(all =~= indent(depth) + "<"@ + tag_of(entry) + ">"@ + (newline + rest));
    lemma_tag(indent(depth), tag_of(entry), newline + rest);
    lemma_no_tag(newline, rest);
}

proof fn lemma_close_tags(depth: usize, rest: Seq<char>)
    ensures
        tags_of(indent(depth) + "</item>\n"@ + rest) == seq!["/item"@] + tags_of(rest),
{
    lemma_indent(depth);
    reveal_strlit("<");
    reveal_strlit(">");
    reveal_strlit("/item");
    reveal_strlit("</item>\n");
    let newline = seq!['\n'];
    assert("</item>\n"@ =~= "<"@ + "/item"@ + ">"@ + newline);
    let all = indent(depth) + "</item>\n"@ + rest;
    assert(all =~= indent(depth) + "<"@ + "/item"@ + ">"@ + (newline + rest));
    lemma_tag(indent(depth), "/item"@, newline + rest);
    lemma_no_tag(newline, rest);
}

/// What holds no tag adds none.
proof fn lemma_no_tag(before: Seq<char>, rest: Seq<char>)
    requires
        !before.contains('<'),
    ensures
        tags_of(before + rest) == tags_of(rest),
{
    reveal(tags_of);
    let all = before + rest;
    match find(rest, '<') {
        None => {
            lemma_find_none(rest, '<', '<');
            assert forall|i: int| 0 <= i < all.len() implies all[i] != '<' by {
                if i < before.len() {
                    assert(before.contains(before[i]));
                } else {
                    assert(all[i] == rest[i - before.len()]);
                }
            }
            lemma_find_none(all, '<', '<');
        },
        Some(at) => {
            assert(first_of(rest, '<', '<', at));
            assert forall|i: int| 0 <= i < at + before.len() implies all[i] != '<' by {
                if i < before.len() {
                    assert(before.contains(before[i]));
                } else {
                    assert(all[i] == rest[i - before.len()]);
                }
            }
            assert(first_of(all, '<', '<', at + before.len()));
            lemma_find(all, '<', '<', at + before.len());
            assert(all.skip(at + before.len() + 1) =~= rest.skip(at + 1));
        },
    }
}

proof fn lemma_regrouped(first: Seq<char>, second: Seq<char>, third: Seq<char>, rest: Seq<char>)
    ensures
        first + second + third + rest == first + (second + third + rest),
{
    assert(first + second + third + rest =~= first + (second + third + rest));
}

proof fn lemma_regrouped_around(
    first: Seq<char>,
    second: Seq<char>,
    third: Seq<char>,
    inner: Seq<char>,
    fourth: Seq<char>,
    fifth: Seq<char>,
    rest: Seq<char>,
)
    ensures
        first + second + third + inner + fourth + fifth + rest == first + (second + third + (inner
            + (fourth + fifth + rest))),
{
    assert(first + second + third + inner + fourth + fifth + rest =~= first + (second + third + (
    inner + (fourth + fifth + rest))));
}

proof fn lemma_tags_regrouped(
    before: Seq<Seq<char>>,
    tag: Seq<char>,
    inner: Seq<Seq<char>>,
    end: Seq<char>,
    rest: Seq<Seq<char>>,
)
    ensures
        before + (seq![tag] + (inner + (seq![end] + rest))) == before + (seq![tag] + inner
            + seq![end]) + rest,
        before + (seq![tag] + rest) == before + seq![tag] + rest,
{
    assert(before + (seq![tag] + (inner + (seq![end] + rest))) =~= before + (seq![tag] + inner
        + seq![end]) + rest);
    assert(before + (seq![tag] + rest) =~= before + seq![tag] + rest);
}

/// A tree of entries is written with the tags of that tree, whatever the step it
/// begins at: none is left out, and each stands inside the one it is below.
pub proof fn law_the_tags_are_those_of_the_tree(
    entries: Seq<EntryView>,
    depth: usize,
    rest: Seq<char>,
)
    ensures
        tags_of(written(entries, depth) + rest) == tree_tags(entries) + tags_of(rest),
    decreases entries,
{
    if entries.len() == 0 {
        assert(written(entries, depth) + rest =~= rest);
        assert(tree_tags(entries) + tags_of(rest) =~= tags_of(rest));
    } else {
        let entry = entries.last();
        let before = entries.drop_last();
        let line = line_of(entry, depth);
        if entry.children.len() == 0 {
            let own = line + "/>\n"@ + rest;
            lemma_regrouped(written(before, depth), line, "/>\n"@, rest);
            law_the_tags_are_those_of_the_tree(before, depth, own);
            lemma_leaf_tags(entry, depth, rest);
        } else {
            let end = indent(depth) + "</item>\n"@ + rest;
            let inner = written(entry.children, deeper(depth)) + end;
            let own = line + ">\n"@ + inner;
            lemma_regrouped_around(
                written(before, depth),
                line,
                ">\n"@,
                written(entry.children, deeper(depth)),
                indent(depth),
                "</item>\n"@,
                rest,
            );
            law_the_tags_are_those_of_the_tree(before, depth, own);
            lemma_open_tags(entry, depth, inner);
            law_the_tags_are_those_of_the_tree(entry.children, deeper(depth), end);
            lemma_close_tags(depth, rest);
        }
        lemma_tags_regrouped(
            tree_tags(before),
            if entry.children.len() == 0 {
                tag_of(entry) + "/"@
            } else {
                tag_of(entry)
            },
            tree_tags(entry.children),
            "/item"@,
            tags_of(rest),
        );
    }
}

/// How many tags open an entry.
pub open spec fn items_in(tags: Seq<Seq<char>>) -> nat
    decreases tags.len(),
{
    if tags.len() == 0 {
        0
    } else {
        items_in(tags.drop_last()) + if tags.last().take(5) == "item "@ {
            1nat
        } else {
            0nat
        }
    }
}

proof fn lemma_items_in(first: Seq<Seq<char>>, second: Seq<Seq<char>>)
    ensures
        items_in(first + second) == items_in(first) + items_in(second),
    decreases second.len(),
{
    if second.len() == 0 {
        assert(first + second =~= first);
    } else {
        assert((first + second).drop_last() =~= first + second.drop_last());
        lemma_items_in(first, second.drop_last());
    }
}

proof fn lemma_one_item(tag: Seq<char>)
    ensures
        items_in(seq![tag]) == if tag.take(5) == "item "@ {
            1nat
        } else {
            0nat
        },
{
    reveal_with_fuel(items_in, 2);
    assert(seq![tag].drop_last() =~= Seq::empty());
}

proof fn lemma_tree_items(entries: Seq<EntryView>)
    ensures
        items_in(tree_tags(entries)) == size(entries),
    decreases entries,
{
    if entries.len() > 0 {
        let entry = entries.last();
        lemma_tree_items(entries.drop_last());
        lemma_tag_of(entry);
        if entry.children.len() == 0 {
            assert(size(entry.children) == 0);
            lemma_items_in(tree_tags(entries.drop_last()), seq![tag_of(entry) + "/"@]);
            lemma_one_item(tag_of(entry) + "/"@);
        } else {
            lemma_tree_items(entry.children);
            let inner = seq![tag_of(entry)] + tree_tags(entry.children);
            lemma_items_in(tree_tags(entries.drop_last()), inner + seq!["/item"@]);
            lemma_items_in(inner, seq!["/item"@]);
            lemma_items_in(seq![tag_of(entry)], tree_tags(entry.children));
            lemma_one_item(tag_of(entry));
            lemma_one_item("/item"@);
            reveal_strlit("/item");
            reveal_strlit("item ");
            assert("/item"@.take(5)[0] == '/');
            assert("item "@[0] == 'i');
        }
    }
}

/// A document of an outline holds one item for every entry, at whatever depth it
/// stands, between the tags of the document.
pub proof fn law_the_document_holds_every_entry(entries: Seq<EntryView>)
    ensures
        items_in(tags_of(xml_of(entries))) == size(entries),
        tags_of(xml_of(entries)) == seq![
            "?xml version=\"1.0\" encoding=\"UTF-8\"?"@,
            "outline xmlns=\"http://wkhtmltopdf.org/outline\""@,
        ] + tree_tags(entries) + seq!["/outline"@],
{
    let declared = "?xml version=\"1.0\" encoding=\"UTF-8\"?"@;
    let root = "outline xmlns=\"http://wkhtmltopdf.org/outline\""@;
    reveal_strlit("?xml version=\"1.0\" encoding=\"UTF-8\"?");
    reveal_strlit("outline xmlns=\"http://wkhtmltopdf.org/outline\"");
    reveal_strlit(
        "<?xml version=\"1.0\" encoding=\"UTF-8\"?>\n<outline xmlns=\"http://wkhtmltopdf.org/outline\">\n",
    );
    reveal_strlit("</outline>\n");
    reveal_strlit("/outline");
    reveal_strlit("<");
    reveal_strlit(">");
    reveal_strlit("item ");
    let newline = seq!['\n'];
    let none = Seq::<char>::empty();
    let tail = "</outline>\n"@;
    assert(tail =~= none + "<"@ + "/outline"@ + ">"@ + newline);
    lemma_tag(none, "/outline"@, newline);
    lemma_no_tag(newline, none);
    assert(newline + none =~= newline);
    assert(tags_of(none) =~= Seq::empty()) by {
        reveal(tags_of);
        lemma_find_none(none, '<', '<');
    }
    let body = written(entries, 1) + tail;
    law_the_tags_are_those_of_the_tree(entries, 1, tail);
    let second = newline + "<"@ + root + ">"@ + (newline + body);
    assert(xml_of(entries) =~= none + "<"@ + declared + ">"@ + second);
    lemma_tag(none, declared, second);
    lemma_tag(newline, root, newline + body);
    lemma_no_tag(newline, body);
    let tags = tags_of(xml_of(entries));
    assert(tags =~= seq![declared, root] + tree_tags(entries) + seq!["/outline"@]);
    lemma_items_in(seq![declared, root] + tree_tags(entries), seq!["/outline"@]);
    lemma_items_in(seq![declared, root], tree_tags(entries));
    lemma_items_in(seq![declared], seq![root]);
    assert(seq![declared] + seq![root] =~= seq![declared, root]);
    lemma_one_item(declared);
    lemma_one_item(root);
    lemma_one_item("/outline"@);
    lemma_tree_items(entries);
    assert(declared.take(5)[0] == '?');
    assert(root.take(5)[0] == 'o');
    assert("/outline"@.take(5)[0] == '/');
    assert("item "@[0] == 'i');
}

/// The entries there are: one, and those below it, and those of every other part.
pub proof fn law_every_entry_counts(first: Seq<EntryView>, second: Seq<EntryView>, entry: EntryView)
    ensures
        size(first + second) == size(first) + size(second),
        size(seq![entry]) == 1 + size(entry.children),
    decreases second.len(),
{
    reveal_with_fuel(size, 2);
    assert(seq![entry].drop_last() =~= Seq::empty());
    if second.len() == 0 {
        assert(first + second =~= first);
    } else {
        assert((first + second).drop_last() =~= first + second.drop_last());
        law_every_entry_counts(first, second.drop_last(), entry);
    }
}

/// Headings are filed by their page: those behind one page and not behind another
/// come out in the order in which they stand, and no others.
pub proof fn law_headings_are_filed_by_page(
    first: Seq<OutlineItem>,
    second: Seq<OutlineItem>,
    item: OutlineItem,
    after: int,
    upto: int,
)
    ensures
        on_pages(first + second, after, upto) == on_pages(first, after, upto) + on_pages(
            second,
            after,
            upto,
        ),
        after < item.page <= upto ==> on_pages(seq![item], after, upto) == seq![item],
        item.page <= after || upto < item.page ==> on_pages(seq![item], after, upto).len() == 0,
    decreases second.len(),
{
    reveal_with_fuel(on_pages, 2);
    assert(seq![item].drop_last() =~= Seq::empty());
    assert(Seq::empty().push(item) =~= seq![item]);
    if second.len() == 0 {
        assert(first + second =~= first);
        assert(on_pages(first, after, upto) + on_pages(second, after, upto) =~= on_pages(
            first,
            after,
            upto,
        ));
    } else {
        assert((first + second).drop_last() =~= first + second.drop_last());
        law_headings_are_filed_by_page(first, second.drop_last(), item, after, upto);
        assert(on_pages(first + second, after, upto) =~= on_pages(first, after, upto) + on_pages(
            second,
            after,
            upto,
        ));
    }
}

/// Every heading becomes an entry with its title, its page moved by the offset, and
/// the entries of the headings below it; none has a name yet.
pub proof fn law_headings_become_entries(items: Seq<OutlineItem>, offset: int, at: int)
    ensures
        shifted(items, offset).len() == items.len(),
        0 <= at < items.len() ==> shifted(items, offset)[at] == (EntryView {
            title: items[at].title@,
            page: items[at].page + offset,
            link: Seq::empty(),
            back_link: Seq::empty(),
            children: shifted(items[at].children@, offset),
        }),
    decreases items.len(),
{
    if items.len() > 0 {
        law_headings_become_entries(items.drop_last(), offset, at);
    }
}

/// Entries with their names taken off.
pub open spec fn without_names(entries: Seq<EntryView>) -> Seq<EntryView>
    decreases entries,
{
    if entries.len() == 0 {
        Seq::empty()
    } else {
        without_names(entries.drop_last()).push(
            EntryView {
                link: Seq::empty(),
                back_link: Seq::empty(),
                children: without_names(entries.last().children),
                ..entries.last()
            },
        )
    }
}

/// The names by which entries are linked back to, each before those below it.
pub open spec fn back_links_of(entries: Seq<EntryView>) -> Seq<Seq<char>>
    decreases entries,
{
    if entries.len() == 0 {
        Seq::empty()
    } else {
        back_links_of(entries.drop_last()) + seq![entries.last().back_link] + back_links_of(
            entries.last().children,
        )
    }
}

/// Naming gives names, and changes nothing else. A document's entry is linked back to
/// by the number behind its own, that of a table of contents by its own.
pub proof fn law_naming_only_names(entries: Seq<EntryView>, role: Role, counter: u64)
    ensures
        without_names(named(entries, role, counter).0) == without_names(entries),
        size(named(entries, role, counter).0) == size(entries),
        counter + 2 * size(entries) <= u64::MAX ==> back_links_of(named(entries, role, counter).0)
            == Seq::new(
            size(entries),
            |k: int|
                if role is Contents {
                    anchor_of((counter + 2 * k) as u64)
                } else {
                    anchor_of((counter + 2 * k + 1) as u64)
                },
        ),
    decreases entries,
{
    let (all, after) = named(entries, role, counter);
    let expected = Seq::new(
        size(entries),
        |k: int|
            if role is Contents {
                anchor_of((counter + 2 * k) as u64)
            } else {
                anchor_of((counter + 2 * k + 1) as u64)
            },
    );
    if entries.len() > 0 {
        let (rest, own) = named(entries.drop_last(), role, counter);
        law_naming_only_names(entries.drop_last(), role, counter);
        let (children, next) = named(entries.last().children, role, moved_on(own, 2));
        law_naming_only_names(entries.last().children, role, moved_on(own, 2));
        assert(all.drop_last() =~= rest);
        if counter + 2 * size(entries) <= u64::MAX {
            law_anchors_count_by_two(entries.drop_last(), role, counter);
            assert(back_links_of(all) =~= expected);
        }
    } else if counter + 2 * size(entries) <= u64::MAX {
        assert(back_links_of(all) =~= expected);
    }
}

proof fn lemma_no_names_yet(items: Seq<OutlineItem>, offset: int)
    ensures
        without_names(shifted(items, offset)) == shifted(items, offset),
    decreases items,
{
    if items.len() > 0 {
        lemma_no_names_yet(items.drop_last(), offset);
        lemma_no_names_yet(items.last().children@, offset);
        assert(shifted(items, offset).drop_last() =~= shifted(items.drop_last(), offset));
    }
}

/// How many entries the objects of a role have among the first ones.
pub open spec fn counted(
    objects: Seq<Object>,
    entries: Seq<EntryView>,
    role: Role,
    count: int,
) -> nat
    decreases count,
{
    if count <= 0 {
        0
    } else {
        counted(objects, entries, role, count - 1) + if objects[count - 1].role == role {
            size(seq![entries[count - 1]])
        } else {
            0
        }
    }
}

proof fn lemma_counted(
    objects: Seq<Object>,
    one: Seq<EntryView>,
    other: Seq<EntryView>,
    role: Role,
    count: int,
)
    requires
        forall|i: int|
            0 <= i < count && objects[i].role == role ==> size(seq![#[trigger] one[i]]) == size(
                seq![other[i]],
            ),
    ensures
        counted(objects, one, role, count) == counted(objects, other, role, count),
    decreases count,
{
    if count > 0 {
        lemma_counted(objects, one, other, role, count - 1);
        assert(objects[count - 1].role == role ==> size(seq![one[count - 1]]) == size(
            seq![other[count - 1]],
        ));
    }
}

proof fn lemma_counted_grows(
    objects: Seq<Object>,
    entries: Seq<EntryView>,
    role: Role,
    low: int,
    high: int,
)
    requires
        0 <= low <= high,
    ensures
        counted(objects, entries, role, low) <= counted(objects, entries, role, high),
    decreases high - low,
{
    if low < high {
        lemma_counted_grows(objects, entries, role, low, high - 1);
    }
}

proof fn lemma_named_role(objects: Seq<Object>, entries: Seq<EntryView>, role: Role, counter: u64)
    requires
        entries.len() <= objects.len(),
        counter + 2 * counted(objects, entries, role, entries.len() as int) <= u64::MAX,
    ensures
        named_role(objects, entries, role, counter).0.len() == entries.len(),
        named_role(objects, entries, role, counter).1 == counter + 2 * counted(
            objects,
            entries,
            role,
            entries.len() as int,
        ),
        forall|i: int|
            0 <= i < entries.len() && objects[i].role == role ==> seq![
                #[trigger] named_role(objects, entries, role, counter).0[i],
            ] == named(
                seq![entries[i]],
                role,
                (counter + 2 * counted(objects, entries, role, i)) as u64,
            ).0,
    decreases entries.len(),
{
    if entries.len() > 0 {
        let before = entries.drop_last();
        let last = entries.len() - 1;
        lemma_counted(objects, before, entries, role, last);
        let (rest, next) = named_role(objects, before, role, counter);
        lemma_named_role(objects, before, role, counter);
        if objects[last].role == role {
            law_anchors_count_by_two(seq![entries.last()], role, next);
            lemma_named(seq![entries.last()], role, next);
        }
        let all = named_role(objects, entries, role, counter).0;
        assert forall|i: int| 0 <= i < entries.len() && objects[i].role == role implies seq![
            #[trigger] all[i],
        ] == named(
            seq![entries[i]],
            role,
            (counter + 2 * counted(objects, entries, role, i)) as u64,
        ).0 by {
            if i < last {
                assert(all[i] == rest[i]);
                assert(before[i] == entries[i]);
                lemma_counted_before(objects, before, entries, role, i);
            } else {
                let own = named(seq![entries.last()], role, next).0;
                assert(own.len() == 1);
                assert(all[i] == own[0]);
                assert(seq![all[i]] =~= own);
            }
        }
    }
}

proof fn lemma_counted_before(
    objects: Seq<Object>,
    before: Seq<EntryView>,
    entries: Seq<EntryView>,
    role: Role,
    count: int,
)
    requires
        count <= before.len() <= entries.len(),
        forall|i: int| 0 <= i < before.len() ==> before[i] == entries[i],
    ensures
        counted(objects, before, role, count) == counted(objects, entries, role, count),
{
    lemma_counted(objects, before, entries, role, count);
}

proof fn lemma_kept_apart(objects: Seq<Object>, entries: Seq<EntryView>, role: Role, counter: u64)
    requires
        entries.len() <= objects.len(),
    ensures
        named_role(objects, entries, role, counter).0.len() == entries.len(),
        forall|i: int|
            0 <= i < entries.len() ==> without_names(
                seq![#[trigger] named_role(objects, entries, role, counter).0[i]],
            ) == without_names(seq![entries[i]]) && size(
                seq![named_role(objects, entries, role, counter).0[i]],
            ) == size(seq![entries[i]]),
    decreases entries.len(),
{
    if entries.len() > 0 {
        let before = entries.drop_last();
        let (rest, next) = named_role(objects, before, role, counter);
        lemma_kept_apart(objects, before, role, counter);
        lemma_named(seq![entries.last()], role, next);
        law_naming_only_names(seq![entries.last()], role, next);
        let all = named_role(objects, entries, role, counter).0;
        assert forall|i: int| 0 <= i < entries.len() implies without_names(
            seq![#[trigger] all[i]],
        ) == without_names(seq![entries[i]]) && size(seq![all[i]]) == size(seq![entries[i]]) by {
            if i < entries.len() - 1 {
                assert(all[i] == rest[i]);
                assert(before[i] == entries[i]);
            } else if objects[entries.len() - 1].role == role {
                let own = named(seq![entries.last()], role, next).0;
                assert(all[i] == own[0]);
                assert(seq![all[i]] =~= own);
            } else {
                assert(all[i] == entries.last());
            }
        }
    }
}

proof fn lemma_single(entry: EntryView)
    ensures
        without_names(seq![entry]).len() == 1,
        without_names(seq![entry])[0] == (EntryView {
            link: Seq::empty(),
            back_link: Seq::empty(),
            children: without_names(entry.children),
            ..entry
        }),
{
    reveal_with_fuel(without_names, 2);
    assert(seq![entry].drop_last() =~= Seq::empty());
}

proof fn lemma_outline(objects: Seq<Object>, headings: Seq<OutlineItem>, offset: int, at: int)
    requires
        0 <= at < objects.len(),
    ensures
        dumped(objects, headings, offset).len() == objects.len(),
        dumped(objects, headings, offset)[at].title == objects[at].title@,
        dumped(objects, headings, offset)[at].page == pages_until(objects, at) + offset,
        without_names(dumped(objects, headings, offset)[at].children) == if objects[at].role
            is Excluded {
            Seq::empty()
        } else {
            shifted(
                on_pages(headings, pages_until(objects, at), pages_until(objects, at + 1)),
                offset,
            )
        },
{
    let plain = unnamed(objects, headings, offset, objects.len() as int);
    lemma_unnamed(objects, headings, offset, objects.len() as int, at);
    lemma_kept_apart(objects, plain, Role::Document, 0);
    let (once, counter) = named_role(objects, plain, Role::Document, 0);
    lemma_kept_apart(objects, once, Role::Contents, counter);
    let all = dumped(objects, headings, offset);
    assert(without_names(seq![once[at]]) == without_names(seq![plain[at]]));
    assert(without_names(seq![all[at]]) == without_names(seq![once[at]]));
    lemma_single(plain[at]);
    lemma_single(all[at]);
    lemma_no_names_yet(
        on_pages(headings, pages_until(objects, at), pages_until(objects, at + 1)),
        offset,
    );
}

/// The outline has one entry per object, in their order, on the page before its own
/// first one; and below it the headings on its own pages, moved by the offset.
pub proof fn law_every_object_holds_its_own_headings(
    objects: Seq<Object>,
    headings: Seq<OutlineItem>,
    offset: int,
    at: int,
)
    requires
        0 <= at < objects.len(),
    ensures
        dumped(objects, headings, offset).len() == objects.len(),
        dumped(objects, headings, offset)[at].title == objects[at].title@,
        dumped(objects, headings, offset)[0].page == offset,
        at > 0 ==> dumped(objects, headings, offset)[at].page == dumped(
            objects,
            headings,
            offset,
        )[at - 1].page + objects[at - 1].pages,
        !(objects[at].role is Excluded) ==> without_names(
            dumped(objects, headings, offset)[at].children,
        ) == shifted(
            on_pages(
                headings,
                dumped(objects, headings, offset)[at].page - offset,
                dumped(objects, headings, offset)[at].page - offset + objects[at].pages,
            ),
            offset,
        ),
{
    lemma_outline(objects, headings, offset, 0);
    lemma_outline(objects, headings, offset, at);
    if at > 0 {
        lemma_outline(objects, headings, offset, at - 1);
    }
}

/// The documents are named first, one after the other, and the tables of contents
/// after all of them; every entry takes two numbers.
pub proof fn law_documents_are_named_before_contents(
    objects: Seq<Object>,
    headings: Seq<OutlineItem>,
    offset: int,
    at: int,
)
    requires
        0 <= at < objects.len(),
        2 * size(dumped(objects, headings, offset)) <= u64::MAX,
    ensures
        objects[at].role is Document ==> links_of(seq![dumped(objects, headings, offset)[at]])
            == Seq::new(
            size(seq![dumped(objects, headings, offset)[at]]),
            |k: int|
                anchor_of(
                    (2 * counted(
                        objects,
                        dumped(objects, headings, offset),
                        Role::Document,
                        at,
                    ) + 2 * k) as u64,
                ),
        ),
        objects[at].role is Contents ==> links_of(seq![dumped(objects, headings, offset)[at]])
            == Seq::new(
            size(seq![dumped(objects, headings, offset)[at]]),
            |k: int|
                anchor_of(
                    (2 * counted(
                        objects,
                        dumped(objects, headings, offset),
                        Role::Document,
                        objects.len() as int,
                    ) + 2 * counted(
                        objects,
                        dumped(objects, headings, offset),
                        Role::Contents,
                        at,
                    ) + 2 * k) as u64,
                ),
        ),
{
    let plain = unnamed(objects, headings, offset, objects.len() as int);
    let count = objects.len() as int;
    lemma_unnamed(objects, headings, offset, count, at);
    lemma_kept_apart(objects, plain, Role::Document, 0);
    let (once, counter) = named_role(objects, plain, Role::Document, 0);
    lemma_kept_apart(objects, once, Role::Contents, counter);
    let all = dumped(objects, headings, offset);
    lemma_counted(objects, all, plain, Role::Document, count);
    lemma_counted(objects, all, once, Role::Contents, count);
    lemma_counted(objects, all, plain, Role::Document, at);
    lemma_counted(objects, all, once, Role::Contents, at);
    lemma_counted_within(objects, all, count);
    lemma_counted_grows(objects, all, Role::Document, at, count);
    lemma_counted_grows(objects, all, Role::Contents, at, count);
    lemma_counted_grows(objects, all, Role::Document, at + 1, count);
    lemma_counted_grows(objects, all, Role::Contents, at + 1, count);
    assert(all.take(count) =~= all);
    lemma_named_role(objects, plain, Role::Document, 0);
    lemma_named_role(objects, once, Role::Contents, counter);
    lemma_other_roles(objects, plain, Role::Document, 0);
    lemma_other_roles(objects, once, Role::Contents, counter);
    if objects[at].role is Document {
        assert(all[at] == once[at]);
        assert(seq![once[at]] == named(
            seq![plain[at]],
            Role::Document,
            (2 * counted(objects, plain, Role::Document, at)) as u64,
        ).0);
        law_anchors_count_by_two(
            seq![plain[at]],
            Role::Document,
            (2 * counted(objects, plain, Role::Document, at)) as u64,
        );
        assert(size(seq![once[at]]) == size(seq![plain[at]]));
        assert(links_of(seq![all[at]]) =~= Seq::new(
            size(seq![all[at]]),
            |k: int| anchor_of((2 * counted(objects, all, Role::Document, at) + 2 * k) as u64),
        ));
    }
    if objects[at].role is Contents {
        let start = (counter + 2 * counted(objects, once, Role::Contents, at)) as u64;
        assert(seq![all[at]] == named(seq![once[at]], Role::Contents, start).0);
        law_anchors_count_by_two(seq![once[at]], Role::Contents, start);
        assert(size(seq![all[at]]) == size(seq![once[at]]));
        assert(links_of(seq![all[at]]) =~= Seq::new(
            size(seq![all[at]]),
            |k: int|
                anchor_of(
                    (2 * counted(objects, all, Role::Document, count) + 2 * counted(
                        objects,
                        all,
                        Role::Contents,
                        at,
                    ) + 2 * k) as u64,
                ),
        ));
    }
}

proof fn lemma_counted_within(objects: Seq<Object>, entries: Seq<EntryView>, count: int)
    requires
        0 <= count <= entries.len(),
    ensures
        counted(objects, entries, Role::Document, count) + counted(
            objects,
            entries,
            Role::Contents,
            count,
        ) <= size(entries.take(count)),
    decreases count,
{
    if count > 0 {
        lemma_counted_within(objects, entries, count - 1);
        let part = entries.take(count);
        assert(part.drop_last() =~= entries.take(count - 1));
        assert(part.last() == entries[count - 1]);
        law_every_entry_counts(Seq::empty(), Seq::empty(), entries[count - 1]);
    }
}

} // verus!
