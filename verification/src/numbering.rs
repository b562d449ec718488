//! Which number each page of the file carries.
//!
//! Pages are counted in two ways. The numbers printed in a band run over the
//! documents that count, and a cover does not. The numbers of an outline dump
//! are those of the pages of the file, and there a cover is one.

use vstd::prelude::*;

verus! {

/// A heading of a document, where it sits on its page, and the headings below
/// it. The two distances are kept as they are written.
#[derive(Debug, PartialEq, Eq)]
pub struct OutlineItem {
    pub title: String,
    /// The page of the file, from one. Zero where the heading points nowhere.
    pub page: usize,
    pub left: String,
    pub top: String,
    pub children: Vec<OutlineItem>,
}

/// A heading taken out of the tree, with its depth.
pub struct Heading {
    pub level: usize,
    pub page: usize,
    pub title: Seq<char>,
    pub left: Seq<char>,
    pub top: Seq<char>,
}

/// A heading without those below it.
pub open spec fn heading_of(item: OutlineItem, level: usize) -> Heading {
    Heading {
        level,
        page: item.page,
        title: item.title@,
        left: item.left@,
        top: item.top@,
    }
}

/// One level further down, as far as a level can be counted.
pub open spec fn deeper(level: usize) -> usize {
    if level < usize::MAX {
        (level + 1) as usize
    } else {
        level
    }
}

/// The headings of a tree in reading order, each before those below it.
pub open spec fn flat(items: Seq<OutlineItem>, level: usize) -> Seq<Heading>
    decreases items,
{
    if items.len() == 0 {
        Seq::empty()
    } else {
        flat(items.drop_last(), level) + seq![heading_of(items.last(), level)] + flat(
            items.last().children@,
            deeper(level),
        )
    }
}

/// A [`Heading`] that has been read out of the tree.
pub struct FlatHeading {
    pub level: usize,
    pub page: usize,
    pub title: String,
    pub left: String,
    pub top: String,
}

impl View for FlatHeading {
    type V = Heading;

    open spec fn view(&self) -> Heading {
        Heading {
            level: self.level,
            page: self.page,
            title: self.title@,
            left: self.left@,
            top: self.top@,
        }
    }
}

/// The headings of a list.
pub open spec fn headings_of(list: Seq<FlatHeading>) -> Seq<Heading> {
    list.map_values(|heading: FlatHeading| heading@)
}

/// Add the headings of a tree to a list, in reading order.
pub(crate) fn walk(items: &Vec<OutlineItem>, level: usize, out: &mut Vec<FlatHeading>)
    ensures
        headings_of(final(out)@) == headings_of(old(out)@) + flat(items@, level),
    decreases items@,
{
    let ghost start = headings_of(out@);
    let mut at: usize = 0;
    assert(items@.take(0) =~= Seq::empty());
    assert(start + flat(items@.take(0), level) =~= start);
    assert(items@.take(items@.len() as int) =~= items@);
    while at < items.len()
        invariant
            at <= items@.len(),
            start == headings_of(old(out)@),
            headings_of(out@) == start + flat(items@.take(at as int), level),
        decreases items@.len() - at,
    {
        let item = &items[at];
        let ghost before = headings_of(out@);
        proof {
            assert(items@.take(at + 1).drop_last() =~= items@.take(at as int));
        }
        out.push(
            FlatHeading {
                level,
                page: item.page,
                title: item.title.clone(),
                left: item.left.clone(),
                top: item.top.clone(),
            },
        );
        assert(headings_of(out@) =~= before + seq![heading_of(*item, level)]);
        assert(decreases_to!(items@ => items@[at as int]));
        let below: usize = if level < usize::MAX {
            level + 1
        } else {
            level
        };
        walk(&item.children, below, out);
        assert(headings_of(out@) =~= start + flat(items@.take(at + 1), level));
        at = at + 1;
    }
}

/// The headings of a tree, in reading order.
pub fn flatten(items: &Vec<OutlineItem>) -> (list: Vec<FlatHeading>)
    ensures
        headings_of(list@) == flat(items@, 1),
{
    let mut list: Vec<FlatHeading> = Vec::new();
    assert(headings_of(list@) =~= Seq::empty());
    walk(items, 1, &mut list);
    assert(headings_of(list@) =~= flat(items@, 1));
    list
}

/// One piece of the file: how many pages it has, and how they are counted.
#[derive(Clone, Copy, Debug, PartialEq, Eq)]
pub struct Part {
    pub pages: usize,
    /// Whether its pages are counted. Those of a cover are not.
    pub counted: bool,
    /// What is added to its page numbers.
    pub page_offset: i64,
}

/// How many pages the first parts have.
pub open spec fn pages_before(parts: Seq<Part>, count: int) -> int
    decreases count,
{
    if count <= 0 {
        0
    } else {
        pages_before(parts, count - 1) + parts[count - 1].pages
    }
}

/// How many counted pages the first parts have.
pub open spec fn counted_before(parts: Seq<Part>, count: int) -> int
    decreases count,
{
    if count <= 0 {
        0
    } else {
        counted_before(parts, count - 1) + if parts[count - 1].counted {
            parts[count - 1].pages as int
        } else {
            0
        }
    }
}

/// How many pages all the parts have.
pub open spec fn total_pages(parts: Seq<Part>) -> int {
    pages_before(parts, parts.len() as int)
}

/// How many of them are counted.
pub open spec fn total_counted(parts: Seq<Part>) -> int {
    counted_before(parts, parts.len() as int)
}

/// What a page says of itself.
#[derive(Debug, PartialEq, Eq)]
pub struct Numbers {
    /// The number of the page.
    pub page: i64,
    /// The number of the last page.
    pub topage: i64,
    /// The number of the first page of its document.
    pub frompage: i64,
    /// The number of the page within its document.
    pub sitepage: i64,
    /// How many pages its document has.
    pub sitepages: i64,
    pub section: String,
    pub subsection: String,
    pub subsubsection: String,
}

/// A [`Numbers`] by the characters it holds.
pub struct NumbersView {
    pub page: int,
    pub topage: int,
    pub frompage: int,
    pub sitepage: int,
    pub sitepages: int,
    pub section: Seq<char>,
    pub subsection: Seq<char>,
    pub subsubsection: Seq<char>,
}

impl View for Numbers {
    type V = NumbersView;

    open spec fn view(&self) -> NumbersView {
        NumbersView {
            page: self.page as int,
            topage: self.topage as int,
            frompage: self.frompage as int,
            sitepage: self.sitepage as int,
            sitepages: self.sitepages as int,
            section: self.section@,
            subsection: self.subsection@,
            subsubsection: self.subsubsection@,
        }
    }
}

/// The title of the last heading of a level that stands on or before a page,
/// among those from a first page on. Nothing where there is none.
pub open spec fn in_force(
    headings: Seq<Heading>,
    level: usize,
    first: int,
    page: int,
) -> Seq<char>
    decreases headings.len(),
{
    if headings.len() == 0 {
        Seq::empty()
    } else if headings.last().level == level && first <= headings.last().page <= page {
        headings.last().title
    } else {
        in_force(headings.drop_last(), level, first, page)
    }
}

/// What a page of a part says of itself. `within` counts from zero.
pub open spec fn numbers_at(
    parts: Seq<Part>,
    headings: Seq<Heading>,
    part: int,
    within: int,
) -> NumbersView {
    let own = parts[part];
    let before = pages_before(parts, part);
    let physical = before + within + 1;
    let running = counted_before(parts, part) + if own.counted {
        within + 1
    } else {
        0
    };
    NumbersView {
        page: own.page_offset + running,
        topage: own.page_offset + total_counted(parts),
        frompage: own.page_offset + counted_before(parts, part) + 1,
        sitepage: within + 1,
        sitepages: own.pages as int,
        section: in_force(headings, 1, before + 1, physical),
        subsection: in_force(headings, 2, before + 1, physical),
        subsubsection: in_force(headings, 3, before + 1, physical),
    }
}

/// The pages of the first parts, each with its part and what it says of itself.
pub open spec fn numbered(
    parts: Seq<Part>,
    headings: Seq<Heading>,
    count: int,
) -> Seq<(int, NumbersView)>
    decreases count,
{
    if count <= 0 {
        Seq::empty()
    } else {
        numbered(parts, headings, count - 1) + Seq::new(
            parts[count - 1].pages as nat,
            |within: int| (count - 1, numbers_at(parts, headings, count - 1, within)),
        )
    }
}

/// The numbers of every page fit a machine word.
pub open spec fn numberable(parts: Seq<Part>) -> bool {
    &&& total_pages(parts) <= usize::MAX
    &&& total_pages(parts) < i64::MAX
    &&& forall|i: int|
        0 <= i < parts.len() ==> (#[trigger] parts[i]).page_offset + total_pages(parts) < i64::MAX
}

/// A numbered page by the characters it holds.
pub open spec fn numbered_view(page: (usize, Numbers)) -> (int, NumbersView) {
    (page.0 as int, page.1@)
}

/// Numbered pages by the characters they hold.
pub open spec fn numbered_views(pages: Seq<(usize, Numbers)>) -> Seq<(int, NumbersView)> {
    pages.map_values(|page: (usize, Numbers)| numbered_view(page))
}

proof fn lemma_pages(parts: Seq<Part>, low: int, high: int)
    requires
        0 <= low <= high <= parts.len(),
    ensures
        0 <= pages_before(parts, low) <= pages_before(parts, high),
        0 <= counted_before(parts, low) <= counted_before(parts, high),
        counted_before(parts, low) <= pages_before(parts, low),
        counted_before(parts, high) <= pages_before(parts, high),
    decreases high,
{
    if low < high {
        lemma_pages(parts, low, high - 1);
    } else if low > 0 {
        lemma_pages(parts, low - 1, low - 1);
    }
}

/// The title in force at a page.
fn title_in_force(headings: &Vec<FlatHeading>, level: usize, first: usize, page: usize) -> (title:
    String)
    ensures
        title@ == in_force(headings_of(headings@), level, first as int, page as int),
{
    let ghost all = headings_of(headings@);
    let mut left: usize = headings.len();
    assert(all.take(left as int) =~= all);
    while left > 0
        invariant
            left <= headings@.len(),
            all == headings_of(headings@),
            in_force(all, level, first as int, page as int) == in_force(
                all.take(left as int),
                level,
                first as int,
                page as int,
            ),
        decreases left,
    {
        let heading = &headings[left - 1];
        assert(all.take(left as int).last() == heading@);
        assert(all.take(left as int).drop_last() =~= all.take(left - 1));
        if heading.level == level && first <= heading.page && heading.page <= page {
            return heading.title.clone();
        }
        left = left - 1;
    }
    String::new()
}

/// What every page of the file says of itself, in order, with the part that it
/// belongs to.
pub fn number(parts: &Vec<Part>, outline: &Vec<OutlineItem>) -> (pages: Vec<(usize, Numbers)>)
    requires
        numberable(parts@),
    ensures
        numbered_views(pages@) == numbered(parts@, flat(outline@, 1), parts@.len() as int),
{
    let headings = flatten(outline);
    let ghost flat_headings = flat(outline@, 1);
    let count: usize = parts.len();
    let mut total: i64 = 0;
    let mut at: usize = 0;
    while at < count
        invariant
            at <= count == parts@.len(),
            numberable(parts@),
            total == counted_before(parts@, at as int),
        decreases count - at,
    {
        proof {
            lemma_pages(parts@, at + 1, count as int);
            lemma_pages(parts@, at as int, at + 1);
        }
        if parts[at].counted {
            total = total + parts[at].pages as i64;
        }
        at = at + 1;
    }
    let mut out: Vec<(usize, Numbers)> = Vec::new();
    let mut running: i64 = 0;
    let mut physical: usize = 0;
    let mut index: usize = 0;
    assert(numbered_views(out@) =~= Seq::empty());
    while index < count
        invariant
            index <= count == parts@.len(),
            numberable(parts@),
            headings_of(headings@) == flat_headings,
            total == total_counted(parts@),
            running == counted_before(parts@, index as int),
            physical == pages_before(parts@, index as int),
            numbered_views(out@) == numbered(parts@, flat_headings, index as int),
        decreases count - index,
    {
        let part = parts[index];
        proof {
            lemma_pages(parts@, index + 1, count as int);
            lemma_pages(parts@, index as int, index + 1);
        }
        let ghost before = numbered_views(out@);
        let ghost all = Seq::new(
            part.pages as nat,
            |within: int| (index as int, numbers_at(parts@, flat_headings, index as int, within)),
        );
        let first: usize = physical;
        let from: i64 = running;
        let mut within: usize = 0;
        assert(before + all.take(0) =~= before);
        while within < part.pages
            invariant
                within <= part.pages,
                index < count == parts@.len(),
                part == parts@[index as int],
                numberable(parts@),
                headings_of(headings@) == flat_headings,
                total == total_counted(parts@),
                0 <= total <= total_pages(parts@),
                first == pages_before(parts@, index as int),
                from == counted_before(parts@, index as int),
                physical == first + within,
                first + part.pages <= total_pages(parts@),
                0 <= from <= total,
                part.counted ==> from + part.pages <= total,
                running == from + if part.counted {
                    within as int
                } else {
                    0
                },
                part.page_offset + total_pages(parts@) < i64::MAX,
                all == Seq::new(
                    part.pages as nat,
                    |within: int|
                        (index as int, numbers_at(parts@, flat_headings, index as int, within)),
                ),
                numbered_views(out@) == before + all.take(within as int),
            decreases part.pages - within,
        {
            physical = physical + 1;
            if part.counted {
                running = running + 1;
            }
            let numbers = Numbers {
                page: part.page_offset + running,
                topage: part.page_offset + total,
                frompage: part.page_offset + (from + 1),
                sitepage: within as i64 + 1,
                sitepages: part.pages as i64,
                section: title_in_force(&headings, 1, first + 1, physical),
                subsection: title_in_force(&headings, 2, first + 1, physical),
                subsubsection: title_in_force(&headings, 3, first + 1, physical),
            };
            let ghost earlier = numbered_views(out@);
            let ghost page = numbered_view((index, numbers));
            out.push((index, numbers));
            assert(numbered_views(out@) =~= earlier.push(page));
            assert(page == all[within as int]);
            assert(earlier.push(page) =~= before + all.take(within + 1));
            within = within + 1;
        }
        assert(all.take(part.pages as int) =~= all);
        assert(numbered(parts@, flat_headings, index + 1) =~= before + all);
        index = index + 1;
    }
    out
}

/// What is added to a page of the file: the offset of the part that it belongs
/// to, or of the last part behind the end.
pub open spec fn offset_at(parts: Seq<Part>, physical: int) -> int
    decreases parts.len(),
{
    if parts.len() == 0 {
        0
    } else if physical <= parts[0].pages || parts.len() == 1 {
        parts[0].page_offset as int
    } else {
        offset_at(parts.skip(1), physical - parts[0].pages)
    }
}

/// The number of a page of the file in an outline dump.
pub fn dump_page(parts: &[Part], physical: usize) -> (number: i64)
    requires
        total_pages(parts@) <= usize::MAX,
        i64::MIN <= physical + offset_at(parts@, physical as int) <= i64::MAX,
        physical <= i64::MAX,
    ensures
        number == physical + offset_at(parts@, physical as int),
{
    let count: usize = parts.len();
    let mut seen: usize = 0;
    let mut offset: i64 = 0;
    let mut at: usize = 0;
    assert(parts@.skip(0) =~= parts@);
    while at < count
        invariant
            at <= count == parts@.len(),
            total_pages(parts@) <= usize::MAX,
            seen == pages_before(parts@, at as int),
            at > 0 ==> offset == parts@[at - 1].page_offset,
            at == 0 ==> offset == 0,
            at < count ==> offset_at(parts@, physical as int) == offset_at(
                parts@.skip(at as int),
                physical - seen,
            ),
            at == count ==> offset == offset_at(parts@, physical as int),
            physical <= i64::MAX,
            i64::MIN <= physical + offset_at(parts@, physical as int) <= i64::MAX,
        decreases count - at,
    {
        proof {
            lemma_pages(parts@, at + 1, count as int);
            assert(parts@.skip(at as int)[0] == parts@[at as int]);
            assert(parts@.skip(at as int).skip(1) =~= parts@.skip(at + 1));
        }
        offset = parts[at].page_offset;
        seen = seen + parts[at].pages;
        if physical <= seen {
            return physical as i64 + offset;
        }
        at = at + 1;
    }
    physical as i64 + offset
}

/// There is one set of numbers per page of the file, and each names the part
/// that the page belongs to.
pub proof fn law_one_number_per_page(parts: Seq<Part>, headings: Seq<Heading>, count: int)
    requires
        0 <= count <= parts.len(),
    ensures
        numbered(parts, headings, count).len() == pages_before(parts, count),
        forall|i: int|
            0 <= i < numbered(parts, headings, count).len() ==> 0 <= (
            #[trigger] numbered(parts, headings, count)[i]).0 < count,
    decreases count,
{
    if count > 0 {
        law_one_number_per_page(parts, headings, count - 1);
    }
}

/// On a counted page the number lies between that of the first page of its
/// document and that of the last page of all, and the number within the
/// document runs from one to its length.
pub proof fn law_numbers_are_ordered(
    parts: Seq<Part>,
    headings: Seq<Heading>,
    part: int,
    within: int,
)
    requires
        0 <= part < parts.len(),
        parts[part].counted,
        0 <= within < parts[part].pages,
    ensures
        ({
            let numbers = numbers_at(parts, headings, part, within);
            &&& numbers.frompage <= numbers.page <= numbers.topage
            &&& 1 <= numbers.sitepage <= numbers.sitepages
            &&& numbers.page == numbers.frompage + numbers.sitepage - 1
        }),
{
    lemma_pages(parts, part + 1, parts.len() as int);
}

/// Counted numbers run on from one document to the next: the first page of a
/// part follows the last page of the counted part before it, where both have
/// the same offset. What is not counted in between takes no number.
pub proof fn law_numbers_run_across(
    parts: Seq<Part>,
    headings: Seq<Heading>,
    part: int,
    next: int,
)
    requires
        0 <= part < next < parts.len(),
        parts[part].counted,
        parts[part].pages > 0,
        parts[part].page_offset == parts[next].page_offset,
        forall|i: int| part < i < next ==> !(#[trigger] parts[i]).counted,
    ensures
        numbers_at(parts, headings, next, 0).frompage == numbers_at(
            parts,
            headings,
            part,
            parts[part].pages - 1,
        ).page + 1,
{
    lemma_uncounted(parts, part + 1, next);
}

proof fn lemma_uncounted(parts: Seq<Part>, from: int, to: int)
    requires
        0 <= from <= to <= parts.len(),
        forall|i: int| from <= i < to ==> !(#[trigger] parts[i]).counted,
    ensures
        counted_before(parts, to) == counted_before(parts, from),
    decreases to,
{
    if from < to {
        lemma_uncounted(parts, from, to - 1);
    }
}

/// Without an offset the number of a dump is the page of the file.
pub proof fn law_dump_without_offset(parts: Seq<Part>, physical: int)
    requires
        forall|i: int| 0 <= i < parts.len() ==> (#[trigger] parts[i]).page_offset == 0,
    ensures
        offset_at(parts, physical) == 0,
    decreases parts.len(),
{
    if parts.len() > 0 {
        assert(parts[0].page_offset == 0);
        law_dump_without_offset(parts.skip(1), physical - parts[0].pages);
    }
}

/// Whether a heading has a level and stands on a page from a first to a last one.
pub open spec fn stands_on(heading: Heading, level: usize, first: int, page: int) -> bool {
    heading.level == level && first <= heading.page && heading.page <= page
}

/// The title in force at a page is that of the last heading of its level, in
/// reading order, that stands on the page or ahead of it, however far back that
/// is.
pub proof fn law_the_last_heading_is_in_force(
    headings: Seq<Heading>,
    level: usize,
    first: int,
    page: int,
    at: int,
)
    requires
        0 <= at < headings.len(),
        stands_on(headings[at], level, first, page),
        forall|i: int|
            at < i < headings.len() ==> !stands_on(#[trigger] headings[i], level, first, page),
    ensures
        in_force(headings, level, first, page) == headings[at].title,
    decreases headings.len(),
{
    if at < headings.len() - 1 {
        assert(!stands_on(headings[headings.len() - 1], level, first, page));
        let rest = headings.drop_last();
        assert forall|i: int| at < i < rest.len() implies !stands_on(
            #[trigger] rest[i],
            level,
            first,
            page,
        ) by {
            assert(rest[i] == headings[i]);
        }
        law_the_last_heading_is_in_force(rest, level, first, page, at);
    }
}

/// Where no heading of a level stands on a page or ahead of it, none is in force.
pub proof fn law_without_a_heading_none_is_in_force(
    headings: Seq<Heading>,
    level: usize,
    first: int,
    page: int,
)
    requires
        forall|i: int|
            0 <= i < headings.len() ==> !stands_on(#[trigger] headings[i], level, first, page),
    ensures
        in_force(headings, level, first, page) == Seq::<char>::empty(),
    decreases headings.len(),
{
    if headings.len() > 0 {
        assert(!stands_on(headings[headings.len() - 1], level, first, page));
        let rest = headings.drop_last();
        assert forall|i: int| 0 <= i < rest.len() implies !stands_on(
            #[trigger] rest[i],
            level,
            first,
            page,
        ) by {
            assert(rest[i] == headings[i]);
        }
        law_without_a_heading_none_is_in_force(rest, level, first, page);
    }
}

/// A title stays in force from one page to the next where no heading of its level
/// stands on the next page.
pub proof fn law_a_title_stays_in_force(
    headings: Seq<Heading>,
    level: usize,
    first: int,
    page: int,
)
    requires
        forall|i: int|
            0 <= i < headings.len() ==> !((#[trigger] headings[i]).level == level
                && headings[i].page == page + 1),
    ensures
        in_force(headings, level, first, page + 1) == in_force(headings, level, first, page),
    decreases headings.len(),
{
    if headings.len() > 0 {
        assert(!(headings[headings.len() - 1].level == level && headings[headings.len() - 1].page
            == page + 1));
        let rest = headings.drop_last();
        assert forall|i: int| 0 <= i < rest.len() implies !((#[trigger] rest[i]).level == level
            && rest[i].page == page + 1) by {
            assert(rest[i] == headings[i]);
        }
        law_a_title_stays_in_force(rest, level, first, page);
    }
}

/// Every page of the file says of itself: which part it belongs to, which of its
/// pages it is and how many there are, and which headings of the first three levels
/// are in force. The pages of a part follow those of the parts ahead of it.
pub proof fn law_a_page_knows_its_part(
    parts: Seq<Part>,
    headings: Seq<Heading>,
    part: int,
    within: int,
)
    requires
        0 <= part < parts.len(),
        0 <= within < parts[part].pages,
    ensures
        ({
            let at = pages_before(parts, part) + within;
            let first = pages_before(parts, part) + 1;
            let all = numbered(parts, headings, parts.len() as int);
            &&& 0 <= at < all.len()
            &&& all[at].0 == part
            &&& all[at].1.sitepage == within + 1
            &&& all[at].1.sitepages == parts[part].pages
            &&& all[at].1.section == in_force(headings, 1, first, at + 1)
            &&& all[at].1.subsection == in_force(headings, 2, first, at + 1)
            &&& all[at].1.subsubsection == in_force(headings, 3, first, at + 1)
            &&& all[at].1 == numbers_at(parts, headings, part, within)
        }),
{
    lemma_pages(parts, part + 1, parts.len() as int);
    lemma_pages(parts, part, part);
    lemma_numbered(parts, headings, part, within, parts.len() as int);
    law_one_number_per_page(parts, headings, parts.len() as int);
}

proof fn lemma_numbered(
    parts: Seq<Part>,
    headings: Seq<Heading>,
    part: int,
    within: int,
    count: int,
)
    requires
        0 <= part < count <= parts.len(),
        0 <= within < parts[part].pages,
    ensures
        ({
            let at = pages_before(parts, part) + within;
            &&& 0 <= at < numbered(parts, headings, count).len()
            &&& numbered(parts, headings, count)[at] == (
                part,
                numbers_at(parts, headings, part, within),
            )
        }),
    decreases count,
{
    lemma_pages(parts, part, part);
    law_one_number_per_page(parts, headings, count - 1);
    law_one_number_per_page(parts, headings, count);
    lemma_pages(parts, part + 1, count);
    if part < count - 1 {
        lemma_numbered(parts, headings, part, within, count - 1);
    }
}

/// How many pages stand ahead of a part: none ahead of the first, and its own
/// pages more ahead of the next. Only those that are counted count.
pub proof fn law_pages_add_up(parts: Seq<Part>, count: int)
    requires
        0 <= count < parts.len(),
    ensures
        pages_before(parts, 0) == 0,
        counted_before(parts, 0) == 0,
        pages_before(parts, count + 1) == pages_before(parts, count) + parts[count].pages,
        parts[count].counted ==> counted_before(parts, count + 1) == counted_before(parts, count)
            + parts[count].pages,
        !parts[count].counted ==> counted_before(parts, count + 1) == counted_before(parts, count),
{
}

/// Numbers go up by one from page to page of a part that is counted, and stand
/// still on one that is not. Every other number of a part is the same on all of its
/// pages.
pub proof fn law_numbers_go_up_by_one(
    parts: Seq<Part>,
    headings: Seq<Heading>,
    part: int,
    within: int,
)
    requires
        0 <= part < parts.len(),
        0 <= within,
        within + 1 < parts[part].pages,
    ensures
        ({
            let here = numbers_at(parts, headings, part, within);
            let next = numbers_at(parts, headings, part, within + 1);
            &&& parts[part].counted ==> next.page == here.page + 1
            &&& !parts[part].counted ==> next.page == here.page
            &&& next.sitepage == here.sitepage + 1
            &&& next.topage == here.topage
            &&& next.frompage == here.frompage
            &&& next.sitepages == here.sitepages
        }),
{
}

/// The first counted page of all is numbered one behind the offset, and what every
/// page says of the last one is the number of the last counted page of all. A page
/// that is not counted has the number of the one ahead of it.
pub proof fn law_numbers_run_from_first_to_last(
    parts: Seq<Part>,
    headings: Seq<Heading>,
    part: int,
)
    requires
        0 <= part < parts.len(),
        parts[part].pages > 0,
    ensures
        (parts[part].counted && forall|i: int| 0 <= i < part ==> !(#[trigger] parts[i]).counted)
            ==> numbers_at(parts, headings, part, 0).page == parts[part].page_offset + 1,
        (parts[part].counted && forall|i: int|
            part < i < parts.len() ==> !(#[trigger] parts[i]).counted) ==> numbers_at(
            parts,
            headings,
            part,
            parts[part].pages - 1,
        ).page == numbers_at(parts, headings, part, 0).topage,
        !parts[part].counted ==> numbers_at(parts, headings, part, 0).page == numbers_at(
            parts,
            headings,
            part,
            0,
        ).frompage - 1,
        forall|other: int, within: int|
            0 <= other < parts.len() && parts[other].page_offset == parts[part].page_offset ==> (
            #[trigger] numbers_at(parts, headings, other, within)).topage == numbers_at(
                parts,
                headings,
                part,
                0,
            ).topage,
{
    if forall|i: int| 0 <= i < part ==> !(#[trigger] parts[i]).counted {
        lemma_uncounted(parts, 0, part);
    }
    if forall|i: int| part < i < parts.len() ==> !(#[trigger] parts[i]).counted {
        lemma_uncounted(parts, part + 1, parts.len() as int);
    }
}

/// Two pages of one file whose parts are shifted differently differ by just that
/// much more: an offset is added to all the numbers that run across the file, and to
/// no other.
pub proof fn law_an_offset_is_added(
    parts: Seq<Part>,
    headings: Seq<Heading>,
    part: int,
    within: int,
    offset: i64,
)
    requires
        0 <= part < parts.len(),
        0 <= within < parts[part].pages,
    ensures
        ({
            let moved = parts.update(part, Part { page_offset: offset, ..parts[part] });
            let here = numbers_at(parts, headings, part, within);
            let there = numbers_at(moved, headings, part, within);
            let by = offset - parts[part].page_offset;
            &&& there.page == here.page + by
            &&& there.topage == here.topage + by
            &&& there.frompage == here.frompage + by
            &&& there.sitepage == here.sitepage
            &&& there.sitepages == here.sitepages
            &&& there.section == here.section
        }),
{
    let moved = parts.update(part, Part { page_offset: offset, ..parts[part] });
    lemma_same_counts(parts, moved, part);
    lemma_same_counts(parts, moved, parts.len() as int);
}

proof fn lemma_same_counts(parts: Seq<Part>, others: Seq<Part>, count: int)
    requires
        0 <= count <= parts.len(),
        parts.len() == others.len(),
        forall|i: int|
            0 <= i < parts.len() ==> (#[trigger] parts[i]).pages == others[i].pages
                && parts[i].counted == others[i].counted,
    ensures
        pages_before(parts, count) == pages_before(others, count),
        counted_before(parts, count) == counted_before(others, count),
    decreases count,
{
    if count > 0 {
        lemma_same_counts(parts, others, count - 1);
        assert(parts[count - 1].pages == others[count - 1].pages);
    }
}

/// What is added to a page of the file is the offset of the part that the page
/// belongs to.
pub proof fn law_the_offset_of_a_page_is_that_of_its_part(
    parts: Seq<Part>,
    part: int,
    within: int,
)
    requires
        0 <= part < parts.len(),
        0 <= within < parts[part].pages,
    ensures
        offset_at(parts, pages_before(parts, part) + within + 1) == parts[part].page_offset,
    decreases parts.len(),
{
    lemma_pages(parts, part, part);
    if part > 0 {
        let rest = parts.skip(1);
        lemma_pages(parts, 1, part);
        assert(pages_before(parts, 1) == parts[0].pages) by {
            assert(pages_before(parts, 0) == 0);
        }
        lemma_skipped(parts, part);
        assert(rest[part - 1] == parts[part]);
        law_the_offset_of_a_page_is_that_of_its_part(rest, part - 1, within);
    }
}

proof fn lemma_skipped(parts: Seq<Part>, count: int)
    requires
        1 <= count <= parts.len(),
    ensures
        pages_before(parts, count) == parts[0].pages + pages_before(parts.skip(1), count - 1),
    decreases count,
{
    if count > 1 {
        lemma_skipped(parts, count - 1);
        assert(parts.skip(1)[count - 2] == parts[count - 1]);
    } else {
        assert(pages_before(parts, 0) == 0);
    }
}

/// The headings of two lists of trees, one behind the other, are those of the first
/// and then those of the second.
pub proof fn law_headings_are_read_in_order(
    first: Seq<OutlineItem>,
    second: Seq<OutlineItem>,
    level: usize,
)
    ensures
        flat(first + second, level) == flat(first, level) + flat(second, level),
    decreases second.len(),
{
    if second.len() == 0 {
        assert(first + second =~= first);
        assert(flat(first, level) + flat(second, level) =~= flat(first, level));
    } else {
        assert((first + second).drop_last() =~= first + second.drop_last());
        law_headings_are_read_in_order(first, second.drop_last(), level);
        assert(flat(first + second, level) =~= flat(first, level) + flat(second, level));
    }
}

/// A heading is read ahead of those below it, which are one level deeper, however
/// deep it stands itself.
pub proof fn law_a_heading_is_read_ahead_of_those_below(item: OutlineItem, level: usize)
    requires
        level < usize::MAX,
    ensures
        ({
            let read = flat(seq![item], level);
            let below = flat(item.children@, (level + 1) as usize);
            &&& read.len() == below.len() + 1
            &&& read.skip(1) == below
            &&& read[0].level == level
            &&& read[0].title == item.title@
            &&& read[0].page == item.page
            &&& read[0].left == item.left@
            &&& read[0].top == item.top@
        }),
{
    reveal_with_fuel(flat, 2);
    assert(seq![item].drop_last() =~= Seq::empty());
    assert(seq![item].last() == item);
    let below = flat(item.children@, (level + 1) as usize);
    assert(flat(seq![item], level) =~= seq![heading_of(item, level)] + below);
    assert(flat(seq![item], level).skip(1) =~= below);
}

} // verus!
