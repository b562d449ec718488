//! Where the pages of each object end up in the file.
//!
//! The documents are printed first and their headings are read. The tables of
//! contents are printed afterwards and push the documents apart, so a heading
//! moves from the page it had among the documents to its page in the file. How
//! long a table is, is known only once it is printed, so tables are printed
//! again until their lengths settle.

use crate::numbering::{
    dump_page, flat, offset_at, pages_before, total_pages, Heading, OutlineItem, Part,
};
use crate::plan::Numbering;
use crate::text::texts;
use crate::toc::{
    contents_entry, entries, entries_of, heading_entry, is_contents_entry, is_heading_entry, placed,
    sorted_by_page, Entry, EntryView,
};
use vstd::prelude::*;

verus! {

/// How often tables of contents are printed at most.
pub const CONTENTS_PASSES: usize = 4;

/// What one object printed: which object, and how many pages.
#[derive(Clone, Copy, Debug, PartialEq, Eq)]
pub struct Piece {
    pub index: usize,
    pub pages: usize,
}

/// How many pages pieces have together.
pub open spec fn total(pieces: Seq<Piece>) -> int
    decreases pieces.len(),
{
    if pieces.len() == 0 {
        0
    } else {
        total(pieces.drop_last()) + pieces.last().pages
    }
}

/// The page that a piece begins on, from one.
pub open spec fn start_of(pieces: Seq<Piece>, at: int) -> int {
    1 + total(pieces.take(at))
}

/// A piece in a list that is sorted by object, behind those of the same object.
pub open spec fn inserted(sorted: Seq<Piece>, piece: Piece) -> Seq<Piece>
    decreases sorted.len(),
{
    if sorted.len() > 0 && sorted.last().index > piece.index {
        inserted(sorted.drop_last(), piece).push(sorted.last())
    } else {
        sorted.push(piece)
    }
}

/// Pieces in the order of their objects.
pub open spec fn by_object(pieces: Seq<Piece>) -> Seq<Piece>
    decreases pieces.len(),
{
    if pieces.len() == 0 {
        Seq::empty()
    } else {
        inserted(by_object(pieces.drop_last()), pieces.last())
    }
}

/// Whether no two pieces are of the same object.
pub open spec fn distinct(pieces: Seq<Piece>) -> bool {
    forall|i: int, j: int|
        0 <= i < j < pieces.len() ==> (#[trigger] pieces[i]).index != (#[trigger] pieces[j]).index
}

fn insert(sorted: &mut Vec<Piece>, piece: Piece)
    ensures
        final(sorted)@ == inserted(old(sorted)@, piece),
{
    let ghost all = sorted@;
    let mut at: usize = sorted.len();
    assert(all.take(at as int) =~= all);
    assert(inserted(all, piece) =~= inserted(all.take(at as int), piece) + all.skip(at as int));
    while at > 0 && sorted[at - 1].index > piece.index
        invariant
            at <= sorted@.len(),
            all == sorted@,
            inserted(all, piece) == inserted(all.take(at as int), piece) + all.skip(at as int),
        decreases at,
    {
        assert(all.take(at as int).last() == sorted@[at - 1]);
        assert(all.take(at as int).drop_last() =~= all.take(at - 1));
        assert(inserted(all.take(at as int), piece) + all.skip(at as int) =~= inserted(
            all.take(at - 1),
            piece,
        ) + all.skip(at - 1));
        at = at - 1;
    }
    assert(at > 0 ==> all.take(at as int).last() == sorted@[at - 1]);
    sorted.insert(at, piece);
    assert(sorted@ =~= all.take(at as int).push(piece) + all.skip(at as int));
}

/// Put what the documents and the tables printed in the order of their objects.
pub fn ordered(printed: &Vec<Piece>, tables: &Vec<Piece>) -> (all: Vec<Piece>)
    ensures
        all@ == by_object(printed@ + tables@),
{
    let mut all: Vec<Piece> = Vec::new();
    let ghost both = printed@ + tables@;
    let first: usize = printed.len();
    let mut at: usize = 0;
    assert(both.take(0) =~= Seq::empty());
    while at < first
        invariant
            at <= first == printed@.len(),
            both == printed@ + tables@,
            all@ == by_object(both.take(at as int)),
        decreases first - at,
    {
        assert(both.take(at + 1).drop_last() =~= both.take(at as int));
        assert(both.take(at + 1).last() == printed@[at as int]);
        insert(&mut all, printed[at]);
        at = at + 1;
    }
    let second: usize = tables.len();
    let mut at: usize = 0;
    while at < second
        invariant
            at <= second == tables@.len(),
            first == printed@.len(),
            both == printed@ + tables@,
            all@ == by_object(both.take(first + at)),
        decreases second - at,
    {
        assert(both.take(first + at + 1).drop_last() =~= both.take(first + at));
        assert(both.take(first + at + 1).last() == tables@[at as int]);
        insert(&mut all, tables[at]);
        at = at + 1;
    }
    assert(both.take(first + at) =~= both);
    all
}

/// The first page of an object among pieces.
pub open spec fn first_page_of(pieces: Seq<Piece>, index: usize) -> Option<int>
    decreases pieces.len(),
{
    if pieces.len() == 0 {
        None
    } else if pieces.last().index == index {
        Some(1 + total(pieces.drop_last()))
    } else {
        first_page_of(pieces.drop_last(), index)
    }
}

/// The first page of an object among pieces.
pub fn first_page(pieces: &Vec<Piece>, index: usize) -> (page: Option<usize>)
    requires
        total(pieces@) < usize::MAX,
    ensures
        match page {
            Some(page) => first_page_of(pieces@, index) == Some(page as int),
            None => first_page_of(pieces@, index) is None,
        },
{
    let mut found: Option<usize> = None;
    let mut running: usize = 1;
    let size: usize = pieces.len();
    let mut at: usize = 0;
    assert(pieces@.take(0) =~= Seq::empty());
    while at < size
        invariant
            at <= size == pieces@.len(),
            total(pieces@) < usize::MAX,
            running == 1 + total(pieces@.take(at as int)),
            match found {
                Some(page) => first_page_of(pieces@.take(at as int), index) == Some(page as int),
                None => first_page_of(pieces@.take(at as int), index) is None,
            },
        decreases size - at,
    {
        assert(pieces@.take(at + 1).drop_last() =~= pieces@.take(at as int));
        assert(pieces@.take(at + 1).last() == pieces@[at as int]);
        proof {
            lemma_total(pieces@, at + 1);
        }
        if pieces[at].index == index {
            found = Some(running);
        }
        running = running + pieces[at].pages;
        at = at + 1;
    }
    assert(pieces@.take(at as int) =~= pieces@);
    found
}

/// Fewer pieces have fewer pages.
pub proof fn lemma_total(pieces: Seq<Piece>, at: int)
    requires
        0 <= at <= pieces.len(),
    ensures
        0 <= total(pieces.take(at)) <= total(pieces),
    decreases pieces.len(),
{
    if at == pieces.len() {
        assert(pieces.take(at) =~= pieces);
        if pieces.len() > 0 {
            lemma_total(pieces.drop_last(), pieces.len() - 1);
            assert(pieces.drop_last().take(pieces.len() - 1) =~= pieces.drop_last());
        }
    } else {
        lemma_total(pieces.drop_last(), at);
        assert(pieces.drop_last().take(at) =~= pieces.take(at));
    }
}

/// The piece that a page of the documents belongs to, from the one given on.
pub open spec fn piece_from(printed: Seq<Piece>, page: int, at: int) -> Option<int>
    decreases printed.len() - at,
{
    if at < 0 || at >= printed.len() {
        None
    } else if page < start_of(printed, at) + printed[at].pages {
        Some(at)
    } else {
        piece_from(printed, page, at + 1)
    }
}

/// Where a page of the documents ends up in the file: as far into its object as
/// it was. A page behind the documents stays where it is.
pub open spec fn moved_to(page: int, printed: Seq<Piece>, all: Seq<Piece>) -> int {
    match piece_from(printed, page, 0) {
        Some(at) => first_page_of(all, printed[at].index)->0 + (page - first_page_of(
            printed,
            printed[at].index,
        )->0),
        None => page,
    }
}

/// Whether pieces are laid out among others: no object twice, and each piece
/// among them.
pub open spec fn laid_out(printed: Seq<Piece>, all: Seq<Piece>) -> bool {
    &&& distinct(printed)
    &&& distinct(all)
    &&& forall|i: int| 0 <= i < printed.len() ==> all.contains(#[trigger] printed[i])
}

/// The first page of the object of a piece is where the piece begins.
pub proof fn lemma_first_page(pieces: Seq<Piece>, at: int)
    requires
        distinct(pieces),
        0 <= at < pieces.len(),
    ensures
        first_page_of(pieces, pieces[at].index) == Some(start_of(pieces, at)),
        start_of(pieces, at) + pieces[at].pages <= 1 + total(pieces),
        start_of(pieces, at) >= 1,
    decreases pieces.len(),
{
    let index = pieces[at].index;
    if at == pieces.len() - 1 {
        assert(pieces.take(at) =~= pieces.drop_last());
        lemma_total(pieces, at);
    } else {
        assert(pieces.last().index != index);
        let shorter = pieces.drop_last();
        assert forall|i: int, j: int| 0 <= i < j < shorter.len() implies (
        #[trigger] shorter[i]).index != (#[trigger] shorter[j]).index by {
            assert(shorter[i] == pieces[i] && shorter[j] == pieces[j]);
        }
        lemma_first_page(shorter, at);
        assert(shorter.take(at) =~= pieces.take(at));
    }
}

proof fn lemma_piece_from(printed: Seq<Piece>, page: int, at: int)
    requires
        0 <= at <= printed.len(),
        start_of(printed, at) <= page,
    ensures
        match piece_from(printed, page, at) {
            Some(k) => at <= k < printed.len() && start_of(printed, k) <= page < start_of(
                printed,
                k,
            ) + printed[k].pages,
            None => page >= 1 + total(printed),
        },
    decreases printed.len() - at,
{
    if at < printed.len() {
        assert(printed.take(at + 1).drop_last() =~= printed.take(at));
        assert(printed.take(at + 1).last() == printed[at]);
        if page >= start_of(printed, at) + printed[at].pages {
            lemma_piece_from(printed, page, at + 1);
        }
    } else {
        assert(printed.take(at) =~= printed);
    }
}

/// Where a page ends up lies in the file.
pub proof fn lemma_moved(page: int, printed: Seq<Piece>, all: Seq<Piece>)
    requires
        laid_out(printed, all),
        1 <= page,
    ensures
        page <= total(printed) ==> 1 <= moved_to(page, printed, all) <= total(all),
        page > total(printed) ==> moved_to(page, printed, all) == page,
        match piece_from(printed, page, 0) {
            Some(k) => {
                &&& 0 <= k < printed.len()
                &&& first_page_of(printed, printed[k].index) == Some(start_of(printed, k))
                &&& first_page_of(all, printed[k].index) is Some
                &&& 1 <= first_page_of(all, printed[k].index)->0
                &&& first_page_of(all, printed[k].index)->0 + printed[k].pages <= 1 + total(all)
                &&& start_of(printed, k) <= page < start_of(printed, k) + printed[k].pages
                &&& page <= total(printed)
            },
            None => page > total(printed),
        },
{
    assert(printed.take(0) =~= Seq::empty());
    lemma_piece_from(printed, page, 0);
    match piece_from(printed, page, 0) {
        Some(k) => {
            lemma_first_page(printed, k);
            let m = choose|m: int| 0 <= m < all.len() && all[m] == printed[k];
            assert(all.contains(printed[k]));
            lemma_first_page(all, m);
        },
        None => {},
    }
}

/// Where a page of the documents ends up in the file.
pub fn moved(page: usize, printed: &Vec<Piece>, all: &Vec<Piece>) -> (to: usize)
    requires
        laid_out(printed@, all@),
        1 <= page,
        total(printed@) < usize::MAX,
        total(all@) < usize::MAX,
    ensures
        to == moved_to(page as int, printed@, all@),
{
    proof {
        lemma_moved(page as int, printed@, all@);
    }
    let size: usize = printed.len();
    let mut running: usize = 1;
    let mut at: usize = 0;
    assert(printed@.take(0) =~= Seq::empty());
    while at < size
        invariant
            at <= size == printed@.len(),
            total(printed@) < usize::MAX,
            total(all@) < usize::MAX,
            laid_out(printed@, all@),
            1 <= page,
            running == start_of(printed@, at as int),
            running <= page,
            piece_from(printed@, page as int, 0) == piece_from(printed@, page as int, at as int),
        decreases size - at,
    {
        assert(printed@.take(at + 1).drop_last() =~= printed@.take(at as int));
        assert(printed@.take(at + 1).last() == printed@[at as int]);
        proof {
            lemma_total(printed@, at + 1);
            lemma_moved(page as int, printed@, all@);
        }
        if page < running + printed[at].pages {
            match first_page(all, printed[at].index) {
                Some(first) => {
                    return first + (page - running);
                },
                None => {
                    return page;
                },
            }
        }
        running = running + printed[at].pages;
        at = at + 1;
    }
    page
}

/// A page stays in its object, and as far into it as it was.
pub proof fn law_a_page_stays_in_its_object(page: int, printed: Seq<Piece>, all: Seq<Piece>)
    requires
        laid_out(printed, all),
        1 <= page <= total(printed),
    ensures
        ({
            let at = piece_from(printed, page, 0)->0;
            let first = first_page_of(all, printed[at].index)->0;
            &&& piece_from(printed, page, 0) is Some
            &&& first <= moved_to(page, printed, all) < first + printed[at].pages
            &&& moved_to(page, printed, all) - first == page - start_of(printed, at)
        }),
{
    lemma_moved(page, printed, all);
}

/// Without anything in between, every page stays where it is.
pub proof fn law_nothing_moves_by_itself(page: int, printed: Seq<Piece>)
    requires
        distinct(printed),
        1 <= page,
    ensures
        moved_to(page, printed, printed) == page,
{
    assert forall|i: int| 0 <= i < printed.len() implies printed.contains(
        #[trigger] printed[i],
    ) by {}
    lemma_moved(page, printed, printed);
}

proof fn lemma_start_after(pieces: Seq<Piece>, first: int, second: int)
    requires
        0 <= first < second < pieces.len(),
    ensures
        start_of(pieces, first) + pieces[first].pages <= start_of(pieces, second),
{
    assert(pieces.take(first + 1).drop_last() =~= pieces.take(first));
    assert(pieces.take(first + 1).last() == pieces[first]);
    lemma_total(pieces.take(second), first + 1);
    assert(pieces.take(second).take(first + 1) =~= pieces.take(first + 1));
}

/// Two pages never end up on the same one.
pub proof fn law_pages_stay_apart(one: int, other: int, printed: Seq<Piece>, all: Seq<Piece>)
    requires
        laid_out(printed, all),
        1 <= one <= total(printed),
        1 <= other <= total(printed),
        one != other,
    ensures
        moved_to(one, printed, all) != moved_to(other, printed, all),
{
    lemma_moved(one, printed, all);
    lemma_moved(other, printed, all);
    let (a, b) = (piece_from(printed, one, 0)->0, piece_from(printed, other, 0)->0);
    if a != b {
        assert(all.contains(printed[a]) && all.contains(printed[b]));
        let m = choose|m: int| 0 <= m < all.len() && all[m] == printed[a];
        let n = choose|n: int| 0 <= n < all.len() && all[n] == printed[b];
        lemma_first_page(all, m);
        lemma_first_page(all, n);
        if m < n {
            lemma_start_after(all, m, n);
        } else if n < m {
            lemma_start_after(all, n, m);
        } else {
            assert(printed[a].index == printed[b].index);
        }
    }
}

proof fn lemma_inserted(sorted: Seq<Piece>, piece: Piece)
    requires
        distinct(sorted),
        forall|i: int| 0 <= i < sorted.len() ==> (#[trigger] sorted[i]).index != piece.index,
    ensures
        distinct(inserted(sorted, piece)),
        forall|one: Piece|
            #[trigger] inserted(sorted, piece).contains(one) == (sorted.contains(one) || one
                == piece),
        total(inserted(sorted, piece)) == total(sorted) + piece.pages,
        inserted(sorted, piece).len() == sorted.len() + 1,
    decreases sorted.len(),
{
    let after = inserted(sorted, piece);
    if sorted.len() > 0 && sorted.last().index > piece.index {
        let shorter = sorted.drop_last();
        let last = sorted.last();
        assert forall|i: int, j: int| 0 <= i < j < shorter.len() implies (
        #[trigger] shorter[i]).index != (#[trigger] shorter[j]).index by {
            assert(shorter[i] == sorted[i] && shorter[j] == sorted[j]);
        }
        assert forall|i: int| 0 <= i < shorter.len() implies (#[trigger] shorter[i]).index
            != piece.index by {
            assert(shorter[i] == sorted[i]);
        }
        lemma_inserted(shorter, piece);
        let inner = inserted(shorter, piece);
        assert(after.drop_last() =~= inner);
        assert forall|one: Piece| #[trigger] after.contains(one) == (sorted.contains(one) || one
            == piece) by {
            if after.contains(one) {
                let i = choose|i: int| 0 <= i < after.len() && after[i] == one;
                if i < inner.len() {
                    assert(inner[i] == one);
                    assert(inner.contains(one));
                    if shorter.contains(one) {
                        let j = choose|j: int| 0 <= j < shorter.len() && shorter[j] == one;
                        assert(sorted[j] == one);
                    }
                } else {
                    assert(sorted[sorted.len() - 1] == one);
                }
            }
            if sorted.contains(one) {
                let j = choose|j: int| 0 <= j < sorted.len() && sorted[j] == one;
                if j < shorter.len() {
                    assert(shorter[j] == one);
                    assert(shorter.contains(one));
                    assert(inner.contains(one));
                    let i = choose|i: int| 0 <= i < inner.len() && inner[i] == one;
                    assert(after[i] == one);
                } else {
                    assert(after[inner.len() as int] == one);
                }
            }
            if one == piece {
                assert(inner.contains(one));
                let i = choose|i: int| 0 <= i < inner.len() && inner[i] == one;
                assert(after[i] == one);
            }
        }
        assert forall|i: int, j: int| 0 <= i < j < after.len() implies (
        #[trigger] after[i]).index != (#[trigger] after[j]).index by {
            assert(after[i] == inner[i]);
            if j < inner.len() {
                assert(after[j] == inner[j]);
            } else {
                assert(after[j] == last);
                assert(inner.contains(inner[i]));
                if inner[i] != piece {
                    assert(shorter.contains(inner[i]));
                    let k = choose|k: int| 0 <= k < shorter.len() && shorter[k] == inner[i];
                    assert(sorted[k].index != sorted[sorted.len() - 1].index);
                }
            }
        }
    } else {
        assert(after == sorted.push(piece));
        assert(after.drop_last() =~= sorted);
        assert forall|one: Piece| #[trigger] after.contains(one) == (sorted.contains(one) || one
            == piece) by {
            if sorted.contains(one) {
                let j = choose|j: int| 0 <= j < sorted.len() && sorted[j] == one;
                assert(after[j] == one);
            }
            if one == piece {
                assert(after[sorted.len() as int] == one);
            }
            if after.contains(one) {
                let i = choose|i: int| 0 <= i < after.len() && after[i] == one;
                if i < sorted.len() {
                    assert(sorted[i] == one);
                }
            }
        }
    }
}

/// Putting pieces in order loses none, adds none and doubles none.
pub proof fn law_order_keeps_every_piece(pieces: Seq<Piece>)
    requires
        distinct(pieces),
    ensures
        distinct(by_object(pieces)),
        by_object(pieces).len() == pieces.len(),
        total(by_object(pieces)) == total(pieces),
        forall|one: Piece| #[trigger] by_object(pieces).contains(one) == pieces.contains(one),
    decreases pieces.len(),
{
    if pieces.len() > 0 {
        let shorter = pieces.drop_last();
        let last = pieces.last();
        assert forall|i: int, j: int| 0 <= i < j < shorter.len() implies (
        #[trigger] shorter[i]).index != (#[trigger] shorter[j]).index by {
            assert(shorter[i] == pieces[i] && shorter[j] == pieces[j]);
        }
        law_order_keeps_every_piece(shorter);
        let sorted = by_object(shorter);
        assert forall|i: int| 0 <= i < sorted.len() implies (#[trigger] sorted[i]).index
            != last.index by {
            assert(sorted.contains(sorted[i]));
            assert(shorter.contains(sorted[i]));
            let k = choose|k: int| 0 <= k < shorter.len() && shorter[k] == sorted[i];
            assert(pieces[k].index != pieces[pieces.len() - 1].index);
        }
        lemma_inserted(sorted, last);
        assert forall|one: Piece| #[trigger] by_object(pieces).contains(one) == pieces.contains(
            one,
        ) by {
            if pieces.contains(one) {
                let k = choose|k: int| 0 <= k < pieces.len() && pieces[k] == one;
                if k < shorter.len() {
                    assert(shorter[k] == one);
                    assert(shorter.contains(one));
                    assert(sorted.contains(one));
                }
            }
            if sorted.contains(one) {
                assert(shorter.contains(one));
                let k = choose|k: int| 0 <= k < shorter.len() && shorter[k] == one;
                assert(pieces[k] == one);
            }
            if one == last {
                assert(pieces[pieces.len() - 1] == one);
            }
        }
    }
}

proof fn lemma_inserted_sorted(sorted: Seq<Piece>, piece: Piece)
    requires
        in_order(sorted),
    ensures
        in_order(inserted(sorted, piece)),
        inserted(sorted, piece).len() == sorted.len() + 1,
        sorted.len() > 0 && sorted.last().index > piece.index ==> inserted(
            sorted,
            piece,
        ).last() == sorted.last(),
        sorted.len() == 0 || sorted.last().index <= piece.index ==> inserted(
            sorted,
            piece,
        ).last() == piece,
    decreases sorted.len(),
{
    if sorted.len() > 0 && sorted.last().index > piece.index {
        let shorter = sorted.drop_last();
        assert forall|i: int, j: int| 0 <= i <= j < shorter.len() implies (
        #[trigger] shorter[i]).index <= (#[trigger] shorter[j]).index by {
            assert(shorter[i] == sorted[i] && shorter[j] == sorted[j]);
        }
        lemma_inserted_sorted(shorter, piece);
        let inner = inserted(shorter, piece);
        let after = inserted(sorted, piece);
        assert forall|i: int, j: int| 0 <= i <= j < after.len() implies (
        #[trigger] after[i]).index <= (#[trigger] after[j]).index by {
            if j < inner.len() {
                assert(after[i] == inner[i] && after[j] == inner[j]);
            } else if i < inner.len() {
                assert(after[i] == inner[i]);
                assert(inner[i].index <= inner[inner.len() - 1].index);
                if shorter.len() > 0 {
                    assert(sorted[shorter.len() - 1].index <= sorted[sorted.len() - 1].index);
                }
            }
        }
    } else {
        let after = inserted(sorted, piece);
        assert forall|i: int, j: int| 0 <= i <= j < after.len() implies (
        #[trigger] after[i]).index <= (#[trigger] after[j]).index by {
            if j < sorted.len() {
                assert(after[i] == sorted[i] && after[j] == sorted[j]);
            } else if i < sorted.len() {
                assert(sorted[i].index <= sorted[sorted.len() - 1].index);
            }
        }
    }
}

/// Whether pieces stand in the order of their objects.
pub open spec fn in_order(pieces: Seq<Piece>) -> bool {
    forall|i: int, j: int|
        0 <= i <= j < pieces.len() ==> (#[trigger] pieces[i]).index <= (#[trigger] pieces[j]).index
}

/// The file follows the command line: pieces stand in the order of their
/// objects.
pub proof fn law_the_file_follows_the_command_line(pieces: Seq<Piece>)
    ensures
        in_order(by_object(pieces)),
    decreases pieces.len(),
{
    if pieces.len() > 0 {
        law_the_file_follows_the_command_line(pieces.drop_last());
        lemma_inserted_sorted(by_object(pieces.drop_last()), pieces.last());
    }
}

/// How the pages of pieces are counted.
pub open spec fn parts_of(pieces: Seq<Piece>, numberings: Seq<Numbering>) -> Seq<Part> {
    pieces.map_values(
        |piece: Piece|
            Part {
                pages: piece.pages,
                counted: numberings[piece.index as int].counted,
                page_offset: numberings[piece.index as int].page_offset,
            },
    )
}

/// Whether every piece is of an object that there is.
pub open spec fn known(pieces: Seq<Piece>, count: int) -> bool {
    forall|i: int| 0 <= i < pieces.len() ==> (#[trigger] pieces[i]).index < count
}

/// How the pages of pieces are counted.
pub fn parts(pieces: &Vec<Piece>, numberings: &Vec<Numbering>) -> (list: Vec<Part>)
    requires
        known(pieces@, numberings@.len() as int),
    ensures
        list@ == parts_of(pieces@, numberings@),
{
    let mut list: Vec<Part> = Vec::new();
    let size: usize = pieces.len();
    let mut at: usize = 0;
    while at < size
        invariant
            at <= size == pieces@.len(),
            known(pieces@, numberings@.len() as int),
            list@ == parts_of(pieces@, numberings@).take(at as int),
        decreases size - at,
    {
        let piece = pieces[at];
        assert(pieces@[at as int].index < numberings@.len());
        let numbering = numberings[piece.index];
        list.push(
            Part {
                pages: piece.pages,
                counted: numbering.counted,
                page_offset: numbering.page_offset,
            },
        );
        assert(list@ =~= parts_of(pieces@, numberings@).take(at + 1));
        at = at + 1;
    }
    assert(list@ =~= parts_of(pieces@, numberings@));
    list
}

proof fn lemma_parts_total(pieces: Seq<Piece>, numberings: Seq<Numbering>, count: int)
    requires
        0 <= count <= pieces.len(),
    ensures
        pages_before(parts_of(pieces, numberings), count) == total(pieces.take(count)),
    decreases count,
{
    if count > 0 {
        lemma_parts_total(pieces, numberings, count - 1);
        assert(pieces.take(count).drop_last() =~= pieces.take(count - 1));
        assert(pieces.take(count).last() == pieces[count - 1]);
    } else {
        assert(pieces.take(0) =~= Seq::empty());
    }
}

/// Whether the number of every page fits a machine word, with every offset, and
/// that of the page behind the last one.
pub open spec fn bearable(numberings: Seq<Numbering>, pages: int) -> bool {
    &&& pages < i64::MAX
    &&& forall|i: int|
        0 <= i < numberings.len() ==> (#[trigger] numberings[i]).page_offset + pages < i64::MAX
}

proof fn lemma_offset(parts: Seq<Part>, physical: int, pages: int)
    requires
        0 <= pages < i64::MAX,
        forall|i: int|
            0 <= i < parts.len() ==> (#[trigger] parts[i]).page_offset + pages < i64::MAX,
    ensures
        i64::MIN <= offset_at(parts, physical) < i64::MAX - pages,
    decreases parts.len(),
{
    if parts.len() > 0 {
        assert(parts[0].page_offset + pages < i64::MAX);
        let rest = parts.skip(1);
        assert forall|i: int| 0 <= i < rest.len() implies (#[trigger] rest[i]).page_offset + pages
            < i64::MAX by {
            assert(rest[i] == parts[i + 1]);
        }
        lemma_offset(rest, physical - parts[0].pages, pages);
    }
}

/// Whether every heading stands on a page of the documents.
pub open spec fn on_the_pages(headings: Seq<Heading>, pages: int) -> bool {
    forall|i: int| 0 <= i < headings.len() ==> 1 <= (#[trigger] headings[i]).page <= pages
}

/// The line of a heading, where it ends up.
pub open spec fn moved_entry(
    heading: Heading,
    printed: Seq<Piece>,
    all: Seq<Piece>,
    parts: Seq<Part>,
) -> EntryView {
    let page = moved_to(heading.page as int, printed, all);
    heading_entry(heading, page as usize, (page + offset_at(parts, page)) as i64)
}

/// The line of a table of contents itself.
pub open spec fn table_entry(
    table: Piece,
    title: Seq<char>,
    all: Seq<Piece>,
    parts: Seq<Part>,
) -> EntryView {
    let page = first_page_of(all, table.index)->0;
    contents_entry(page as usize, title, (page + offset_at(parts, page)) as i64)
}

/// The lines of the headings, and then those of the tables themselves.
pub open spec fn unsorted_lines(
    headings: Seq<Heading>,
    printed: Seq<Piece>,
    tables: Seq<Piece>,
    titles: Seq<Seq<char>>,
    numberings: Seq<Numbering>,
) -> Seq<EntryView> {
    let all = by_object(printed + tables);
    let parts = parts_of(all, numberings);
    headings.map_values(|heading: Heading| moved_entry(heading, printed, all, parts)) + Seq::new(
        tables.len(),
        |i: int| table_entry(tables[i], titles[i], all, parts),
    )
}

proof fn lemma_laid_out(printed: Seq<Piece>, tables: Seq<Piece>)
    requires
        distinct(printed + tables),
    ensures
        laid_out(printed, by_object(printed + tables)),
        laid_out(tables, by_object(printed + tables)),
        total(by_object(printed + tables)) == total(printed + tables),
{
    let both = printed + tables;
    let all = by_object(both);
    law_order_keeps_every_piece(both);
    assert forall|i: int, j: int| 0 <= i < j < printed.len() implies (#[trigger] printed[i]).index
        != (#[trigger] printed[j]).index by {
        assert(both[i] == printed[i] && both[j] == printed[j]);
    }
    assert forall|i: int, j: int| 0 <= i < j < tables.len() implies (#[trigger] tables[i]).index
        != (#[trigger] tables[j]).index by {
        assert(both[printed.len() + i] == tables[i] && both[printed.len() + j] == tables[j]);
    }
    assert forall|i: int| 0 <= i < printed.len() implies all.contains(#[trigger] printed[i]) by {
        assert(both[i] == printed[i]);
        assert(both.contains(printed[i]));
    }
    assert forall|i: int| 0 <= i < tables.len() implies all.contains(#[trigger] tables[i]) by {
        assert(both[printed.len() + i] == tables[i]);
        assert(both.contains(tables[i]));
    }
}

proof fn lemma_total_prefix(printed: Seq<Piece>, tables: Seq<Piece>)
    ensures
        total(printed) <= total(printed + tables),
{
    lemma_total(printed + tables, printed.len() as int);
    assert((printed + tables).take(printed.len() as int) =~= printed);
}

/// Where each table begins, with its title.
fn table_places(tables: &Vec<Piece>, titles: &Vec<String>, all: &Vec<Piece>) -> (places: Vec<
    (usize, String),
>)
    requires
        tables@.len() == titles@.len(),
        laid_out(tables@, all@),
        total(all@) < usize::MAX,
    ensures
        places@.len() == tables@.len(),
        forall|i: int|
            0 <= i < tables@.len() ==> first_page_of(all@, tables@[i].index) == Some(
                (#[trigger] places@[i]).0 as int,
            ) && places@[i].1@ == titles@[i]@,
{
    let mut places: Vec<(usize, String)> = Vec::new();
    let size: usize = tables.len();
    let mut at: usize = 0;
    while at < size
        invariant
            at <= size == tables@.len(),
            tables@.len() == titles@.len(),
            laid_out(tables@, all@),
            total(all@) < usize::MAX,
            places@.len() == at,
            forall|i: int|
                0 <= i < at ==> first_page_of(all@, tables@[i].index) == Some(
                    (#[trigger] places@[i]).0 as int,
                ) && places@[i].1@ == titles@[i]@,
        decreases size - at,
    {
        proof {
            assert(all@.contains(tables@[at as int]));
            let m = choose|m: int| 0 <= m < all@.len() && all@[m] == tables@[at as int];
            lemma_first_page(all@, m);
        }
        let first: usize = match first_page(all, tables[at].index) {
            Some(first) => first,
            None => 0,
        };
        places.push((first, titles[at].clone()));
        at = at + 1;
    }
    places
}

/// The lines of the tables of contents. `printed` is what the documents printed,
/// `tables` what the tables did, each with its title in `titles`.
pub fn contents_lines(
    headings: &Vec<OutlineItem>,
    printed: &Vec<Piece>,
    tables: &Vec<Piece>,
    titles: &Vec<String>,
    numberings: &Vec<Numbering>,
) -> (lines: Vec<Entry>)
    requires
        distinct(printed@ + tables@),
        known(printed@ + tables@, numberings@.len() as int),
        tables@.len() == titles@.len(),
        total(printed@ + tables@) < usize::MAX,
        bearable(numberings@, total(printed@ + tables@)),
        on_the_pages(flat(headings@, 1), total(printed@)),
    ensures
        entries_of(lines@) == sorted_by_page(
            unsorted_lines(flat(headings@, 1), printed@, tables@, texts(titles@), numberings@),
        ),
{
    let all = ordered(printed, tables);
    let ghost flat_headings = flat(headings@, 1);
    proof {
        lemma_laid_out(printed@, tables@);
        lemma_total_prefix(printed@, tables@);
        law_order_keeps_every_piece(printed@ + tables@);
        let both = printed@ + tables@;
        assert forall|i: int| 0 <= i < all@.len() implies (#[trigger] all@[i]).index
            < numberings@.len() by {
            assert(all@.contains(all@[i]));
            assert(both.contains(all@[i]));
            let k = choose|k: int| 0 <= k < both.len() && both[k] == all@[i];
            assert(both[k].index < numberings@.len());
        }
    }
    let counted = parts(&all, numberings);
    proof {
        lemma_parts_total(all@, numberings@, all@.len() as int);
        assert(all@.take(all@.len() as int) =~= all@);
        lemma_total(all@, all@.len() as int);
        assert forall|i: int| 0 <= i < counted@.len() implies (#[trigger] counted@[i]).page_offset
            + total(all@) < i64::MAX by {
            assert(all@[i].index < numberings@.len());
            assert(numberings@[all@[i].index as int].page_offset + total(all@) < i64::MAX);
        }
        assert forall|page: int|
            i64::MIN <= #[trigger] offset_at(counted@, page) < i64::MAX - total(all@) by {
            lemma_offset(counted@, page, total(all@));
        }
        assert forall|i: int| 0 <= i < flat_headings.len() implies 1 <= #[trigger] moved_to(
            flat_headings[i].page as int,
            printed@,
            all@,
        ) <= total(all@) by {
            assert(1 <= flat_headings[i].page <= total(printed@));
            lemma_moved(flat_headings[i].page as int, printed@, all@);
        }
    }
    let places = table_places(tables, titles, &all);
    let move_page = |page: usize| -> (to: usize)
        requires
            1 <= page <= total(printed@),
            laid_out(printed@, all@),
            total(printed@) < usize::MAX,
            total(all@) < usize::MAX,
        ensures
            to == moved_to(page as int, printed@, all@),
        { moved(page, printed, &all) };
    let number_page = |page: usize| -> (number: i64)
        requires
            page <= 1 + total(all@) <= i64::MAX,
            total_pages(counted@) == total(all@),
            total(all@) < usize::MAX,
            forall|other: int|
                i64::MIN <= #[trigger] offset_at(counted@, other) < i64::MAX - total(all@),
        ensures
            number == page + offset_at(counted@, page as int),
        {
            assert(i64::MIN <= offset_at(counted@, page as int) < i64::MAX - total(all@));
            dump_page(counted.as_slice(), page)
        };
    assert forall|i: int| 0 <= i < flat_headings.len() implies move_page.requires(
        ((#[trigger] flat_headings[i]).page,),
    ) by {
        assert(1 <= flat_headings[i].page <= total(printed@));
    }
    assert forall|i: int, page: usize|
        0 <= i < flat_headings.len() && #[trigger] move_page.ensures(
            (flat_headings[i].page,),
            page,
        ) implies number_page.requires((page,)) by {
        assert(1 <= moved_to(flat_headings[i].page as int, printed@, all@) <= total(all@));
    }
    assert forall|i: int| 0 <= i < places@.len() implies number_page.requires(
        ((#[trigger] places@[i]).0,),
    ) by {
        assert(all@.contains(tables@[i]));
        let m = choose|m: int| 0 <= m < all@.len() && all@[m] == tables@[i];
        lemma_first_page(all@, m);
        lemma_place_within(all@, m);
    }
    let lines = entries(headings, move_page, &places, number_page);
    proof {
        let unsorted = choose|unsorted: Seq<EntryView>|
            placed(flat_headings, move_page, places@, number_page, unsorted) && entries_of(lines@)
                == sorted_by_page(unsorted);
        let wanted = unsorted_lines(
            flat_headings,
            printed@,
            tables@,
            texts(titles@),
            numberings@,
        );
        assert(unsorted.len() == wanted.len());
        assert forall|i: int| 0 <= i < unsorted.len() implies unsorted[i] == wanted[i] by {
            if i < flat_headings.len() {
                assert(is_heading_entry(unsorted[i], flat_headings[i], move_page, number_page));
            } else {
                let k = i - flat_headings.len();
                assert(is_contents_entry(unsorted[i], places@[k], number_page));
                assert(texts(titles@)[k] == titles@[k]@);
                assert(places@[k].1@ == titles@[k]@);
                assert(wanted[i] == table_entry(
                    tables@[k],
                    texts(titles@)[k],
                    all@,
                    counted@,
                ));
            }
        }
        assert(unsorted =~= wanted);
    }
    lines
}

/// A piece begins no later than the file ends, or is empty behind it.
proof fn lemma_place_within(pieces: Seq<Piece>, at: int)
    requires
        0 <= at < pieces.len(),
    ensures
        start_of(pieces, at) + pieces[at].pages <= 1 + total(pieces),
{
    assert(pieces.take(at + 1).drop_last() =~= pieces.take(at));
    assert(pieces.take(at + 1).last() == pieces[at]);
    lemma_total(pieces, at + 1);
}

/// How often the tables of contents were printed, and how long they were.
#[derive(Debug, PartialEq, Eq)]
pub struct Passes {
    lengths: Vec<usize>,
    made: usize,
}

/// A [`Passes`] by what it holds.
pub struct PassesView {
    pub lengths: Seq<usize>,
    pub made: int,
}

impl View for Passes {
    type V = PassesView;

    closed spec fn view(&self) -> PassesView {
        PassesView { lengths: self.lengths@, made: self.made as int }
    }
}

/// Whether printing the tables once more changes nothing, or is once too often.
pub open spec fn settles(passes: PassesView, measured: Seq<usize>) -> bool {
    measured == passes.lengths || passes.made + 1 >= CONTENTS_PASSES
}

impl Passes {
    #[verifier::type_invariant]
    spec fn within_bounds(self) -> bool {
        self.made <= CONTENTS_PASSES
    }

    /// Before the first pass every table is taken to be one page long.
    pub fn new(tables: usize) -> (passes: Passes)
        ensures
            passes@.made == 0,
            passes@.lengths == Seq::new(tables as nat, |i: int| 1usize),
    {
        let mut lengths: Vec<usize> = Vec::new();
        let mut at: usize = 0;
        while at < tables
            invariant
                at <= tables,
                lengths@ == Seq::new(at as nat, |i: int| 1usize),
            decreases tables - at,
        {
            lengths.push(1);
            at = at + 1;
            assert(lengths@ =~= Seq::new(at as nat, |i: int| 1usize));
        }
        Passes { lengths, made: 0 }
    }

    /// How long the tables are taken to be.
    pub fn lengths(&self) -> (lengths: &Vec<usize>)
        ensures
            lengths@ == self@.lengths,
    {
        &self.lengths
    }

    /// Take in how long the tables turned out to be. The outcome says whether
    /// they have settled.
    pub fn measured(&mut self, measured: Vec<usize>) -> (settled: bool)
        ensures
            settled == settles(old(self)@, measured@),
            final(self)@.lengths == measured@,
            old(self)@.made < CONTENTS_PASSES ==> final(self)@.made == old(self)@.made + 1,
            old(self)@.made >= CONTENTS_PASSES ==> final(self)@.made == old(self)@.made,
    {
        proof {
            use_type_invariant(&*self);
        }
        let unchanged = same_lengths(&self.lengths, &measured);
        let again = self.made + 1 < CONTENTS_PASSES;
        self.lengths = measured;
        if self.made < CONTENTS_PASSES {
            self.made = self.made + 1;
        }
        unchanged || !again
    }
}

fn same_lengths(left: &Vec<usize>, right: &Vec<usize>) -> (yes: bool)
    ensures
        yes == (left@ == right@),
{
    if left.len() != right.len() {
        return false;
    }
    let mut at: usize = 0;
    while at < left.len()
        invariant
            at <= left@.len() == right@.len(),
            forall|i: int| 0 <= i < at ==> left@[i] == right@[i],
        decreases left@.len() - at,
    {
        if left[at] != right[at] {
            return false;
        }
        at = at + 1;
    }
    assert(left@ =~= right@);
    true
}

/// The tables of a pass, each with the length that it is taken to have.
pub fn table_pieces(tables: &Vec<usize>, lengths: &Vec<usize>) -> (pieces: Vec<Piece>)
    requires
        tables@.len() == lengths@.len(),
    ensures
        pieces@ == Seq::new(
            tables@.len(),
            |i: int| Piece { index: tables@[i], pages: lengths@[i] },
        ),
{
    let mut pieces: Vec<Piece> = Vec::new();
    let mut at: usize = 0;
    while at < tables.len()
        invariant
            at <= tables@.len() == lengths@.len(),
            pieces@ == Seq::new(
                at as nat,
                |i: int| Piece { index: tables@[i], pages: lengths@[i] },
            ),
        decreases tables@.len() - at,
    {
        pieces.push(Piece { index: tables[at], pages: lengths[at] });
        at = at + 1;
        assert(pieces@ =~= Seq::new(
            at as nat,
            |i: int| Piece { index: tables@[i], pages: lengths@[i] },
        ));
    }
    pieces
}

/// Tables are printed no more than the most that is allowed: that pass settles
/// whatever comes out.
pub proof fn law_passes_end(passes: PassesView, measured: Seq<usize>)
    requires
        passes.made >= CONTENTS_PASSES - 1,
    ensures
        settles(passes, measured),
{
}

/// Pieces have the pages of each of them together.
pub proof fn law_pages_of_pieces_add_up(first: Seq<Piece>, second: Seq<Piece>, piece: Piece)
    ensures
        total(first + second) == total(first) + total(second),
        total(seq![piece]) == piece.pages,
    decreases second.len(),
{
    reveal_with_fuel(total, 2);
    assert(seq![piece].drop_last() =~= Seq::empty());
    if second.len() == 0 {
        assert(first + second =~= first);
    } else {
        assert((first + second).drop_last() =~= first + second.drop_last());
        assert((first + second).last() == second.last());
        law_pages_of_pieces_add_up(first, second.drop_last(), piece);
    }
}

/// A piece begins behind all the pages of the pieces before it; an object without a piece
/// begins nowhere.
pub proof fn law_a_piece_begins_behind_those_before_it(
    before: Seq<Piece>,
    piece: Piece,
    after: Seq<Piece>,
)
    requires
        forall|i: int| 0 <= i < after.len() ==> (#[trigger] after[i]).index != piece.index,
    ensures
        first_page_of(before + seq![piece] + after, piece.index) == Some(1 + total(before)),
        first_page_of(after, piece.index) is None,
        start_of(before + seq![piece] + after, before.len() as int) == 1 + total(before),
    decreases after.len(),
{
    let all = before + seq![piece] + after;
    assert(all.take(before.len() as int) =~= before);
    if after.len() == 0 {
        assert(all.last() == piece);
        assert(all.drop_last() =~= before);
    } else {
        assert(all.last() == after[after.len() - 1]);
        assert(all.drop_last() =~= before + seq![piece] + after.drop_last());
        assert forall|i: int| 0 <= i < after.drop_last().len() implies (
        #[trigger] after.drop_last()[i]).index != piece.index by {
            assert(after.drop_last()[i] == after[i]);
        }
        law_a_piece_begins_behind_those_before_it(before, piece, after.drop_last());
    }
}

/// A table of contents has one line for every heading, in the order of the headings, with
/// its title and level, where its page ends up and with the number that it has there; and
/// one more for every table, on its own first page.
pub proof fn law_every_heading_and_every_table_has_a_line(
    headings: Seq<Heading>,
    printed: Seq<Piece>,
    tables: Seq<Piece>,
    titles: Seq<Seq<char>>,
    numberings: Seq<Numbering>,
    at: int,
)
    ensures
        ({
            let all = by_object(printed + tables);
            let parts = parts_of(all, numberings);
            let lines = unsorted_lines(headings, printed, tables, titles, numberings);
            let page = moved_to(headings[at].page as int, printed, all);
            let first = first_page_of(all, tables[at].index)->0;
            &&& lines.len() == headings.len() + tables.len()
            &&& 0 <= at < headings.len() ==> lines[at].title == headings[at].title
                && lines[at].level == headings[at].level && lines[at].left == headings[at].left
                && lines[at].top == headings[at].top
            &&& 0 <= at < headings.len() && 0 <= page <= usize::MAX ==> lines[at].target_page
                == page
            &&& 0 <= at < headings.len() && i64::MIN <= page + offset_at(parts, page) <= i64::MAX
                ==> lines[at].page == page + offset_at(parts, page)
            &&& 0 <= at < tables.len() ==> lines[headings.len() + at].title == titles[at]
                && lines[headings.len() + at].level == 1
            &&& 0 <= at < tables.len() && 0 <= first <= usize::MAX ==> lines[headings.len()
                + at].target_page == first
            &&& 0 <= at < tables.len() && i64::MIN <= first + offset_at(parts, first) <= i64::MAX
                ==> lines[headings.len() + at].page == first + offset_at(parts, first)
        }),
{
}

/// The pieces are counted as their objects say, in their order, each with all its pages.
pub proof fn law_pieces_are_counted_as_their_objects_say(
    pieces: Seq<Piece>,
    numberings: Seq<Numbering>,
    at: int,
)
    requires
        0 <= at < pieces.len(),
    ensures
        parts_of(pieces, numberings).len() == pieces.len(),
        parts_of(pieces, numberings)[at].pages == pieces[at].pages,
        parts_of(pieces, numberings)[at].counted
            == numberings[pieces[at].index as int].counted,
        parts_of(pieces, numberings)[at].page_offset
            == numberings[pieces[at].index as int].page_offset,
{
}

/// Tables are printed until their lengths stay the same, four times at most.
pub proof fn law_tables_are_printed_until_they_settle(passes: PassesView, measured: Seq<usize>)
    ensures
        measured == passes.lengths ==> settles(passes, measured),
        measured != passes.lengths && passes.made < 3 ==> !settles(passes, measured),
        passes.made >= 3 ==> settles(passes, measured),
{
}

/// Behind the documents pages stay where they are.
pub proof fn law_pages_behind_the_documents_stay(page: int, printed: Seq<Piece>, all: Seq<Piece>)
    requires
        page > total(printed),
    ensures
        moved_to(page, printed, all) == page,
{
    lemma_no_piece(printed, page, 0);
}

proof fn lemma_no_piece(printed: Seq<Piece>, page: int, at: int)
    requires
        page > total(printed),
        0 <= at,
    ensures
        piece_from(printed, page, at) is None,
    decreases printed.len() - at,
{
    if at < printed.len() {
        let upto = printed.take(at + 1);
        assert(upto.drop_last() =~= printed.take(at));
        assert(upto.last() == printed[at]);
        assert(printed =~= upto + printed.skip(at + 1));
        law_pages_of_pieces_add_up(upto, printed.skip(at + 1), printed[at]);
        lemma_total_is_positive(printed.skip(at + 1));
        lemma_no_piece(printed, page, at + 1);
    }
}

proof fn lemma_total_is_positive(pieces: Seq<Piece>)
    ensures
        total(pieces) >= 0,
    decreases pieces.len(),
{
    if pieces.len() > 0 {
        lemma_total_is_positive(pieces.drop_last());
    }
}

/// Pieces that stand in the order of their objects stay as they are, those of one object
/// too.
pub proof fn law_pieces_in_order_stay(pieces: Seq<Piece>)
    requires
        in_order(pieces),
    ensures
        by_object(pieces) == pieces,
    decreases pieces.len(),
{
    if pieces.len() > 0 {
        let before = pieces.drop_last();
        assert forall|i: int, j: int| 0 <= i <= j < before.len() implies (#[trigger] before[i]).index
            <= (#[trigger] before[j]).index by {
            assert(before[i] == pieces[i] && before[j] == pieces[j]);
        }
        law_pieces_in_order_stay(before);
        if before.len() > 0 {
            assert(pieces[pieces.len() - 2].index <= pieces[pieces.len() - 1].index);
            assert(before.last() == pieces[pieces.len() - 2]);
        }
        assert(before.push(pieces.last()) =~= pieces);
    } else {
        assert(by_object(pieces) =~= pieces);
    }
}

} // verus!
