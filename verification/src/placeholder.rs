//! What the placeholders of a band stand for.

use crate::clock::{date_text, iso_text, time_text, Clock};
use crate::encoding::{law_url_text_is_plain, push_url_text, url_text};
pub use crate::numbering::Numbers;
use crate::numbering::NumbersView;
use crate::settings::{pairs_of, Pair, PairView};
use crate::text::{
    chars_of, decimal, find, first_of, holds, lemma_find, lemma_find_none, maybe, occurs,
    position_of, same, signed_text, text_of,
};
use vstd::prelude::*;
use vstd::utf8::encode_utf8;

verus! {

/// A character as it is written in HTML.
pub open spec fn html_char(c: char) -> Seq<char> {
    if c == '&' {
        "&amp;"@
    } else if c == '<' {
        "&lt;"@
    } else if c == '>' {
        "&gt;"@
    } else if c == '"' {
        "&quot;"@
    } else if c == '\'' {
        "&#39;"@
    } else {
        seq![c]
    }
}

/// A text as it is written in HTML.
pub open spec fn html(text: Seq<char>) -> Seq<char>
    decreases text.len(),
{
    if text.len() == 0 {
        Seq::empty()
    } else {
        html(text.drop_last()) + html_char(text.last())
    }
}

/// Write a text as HTML, so that nothing in it is markup.
pub fn escape(raw: &str) -> (out: String)
    ensures
        out@ == html(raw@),
{
    let chars = chars_of(raw);
    let mut out = String::new();
    let mut at: usize = 0;
    assert(raw@.take(0) =~= Seq::empty());
    while at < chars.len()
        invariant
            at <= chars@.len(),
            chars@ == raw@,
            out@ == html(raw@.take(at as int)),
        decreases chars@.len() - at,
    {
        let c = chars[at];
        assert(raw@.take(at + 1).drop_last() =~= raw@.take(at as int));
        let ghost before = out@;
        if c == '&' {
            out.push_str("&amp;");
        } else if c == '<' {
            out.push_str("&lt;");
        } else if c == '>' {
            out.push_str("&gt;");
        } else if c == '"' {
            out.push_str("&quot;");
        } else if c == '\'' {
            out.push_str("&#39;");
        } else {
            out.push(c);
            assert(out@ =~= before + seq![c]);
        }
        at = at + 1;
    }
    assert(raw@.take(raw@.len() as int) =~= raw@);
    out
}

/// A text written as HTML holds no character that could open a tag or end an
/// attribute.
pub proof fn law_html_holds_no_markup(text: Seq<char>, at: int)
    requires
        0 <= at < html(text).len(),
    ensures
        html(text)[at] != '<',
        html(text)[at] != '>',
        html(text)[at] != '"',
        html(text)[at] != '\'',
    decreases text.len(),
{
    reveal_strlit("&amp;");
    reveal_strlit("&lt;");
    reveal_strlit("&gt;");
    reveal_strlit("&quot;");
    reveal_strlit("&#39;");
    if text.len() > 0 {
        let before = html(text.drop_last());
        if at < before.len() {
            law_html_holds_no_markup(text.drop_last(), at);
        } else {
            assert(html(text)[at] == html_char(text.last())[at - before.len()]);
        }
    }
}

/// What the placeholders of one document stand for, on every page.
#[derive(Debug, PartialEq, Eq)]
pub struct Context {
    pub webpage: String,
    pub title: String,
    /// Placeholders of the command line's own.
    pub replacements: Vec<Pair>,
    pub clock: Clock,
}

/// A [`Context`] by the characters it holds.
pub struct ContextView {
    pub webpage: Seq<char>,
    pub title: Seq<char>,
    pub replacements: Seq<PairView>,
    pub clock: Clock,
}

impl View for Context {
    type V = ContextView;

    open spec fn view(&self) -> ContextView {
        ContextView {
            webpage: self.webpage@,
            title: self.title@,
            replacements: pairs_of(self.replacements@),
            clock: self.clock,
        }
    }
}

/// Whether a text asks for a heading of the document.
pub open spec fn asks_for_a_section(text: Seq<char>) -> bool {
    occurs(text, "[section]"@) || occurs(text, "[subsection]"@) || occurs(
        text,
        "[subsubsection]"@,
    )
}

/// Whether a text asks for a heading of the document.
pub fn names_a_section(text: &str) -> (yes: bool)
    ensures
        yes == asks_for_a_section(text@),
{
    holds(text, "[section]") || holds(text, "[subsection]") || holds(text, "[subsubsection]")
}

/// The value of the first pair of a name.
pub open spec fn value_of(pairs: Seq<PairView>, name: Seq<char>) -> Option<Seq<char>>
    decreases pairs.len(),
{
    if pairs.len() == 0 {
        None
    } else if pairs[0].name == name {
        Some(pairs[0].value)
    } else {
        value_of(pairs.skip(1), name)
    }
}

/// The value of the first pair of a name.
fn lookup(pairs: &Vec<Pair>, name: &str) -> (value: Option<String>)
    ensures
        maybe(value) == value_of(pairs_of(pairs@), name@),
{
    let ghost all = pairs_of(pairs@);
    let size: usize = pairs.len();
    let mut at: usize = 0;
    assert(all.skip(0) =~= all);
    while at < size
        invariant
            at <= size == pairs@.len(),
            all == pairs_of(pairs@),
            value_of(all, name@) == value_of(all.skip(at as int), name@),
        decreases size - at,
    {
        assert(all.skip(at as int)[0] == pairs@[at as int]@);
        assert(all.skip(at as int).skip(1) =~= all.skip(at + 1));
        if same(&pairs[at].name, name) {
            return Some(pairs[at].value.clone());
        }
        at = at + 1;
    }
    None
}

/// What a placeholder of the program stands for on a page.
pub open spec fn built_in(
    name: Seq<char>,
    context: ContextView,
    numbers: NumbersView,
) -> Option<Seq<char>> {
    if name == "page"@ {
        Some(decimal(numbers.page))
    } else if name == "topage"@ {
        Some(decimal(numbers.topage))
    } else if name == "frompage"@ {
        Some(decimal(numbers.frompage))
    } else if name == "sitepage"@ {
        Some(decimal(numbers.sitepage))
    } else if name == "sitepages"@ {
        Some(decimal(numbers.sitepages))
    } else if name == "section"@ {
        Some(numbers.section)
    } else if name == "subsection"@ {
        Some(numbers.subsection)
    } else if name == "subsubsection"@ {
        Some(numbers.subsubsection)
    } else if name == "webpage"@ {
        Some(context.webpage)
    } else if name == "title"@ || name == "doctitle"@ {
        Some(context.title)
    } else if name == "date"@ {
        Some(date_text(context.clock))
    } else if name == "isodate"@ {
        Some(iso_text(context.clock))
    } else if name == "time"@ {
        Some(time_text(context.clock))
    } else {
        None
    }
}

/// What a placeholder stands for on a page. One of the command line's own wins.
pub open spec fn resolved(
    name: Seq<char>,
    context: ContextView,
    numbers: NumbersView,
) -> Option<Seq<char>> {
    match value_of(context.replacements, name) {
        Some(value) => Some(value),
        None => built_in(name, context, numbers),
    }
}

/// What a placeholder of the program stands for on a page.
fn resolve_built_in(name: &str, context: &Context, numbers: &Numbers) -> (value: Option<String>)
    ensures
        maybe(value) == built_in(name@, context@, numbers@),
{
    if same(name, "page") {
        Some(signed_text(numbers.page))
    } else if same(name, "topage") {
        Some(signed_text(numbers.topage))
    } else if same(name, "frompage") {
        Some(signed_text(numbers.frompage))
    } else if same(name, "sitepage") {
        Some(signed_text(numbers.sitepage))
    } else if same(name, "sitepages") {
        Some(signed_text(numbers.sitepages))
    } else if same(name, "section") {
        Some(numbers.section.clone())
    } else if same(name, "subsection") {
        Some(numbers.subsection.clone())
    } else if same(name, "subsubsection") {
        Some(numbers.subsubsection.clone())
    } else if same(name, "webpage") {
        Some(context.webpage.clone())
    } else if same(name, "title") || same(name, "doctitle") {
        Some(context.title.clone())
    } else if same(name, "date") {
        Some(context.clock.date())
    } else if same(name, "isodate") {
        Some(context.clock.iso())
    } else if same(name, "time") {
        Some(context.clock.time())
    } else {
        None
    }
}

/// What a placeholder stands for on a page.
pub fn resolve(name: &str, context: &Context, numbers: &Numbers) -> (value: Option<String>)
    ensures
        maybe(value) == resolved(name@, context@, numbers@),
{
    match lookup(&context.replacements, name) {
        Some(value) => Some(value),
        None => resolve_built_in(name, context, numbers),
    }
}

/// A text as HTML, with its placeholders replaced. What only looks like a
/// placeholder stays, and what takes the place of one is not looked at again.
pub open spec fn expanded(
    text: Seq<char>,
    context: ContextView,
    numbers: NumbersView,
) -> Seq<char>
    decreases text.len(),
{
    match find(text, '[') {
        None => html(text),
        Some(open) => {
            let after = text.skip(open + 1);
            match find(after, ']') {
                None => html(text.take(open)) + html(text.skip(open)),
                Some(close) => {
                    let name = after.take(close);
                    html(text.take(open)) + html(
                        match resolved(name, context, numbers) {
                            Some(value) => value,
                            None => text.subrange(open, open + close + 2),
                        },
                    ) + expanded(after.skip(close + 1), context, numbers)
                },
            }
        },
    }
}

/// Write a text as HTML, with its placeholders replaced.
pub fn expand(text: &str, context: &Context, numbers: &Numbers) -> (out: String)
    ensures
        out@ == expanded(text@, context@, numbers@),
{
    let mut out = String::new();
    let mut rest = chars_of(text);
    assert(out@ + expanded(rest@, context@, numbers@) =~= expanded(text@, context@, numbers@));
    loop
        invariant
            expanded(text@, context@, numbers@) == out@ + expanded(rest@, context@, numbers@),
        decreases rest@.len(),
    {
        let ghost before = out@;
        let size: usize = rest.len();
        match position_of(&rest, '[', '[') {
            None => {
                let tail = text_of(&rest, 0, size);
                assert(tail@ =~= rest@);
                out.push_str(&escape(&tail));
                return out;
            },
            Some(open) => {
                let head = text_of(&rest, 0, open);
                assert(head@ =~= rest@.take(open as int));
                out.push_str(&escape(&head));
                let after = chars_of(&text_of(&rest, open + 1, size));
                assert(after@ =~= rest@.skip(open + 1));
                match position_of(&after, ']', ']') {
                    None => {
                        let tail = text_of(&rest, open, size);
                        assert(tail@ =~= rest@.skip(open as int));
                        out.push_str(&escape(&tail));
                        assert(out@ =~= before + (html(rest@.take(open as int)) + html(
                            rest@.skip(open as int),
                        )));
                        return out;
                    },
                    Some(close) => {
                        let name = text_of(&after, 0, close);
                        assert(name@ =~= after@.take(close as int));
                        let value = match resolve(&name, context, numbers) {
                            Some(value) => value,
                            None => text_of(&rest, open, open + close + 2),
                        };
                        out.push_str(&escape(&value));
                        let left = chars_of(&text_of(&after, close + 1, after.len()));
                        assert(left@ =~= after@.skip(close + 1));
                        let ghost tail = expanded(left@, context@, numbers@);
                        assert(before + (html(head@) + html(value@) + tail) =~= out@ + tail);
                        rest = left;
                    },
                }
            },
        }
    }
}

/// The placeholders of the program, in the order in which a query names them.
pub open spec fn built_in_names() -> Seq<Seq<char>> {
    seq![
        "page"@,
        "topage"@,
        "frompage"@,
        "sitepage"@,
        "sitepages"@,
        "section"@,
        "subsection"@,
        "subsubsection"@,
        "webpage"@,
        "title"@,
        "doctitle"@,
        "date"@,
        "isodate"@,
        "time"@,
    ]
}

/// The pairs that no placeholder of the program shadows.
pub open spec fn unshadowed(pairs: Seq<PairView>) -> Seq<PairView>
    decreases pairs.len(),
{
    if pairs.len() == 0 {
        Seq::empty()
    } else {
        let earlier = unshadowed(pairs.drop_last());
        if built_in_names().contains(pairs.last().name) {
            earlier
        } else {
            earlier.push(pairs.last())
        }
    }
}

/// The placeholders of the program, each with what it stands for.
pub open spec fn built_in_pairs(
    names: Seq<Seq<char>>,
    context: ContextView,
    numbers: NumbersView,
) -> Seq<PairView> {
    names.map_values(
        |name: Seq<char>|
            PairView {
                name,
                value: match built_in(name, context, numbers) {
                    Some(value) => value,
                    None => Seq::empty(),
                },
            },
    )
}

/// A text as a query carries it.
pub open spec fn encoded(text: Seq<char>) -> Seq<char> {
    url_text(encode_utf8(text), false)
}

/// Pairs as a query writes them.
pub open spec fn query_of(pairs: Seq<PairView>) -> Seq<char>
    decreases pairs.len(),
{
    if pairs.len() == 0 {
        Seq::empty()
    } else {
        let own = encoded(pairs.last().name) + "="@ + encoded(pairs.last().value);
        if pairs.len() == 1 {
            own
        } else {
            query_of(pairs.drop_last()) + "&"@ + own
        }
    }
}

/// Every pair that the query of a band document names.
pub open spec fn query_pairs(context: ContextView, numbers: NumbersView) -> Seq<PairView> {
    unshadowed(context.replacements) + built_in_pairs(built_in_names(), context, numbers)
}

fn names() -> (list: Vec<&'static str>)
    ensures
        list@.map_values(|text: &'static str| text@) == built_in_names(),
{
    let list: Vec<&'static str> = vec![
        "page",
        "topage",
        "frompage",
        "sitepage",
        "sitepages",
        "section",
        "subsection",
        "subsubsection",
        "webpage",
        "title",
        "doctitle",
        "date",
        "isodate",
        "time",
    ];
    assert(list@.map_values(|text: &'static str| text@) =~= built_in_names());
    list
}

fn is_built_in(list: &Vec<&'static str>, name: &str) -> (yes: bool)
    requires
        list@.map_values(|text: &'static str| text@) == built_in_names(),
    ensures
        yes == built_in_names().contains(name@),
{
    let mut at: usize = 0;
    while at < list.len()
        invariant
            at <= list@.len(),
            list@.map_values(|text: &'static str| text@) == built_in_names(),
            forall|i: int| 0 <= i < at ==> built_in_names()[i] != name@,
        decreases list@.len() - at,
    {
        assert(list@.map_values(|text: &'static str| text@)[at as int] == list@[at as int]@);
        if same(list[at], name) {
            assert(built_in_names()[at as int] == name@);
            return true;
        }
        at = at + 1;
    }
    assert(list@.map_values(|text: &'static str| text@).len() == list@.len());
    false
}

fn push_pair(out: &mut String, first: bool, name: &str, value: &str)
    ensures
        final(out)@ == old(out)@ + (if first {
            Seq::empty()
        } else {
            "&"@
        }) + (encoded(name@) + "="@ + encoded(value@)),
{
    let ghost start = out@;
    if !first {
        out.push_str("&");
    } else {
        assert(out@ =~= start + Seq::<char>::empty());
    }
    let ghost before = out@;
    push_url_text(out, name, false);
    out.push_str("=");
    push_url_text(out, value, false);
    assert(out@ =~= before + (encoded(name@) + "="@ + encoded(value@)));
}

proof fn lemma_query_push(pairs: Seq<PairView>, pair: PairView)
    ensures
        query_of(pairs.push(pair)) == query_of(pairs) + (if pairs.len() == 0 {
            Seq::empty()
        } else {
            "&"@
        }) + (encoded(pair.name) + "="@ + encoded(pair.value)),
{
    assert(pairs.push(pair).drop_last() =~= pairs);
    let own = encoded(pair.name) + "="@ + encoded(pair.value);
    if pairs.len() == 0 {
        assert(query_of(pairs) + Seq::<char>::empty() + own =~= own);
    }
}

/// The query that tells a band document what the placeholders stand for on a
/// page.
pub fn query(context: &Context, numbers: &Numbers) -> (out: String)
    ensures
        out@ == query_of(query_pairs(context@, numbers@)),
{
    let list = names();
    let mut out = String::new();
    let mut first = true;
    let ghost all = pairs_of(context.replacements@);
    let size: usize = context.replacements.len();
    let mut at: usize = 0;
    assert(all.take(0) =~= Seq::empty());
    while at < size
        invariant
            at <= size == context.replacements@.len(),
            all == pairs_of(context.replacements@),
            list@.map_values(|text: &'static str| text@) == built_in_names(),
            out@ == query_of(unshadowed(all.take(at as int))),
            first == (unshadowed(all.take(at as int)).len() == 0),
        decreases size - at,
    {
        assert(all.take(at + 1).drop_last() =~= all.take(at as int));
        assert(all.take(at + 1).last() == context.replacements@[at as int]@);
        let pair = &context.replacements[at];
        if !is_built_in(&list, &pair.name) {
            proof {
                lemma_query_push(unshadowed(all.take(at as int)), pair@);
            }
            push_pair(&mut out, first, &pair.name, &pair.value);
            first = false;
        }
        at = at + 1;
    }
    assert(all.take(at as int) =~= all);
    let ghost others = unshadowed(all);
    let ghost own = built_in_pairs(built_in_names(), context@, numbers@);
    let count: usize = list.len();
    let mut at: usize = 0;
    assert(others + own.take(0) =~= others);
    while at < count
        invariant
            at <= count == list@.len(),
            list@.map_values(|text: &'static str| text@) == built_in_names(),
            own == built_in_pairs(built_in_names(), context@, numbers@),
            out@ == query_of(others + own.take(at as int)),
            first == ((others + own.take(at as int)).len() == 0),
        decreases count - at,
    {
        let name = list[at];
        assert(list@.map_values(|text: &'static str| text@)[at as int] == name@);
        let value = match resolve_built_in(name, context, numbers) {
            Some(value) => value,
            None => String::new(),
        };
        assert(own[at as int] == (PairView { name: name@, value: value@ }));
        proof {
            lemma_query_push(others + own.take(at as int), own[at as int]);
        }
        assert((others + own.take(at as int)).push(own[at as int]) =~= others + own.take(at + 1));
        push_pair(&mut out, first, name, &value);
        first = false;
        at = at + 1;
    }
    assert(list@.map_values(|text: &'static str| text@).len() == list@.len());
    assert(own.take(at as int) =~= own);
    out
}

/// A URL with a query joined to what it already asks, before its fragment.
pub open spec fn joined_query(url: Seq<char>, query: Seq<char>) -> Seq<char> {
    let (base, fragment) = match find(url, '#') {
        Some(at) => (url.take(at), url.skip(at)),
        None => (url, Seq::empty()),
    };
    base + (if base.contains('?') {
        "&"@
    } else {
        "?"@
    }) + query + fragment
}

/// Join a query to what a URL already asks.
pub fn with_query(url: &str, query: &str) -> (out: String)
    ensures
        out@ == joined_query(url@, query@),
{
    let chars = chars_of(url);
    let size: usize = chars.len();
    let cut = match position_of(&chars, '#', '#') {
        Some(at) => at,
        None => size,
    };
    let base = text_of(&chars, 0, cut);
    let fragment = text_of(&chars, cut, size);
    proof {
        if find(url@, '#') is None {
            assert(base@ =~= url@);
            assert(fragment@ =~= Seq::empty());
        } else {
            assert(base@ =~= url@.take(cut as int));
            assert(fragment@ =~= url@.skip(cut as int));
        }
    }
    let base_chars = chars_of(&base);
    let mut out = base;
    match position_of(&base_chars, '?', '?') {
        Some(at) => {
            assert(base_chars@[at as int] == '?');
            out.push_str("&");
        },
        None => {
            proof {
                if base_chars@.contains('?') {
                    lemma_has(base_chars@, '?');
                }
            }
            out.push_str("?");
        },
    }
    out.push_str(query);
    out.push_str(&fragment);
    out
}

/// A character that a text contains has a first place in it.
proof fn lemma_has(text: Seq<char>, wanted: char)
    requires
        text.contains(wanted),
    ensures
        find(text, wanted) is Some,
{
    if find(text, wanted) is None {
        let i = choose|i: int| 0 <= i < text.len() && text[i] == wanted;
        lemma_first(text, wanted, i);
    }
}

proof fn lemma_first(text: Seq<char>, wanted: char, i: int)
    requires
        0 <= i < text.len(),
        text[i] == wanted,
    ensures
        exists|at: int| first_of(text, wanted, wanted, at),
    decreases i,
{
    if exists|j: int| 0 <= j < i && text[j] == wanted {
        let j = choose|j: int| 0 <= j < i && text[j] == wanted;
        lemma_first(text, wanted, j);
    } else {
        assert(first_of(text, wanted, wanted, i));
    }
}

/// What takes the place of a placeholder is written out as it is: it is escaped,
/// and no placeholder in it is replaced.
pub proof fn law_a_value_is_not_expanded_again(
    name: Seq<char>,
    value: Seq<char>,
    context: ContextView,
    numbers: NumbersView,
)
    requires
        !name.contains(']'),
        resolved(name, context, numbers) == Some(value),
    ensures
        expanded("["@ + name + "]"@, context, numbers) == html(value),
{
    reveal_strlit("[");
    reveal_strlit("]");
    let text = "["@ + name + "]"@;
    assert(text[0] == '[');
    assert(first_of(text, '[', '[', 0));
    lemma_find(text, '[', '[', 0);
    let after = text.skip(1);
    assert(after =~= name + "]"@);
    let close = name.len() as int;
    assert(after[close] == ']');
    assert forall|i: int| 0 <= i < close implies after[i] != ']' by {
        assert(name[i] == after[i]);
    }
    assert(first_of(after, ']', ']', close));
    lemma_find(after, ']', ']', close);
    assert(after.take(close) =~= name);
    assert(text.take(0) =~= Seq::empty());
    let left = after.skip(close + 1);
    assert(left =~= Seq::empty());
    lemma_find_none(left, '[', '[');
    assert(html(text.take(0)) + html(value) + expanded(left, context, numbers) =~= html(value));
}

/// A text without a placeholder is only escaped.
pub proof fn law_plain_text_stays(text: Seq<char>, context: ContextView, numbers: NumbersView)
    requires
        !text.contains('['),
    ensures
        expanded(text, context, numbers) == html(text),
{
    if find(text, '[') is Some {
        let at = find(text, '[')->0;
        assert(first_of(text, '[', '[', at));
        assert(text[at] == '[');
    }
}

/// What a query carries cannot end the value, the query or the URL that it
/// stands in.
pub proof fn law_encoded_text_holds_no_delimiter(bytes: Seq<u8>, at: int)
    requires
        0 <= at < url_text(bytes, false).len(),
    ensures
        url_text(bytes, false)[at] != '&',
        url_text(bytes, false)[at] != '=',
        url_text(bytes, false)[at] != '#',
        url_text(bytes, false)[at] != '?',
        url_text(bytes, false)[at] != ' ',
{
    law_url_text_is_plain(bytes, false, at);
}

/// A query names every placeholder of the program with what it stands for, and
/// no pair of the command line's own takes its place.
pub proof fn law_built_ins_win_in_a_query(
    context: ContextView,
    numbers: NumbersView,
    i: int,
)
    requires
        0 <= i < query_pairs(context, numbers).len(),
        built_in_names().contains(query_pairs(context, numbers)[i].name),
    ensures
        built_in(query_pairs(context, numbers)[i].name, context, numbers) is Some ==> built_in(
            query_pairs(context, numbers)[i].name,
            context,
            numbers,
        ) == Some(query_pairs(context, numbers)[i].value),
{
    let others = unshadowed(context.replacements);
    if i < others.len() {
        lemma_unshadowed(context.replacements, i);
    }
}

proof fn lemma_unshadowed(pairs: Seq<PairView>, i: int)
    requires
        0 <= i < unshadowed(pairs).len(),
    ensures
        !built_in_names().contains(unshadowed(pairs)[i].name),
    decreases pairs.len(),
{
    if pairs.len() > 0 {
        let earlier = unshadowed(pairs.drop_last());
        if i < earlier.len() {
            lemma_unshadowed(pairs.drop_last(), i);
        }
    }
}

/// A text is escaped character by character.
pub proof fn law_escaping_goes_character_by_character(first: Seq<char>, second: Seq<char>)
    ensures
        html(first + second) == html(first) + html(second),
    decreases second.len(),
{
    if second.len() == 0 {
        assert(first + second =~= first);
        assert(html(first) + html(second) =~= html(first));
    } else {
        assert((first + second).drop_last() =~= first + second.drop_last());
        law_escaping_goes_character_by_character(first, second.drop_last());
        assert(html(first + second) =~= html(first) + html(second));
    }
}

/// A text without markup is written as it is.
pub proof fn law_harmless_text_is_written_as_it_is(text: Seq<char>)
    requires
        !text.contains('&'),
        !text.contains('<'),
        !text.contains('>'),
        !text.contains('"'),
        !text.contains('\''),
    ensures
        html(text) == text,
    decreases text.len(),
{
    if text.len() > 0 {
        let rest = text.drop_last();
        assert forall|c: char| rest.contains(c) implies text.contains(c) by {
            let i = choose|i: int| 0 <= i < rest.len() && rest[i] == c;
            assert(text[i] == c);
        }
        assert(text.contains(text[text.len() - 1]));
        law_harmless_text_is_written_as_it_is(rest);
        assert(html(text) =~= text);
    } else {
        assert(html(text) =~= text);
    }
}

/// The character that markup is written with stands for itself once it is read.
pub open spec fn unescaped(written: Seq<char>) -> Option<char> {
    if written == "&amp;"@ {
        Some('&')
    } else if written == "&lt;"@ {
        Some('<')
    } else if written == "&gt;"@ {
        Some('>')
    } else if written == "&quot;"@ {
        Some('"')
    } else if written == "&#39;"@ {
        Some('\'')
    } else if written.len() == 1 {
        Some(written[0])
    } else {
        None
    }
}

/// Whatever character is escaped, a browser reads that character back.
pub proof fn law_an_escaped_character_is_read_back(c: char)
    ensures
        unescaped(html(seq![c])) == Some(c),
        c == '&' || c == '<' || c == '>' || c == '"' || c == '\'' <==> html(seq![c]).len() > 1,
{
    reveal_strlit("&amp;");
    reveal_strlit("&lt;");
    reveal_strlit("&gt;");
    reveal_strlit("&quot;");
    reveal_strlit("&#39;");
    reveal_with_fuel(html, 2);
    assert(seq![c].drop_last() =~= Seq::empty());
    assert(html(seq![c]) =~= html_char(c));
    assert("&amp;"@.len() != "&lt;"@.len());
    assert("&lt;"@[1] != "&gt;"@[1]);
    assert("&#39;"@[1] != "&amp;"@[1]);
}

/// Whether every bracket that opens in a text is closed later in it.
pub open spec fn brackets_close(text: Seq<char>) -> bool {
    forall|i: int|
        0 <= i < text.len() && #[trigger] text[i] == '[' ==> exists|j: int|
            i < j < text.len() && #[trigger] text[j] == ']'
}

proof fn lemma_close(text: Seq<char>, open: int)
    requires
        brackets_close(text),
        first_of(text, '[', '[', open),
    ensures
        find(text.skip(open + 1), ']') is Some,
{
    let j = choose|j: int| open < j < text.len() && #[trigger] text[j] == ']';
    let after = text.skip(open + 1);
    assert(after[j - open - 1] == ']');
    if find(after, ']') is None {
        lemma_find_none(after, ']', ']');
    }
}

/// A text is expanded part by part: what stands behind the brackets of one part has
/// no say in what becomes of it, and it has none in what becomes of the next.
pub proof fn law_expansion_goes_part_by_part(
    first: Seq<char>,
    second: Seq<char>,
    context: ContextView,
    numbers: NumbersView,
)
    requires
        brackets_close(first),
    ensures
        expanded(first + second, context, numbers) == expanded(first, context, numbers) + expanded(
            second,
            context,
            numbers,
        ),
    decreases first.len(),
{
    let both = first + second;
    match find(first, '[') {
        None => {
            lemma_find_none(first, '[', '[');
            match find(second, '[') {
                None => {
                    lemma_find_none(second, '[', '[');
                    assert forall|i: int| 0 <= i < both.len() implies both[i] != '[' by {
                        if i < first.len() {
                            assert(both[i] == first[i]);
                        } else {
                            assert(both[i] == second[i - first.len()]);
                        }
                    }
                    lemma_find_none(both, '[', '[');
                    law_escaping_goes_character_by_character(first, second);
                },
                Some(open) => {
                    assert(first_of(second, '[', '[', open));
                    let at = first.len() + open;
                    assert forall|i: int| 0 <= i < at implies both[i] != '[' by {
                        if i < first.len() {
                            assert(both[i] == first[i]);
                        } else {
                            assert(both[i] == second[i - first.len()]);
                        }
                    }
                    assert(first_of(both, '[', '[', at));
                    lemma_find(both, '[', '[', at);
                    assert(both.skip(at + 1) =~= second.skip(open + 1));
                    assert(both.take(at) =~= first + second.take(open));
                    law_escaping_goes_character_by_character(first, second.take(open));
                    assert(both.skip(at) =~= second.skip(open));
                    if let Some(close) = find(second.skip(open + 1), ']') {
                        assert(first_of(second.skip(open + 1), ']', ']', close));
                        assert(both.subrange(at, at + close + 2) =~= second.subrange(
                            open,
                            open + close + 2,
                        ));
                    }
                    assert(expanded(both, context, numbers) =~= html(first) + expanded(
                        second,
                        context,
                        numbers,
                    ));
                },
            }
        },
        Some(open) => {
            assert(first_of(first, '[', '[', open));
            lemma_close(first, open);
            let after = first.skip(open + 1);
            let close = find(after, ']')->0;
            assert(first_of(after, ']', ']', close));
            assert forall|i: int| 0 <= i < open implies both[i] != '[' by {
                assert(both[i] == first[i]);
            }
            assert(first_of(both, '[', '[', open));
            lemma_find(both, '[', '[', open);
            let behind = both.skip(open + 1);
            assert(behind =~= after + second);
            assert forall|i: int| 0 <= i < close implies behind[i] != ']' by {
                assert(behind[i] == after[i]);
            }
            assert(first_of(behind, ']', ']', close));
            lemma_find(behind, ']', ']', close);
            let rest = after.skip(close + 1);
            assert(behind.skip(close + 1) =~= rest + second);
            assert(behind.take(close) =~= after.take(close));
            assert(both.take(open) =~= first.take(open));
            assert(both.subrange(open, open + close + 2) =~= first.subrange(
                open,
                open + close + 2,
            ));
            assert(brackets_close(rest)) by {
                assert forall|i: int| 0 <= i < rest.len() && #[trigger] rest[i] == '[' implies exists|
                    j: int,
                |
                    i < j < rest.len() && #[trigger] rest[j] == ']' by {
                    let shift = open + close + 2;
                    assert(first[i + shift] == rest[i]);
                    let j = choose|j: int|
                        i + shift < j < first.len() && #[trigger] first[j] == ']';
                    assert(rest[j - shift] == ']');
                }
            }
            law_expansion_goes_part_by_part(rest, second, context, numbers);
            assert(expanded(both, context, numbers) =~= expanded(first, context, numbers)
                + expanded(second, context, numbers));
        },
    }
}

/// What stands in brackets and means nothing is written as it is, and what follows
/// it is expanded all the same.
pub proof fn law_what_means_nothing_stays(
    name: Seq<char>,
    rest: Seq<char>,
    context: ContextView,
    numbers: NumbersView,
)
    requires
        !name.contains(']'),
        resolved(name, context, numbers) is None,
    ensures
        expanded("["@ + name + "]"@ + rest, context, numbers) == html("["@ + name + "]"@)
            + expanded(rest, context, numbers),
{
    reveal_strlit("[");
    reveal_strlit("]");
    let text = "["@ + name + "]"@;
    assert(text[0] == '[');
    assert(first_of(text, '[', '[', 0));
    lemma_find(text, '[', '[', 0);
    let after = text.skip(1);
    assert(after =~= name + "]"@);
    let close = name.len() as int;
    assert(after[close] == ']');
    assert forall|i: int| 0 <= i < close implies after[i] != ']' by {
        assert(name[i] == after[i]);
    }
    assert(first_of(after, ']', ']', close));
    lemma_find(after, ']', ']', close);
    assert(after.take(close) =~= name);
    let left = after.skip(close + 1);
    assert(left =~= Seq::empty());
    lemma_find_none(left, '[', '[');
    assert(text.subrange(0, close + 2) =~= text);
    assert(html(text.take(0)) + html(text) + expanded(left, context, numbers) =~= html(text));
    assert(brackets_close(text)) by {
        assert forall|i: int| 0 <= i < text.len() && #[trigger] text[i] == '[' implies exists|
            j: int,
        |
            i < j < text.len() && #[trigger] text[j] == ']' by {
            assert(text[close + 1] == ']');
            if i == close + 1 {
                assert(text[i] == ']');
            }
        }
    }
    law_expansion_goes_part_by_part(text, rest, context, numbers);
}

/// A bracket that is never closed is text.
pub proof fn law_an_open_bracket_is_text(
    text: Seq<char>,
    context: ContextView,
    numbers: NumbersView,
)
    requires
        !text.contains(']'),
    ensures
        expanded(text, context, numbers) == html(text),
{
    if let Some(open) = find(text, '[') {
        assert(first_of(text, '[', '[', open));
        let after = text.skip(open + 1);
        assert forall|i: int| 0 <= i < after.len() implies after[i] != ']' by {
            assert(after[i] == text[i + open + 1]);
        }
        lemma_find_none(after, ']', ']');
        law_escaping_goes_character_by_character(text.take(open), text.skip(open));
        assert(text.take(open) + text.skip(open) =~= text);
    }
}

/// What a name of the command line's own stands for: the value of the first pair
/// that has it.
pub proof fn law_the_first_pair_of_a_name_counts(
    name: Seq<char>,
    context: ContextView,
    numbers: NumbersView,
    at: int,
)
    requires
        0 <= at < context.replacements.len(),
        context.replacements[at].name == name,
        forall|i: int| 0 <= i < at ==> (#[trigger] context.replacements[i]).name != name,
    ensures
        resolved(name, context, numbers) == Some(context.replacements[at].value),
{
    lemma_first_pair(context.replacements, name, at);
}

proof fn lemma_first_pair(pairs: Seq<PairView>, name: Seq<char>, at: int)
    requires
        0 <= at < pairs.len(),
        pairs[at].name == name,
        forall|i: int| 0 <= i < at ==> (#[trigger] pairs[i]).name != name,
    ensures
        value_of(pairs, name) == Some(pairs[at].value),
    decreases pairs.len(),
{
    if at > 0 {
        assert(pairs[0].name != name);
        let rest = pairs.skip(1);
        assert forall|i: int| 0 <= i < at - 1 implies (#[trigger] rest[i]).name != name by {
            assert(rest[i] == pairs[i + 1]);
        }
        lemma_first_pair(rest, name, at - 1);
    }
}

proof fn lemma_no_pair(pairs: Seq<PairView>, name: Seq<char>)
    requires
        forall|i: int| 0 <= i < pairs.len() ==> (#[trigger] pairs[i]).name != name,
    ensures
        value_of(pairs, name) is None,
    decreases pairs.len(),
{
    if pairs.len() > 0 {
        assert(pairs[0].name != name);
        let rest = pairs.skip(1);
        assert forall|i: int| 0 <= i < rest.len() implies (#[trigger] rest[i]).name != name by {
            assert(rest[i] == pairs[i + 1]);
        }
        lemma_no_pair(rest, name);
    }
}

/// Whether the command line defines no placeholder of a name.
pub open spec fn is_free(context: ContextView, name: Seq<char>) -> bool {
    forall|i: int|
        0 <= i < context.replacements.len() ==> (#[trigger] context.replacements[i]).name != name
}

/// The names of the program stand for the numbers, the headings, the document, the
/// title and the time, where the command line does not define them itself.
pub proof fn law_built_in_names(context: ContextView, numbers: NumbersView)
    ensures
        is_free(context, "page"@) ==> resolved("page"@, context, numbers) == Some(
            decimal(numbers.page),
        ),
        is_free(context, "topage"@) ==> resolved("topage"@, context, numbers) == Some(
            decimal(numbers.topage),
        ),
        is_free(context, "frompage"@) ==> resolved("frompage"@, context, numbers) == Some(
            decimal(numbers.frompage),
        ),
        is_free(context, "sitepage"@) ==> resolved("sitepage"@, context, numbers) == Some(
            decimal(numbers.sitepage),
        ),
        is_free(context, "sitepages"@) ==> resolved("sitepages"@, context, numbers) == Some(
            decimal(numbers.sitepages),
        ),
        is_free(context, "section"@) ==> resolved("section"@, context, numbers) == Some(
            numbers.section,
        ),
        is_free(context, "subsection"@) ==> resolved("subsection"@, context, numbers) == Some(
            numbers.subsection,
        ),
        is_free(context, "subsubsection"@) ==> resolved("subsubsection"@, context, numbers) == Some(
            numbers.subsubsection,
        ),
        is_free(context, "webpage"@) ==> resolved("webpage"@, context, numbers) == Some(
            context.webpage,
        ),
        is_free(context, "title"@) ==> resolved("title"@, context, numbers) == Some(context.title),
        is_free(context, "doctitle"@) ==> resolved("doctitle"@, context, numbers) == Some(
            context.title,
        ),
        is_free(context, "date"@) ==> resolved("date"@, context, numbers) == Some(
            date_text(context.clock),
        ),
        is_free(context, "isodate"@) ==> resolved("isodate"@, context, numbers) == Some(
            iso_text(context.clock),
        ),
        is_free(context, "time"@) ==> resolved("time"@, context, numbers) == Some(
            time_text(context.clock),
        ),
        forall|name: Seq<char>|
            is_free(context, name)
                && name != "page"@
                && name != "topage"@
                && name != "frompage"@
                && name != "sitepage"@
                && name != "sitepages"@
                && name != "section"@
                && name != "subsection"@
                && name != "subsubsection"@
                && name != "webpage"@
                && name != "title"@
                && name != "doctitle"@
                && name != "date"@
                && name != "isodate"@
                && name != "time"@
                ==> (#[trigger] resolved(name, context, numbers)) is None,
{
    lemma_marks();
    assert forall|name: Seq<char>| is_free(context, name) implies value_of(
        context.replacements,
        name,
    ) is None by {
        lemma_no_pair(context.replacements, name);
    }
}

/// A number by which the names of the program can be told apart: their length and
/// their first letter.
spec fn mark(name: Seq<char>) -> int {
    name.len() * 0x200000 + name[0] as int
}

proof fn lemma_marks()
    ensures
        mark("page"@) == 4 * 0x200000 + 'p' as int,
        mark("topage"@) == 6 * 0x200000 + 't' as int,
        mark("frompage"@) == 8 * 0x200000 + 'f' as int,
        mark("sitepage"@) == 8 * 0x200000 + 's' as int,
        mark("sitepages"@) == 9 * 0x200000 + 's' as int,
        mark("section"@) == 7 * 0x200000 + 's' as int,
        mark("subsection"@) == 10 * 0x200000 + 's' as int,
        mark("subsubsection"@) == 13 * 0x200000 + 's' as int,
        mark("webpage"@) == 7 * 0x200000 + 'w' as int,
        mark("title"@) == 5 * 0x200000 + 't' as int,
        mark("doctitle"@) == 8 * 0x200000 + 'd' as int,
        mark("date"@) == 4 * 0x200000 + 'd' as int,
        mark("isodate"@) == 7 * 0x200000 + 'i' as int,
        mark("time"@) == 4 * 0x200000 + 't' as int,
{
    reveal_strlit("page");
    reveal_strlit("topage");
    reveal_strlit("frompage");
    reveal_strlit("sitepage");
    reveal_strlit("sitepages");
    reveal_strlit("section");
    reveal_strlit("subsection");
    reveal_strlit("subsubsection");
    reveal_strlit("webpage");
    reveal_strlit("title");
    reveal_strlit("doctitle");
    reveal_strlit("date");
    reveal_strlit("isodate");
    reveal_strlit("time");
}

/// Pairs are written one after the other into a query: a name, an equals sign and a value,
/// with an ampersand between two pairs.
pub proof fn law_how_a_query_is_written(pairs: Seq<PairView>, pair: PairView)
    ensures
        query_of(Seq::empty()).len() == 0,
        query_of(seq![pair]) == url_text(encode_utf8(pair.name), false) + "="@ + url_text(
            encode_utf8(pair.value),
            false,
        ),
        pairs.len() > 0 ==> query_of(pairs.push(pair)) == query_of(pairs) + "&"@ + (url_text(
            encode_utf8(pair.name),
            false,
        ) + "="@ + url_text(encode_utf8(pair.value), false)),
{
    assert(pairs.push(pair).drop_last() =~= pairs);
    assert(pairs.push(pair).last() == pair);
}

/// A query names what the command line defines, but for the names of the program, in the
/// order in which it was written; and behind that every name of the program with what it
/// stands for.
pub proof fn law_what_a_query_names(context: ContextView, numbers: NumbersView)
    ensures
        query_pairs(context, numbers) == unshadowed(context.replacements) + seq![
            PairView { name: "page"@, value: decimal(numbers.page) },
            PairView { name: "topage"@, value: decimal(numbers.topage) },
            PairView { name: "frompage"@, value: decimal(numbers.frompage) },
            PairView { name: "sitepage"@, value: decimal(numbers.sitepage) },
            PairView { name: "sitepages"@, value: decimal(numbers.sitepages) },
            PairView { name: "section"@, value: numbers.section },
            PairView { name: "subsection"@, value: numbers.subsection },
            PairView { name: "subsubsection"@, value: numbers.subsubsection },
            PairView { name: "webpage"@, value: context.webpage },
            PairView { name: "title"@, value: context.title },
            PairView { name: "doctitle"@, value: context.title },
            PairView { name: "date"@, value: date_text(context.clock) },
            PairView { name: "isodate"@, value: iso_text(context.clock) },
            PairView { name: "time"@, value: time_text(context.clock) },
        ],
{
    lemma_marks();
    let own = built_in_pairs(built_in_names(), context, numbers);
    assert(own =~= seq![
        PairView { name: "page"@, value: decimal(numbers.page) },
        PairView { name: "topage"@, value: decimal(numbers.topage) },
        PairView { name: "frompage"@, value: decimal(numbers.frompage) },
        PairView { name: "sitepage"@, value: decimal(numbers.sitepage) },
        PairView { name: "sitepages"@, value: decimal(numbers.sitepages) },
        PairView { name: "section"@, value: numbers.section },
        PairView { name: "subsection"@, value: numbers.subsection },
        PairView { name: "subsubsection"@, value: numbers.subsubsection },
        PairView { name: "webpage"@, value: context.webpage },
        PairView { name: "title"@, value: context.title },
        PairView { name: "doctitle"@, value: context.title },
        PairView { name: "date"@, value: date_text(context.clock) },
        PairView { name: "isodate"@, value: iso_text(context.clock) },
        PairView { name: "time"@, value: time_text(context.clock) },
    ]);
}

/// A name of the command line is left out of a query only where it is one of the program.
pub proof fn law_which_names_are_left_out(
    first: Seq<PairView>,
    second: Seq<PairView>,
    pair: PairView,
)
    ensures
        unshadowed(first + second) == unshadowed(first) + unshadowed(second),
        pair.name != "page"@
            && pair.name != "topage"@
            && pair.name != "frompage"@
            && pair.name != "sitepage"@
            && pair.name != "sitepages"@
            && pair.name != "section"@
            && pair.name != "subsection"@
            && pair.name != "subsubsection"@
            && pair.name != "webpage"@
            && pair.name != "title"@
            && pair.name != "doctitle"@
            && pair.name != "date"@
            && pair.name != "isodate"@
            && pair.name != "time"@
            ==> unshadowed(seq![pair]) == seq![pair],
        pair.name == "page"@
            || pair.name == "topage"@
            || pair.name == "frompage"@
            || pair.name == "sitepage"@
            || pair.name == "sitepages"@
            || pair.name == "section"@
            || pair.name == "subsection"@
            || pair.name == "subsubsection"@
            || pair.name == "webpage"@
            || pair.name == "title"@
            || pair.name == "doctitle"@
            || pair.name == "date"@
            || pair.name == "isodate"@
            || pair.name == "time"@
            ==> unshadowed(seq![pair]).len() == 0,
    decreases second.len(),
{
    reveal_with_fuel(unshadowed, 2);
    assert(seq![pair].drop_last() =~= Seq::empty());
    assert(Seq::empty().push(pair) =~= seq![pair]);
    let names = built_in_names();
    assert(names[0] == "page"@);
    assert(names[1] == "topage"@);
    assert(names[2] == "frompage"@);
    assert(names[3] == "sitepage"@);
    assert(names[4] == "sitepages"@);
    assert(names[5] == "section"@);
    assert(names[6] == "subsection"@);
    assert(names[7] == "subsubsection"@);
    assert(names[8] == "webpage"@);
    assert(names[9] == "title"@);
    assert(names[10] == "doctitle"@);
    assert(names[11] == "date"@);
    assert(names[12] == "isodate"@);
    assert(names[13] == "time"@);
    if second.len() == 0 {
        assert(first + second =~= first);
        assert(unshadowed(first) + unshadowed(second) =~= unshadowed(first));
    } else {
        assert((first + second).drop_last() =~= first + second.drop_last());
        assert((first + second).last() == second.last());
        law_which_names_are_left_out(first, second.drop_last(), pair);
        assert(unshadowed(first + second) =~= unshadowed(first) + unshadowed(second));
    }
}

/// A query is joined to a URL behind a question mark, or behind an ampersand where it asks
/// something already, and always before its fragment.
pub proof fn law_where_a_query_is_joined(
    base: Seq<char>,
    fragment: Seq<char>,
    query: Seq<char>,
)
    requires
        !base.contains('#'),
    ensures
        !base.contains('?') ==> joined_query(base, query) == base + "?"@ + query,
        base.contains('?') ==> joined_query(base, query) == base + "&"@ + query,
        !base.contains('?') ==> joined_query(base + ("#"@ + fragment), query) == base + "?"@ + query
            + ("#"@ + fragment),
        base.contains('?') ==> joined_query(base + ("#"@ + fragment), query) == base + "&"@ + query
            + ("#"@ + fragment),
{
    reveal_strlit("#");
    let behind = "#"@ + fragment;
    let url = base + behind;
    let at = base.len() as int;
    assert forall|i: int| 0 <= i < at implies url[i] != '#' by {
        assert(url[i] == base[i]);
        assert(base.contains(base[i]));
    }
    assert forall|i: int| 0 <= i < at implies base[i] != '#' by {
        assert(base.contains(base[i]));
    }
    assert(url[at] == behind[0]);
    assert(first_of(url, '#', '#', at));
    lemma_find(url, '#', '#', at);
    lemma_find_none(base, '#', '#');
    assert(url.take(at) =~= base);
    assert(url.skip(at) =~= behind);
    let none = Seq::<char>::empty();
    assert(base + "?"@ + query + none =~= base + "?"@ + query);
    assert(base + "&"@ + query + none =~= base + "&"@ + query);
}

/// A text asks for a heading wherever one of the three placeholders stands in it.
pub proof fn law_when_a_text_asks_for_a_heading(before: Seq<char>, after: Seq<char>)
    ensures
        asks_for_a_section(before + "[section]"@ + after),
        asks_for_a_section(before + "[subsection]"@ + after),
        asks_for_a_section(before + "[subsubsection]"@ + after),
        !before.contains('[') ==> !asks_for_a_section(before),
{
    let one = before + "[section]"@ + after;
    let two = before + "[subsection]"@ + after;
    let three = before + "[subsubsection]"@ + after;
    let at = before.len() as int;
    assert(one.subrange(at, at + "[section]"@.len()) =~= "[section]"@);
    assert(two.subrange(at, at + "[subsection]"@.len()) =~= "[subsection]"@);
    assert(three.subrange(at, at + "[subsubsection]"@.len()) =~= "[subsubsection]"@);
    assert(crate::text::stands_at(one, "[section]"@, at));
    assert(crate::text::stands_at(two, "[subsection]"@, at));
    assert(crate::text::stands_at(three, "[subsubsection]"@, at));
    reveal_strlit("[section]");
    reveal_strlit("[subsection]");
    reveal_strlit("[subsubsection]");
    assert("[section]"@[0] == '[' && "[subsection]"@[0] == '[' && "[subsubsection]"@[0] == '[');
    if !before.contains('[') && asks_for_a_section(before) {
        let part = if occurs(before, "[section]"@) {
            "[section]"@
        } else if occurs(before, "[subsection]"@) {
            "[subsection]"@
        } else {
            "[subsubsection]"@
        };
        let place = choose|place: int| crate::text::stands_at(before, part, place);
        assert(before.subrange(place, place + part.len())[0] == '[');
        assert(before.contains(before[place]));
    }
}

} // verus!
