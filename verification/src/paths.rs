//! Paths as text.

use crate::text::{chars_of, maybe, same, text_of, texts};
use vstd::prelude::*;

verus! {

/// A path below another. An absolute one replaces it.
pub open spec fn joined(base: Seq<char>, part: Seq<char>) -> Seq<char> {
    if part.len() > 0 && part[0] == '/' {
        part
    } else if base.len() == 0 || base.last() == '/' {
        base + part
    } else {
        base + "/"@ + part
    }
}

/// Put a path below another.
pub fn join(base: &str, part: &str) -> (path: String)
    ensures
        path@ == joined(base@, part@),
{
    let base_chars = chars_of(base);
    let part_chars = chars_of(part);
    if part_chars.len() > 0 && part_chars[0] == '/' {
        return part.to_owned();
    }
    let mut path = base.to_owned();
    if base_chars.len() > 0 && base_chars[base_chars.len() - 1] != '/' {
        path.push_str("/");
    }
    path.push_str(part);
    path
}

/// A path without the slashes and dots behind its last name.
pub open spec fn stem(path: Seq<char>) -> Seq<char>
    decreases path.len(),
{
    if path.len() == 0 {
        path
    } else if path.last() == '/' {
        stem(path.drop_last())
    } else if path.last() == '.' && (path.len() == 1 || path[path.len() - 2] == '/') {
        stem(path.drop_last())
    } else {
        path
    }
}

/// A path parted behind its last slash.
pub open spec fn parted(path: Seq<char>) -> (Seq<char>, Seq<char>)
    decreases path.len(),
{
    if path.len() == 0 || path.last() == '/' {
        (path, Seq::empty())
    } else {
        let (head, name) = parted(path.drop_last());
        (head, name.push(path.last()))
    }
}

/// The two parts of a path make it up.
pub proof fn lemma_parted(path: Seq<char>)
    ensures
        path == parted(path).0 + parted(path).1,
    decreases path.len(),
{
    if path.len() == 0 || path.last() == '/' {
        assert(path =~= path + Seq::<char>::empty());
    } else {
        lemma_parted(path.drop_last());
        assert(path =~= path.drop_last().push(path.last()));
        assert(path =~= parted(path).0 + parted(path).1);
    }
}

/// The last name of a path. One that ends in `..` or in nothing has none.
pub open spec fn last_name(path: Seq<char>) -> Option<Seq<char>> {
    let name = parted(stem(path)).1;
    if name.len() == 0 || name == ".."@ {
        None
    } else {
        Some(name)
    }
}

/// Part a path into what stands before its last name, and that name.
fn part(path: &str) -> (parts: (String, String))
    ensures
        (parts.0@, parts.1@) == parted(stem(path@)),
{
    let chars = chars_of(path);
    let mut end: usize = chars.len();
    assert(chars@.take(end as int) =~= chars@);
    while end > 0 && (chars[end - 1] == '/' || (chars[end - 1] == '.' && (end == 1 || chars[end - 2]
        == '/')))
        invariant
            end <= chars@.len(),
            stem(path@) == stem(chars@.take(end as int)),
        decreases end,
    {
        assert(chars@.take(end as int).drop_last() =~= chars@.take(end - 1));
        assert(chars@.take(end as int).last() == chars@[end - 1]);
        end = end - 1;
    }
    let ghost kept = chars@.take(end as int);
    assert(stem(path@) == kept) by {
        if end > 0 {
            assert(kept.last() == chars@[end - 1]);
        }
    }
    let mut start: usize = end;
    assert(chars@.subrange(end as int, end as int) =~= Seq::empty());
    assert(parted(kept).1 =~= parted(kept).1 + chars@.subrange(end as int, end as int));
    while start > 0 && chars[start - 1] != '/'
        invariant
            start <= end <= chars@.len(),
            parted(kept).0 == parted(chars@.take(start as int)).0,
            parted(kept).1 == parted(chars@.take(start as int)).1 + chars@.subrange(
                start as int,
                end as int,
            ),
        decreases start,
    {
        assert(chars@.take(start as int).drop_last() =~= chars@.take(start - 1));
        assert(chars@.take(start as int).last() == chars@[start - 1]);
        assert(parted(chars@.take(start - 1)).1.push(chars@[start - 1]) + chars@.subrange(
            start as int,
            end as int,
        ) =~= parted(chars@.take(start - 1)).1 + chars@.subrange(start - 1, end as int));
        start = start - 1;
    }
    assert(parted(chars@.take(start as int)) == (chars@.take(start as int), Seq::<char>::empty())) by {
        if start > 0 {
            assert(chars@.take(start as int).last() == chars@[start - 1]);
        }
    }
    let head = text_of(&chars, 0, start);
    let name = text_of(&chars, start, end);
    assert(head@ =~= chars@.take(start as int));
    assert(Seq::<char>::empty() + name@ =~= name@);
    (head, name)
}

/// The last name of a path.
pub fn file_name(path: &str) -> (name: Option<String>)
    ensures
        maybe(name) == last_name(path@),
{
    let (_, name) = part(path);
    let size: usize = chars_of(&name).len();
    if size == 0 || same(&name, "..") {
        None
    } else {
        Some(name)
    }
}

/// A path with another last name.
pub open spec fn renamed(path: Seq<char>, name: Seq<char>) -> Seq<char> {
    match last_name(path) {
        Some(_) => parted(stem(path)).0 + name,
        None => joined(path, name),
    }
}

/// Give a path another last name.
pub fn with_file_name(path: &str, name: &str) -> (renamed_path: String)
    ensures
        renamed_path@ == renamed(path@, name@),
{
    let (head, own) = part(path);
    let size: usize = chars_of(&own).len();
    if size == 0 || same(&own, "..") {
        join(path, name)
    } else {
        let mut out = head;
        out.push_str(name);
        out
    }
}

/// The names of a path with one more at the end. Nothing and a lone dot name
/// nothing.
pub open spec fn with_name(names: Seq<Seq<char>>, name: Seq<char>) -> Seq<Seq<char>> {
    if name.len() == 0 || name == "."@ {
        names
    } else {
        names.push(name)
    }
}

/// The names of a path up to its last slash, and the characters behind it.
pub open spec fn walked(path: Seq<char>) -> (Seq<Seq<char>>, Seq<char>)
    decreases path.len(),
{
    if path.len() == 0 {
        (Seq::empty(), Seq::empty())
    } else {
        let (names, name) = walked(path.drop_last());
        if path.last() == '/' {
            (with_name(names, name), Seq::empty())
        } else {
            (names, name.push(path.last()))
        }
    }
}

/// The names that an absolute path is made of.
pub open spec fn names_of(path: Seq<char>) -> Seq<Seq<char>> {
    with_name(walked(path).0, walked(path).1)
}

/// Whether one absolute path is another or lies below it, name by name.
pub open spec fn lies_inside(root: Seq<char>, path: Seq<char>) -> bool {
    names_of(root).is_prefix_of(names_of(path))
}

/// Add a name to the names of a path.
fn push_name(names: &mut Vec<String>, name: String)
    ensures
        texts(final(names)@) == with_name(texts(old(names)@), name@),
{
    let ghost before = texts(names@);
    let size: usize = chars_of(&name).len();
    if size > 0 && !same(&name, ".") {
        let ghost added = name@;
        names.push(name);
        assert(texts(names@) =~= before.push(added));
    }
}

/// The names that an absolute path is made of.
pub fn components(path: &str) -> (names: Vec<String>)
    ensures
        texts(names@) == names_of(path@),
{
    let chars = chars_of(path);
    let mut names: Vec<String> = Vec::new();
    let mut name = String::new();
    let mut at: usize = 0;
    assert(chars@.take(0) =~= Seq::empty());
    assert(texts(names@) =~= Seq::empty());
    while at < chars.len()
        invariant
            at <= chars@.len(),
            (texts(names@), name@) == walked(chars@.take(at as int)),
        decreases chars@.len() - at,
    {
        assert(chars@.take(at + 1).drop_last() =~= chars@.take(at as int));
        let c = chars[at];
        if c == '/' {
            push_name(&mut names, name);
            name = String::new();
        } else {
            name.push(c);
        }
        at = at + 1;
    }
    assert(chars@.take(at as int) =~= path@);
    push_name(&mut names, name);
    names
}

/// Whether one absolute path is another or lies below it. A name counts as a
/// whole, so `/pages-public` does not lie inside `/pages`.
pub fn inside(root: &str, path: &str) -> (yes: bool)
    ensures
        yes == lies_inside(root@, path@),
{
    let above = components(root);
    let below = components(path);
    if above.len() > below.len() {
        return false;
    }
    let ghost roots = texts(above@);
    let ghost paths = texts(below@);
    let mut at: usize = 0;
    while at < above.len()
        invariant
            at <= above@.len() <= below@.len(),
            roots == texts(above@),
            paths == texts(below@),
            roots == names_of(root@),
            paths == names_of(path@),
            forall|i: int| 0 <= i < at ==> roots[i] == paths[i],
        decreases above@.len() - at,
    {
        assert(roots[at as int] == above@[at as int]@);
        assert(paths[at as int] == below@[at as int]@);
        if !same(&above[at], &below[at]) {
            assert(roots[at as int] != paths.subrange(0, roots.len() as int)[at as int]);
            return false;
        }
        at = at + 1;
    }
    assert(roots =~= paths.subrange(0, roots.len() as int));
    true
}

/// A path lies inside itself, and inside whatever contains what it lies inside.
pub proof fn law_inside_is_an_order(first: Seq<char>, second: Seq<char>, third: Seq<char>)
    ensures
        lies_inside(first, first),
        lies_inside(first, second) && lies_inside(second, third) ==> lies_inside(first, third),
{
    let names = names_of(first);
    assert(names =~= names.subrange(0, names.len() as int));
    if lies_inside(first, second) && lies_inside(second, third) {
        let (a, b, c) = (names_of(first), names_of(second), names_of(third));
        assert(a =~= c.subrange(0, a.len() as int)) by {
            assert forall|i: int| 0 <= i < a.len() implies a[i] == c[i] by {
                assert(a[i] == b.subrange(0, a.len() as int)[i]);
                assert(b[i] == c.subrange(0, b.len() as int)[i]);
            }
        }
    }
}

/// A path below another stands behind a slash, and an absolute one stands alone.
pub proof fn law_how_paths_are_joined(base: Seq<char>, part: Seq<char>)
    ensures
        joined(base, "/"@ + part) == "/"@ + part,
        part.len() > 0 && part[0] != '/' && base.len() > 0 && base.last() != '/' ==> joined(
            base,
            part,
        ) == base + "/"@ + part,
        part.len() > 0 && part[0] != '/' ==> joined(base + "/"@, part) == base + "/"@ + part,
        part.len() > 0 && part[0] != '/' ==> joined(Seq::empty(), part) == part,
{
    reveal_strlit("/");
    assert(("/"@ + part)[0] == '/');
    assert((base + "/"@).last() == '/');
    assert(Seq::<char>::empty() + part =~= part);
}

proof fn lemma_parted_name(head: Seq<char>, name: Seq<char>)
    requires
        !name.contains('/'),
        head.len() == 0 || head.last() == '/',
    ensures
        parted(head + name) == (head, name),
    decreases name.len(),
{
    let path = head + name;
    if name.len() == 0 {
        assert(path =~= head);
        assert(name =~= Seq::empty());
    } else {
        assert(path.last() == name.last());
        assert(name.contains(name.last()));
        assert(path.drop_last() =~= head + name.drop_last());
        assert forall|c: char| name.drop_last().contains(c) implies name.contains(c) by {
            let i = choose|i: int| 0 <= i < name.drop_last().len() && name.drop_last()[i] == c;
            assert(name[i] == c);
        }
        lemma_parted_name(head, name.drop_last());
        assert(name.drop_last().push(name.last()) =~= name);
    }
}

/// A name that ends a path is its last name, whatever slashes stand behind it; and with
/// another last name the path keeps everything before it.
pub proof fn law_the_last_name_of_a_path(directory: Seq<char>, name: Seq<char>, other: Seq<char>)
    requires
        name.len() > 0,
        !name.contains('/'),
        name != "."@,
        name != ".."@,
    ensures
        last_name(directory + "/"@ + name) == Some(name),
        last_name(directory + "/"@ + name + "/"@) == Some(name),
        last_name(name) == Some(name),
        renamed(directory + "/"@ + name, other) == directory + "/"@ + other,
        renamed(name, other) == other,
        last_name(directory + "/.."@) is None,
{
    reveal_strlit("/");
    reveal_strlit(".");
    reveal_strlit("..");
    reveal_strlit("/..");
    let head = directory + "/"@;
    let path = head + name;
    assert(path =~= directory + "/"@ + name);
    assert(head.last() == '/');
    let none = Seq::<char>::empty();
    assert(none + name =~= name);
    lemma_parted_name(head, name);
    lemma_parted_name(none, name);
    assert(name.contains(name.last()));
    assert(path.last() == name.last());
    if name.len() == 1 {
        assert(name.last() != '.') by {
            if name.last() == '.' {
                assert(name =~= "."@);
            }
        }
    } else {
        assert(path[path.len() - 2] == name[name.len() - 2]);
        assert(name.contains(name[name.len() - 2]));
    }
    assert(stem(path) == path);
    assert(stem(name) == name);
    let behind = path + "/"@;
    assert(behind.last() == '/');
    assert(behind.drop_last() =~= path);
    assert(none + other =~= other);
    let up = directory + "/.."@;
    assert(up =~= head + ".."@);
    assert(up.last() == '.' && up[up.len() - 2] == '.');
    lemma_parted_name(head, ".."@);
}

proof fn lemma_walked(path: Seq<char>, name: Seq<char>)
    requires
        !name.contains('/'),
    ensures
        walked(path + "/"@ + name) == (names_of(path), name),
        walked(name) == (Seq::<Seq<char>>::empty(), name),
    decreases name.len(),
{
    reveal_strlit("/");
    let all = path + "/"@ + name;
    if name.len() == 0 {
        assert(all =~= path + "/"@);
        assert(all.last() == '/');
        assert(all.drop_last() =~= path);
        assert(name =~= Seq::empty());
    } else {
        assert(all.last() == name.last());
        assert(name.contains(name.last()));
        assert(all.drop_last() =~= path + "/"@ + name.drop_last());
        assert forall|c: char| name.drop_last().contains(c) implies name.contains(c) by {
            let i = choose|i: int| 0 <= i < name.drop_last().len() && name.drop_last()[i] == c;
            assert(name[i] == c);
        }
        lemma_walked(path, name.drop_last());
        assert(name.drop_last().push(name.last()) =~= name);
    }
}

/// A path is made of the names between its slashes; nothing and a lone dot name nothing.
pub proof fn law_the_names_of_a_path(path: Seq<char>, name: Seq<char>)
    requires
        !name.contains('/'),
    ensures
        name.len() > 0 && name != "."@ ==> names_of(path + "/"@ + name) == names_of(path).push(name),
        names_of(path + "/"@) == names_of(path),
        names_of(path + "/."@) == names_of(path),
        names_of(Seq::empty()).len() == 0,
{
    reveal_strlit("/");
    reveal_strlit(".");
    reveal_strlit("/.");
    lemma_walked(path, name);
    lemma_walked(path, Seq::empty());
    lemma_walked(path, "."@);
    assert(path + "/"@ + Seq::<char>::empty() =~= path + "/"@);
    assert(path + "/"@ + "."@ =~= path + "/."@);
}

/// What is below a directory lies inside it, at any depth; a directory does not lie inside
/// what is below it, nor inside another that only begins like it.
pub proof fn law_what_lies_inside(root: Seq<char>, name: Seq<char>, other: Seq<char>)
    requires
        name.len() > 0 && !name.contains('/') && name != "."@,
        other.len() > 0 && !other.contains('/') && other != "."@,
    ensures
        lies_inside(root, root),
        lies_inside(root, root + "/"@ + name),
        lies_inside(root, root + "/"@ + name + "/"@ + other),
        !lies_inside(root + "/"@ + name, root),
        name != other ==> !lies_inside(root + "/"@ + name, root + "/"@ + other),
{
    law_the_names_of_a_path(root, name);
    law_the_names_of_a_path(root, other);
    law_the_names_of_a_path(root + "/"@ + name, other);
    let names = names_of(root);
    if lies_inside(root + "/"@ + name, root + "/"@ + other) {
        assert(names.push(name)[names.len() as int] == names.push(other)[names.len() as int]);
    }
}

/// Slashes and lone dots behind a path are no part of its last name.
pub proof fn law_what_stands_behind_the_last_name(path: Seq<char>)
    requires
        path.len() > 0,
    ensures
        stem(path + "/"@) == stem(path),
        stem(path + "/."@) == stem(path),
        last_name(path + "/"@) == last_name(path),
        last_name(path + "/."@) == last_name(path),
{
    reveal_strlit("/");
    reveal_strlit("/.");
    let one = path + "/"@;
    assert(one.last() == '/');
    assert(one.drop_last() =~= path);
    let two = path + "/."@;
    assert(two.last() == '.');
    assert(two[two.len() - 2] == '/');
    assert(two.drop_last() =~= one);
}

} // verus!
