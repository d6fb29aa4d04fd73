//! Paths as character sequences: final component, extension, case folding
//! and joining.
//!
//! A path is a string whose components are separated by `/` or `\`. Nothing
//! here touches the file system; every function is a computation on text.

use vstd::prelude::*;

verus! {

/// Whether `c` separates the components of a path.
pub open spec fn is_separator(c: char) -> bool {
    c == '/' || c == '\\'
}

/// The index at which the final component of `path` starts: one past the
/// last separator, or 0 when there is none.
pub open spec fn name_start(path: Seq<char>) -> int
    decreases path.len(),
{
    if path.len() == 0 {
        0
    } else if is_separator(path.last()) {
        path.len() as int
    } else {
        name_start(path.drop_last())
    }
}

/// The final component of `path`: everything after its last separator.
/// Empty when the path is empty or ends in a separator.
pub open spec fn final_component(path: Seq<char>) -> Seq<char> {
    path.subrange(name_start(path), path.len() as int)
}

/// The index of the last `.` in `name`, or -1 when there is none.
pub open spec fn last_dot(name: Seq<char>) -> int
    decreases name.len(),
{
    if name.len() == 0 {
        -1
    } else if name.last() == '.' {
        name.len() - 1
    } else {
        last_dot(name.drop_last())
    }
}

/// Whether `name` is the parent-directory component `..`.
pub open spec fn is_parent_component(name: Seq<char>) -> bool {
    name.len() == 2 && name[0] == '.' && name[1] == '.'
}

/// The extension of `path`: the part of its final component after the last
/// `.`, provided that `.` is not the component's first character and the
/// component is not `..`. A component that ends in `.` has the empty
/// extension.
pub open spec fn extension_of(path: Seq<char>) -> Option<Seq<char>> {
    let name = final_component(path);
    let dot = last_dot(name);
    if dot <= 0 || is_parent_component(name) {
        None
    } else {
        Some(name.subrange(dot + 1, name.len() as int))
    }
}

/// `c` with the ASCII capitals `A` to `Z` mapped to `a` to `z`; every other
/// character is left as it is.
pub open spec fn lowercase_char(c: char) -> char {
    if 'A' <= c && c <= 'Z' {
        ((c as u8) + 32) as char
    } else {
        c
    }
}

/// `s` with each character mapped by [`lowercase_char`].
pub open spec fn lowercase(s: Seq<char>) -> Seq<char> {
    Seq::new(s.len(), |i: int| lowercase_char(s[i]))
}

/// `name` placed inside the directory `dir`: the two are concatenated, with
/// a `/` between them unless `dir` is empty or already ends in a separator.
pub open spec fn joined(dir: Seq<char>, name: Seq<char>) -> Seq<char> {
    if dir.len() == 0 || is_separator(dir.last()) {
        dir + name
    } else {
        dir + seq!['/'] + name
    }
}

/// The final component starts inside the path, right after a separator or
/// at the very beginning, and holds no separator itself.
pub proof fn lemma_name_start(path: Seq<char>)
    ensures
        0 <= name_start(path) <= path.len(),
        name_start(path) > 0 ==> is_separator(path[name_start(path) - 1]),
        forall|j: int| name_start(path) <= j < path.len() ==> !is_separator(#[trigger] path[j]),
    decreases path.len(),
{
    if path.len() > 0 && !is_separator(path.last()) {
        let front = path.drop_last();
        lemma_name_start(front);
        assert forall|j: int| name_start(path) <= j < path.len() implies !is_separator(
            #[trigger] path[j],
        ) by {
            if j < front.len() {
                assert(path[j] == front[j]);
            }
        }
    }
}

/// `last_dot` names a `.` with no `.` after it, or is -1 when `name` holds
/// none at all.
pub proof fn lemma_last_dot(name: Seq<char>)
    ensures
        -1 <= last_dot(name) < name.len(),
        last_dot(name) >= 0 ==> name[last_dot(name)] == '.',
        forall|j: int| last_dot(name) < j < name.len() ==> #[trigger] name[j] != '.',
    decreases name.len(),
{
    if name.len() > 0 && name.last() != '.' {
        let front = name.drop_last();
        lemma_last_dot(front);
        assert forall|j: int| last_dot(name) < j < name.len() implies #[trigger] name[j]
            != '.' by {
            if j < front.len() {
                assert(name[j] == front[j]);
            }
        }
    }
}

/// Appending characters that are no separators leaves the start of the
/// final component where it was.
pub proof fn lemma_name_start_append(prefix: Seq<char>, tail: Seq<char>)
    requires
        forall|j: int| 0 <= j < tail.len() ==> !is_separator(#[trigger] tail[j]),
    ensures
        name_start(prefix + tail) == name_start(prefix),
        final_component(prefix + tail) == final_component(prefix) + tail,
    decreases tail.len(),
{
    lemma_name_start(prefix);
    if tail.len() == 0 {
        assert(prefix + tail == prefix);
    } else {
        let front = tail.drop_last();
        lemma_name_start_append(prefix, front);
        assert((prefix + tail).drop_last() == prefix + front);
        assert((prefix + tail).last() == tail.last());
    }
    assert(final_component(prefix + tail) == final_component(prefix) + tail);
}

/// Appending characters that are no `.` leaves the last `.` where it was.
pub proof fn lemma_last_dot_append(name: Seq<char>, tail: Seq<char>)
    requires
        forall|j: int| 0 <= j < tail.len() ==> #[trigger] tail[j] != '.',
    ensures
        last_dot(name + tail) == last_dot(name),
    decreases tail.len(),
{
    if tail.len() == 0 {
        assert(name + tail == name);
    } else {
        let front = tail.drop_last();
        lemma_last_dot_append(name, front);
        assert((name + tail).drop_last() == name + front);
        assert((name + tail).last() == tail.last());
    }
}

/// A name that holds no separator is the final component of the path made
/// by joining it to any directory.
pub proof fn lemma_final_component_of_joined(dir: Seq<char>, name: Seq<char>)
    requires
        forall|j: int| 0 <= j < name.len() ==> !is_separator(#[trigger] name[j]),
    ensures
        final_component(joined(dir, name)) == name,
{
    if dir.len() == 0 || is_separator(dir.last()) {
        lemma_name_start_append(dir, name);
        assert(final_component(dir) == Seq::<char>::empty());
    } else {
        let parent = dir + seq!['/'];
        assert(is_separator(parent.last()));
        lemma_name_start_append(parent, name);
        assert(final_component(parent) == Seq::<char>::empty());
    }
}

/// A file name written as a stem, a `.` and an extension has that
/// extension, in whatever directory it lies: the stem must not be empty,
/// neither part may hold a separator, the extension holds no `.`, and the
/// name as a whole is not `..`.
pub proof fn lemma_extension_of_named(dir: Seq<char>, stem: Seq<char>, ext: Seq<char>)
    requires
        stem.len() > 0,
        forall|j: int| 0 <= j < stem.len() ==> !is_separator(#[trigger] stem[j]),
        forall|j: int| 0 <= j < ext.len() ==> !is_separator(#[trigger] ext[j]),
        forall|j: int| 0 <= j < ext.len() ==> #[trigger] ext[j] != '.',
        !is_parent_component(stem + seq!['.'] + ext),
    ensures
        extension_of(joined(dir, stem + seq!['.'] + ext)) == Some(ext),
{
    let dotted = stem + seq!['.'];
    let name = dotted + ext;
    assert forall|j: int| 0 <= j < name.len() implies !is_separator(#[trigger] name[j]) by {
        if j < stem.len() {
            assert(name[j] == stem[j]);
        } else if j > stem.len() {
            assert(name[j] == ext[j - stem.len() - 1]);
        }
    }
    lemma_final_component_of_joined(dir, name);
    lemma_last_dot_append(dotted, ext);
    assert(dotted.last() == '.');
    assert(last_dot(name) == stem.len());
    assert(name.subrange(stem.len() as int + 1, name.len() as int) == ext);
}

/// Folding a sequence twice gives what folding it once gives.
pub proof fn lemma_lowercase_idempotent(s: Seq<char>)
    ensures
        lowercase(lowercase(s)) == lowercase(s),
{
    assert forall|i: int| 0 <= i < s.len() implies lowercase_char(lowercase_char(s[i]))
        == lowercase_char(s[i]) by {}
}

/// Trusted: the contract of the standard library's `str::to_ascii_lowercase`.
/// Its documentation says that the result is a copy of the string in which
/// the ASCII letters `A` to `Z` are replaced by `a` to `z` and every other
/// character is unchanged; that is what [`lowercase`] computes.
pub assume_specification[ str::to_ascii_lowercase ](s: &str) -> (r: String)
    ensures
        r@ == lowercase(s@),
;

/// The final component of `path`.
pub fn file_name(path: &str) -> (name: String)
    ensures
        name@ == final_component(path@),
{
    let (start, _dot, len) = locate(path);
    path.substring_char(start, len).to_owned()
}

/// The extension of `path`, if it has one.
pub fn extension(path: &str) -> (ext: Option<String>)
    ensures
        match ext {
            Some(e) => extension_of(path@) == Some(e@),
            None => extension_of(path@) is None,
        },
{
    let (start, dot, len) = locate(path);
    proof {
        lemma_last_dot(final_component(path@));
    }
    match dot {
        Some(d) => {
            let leads = d == start;
            let parent = len - start == 2 && d - start == 1 && path.get_char(start) == '.';
            if leads || parent {
                None
            } else {
                Some(path.substring_char(d + 1, len).to_owned())
            }
        },
        None => None,
    }
}

/// `name` placed inside the directory `dir`.
pub fn join(dir: &str, name: &str) -> (path: String)
    ensures
        path@ == joined(dir@, name@),
{
    let n = dir.unicode_len();
    let mut path = dir.to_owned();
    if n > 0 {
        let last = dir.get_char(n - 1);
        if !(last == '/' || last == '\\') {
            proof {
                reveal_strlit("/");
            }
            path.append("/");
            assert(path@ == dir@ + seq!['/']);
        }
    }
    path.append(name);
    path
}

/// Where the final component of `path` starts, where its last `.` lies (as
/// an index into `path`), and how many characters `path` has.
fn locate(path: &str) -> (r: (usize, Option<usize>, usize))
    ensures
        r.0 == name_start(path@),
        r.2 == path@.len(),
        r.0 <= r.2,
        match r.1 {
            Some(d) => r.0 <= d < r.2 && d - r.0 == last_dot(final_component(path@)),
            None => last_dot(final_component(path@)) == -1,
        },
{
    let n = path.unicode_len();
    let mut start: usize = 0;
    let mut dot: Option<usize> = None;
    let mut i: usize = 0;
    let chars = path.chars();
    for c in it: chars
        invariant
            i == it.index(),
            it.seq() == path@,
            n == path@.len(),
            start == name_start(path@.take(i as int)),
            start <= i,
            match dot {
                Some(d) => start <= d < i && d - start == last_dot(
                    final_component(path@.take(i as int)),
                ),
                None => last_dot(final_component(path@.take(i as int))) == -1,
            },
    {
        proof {
            let seen = path@.take(i as int);
            let next = path@.take(i + 1);
            assert(c == path@[i as int]);
            assert(next.drop_last() == seen);
            assert(next.last() == c);
            if !is_separator(c) {
                assert(final_component(next) == final_component(seen).push(c));
                assert(final_component(next).drop_last() == final_component(seen));
            } else {
                assert(final_component(next) == Seq::<char>::empty());
            }
        }
        if c == '/' || c == '\\' {
            start = i + 1;
            dot = None;
        } else if c == '.' {
            dot = Some(i);
        }
        i = i + 1;
    }
    proof {
        assert(path@.take(i as int) == path@);
    }
    (start, dot, n)
}

} // verus!
