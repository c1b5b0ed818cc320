//! Entry names as relative paths: splitting on `/`, resolving `.` and `..`,
//! and refusing every name that would leave the directory it is joined to.

use crate::text::chars_of;
use vstd::prelude::*;

verus! {

/// The components of `name`: the stretches between its `/` characters, empty
/// ones included. A text without `/` is its own single component.
pub open spec fn split(name: Seq<char>) -> Seq<Seq<char>>
    decreases name.len(),
{
    if name.len() == 0 {
        seq![Seq::<char>::empty()]
    } else {
        let before = split(name.drop_last());
        if name.last() == '/' {
            before.push(Seq::<char>::empty())
        } else {
            before.drop_last().push(before.last().push(name.last()))
        }
    }
}

/// Whether `text` holds a character that no name may hold on the platform:
/// a NUL anywhere; on Windows also a backslash, which separates components
/// there, and a colon, which there ends a drive prefix. Elsewhere a
/// backslash and a colon are characters like any other.
pub open spec fn holds_unsafe(text: Seq<char>, windows: bool) -> bool {
    text.contains('\0') || (windows && (text.contains('\\') || text.contains(':')))
}

/// Whether `part` is an ordinary component on the platform: not empty, not
/// `.`, not `..`, and free of `/` and of what no name may hold there.
pub open spec fn is_normal(part: Seq<char>, windows: bool) -> bool {
    &&& part.len() > 0
    &&& part != seq!['.']
    &&& part != seq!['.', '.']
    &&& !part.contains('/')
    &&& !holds_unsafe(part, windows)
}

/// The directory stack after one more component: empty and `.` components
/// change nothing, `..` leaves the innermost directory and fails where
/// there is none, any other component enters a directory of that name.
pub open spec fn enter(stack: Seq<Seq<char>>, part: Seq<char>) -> Option<Seq<Seq<char>>> {
    if part.len() == 0 || part == seq!['.'] {
        Some(stack)
    } else if part == seq!['.', '.'] {
        if stack.len() == 0 {
            None
        } else {
            Some(stack.drop_last())
        }
    } else {
        Some(stack.push(part))
    }
}

/// The directory stack after all of `parts`, taken from the left, or `None`
/// if some `..` would climb above the starting directory.
pub open spec fn resolve(parts: Seq<Seq<char>>) -> Option<Seq<Seq<char>>>
    decreases parts.len(),
{
    if parts.len() == 0 {
        Some(Seq::<Seq<char>>::empty())
    } else {
        match resolve(parts.drop_last()) {
            None => None,
            Some(stack) => enter(stack, parts.last()),
        }
    }
}

/// The ordinary components that `name` resolves to below the directory it is
/// joined to, or `None` where the name is not safe to use on the platform:
/// it holds a NUL (on Windows also a backslash or a colon), is absolute, or
/// climbs out of that directory at some point.
pub open spec fn enclosed_parts(name: Seq<char>, windows: bool) -> Option<Seq<Seq<char>>> {
    if holds_unsafe(name, windows) || (name.len() > 0 && name[0] == '/') {
        None
    } else {
        resolve(split(name))
    }
}

/// The parts joined by single `/` characters.
pub open spec fn join(parts: Seq<Seq<char>>) -> Seq<char>
    decreases parts.len(),
{
    if parts.len() == 0 {
        Seq::<char>::empty()
    } else if parts.len() == 1 {
        parts[0]
    } else {
        join(parts.drop_last()) + seq!['/'] + parts.last()
    }
}

/// Whether `name` denotes a directory: it ends in `/`.
pub open spec fn names_directory(name: Seq<char>) -> bool {
    name.len() > 0 && name.last() == '/'
}

/// The views of a list of character vectors.
pub open spec fn parts_view(parts: Seq<Vec<char>>) -> Seq<Seq<char>> {
    parts.map_values(|p: Vec<char>| p@)
}

/// Every component of a split text is free of `/`, and holds the character
/// `c` only if the text does.
pub proof fn lemma_split_parts(name: Seq<char>, c: char)
    ensures
        split(name).len() >= 1,
        forall|i: int|
            0 <= i < split(name).len() ==> !(#[trigger] split(name)[i]).contains('/'),
        !name.contains(c) ==> forall|i: int|
            0 <= i < split(name).len() ==> !(#[trigger] split(name)[i]).contains(c),
    decreases name.len(),
{
    if name.len() > 0 {
        let init = name.drop_last();
        lemma_split_parts(init, c);
        let before = split(init);
        if !name.contains(c) {
            assert forall|k: int| 0 <= k < init.len() implies init[k] != c by {
                assert(name[k] == init[k]);
                assert(name.contains(name[k]));
            }
            assert(!init.contains(c));
            assert(name.contains(name.last()));
        }
        if name.last() == '/' {
            assert(!Seq::<char>::empty().contains('/'));
            assert(!Seq::<char>::empty().contains(c));
        } else {
            let grown = before.last().push(name.last());
            assert forall|k: int| 0 <= k < grown.len() implies grown[k] != '/' by {
                if k < before.last().len() {
                    assert(before.last().contains(before.last()[k]));
                }
            }
            if !name.contains(c) {
                assert forall|k: int| 0 <= k < grown.len() implies grown[k] != c by {
                    if k < before.last().len() {
                        assert(before.last().contains(before.last()[k]));
                    }
                }
            }
        }
    }
}

/// Whether every part of `stack` is an ordinary component.
pub open spec fn all_normal(stack: Seq<Seq<char>>, windows: bool) -> bool {
    forall|i: int| 0 <= i < stack.len() ==> is_normal(#[trigger] stack[i], windows)
}

/// Resolving components that are free of `/` and of the characters that no
/// name may hold leaves only ordinary components on the stack.
pub proof fn lemma_resolve_normal(parts: Seq<Seq<char>>, windows: bool)
    requires
        forall|i: int| 0 <= i < parts.len() ==> !(#[trigger] parts[i]).contains('/'),
        forall|i: int| 0 <= i < parts.len() ==> !holds_unsafe(#[trigger] parts[i], windows),
    ensures
        resolve(parts) matches Some(stack) ==> all_normal(stack, windows),
    decreases parts.len(),
{
    if parts.len() > 0 {
        lemma_resolve_normal(parts.drop_last(), windows);
    }
}

/// A name that is accepted resolves to ordinary components only: joined to
/// a directory, it names a place inside that directory.
pub proof fn lemma_enclosed_parts_normal(name: Seq<char>, windows: bool)
    ensures
        enclosed_parts(name, windows) matches Some(stack) ==> all_normal(stack, windows),
{
    if !holds_unsafe(name, windows) {
        lemma_split_parts(name, '\0');
        lemma_split_parts(name, '\\');
        lemma_split_parts(name, ':');
        lemma_resolve_normal(split(name), windows);
    }
}

/// Ordinary components join to an empty path only where there are none.
pub proof fn lemma_join_empty(parts: Seq<Seq<char>>, windows: bool)
    requires
        all_normal(parts, windows),
    ensures
        join(parts).len() == 0 <==> parts.len() == 0,
    decreases parts.len(),
{
    if parts.len() == 1 {
        assert(is_normal(parts[0], windows));
    }
}

/// A text without `/` is its own single component.
pub proof fn lemma_split_single(text: Seq<char>)
    requires
        !text.contains('/'),
    ensures
        split(text) == seq![text],
    decreases text.len(),
{
    if text.len() > 0 {
        let init = text.drop_last();
        assert forall|k: int| 0 <= k < init.len() implies init[k] != '/' by {
            assert(text[k] == init[k]);
            assert(text.contains(text[k]));
        }
        lemma_split_single(init);
        assert(text.contains(text.last()));
        assert(text.last() != '/');
        let before = split(init);
        assert(before == seq![init]);
        assert(before.last().push(text.last()) =~= text);
        assert(before.drop_last() =~= Seq::<Seq<char>>::empty());
        assert(split(text) == before.drop_last().push(before.last().push(text.last())));
        assert(before.drop_last().push(text) =~= seq![text]);
    } else {
        assert(text =~= Seq::<char>::empty());
    }
}

/// Characters other than `/` that follow a text extend its last component.
pub proof fn lemma_split_extended(text: Seq<char>, more: Seq<char>)
    requires
        !more.contains('/'),
    ensures
        split(text).len() >= 1,
        split(text + more) == split(text).drop_last().push(split(text).last() + more),
    decreases more.len(),
{
    lemma_split_parts(text, '/');
    let parts = split(text);
    if more.len() == 0 {
        assert(text + more =~= text);
        assert(parts.last() + more =~= parts.last());
        assert(parts.drop_last().push(parts.last()) =~= parts);
    } else {
        let init = more.drop_last();
        assert forall|k: int| 0 <= k < init.len() implies init[k] != '/' by {
            assert(more[k] == init[k]);
            assert(more.contains(more[k]));
        }
        lemma_split_extended(text, init);
        assert(more.contains(more.last()));
        assert((text + more).drop_last() =~= text + init);
        assert((text + more).last() == more.last());
        let before = split(text + init);
        assert(before.drop_last() =~= parts.drop_last());
        assert(before.last().push(more.last()) =~= parts.last() + more);
    }
}

/// Ordinary components, joined and split again, are what they were.
pub proof fn lemma_split_join(parts: Seq<Seq<char>>, windows: bool)
    requires
        all_normal(parts, windows),
        parts.len() >= 1,
    ensures
        split(join(parts)) == parts,
    decreases parts.len(),
{
    if parts.len() == 1 {
        assert(is_normal(parts[0], windows));
        lemma_split_single(parts[0]);
        assert(seq![parts[0]] =~= parts);
    } else {
        let init = parts.drop_last();
        let last = parts.last();
        assert(is_normal(last, windows));
        assert forall|i: int| 0 <= i < init.len() implies is_normal(#[trigger] init[i], windows) by {
            assert(init[i] == parts[i]);
        }
        lemma_split_join(init, windows);
        let head = join(init) + seq!['/'];
        assert(head.drop_last() =~= join(init));
        assert(head.last() == '/');
        assert(split(head) == init.push(Seq::<char>::empty()));
        lemma_split_extended(head, last);
        assert(init.push(Seq::<char>::empty()).drop_last() =~= init);
        assert(Seq::<char>::empty() + last =~= last);
        assert(init.push(last) =~= parts);
    }
}

/// Ordinary components resolve to themselves.
pub proof fn lemma_resolve_ordinary(parts: Seq<Seq<char>>, windows: bool)
    requires
        all_normal(parts, windows),
    ensures
        resolve(parts) == Some(parts),
    decreases parts.len(),
{
    if parts.len() == 0 {
        assert(parts =~= Seq::<Seq<char>>::empty());
    } else {
        let init = parts.drop_last();
        assert forall|i: int| 0 <= i < init.len() implies is_normal(#[trigger] init[i], windows) by {
            assert(init[i] == parts[i]);
        }
        lemma_resolve_ordinary(init, windows);
        assert(is_normal(parts.last(), windows));
        assert(init.push(parts.last()) =~= parts);
    }
}

/// A character other than `/` that none of the parts holds is not in
/// their join.
pub proof fn lemma_join_free(parts: Seq<Seq<char>>, c: char)
    requires
        c != '/',
        forall|i: int| 0 <= i < parts.len() ==> !(#[trigger] parts[i]).contains(c),
    ensures
        !join(parts).contains(c),
    decreases parts.len(),
{
    if parts.len() == 0 {
    } else if parts.len() == 1 {
        assert(!parts[0].contains(c));
    } else {
        let init = parts.drop_last();
        let last = parts.last();
        assert forall|i: int| 0 <= i < init.len() implies !(#[trigger] init[i]).contains(c) by {
            assert(init[i] == parts[i]);
        }
        lemma_join_free(init, c);
        assert(!last.contains(c));
        let joined = join(parts);
        assert forall|k: int| 0 <= k < joined.len() implies joined[k] != c by {
            if k < join(init).len() {
                assert(join(init).contains(join(init)[k]));
            } else if k > join(init).len() {
                assert(joined[k] == last[k - join(init).len() - 1]);
                assert(last.contains(last[k - join(init).len() - 1]));
            }
        }
    }
}

/// The join of ordinary components starts and ends with a character that
/// is not `/`, and holds no character that no name may hold.
pub proof fn lemma_join_ordinary(parts: Seq<Seq<char>>, windows: bool)
    requires
        all_normal(parts, windows),
        parts.len() >= 1,
    ensures
        join(parts).len() > 0,
        join(parts)[0] != '/',
        join(parts).last() != '/',
        !holds_unsafe(join(parts), windows),
    decreases parts.len(),
{
    let last = parts.last();
    assert(is_normal(last, windows));
    assert(last.contains(last[0]));
    assert(last.contains(last.last()));
    assert forall|i: int| 0 <= i < parts.len() implies !holds_unsafe(#[trigger] parts[i], windows) by {
        assert(is_normal(parts[i], windows));
    }
    lemma_join_free(parts, '\0');
    if windows {
        lemma_join_free(parts, '\\');
        lemma_join_free(parts, ':');
    }
    if parts.len() > 1 {
        let init = parts.drop_last();
        assert forall|i: int| 0 <= i < init.len() implies is_normal(#[trigger] init[i], windows) by {
            assert(init[i] == parts[i]);
        }
        lemma_join_ordinary(init, windows);
        assert(join(parts)[0] == join(init)[0]);
    }
}

/// Whether `name` is a plain relative path of a file: resolving it changes
/// nothing, and it does not denote a directory.
pub open spec fn is_plain_path(name: Seq<char>, windows: bool) -> bool {
    &&& enclosed_parts(name, windows) matches Some(parts)
    &&& parts.len() >= 1
    &&& join(parts) == name
    &&& !names_directory(name)
}

/// Every join of one or more ordinary components is a plain path: nested
/// names such as `a/b/c` are kept as they are.
pub proof fn lemma_joined_is_plain(parts: Seq<Seq<char>>, windows: bool)
    requires
        all_normal(parts, windows),
        parts.len() >= 1,
    ensures
        is_plain_path(join(parts), windows),
        enclosed_parts(join(parts), windows) == Some(parts),
{
    lemma_join_ordinary(parts, windows);
    lemma_split_join(parts, windows);
    lemma_resolve_ordinary(parts, windows);
}

/// Every name that a file can have in a directory of the platform, that is
/// every ordinary component, is a plain path.
pub proof fn lemma_file_name_is_plain(name: Seq<char>, windows: bool)
    requires
        is_normal(name, windows),
    ensures
        is_plain_path(name, windows),
        enclosed_parts(name, windows) == Some(seq![name]),
{
    let parts = seq![name];
    assert(all_normal(parts, windows));
    lemma_joined_is_plain(parts, windows);
}

/// Components that start with `..` do not resolve.
pub proof fn lemma_resolve_leading_parent(parts: Seq<Seq<char>>)
    requires
        parts.len() >= 1,
        parts[0] == seq!['.', '.'],
    ensures
        resolve(parts) is None,
    decreases parts.len(),
{
    if parts.len() == 1 {
        assert(parts.drop_last() =~= Seq::<Seq<char>>::empty());
        assert(resolve(parts.drop_last()) == Some(Seq::<Seq<char>>::empty()));
    } else {
        assert(parts.drop_last()[0] == parts[0]);
        lemma_resolve_leading_parent(parts.drop_last());
    }
}

/// The first component of a text that starts with `../` is `..`.
pub proof fn lemma_split_leading_parent(rest: Seq<char>)
    ensures
        split(seq!['.', '.', '/'] + rest).len() >= 2,
        split(seq!['.', '.', '/'] + rest)[0] == seq!['.', '.'],
    decreases rest.len(),
{
    let lead = seq!['.', '.', '/'];
    if rest.len() == 0 {
        assert(lead + rest =~= lead);
        let two = seq!['.', '.'];
        let one = seq!['.'];
        assert(lead.drop_last() =~= two);
        assert(two.drop_last() =~= one);
        assert(one.drop_last() =~= Seq::<char>::empty());
        assert(split(Seq::<char>::empty()) =~= seq![Seq::<char>::empty()]);
        assert(split(one) =~= seq![one]) by {
            assert(Seq::<char>::empty().push('.') =~= one);
        }
        assert(split(two) =~= seq![two]) by {
            assert(one.push('.') =~= two);
        }
        assert(split(lead) =~= seq![two, Seq::<char>::empty()]);
    } else {
        lemma_split_leading_parent(rest.drop_last());
        assert((lead + rest).drop_last() =~= lead + rest.drop_last());
    }
}

/// Every name that starts with `../`, such as `../../etc/passwd`, is
/// refused.
pub proof fn lemma_leading_parent_refused(rest: Seq<char>, windows: bool)
    ensures
        enclosed_parts(seq!['.', '.', '/'] + rest, windows) is None,
{
    lemma_split_leading_parent(rest);
    lemma_resolve_leading_parent(split(seq!['.', '.', '/'] + rest));
}

/// Every name that starts with `/` is refused.
pub proof fn lemma_absolute_refused(name: Seq<char>, windows: bool)
    requires
        name.len() > 0,
        name[0] == '/',
    ensures
        enclosed_parts(name, windows) is None,
{
}

/// Whether `part` is the component `.`.
fn is_current(part: &Vec<char>) -> (b: bool)
    ensures
        b == (part@ == seq!['.']),
{
    let b = part.len() == 1 && part[0] == '.';
    assert(b == (part@ =~= seq!['.']));
    b
}

/// Whether `part` is the component `..`.
fn is_parent(part: &Vec<char>) -> (b: bool)
    ensures
        b == (part@ == seq!['.', '.']),
{
    let b = part.len() == 2 && part[0] == '.' && part[1] == '.';
    assert(b == (part@ =~= seq!['.', '.']));
    b
}

/// Applies one component to the directory stack. Returns `false`, and
/// leaves the stack as it was, where the component climbs out of it.
fn enter_part(stack: &mut Vec<Vec<char>>, part: Vec<char>) -> (entered: bool)
    ensures
        match enter(parts_view(old(stack)@), part@) {
            Some(next) => entered && parts_view(final(stack)@) == next,
            None => !entered && final(stack)@ == old(stack)@,
        },
{
    if part.len() == 0 || is_current(&part) {
        true
    } else if is_parent(&part) {
        if stack.len() == 0 {
            false
        } else {
            stack.pop();
            assert(parts_view(stack@) =~= parts_view(old(stack)@).drop_last());
            true
        }
    } else {
        stack.push(part);
        assert(parts_view(stack@) =~= parts_view(old(stack)@).push(part@));
        true
    }
}

/// Whether `text` holds the character `wanted`.
pub fn holds_char(text: &Vec<char>, wanted: char) -> (found: bool)
    ensures
        found == text@.contains(wanted),
{
    let mut i: usize = 0;
    while i < text.len()
        invariant
            i <= text.len(),
            forall|j: int| 0 <= j < i ==> text@[j] != wanted,
        decreases text.len() - i,
    {
        if text[i] == wanted {
            return true;
        }
        i = i + 1;
    }
    false
}

/// Whether `text` holds a character that no name may hold on the platform.
pub fn holds_unsafe_char(text: &Vec<char>, windows: bool) -> (found: bool)
    ensures
        found == holds_unsafe(text@, windows),
{
    holds_char(text, '\0') || (windows && (holds_char(text, '\\') || holds_char(text, ':')))
}

/// Resolves the characters of a name that does not start with `/` to its
/// stack of components.
fn resolve_chars(name: &Vec<char>) -> (r: Option<Vec<Vec<char>>>)
    ensures
        match r {
            Some(stack) => resolve(split(name@)) == Some(parts_view(stack@)),
            None => resolve(split(name@)) is None,
        },
{
    let mut stack: Vec<Vec<char>> = Vec::new();
    let mut current: Vec<char> = Vec::new();
    let mut inside: bool = true;
    let mut i: usize = 0;
    assert(name@.take(0) =~= Seq::<char>::empty());
    assert(split(name@.take(0)).drop_last() =~= Seq::<Seq<char>>::empty());
    assert(parts_view(stack@) =~= Seq::<Seq<char>>::empty());
    while i < name.len()
        invariant
            i <= name.len(),
            split(name@.take(i as int)).len() >= 1,
            split(name@.take(i as int)).last() == current@,
            resolve(split(name@.take(i as int)).drop_last()) == if inside {
                Some(parts_view(stack@))
            } else {
                None
            },
        decreases name.len() - i,
    {
        let ghost before = split(name@.take(i as int));
        let ghost grown = name@.take(i + 1);
        assert(grown.drop_last() =~= name@.take(i as int));
        assert(grown.last() == name@[i as int]);
        let c = name[i];
        if c == '/' {
            assert(split(grown) == before.push(Seq::<char>::empty()));
            assert(split(grown).drop_last() =~= before);
            assert(before.drop_last().push(before.last()) =~= before);
            if inside {
                inside = enter_part(&mut stack, current);
            }
            current = Vec::new();
        } else {
            assert(split(grown) == before.drop_last().push(before.last().push(c)));
            assert(split(grown).drop_last() =~= before.drop_last());
            current.push(c);
        }
        i = i + 1;
    }
    assert(name@.take(i as int) =~= name@);
    let ghost all = split(name@);
    assert(all.drop_last().push(all.last()) =~= all);
    if inside && enter_part(&mut stack, current) {
        Some(stack)
    } else {
        None
    }
}

/// Joins the parts with single `/` characters.
fn join_parts(parts: &Vec<Vec<char>>) -> (out: String)
    ensures
        out@ == join(parts_view(parts@)),
{
    let mut out = String::new();
    let mut i: usize = 0;
    assert(parts_view(parts@).take(0) =~= Seq::<Seq<char>>::empty());
    while i < parts.len()
        invariant
            i <= parts.len(),
            out@ == join(parts_view(parts@).take(i as int)),
        decreases parts.len() - i,
    {
        let ghost done = parts_view(parts@).take(i as int);
        let ghost next = parts_view(parts@).take(i + 1);
        assert(next.drop_last() =~= done);
        assert(next.last() == parts@[i as int]@);
        if i > 0 {
            out.push('/');
        }
        let ghost head = out@;
        let part = &parts[i];
        let mut j: usize = 0;
        while j < part.len()
            invariant
                j <= part.len(),
                out@ == head + part@.take(j as int),
            decreases part.len() - j,
        {
            out.push(part[j]);
            j = j + 1;
            assert(out@ =~= head + part@.take(j as int));
        }
        assert(part@.take(j as int) =~= part@);
        if i == 0 {
            assert(next.len() == 1);
            assert(out@ =~= next[0]);
        } else {
            assert(out@ =~= join(done) + seq!['/'] + next.last());
        }
        i = i + 1;
    }
    assert(parts_view(parts@).take(i as int) =~= parts_view(parts@));
    out
}

/// The relative path that `name` resolves to, its ordinary components joined
/// by `/`, or `None` where the name is not safe on the platform: it holds a
/// NUL (on Windows also a backslash or a colon), is absolute, or climbs out
/// of the directory it would be joined to.
pub fn enclosed_path(name: &str, windows: bool) -> (r: Option<String>)
    ensures
        match r {
            Some(path) => enclosed_parts(name@, windows) matches Some(parts) && path@ == join(parts),
            None => enclosed_parts(name@, windows) is None,
        },
{
    let chars = chars_of(name);
    if holds_unsafe_char(&chars, windows) {
        return None;
    }
    if chars.len() > 0 && chars[0] == '/' {
        return None;
    }
    match resolve_chars(&chars) {
        Some(stack) => Some(join_parts(&stack)),
        None => None,
    }
}

/// Whether `name` denotes a directory: it ends in `/`.
pub fn is_directory_name(name: &str) -> (b: bool)
    ensures
        b == names_directory(name@),
{
    let n = name.unicode_len();
    n > 0 && name.get_char(n - 1) == '/'
}

/// Whether `name` is one ordinary component: fit to name a file or a
/// directory directly below another.
pub fn check_normal(name: &str, windows: bool) -> (normal: bool)
    ensures
        normal == is_normal(name@, windows),
{
    let chars = chars_of(name);
    chars.len() > 0 && !is_current(&chars) && !is_parent(&chars) && !holds_char(&chars, '/')
        && !holds_unsafe_char(&chars, windows)
}

} // verus!
