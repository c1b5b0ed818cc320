//! Cache locations: a file name made of the name and the identifier of a
//! task that tells every pair apart and cannot leave its directory.

use crate::path::holds_unsafe;
use crate::path::is_normal;
use crate::text::chars_of;
use vstd::prelude::*;

verus! {

/// Whether `c` is written as two characters in a cache location: the
/// underscore that starts every such pair, the hyphen that separates name
/// and identifier, the dot, and what no file name may hold.
pub open spec fn is_special(c: char) -> bool {
    c == '_' || c == '-' || c == '.' || c == '/' || c == '\\' || c == ':' || c == '\0'
}

/// The letter that stands for a special character after an underscore.
pub open spec fn letter_of(c: char) -> char {
    if c == '_' {
        '_'
    } else if c == '-' {
        'd'
    } else if c == '.' {
        'p'
    } else if c == '/' {
        's'
    } else if c == '\\' {
        'b'
    } else if c == ':' {
        'c'
    } else {
        '0'
    }
}

/// One character as it stands in a cache location: a special character as
/// an underscore and its letter, any other as itself.
pub open spec fn escaped_char(c: char) -> Seq<char> {
    if is_special(c) {
        seq!['_', letter_of(c)]
    } else {
        seq![c]
    }
}

/// A text as it stands in a cache location.
pub open spec fn escaped(text: Seq<char>) -> Seq<char>
    decreases text.len(),
{
    if text.len() == 0 {
        Seq::<char>::empty()
    } else {
        escaped_char(text[0]) + escaped(text.skip(1))
    }
}

/// The file name under which the cache keeps what belongs to the task
/// `name`, `uuid`: both as they stand in a cache location, with a hyphen
/// between them.
pub open spec fn cache_key(name: Seq<char>, uuid: Seq<char>) -> Seq<char> {
    escaped(name) + seq!['-'] + escaped(uuid)
}

/// Of the special characters an escaped text holds the underscore alone.
pub proof fn lemma_escaped_free(text: Seq<char>, c: char)
    requires
        is_special(c),
        c != '_',
    ensures
        !escaped(text).contains(c),
    decreases text.len(),
{
    if text.len() > 0 {
        lemma_escaped_free(text.skip(1), c);
        let head = escaped_char(text[0]);
        let tail = escaped(text.skip(1));
        assert forall|k: int| 0 <= k < (head + tail).len() implies (head + tail)[k] != c by {
            if k >= head.len() {
                assert(tail.contains(tail[k - head.len()]));
            }
        }
    }
}

/// Two texts that are escaped to the same text are the same.
pub proof fn lemma_escaped_injective(a: Seq<char>, b: Seq<char>)
    requires
        escaped(a) == escaped(b),
    ensures
        a == b,
    decreases a.len(),
{
    if a.len() == 0 {
        if b.len() > 0 {
            assert(escaped(b).len() >= escaped_char(b[0]).len());
        }
        assert(a =~= b);
    } else {
        if b.len() == 0 {
            assert(escaped(a).len() >= escaped_char(a[0]).len());
        }
        let ha = escaped_char(a[0]);
        let hb = escaped_char(b[0]);
        let ta = escaped(a.skip(1));
        let tb = escaped(b.skip(1));
        assert(escaped(a) == ha + ta);
        assert(escaped(b) == hb + tb);
        assert((ha + ta)[0] == ha[0]);
        assert((hb + tb)[0] == hb[0]);
        if is_special(a[0]) {
            assert(is_special(b[0]));
            assert((ha + ta)[1] == ha[1]);
            assert((hb + tb)[1] == hb[1]);
            assert(a[0] == b[0]);
        } else {
            assert(!is_special(b[0]));
            assert(a[0] == b[0]);
        }
        assert(ta =~= (ha + ta).skip(ha.len() as int));
        assert(tb =~= (hb + tb).skip(hb.len() as int));
        lemma_escaped_injective(a.skip(1), b.skip(1));
        assert(a =~= seq![a[0]] + a.skip(1));
        assert(b =~= seq![b[0]] + b.skip(1));
    }
}

/// Two tasks with the same cache key are the same task: the key tells every
/// pair of name and identifier apart.
pub proof fn lemma_cache_key_injective(
    name: Seq<char>,
    uuid: Seq<char>,
    other_name: Seq<char>,
    other_uuid: Seq<char>,
)
    requires
        cache_key(name, uuid) == cache_key(other_name, other_uuid),
    ensures
        name == other_name,
        uuid == other_uuid,
{
    let e1 = escaped(name);
    let e2 = escaped(other_name);
    let f1 = escaped(uuid);
    let f2 = escaped(other_uuid);
    let k1 = cache_key(name, uuid);
    let k2 = cache_key(other_name, other_uuid);
    lemma_escaped_free(name, '-');
    lemma_escaped_free(other_name, '-');
    assert(k1[e1.len() as int] == '-');
    assert(k2[e2.len() as int] == '-');
    if e1.len() < e2.len() {
        assert(k2[e1.len() as int] == e2[e1.len() as int]);
        assert(e2.contains(e2[e1.len() as int]));
    }
    if e2.len() < e1.len() {
        assert(k1[e2.len() as int] == e1[e2.len() as int]);
        assert(e1.contains(e1[e2.len() as int]));
    }
    assert(e1.len() == e2.len());
    assert(f1.len() == f2.len()) by {
        assert(k1.len() == e1.len() + 1 + f1.len());
        assert(k2.len() == e2.len() + 1 + f2.len());
    }
    assert forall|i: int| 0 <= i < e1.len() implies e1[i] == e2[i] by {
        assert(k1[i] == e1[i]);
        assert(k2[i] == e2[i]);
    }
    assert(e1 =~= e2);
    assert forall|i: int| 0 <= i < f1.len() implies f1[i] == f2[i] by {
        assert(k1[e1.len() + 1 + i] == f1[i]);
        assert(k2[e2.len() + 1 + i] == f2[i]);
    }
    assert(f1 =~= f2);
    lemma_escaped_injective(name, other_name);
    lemma_escaped_injective(uuid, other_uuid);
}

/// A special character other than the underscore and the hyphen is not in
/// any cache key; the hyphen is.
pub proof fn lemma_cache_key_free(name: Seq<char>, uuid: Seq<char>, c: char)
    requires
        is_special(c),
        c != '_',
        c != '-',
    ensures
        !cache_key(name, uuid).contains(c),
        cache_key(name, uuid).contains('-'),
{
    lemma_escaped_free(name, c);
    lemma_escaped_free(uuid, c);
    let e = escaped(name);
    let f = escaped(uuid);
    let k = cache_key(name, uuid);
    assert(k[e.len() as int] == '-');
    assert forall|i: int| 0 <= i < k.len() implies k[i] != c by {
        if i < e.len() {
            assert(e.contains(e[i]));
        } else if i > e.len() {
            assert(k[i] == f[i - e.len() - 1]);
            assert(f.contains(f[i - e.len() - 1]));
        }
    }
}

/// Every cache key is an ordinary file name: what is kept under it lies
/// directly below the directory of the cache.
pub proof fn lemma_cache_key_normal(name: Seq<char>, uuid: Seq<char>, windows: bool)
    ensures
        is_normal(cache_key(name, uuid), windows),
{
    let k = cache_key(name, uuid);
    lemma_cache_key_free(name, uuid, '.');
    lemma_cache_key_free(name, uuid, '/');
    lemma_cache_key_free(name, uuid, '\\');
    lemma_cache_key_free(name, uuid, ':');
    lemma_cache_key_free(name, uuid, '\0');
    assert(k.len() > 0);
    if k == seq!['.'] {
        assert(k.contains(k[0]));
    }
    if k == seq!['.', '.'] {
        assert(k.contains(k[0]));
    }
    assert(!holds_unsafe(k, windows));
}

/// Writes one character as it stands in a cache location.
fn push_escaped(out: &mut String, c: char)
    ensures
        final(out)@ == old(out)@ + escaped_char(c),
{
    let letter = if c == '_' {
        Some('_')
    } else if c == '-' {
        Some('d')
    } else if c == '.' {
        Some('p')
    } else if c == '/' {
        Some('s')
    } else if c == '\\' {
        Some('b')
    } else if c == ':' {
        Some('c')
    } else if c == '\0' {
        Some('0')
    } else {
        None
    };
    match letter {
        Some(l) => {
            out.push('_');
            out.push(l);
            assert(out@ =~= old(out)@ + escaped_char(c));
        },
        None => {
            out.push(c);
            assert(out@ =~= old(out)@ + escaped_char(c));
        },
    }
}

/// Appends `text`, as it stands in a cache location, to `out`.
fn push_all_escaped(out: &mut String, text: &str)
    ensures
        final(out)@ == old(out)@ + escaped(text@),
{
    let chars = chars_of(text);
    let mut i: usize = 0;
    assert(chars@.skip(0) =~= chars@);
    assert(out@ + escaped(chars@) =~= old(out)@ + escaped(text@));
    while i < chars.len()
        invariant
            i <= chars.len(),
            chars@ == text@,
            out@ + escaped(chars@.skip(i as int)) == old(out)@ + escaped(text@),
        decreases chars.len() - i,
    {
        let ghost before = out@;
        let ghost rest = chars@.skip(i as int);
        assert(rest.skip(1) =~= chars@.skip(i + 1));
        assert(rest[0] == chars@[i as int]);
        push_escaped(out, chars[i]);
        assert(out@ + escaped(chars@.skip(i + 1)) =~= before + escaped(rest));
        i = i + 1;
    }
    assert(escaped(chars@.skip(i as int)) =~= Seq::<char>::empty());
    assert(out@ + Seq::<char>::empty() =~= out@);
}

/// Writes the cache key of the task `name`, `uuid`.
pub fn make_cache_key(name: &str, uuid: &str) -> (key: String)
    ensures
        key@ == cache_key(name@, uuid@),
{
    let mut key = String::new();
    push_all_escaped(&mut key, name);
    key.push('-');
    push_all_escaped(&mut key, uuid);
    assert(key@ =~= cache_key(name@, uuid@));
    key
}

} // verus!
