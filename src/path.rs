//! Paths as character sequences with `/` as separator: joining, the
//! extension and stem of a file name, the first component of a relative
//! path, and the names tried when a destination is taken.

use vstd::prelude::*;
use crate::text::{decimal, push_decimal, push_str_chars, copy_str};

verus! {

/// `rel` appended to `base` as `Path::join` does: an absolute `rel` replaces `base`,
/// and exactly one separator stands between the two parts.
pub open spec fn join(base: Seq<char>, rel: Seq<char>) -> Seq<char> {
    if rel.len() > 0 && rel[0] == '/' {
        rel
    } else if base.len() == 0 {
        rel
    } else if base.last() == '/' {
        base + rel
    } else {
        base + seq!['/'] + rel
    }
}

/// Joins `rel` onto `base`.
pub fn join_path(base: &str, rel: &str) -> (r: String)
    ensures
        r@ == join(base@, rel@),
{
    let rn = rel.unicode_len();
    let bn = base.unicode_len();
    if rn > 0 && rel.get_char(0) == '/' {
        return copy_str(rel);
    }
    if bn == 0 {
        return copy_str(rel);
    }
    let mut out = copy_str(base);
    if base.get_char(bn - 1) != '/' {
        out.push('/');
    }
    push_str_chars(&mut out, rel);
    out
}

/// The largest index below `end` at which `s` holds `c`, or -1.
pub open spec fn last_index_of(s: Seq<char>, c: char, end: int) -> int
    decreases end,
{
    if end <= 0 {
        -1
    } else if s[end - 1] == c {
        end - 1
    } else {
        last_index_of(s, c, end - 1)
    }
}

proof fn lemma_last_index_of_bounds(s: Seq<char>, c: char, end: int)
    requires
        0 <= end <= s.len(),
    ensures
        -1 <= last_index_of(s, c, end) < end,
        last_index_of(s, c, end) >= 0 ==> s[last_index_of(s, c, end)] == c,
        forall|k: int| last_index_of(s, c, end) < k < end ==> s[k] != c,
    decreases end,
{
    if end > 0 && s[end - 1] != c {
        lemma_last_index_of_bounds(s, c, end - 1);
    }
}

/// The index of the dot that starts a file name's extension, as `Path::extension`
/// finds it: the last dot, provided it is not the first character and the name is not `..`.
pub open spec fn ext_dot(name: Seq<char>) -> Option<int> {
    let k = last_index_of(name, '.', name.len() as int);
    if k <= 0 || name =~= seq!['.', '.'] {
        None
    } else {
        Some(k)
    }
}

/// The extension of a file name (what follows its extension dot), if it has one.
pub open spec fn extension_of(name: Seq<char>) -> Option<Seq<char>> {
    match ext_dot(name) {
        Some(k) => Some(name.subrange(k + 1, name.len() as int)),
        None => None,
    }
}

/// The stem of a file name: what precedes its extension dot, or the whole name.
pub open spec fn stem_of(name: Seq<char>) -> Seq<char> {
    match ext_dot(name) {
        Some(k) => name.subrange(0, k),
        None => name,
    }
}

fn find_ext_dot(name: &str) -> (r: Option<usize>)
    ensures
        r matches Some(k) ==> ext_dot(name@) == Some(k as int) && k < name@.len(),
        r is None ==> ext_dot(name@) is None,
{
    let n = name.unicode_len();
    proof {
        lemma_last_index_of_bounds(name@, '.', n as int);
    }
    let mut i: usize = n;
    while i > 0 && name.get_char(i - 1) != '.'
        invariant
            i <= n == name@.len(),
            last_index_of(name@, '.', n as int) == last_index_of(name@, '.', i as int),
        decreases i,
    {
        i = i - 1;
    }
    if i <= 1 {
        return None;
    }
    let k = i - 1;
    assert(last_index_of(name@, '.', n as int) == k as int);
    if n == 2 && name.get_char(0) == '.' && name.get_char(1) == '.' {
        assert(name@ =~= seq!['.', '.']);
        return None;
    }
    assert(!(name@ =~= seq!['.', '.'])) by {
        if name@ =~= seq!['.', '.'] {
            assert(name@.len() == 2);
            assert(name@[0] == '.' && name@[1] == '.');
        }
    }
    Some(k)
}

/// The extension of a file name, if it has one.
pub fn file_extension(name: &str) -> (r: Option<String>)
    ensures
        r matches Some(e) ==> extension_of(name@) == Some(e@),
        r is None ==> extension_of(name@) is None,
{
    match find_ext_dot(name) {
        Some(k) => {
            let n = name.unicode_len();
            Some(copy_str(name.substring_char(k + 1, n)))
        },
        None => None,
    }
}

/// The name tried in place of `name` for the `n`-th retry: `stem-n.ext` for a file
/// with a non-empty extension, `stem-n` for another file, `name-n` for a directory.
pub open spec fn suffixed_name(name: Seq<char>, n: nat, is_dir: bool) -> Seq<char> {
    if is_dir {
        name + seq!['-'] + decimal(n)
    } else {
        match extension_of(name) {
            Some(e) => if e.len() > 0 {
                stem_of(name) + seq!['-'] + decimal(n) + seq!['.'] + e
            } else {
                stem_of(name) + seq!['-'] + decimal(n)
            },
            None => stem_of(name) + seq!['-'] + decimal(n),
        }
    }
}

/// The `n`-th destination tried for an entry named `name` placed under `base`:
/// the plain join for `n == 0`, the suffixed name after that.
pub open spec fn candidate(base: Seq<char>, name: Seq<char>, n: nat, is_dir: bool) -> Seq<char> {
    if n == 0 {
        join(base, name)
    } else {
        join(base, suffixed_name(name, n, is_dir))
    }
}

/// Builds `candidate(base, name, n, is_dir)`.
pub fn candidate_path(base: &str, name: &str, n: usize, is_dir: bool) -> (r: String)
    ensures
        r@ == candidate(base@, name@, n as nat, is_dir),
{
    if n == 0 {
        return join_path(base, name);
    }
    let mut s = String::new();
    if is_dir {
        push_str_chars(&mut s, name);
        s.push('-');
        push_decimal(&mut s, n);
        assert(s@ =~= suffixed_name(name@, n as nat, is_dir));
    } else {
        let len = name.unicode_len();
        match find_ext_dot(name) {
            Some(k) => {
                push_str_chars(&mut s, name.substring_char(0, k));
                s.push('-');
                push_decimal(&mut s, n);
                if k + 1 < len {
                    s.push('.');
                    push_str_chars(&mut s, name.substring_char(k + 1, len));
                }
                assert(s@ =~= suffixed_name(name@, n as nat, is_dir));
            },
            None => {
                push_str_chars(&mut s, name);
                s.push('-');
                push_decimal(&mut s, n);
                assert(s@ =~= suffixed_name(name@, n as nat, is_dir));
            },
        }
    }
    join_path(base, s.as_str())
}

/// The index of the first `/` in `s`, or its length.
pub open spec fn first_sep(s: Seq<char>) -> int
    decreases s.len(),
{
    if s.len() == 0 {
        0
    } else if s[0] == '/' {
        0
    } else {
        1 + first_sep(s.subrange(1, s.len() as int))
    }
}

/// The first component of a path when it is a plain name, as `Path::components`
/// yields it: none for an empty path, a rooted path, or one that starts with `.` or `..`.
pub open spec fn first_component(p: Seq<char>) -> Option<Seq<char>> {
    let seg = p.subrange(0, first_sep(p));
    if p.len() == 0 || p[0] == '/' || seg =~= seq!['.'] || seg =~= seq!['.', '.'] {
        None
    } else {
        Some(seg)
    }
}

proof fn lemma_first_sep(s: Seq<char>, i: int)
    requires
        0 <= i <= s.len(),
        forall|k: int| 0 <= k < i ==> s[k] != '/',
        i == s.len() || s[i] == '/',
    ensures
        first_sep(s) == i,
    decreases s.len(),
{
    if s.len() > 0 && s[0] != '/' {
        let t = s.subrange(1, s.len() as int);
        assert forall|k: int| 0 <= k < i - 1 implies t[k] != '/' by {
            assert(t[k] == s[k + 1]);
        }
        lemma_first_sep(t, i - 1);
    }
}

/// The first component of `p` when it is a plain name.
pub fn path_first_component(p: &str) -> (r: Option<String>)
    ensures
        r matches Some(c) ==> first_component(p@) == Some(c@),
        r is None ==> first_component(p@) is None,
{
    let n = p.unicode_len();
    let mut i: usize = 0;
    while i < n && p.get_char(i) != '/'
        invariant
            i <= n == p@.len(),
            forall|k: int| 0 <= k < i ==> p@[k] != '/',
        decreases n - i,
    {
        i = i + 1;
    }
    proof {
        lemma_first_sep(p@, i as int);
    }
    if n == 0 || p.get_char(0) == '/' {
        return None;
    }
    let seg = p.substring_char(0, i);
    if i == 1 && p.get_char(0) == '.' {
        assert(seg@ =~= seq!['.']);
        return None;
    }
    if i == 2 && p.get_char(0) == '.' && p.get_char(1) == '.' {
        assert(seg@ =~= seq!['.', '.']);
        return None;
    }
    assert(!(seg@ =~= seq!['.'])) by {
        if seg@ =~= seq!['.'] {
            assert(seg@.len() == 1 && seg@[0] == '.');
        }
    }
    assert(!(seg@ =~= seq!['.', '.'])) by {
        if seg@ =~= seq!['.', '.'] {
            assert(seg@.len() == 2 && seg@[0] == '.' && seg@[1] == '.');
        }
    }
    Some(copy_str(seg))
}

} // verus!
