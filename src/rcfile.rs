//! Edits of shell start-up files: whether a sourcing line is already present,
//! and the content with every line that mentions a text removed.

use vstd::prelude::*;
use crate::text::{copy_str, push_str_chars, views};

verus! {

/// `needle` occurs in `hay` starting at position `i`.
pub open spec fn occurs_at(hay: Seq<char>, needle: Seq<char>, i: int) -> bool {
    0 <= i && i + needle.len() <= hay.len() && hay.subrange(i, i + needle.len()) == needle
}

/// `needle` occurs somewhere in `hay`.
pub open spec fn contains_text(hay: Seq<char>, needle: Seq<char>) -> bool {
    exists|i: int| occurs_at(hay, needle, i)
}

/// Whether `needle` occurs in `hay`.
pub fn has_text(hay: &str, needle: &str) -> (r: bool)
    ensures
        r == contains_text(hay@, needle@),
{
    let n = hay.unicode_len();
    let m = needle.unicode_len();
    if m > n {
        assert forall|i: int| !occurs_at(hay@, needle@, i) by {}
        return false;
    }
    let mut i: usize = 0;
    while i <= n - m
        invariant
            n == hay@.len(),
            m == needle@.len(),
            m <= n,
            i <= n - m + 1,
            forall|k: int| 0 <= k < i ==> !occurs_at(hay@, needle@, k),
        decreases n - m + 1 - i,
    {
        let mut j: usize = 0;
        while j < m && hay.get_char(i + j) == needle.get_char(j)
            invariant
                n == hay@.len(),
                m == needle@.len(),
                i + m <= n,
                j <= m,
                forall|t: int| 0 <= t < j ==> hay@[i + t] == needle@[t],
            decreases m - j,
        {
            j = j + 1;
        }
        if j == m {
            assert(hay@.subrange(i as int, i + m) =~= needle@);
            assert(occurs_at(hay@, needle@, i as int));
            return true;
        }
        assert(!occurs_at(hay@, needle@, i as int)) by {
            if occurs_at(hay@, needle@, i as int) {
                assert(hay@.subrange(i as int, i + m)[j as int] == needle@[j as int]);
            }
        }
        i = i + 1;
    }
    assert forall|k: int| !occurs_at(hay@, needle@, k) by {
        if occurs_at(hay@, needle@, k) {
            assert(0 <= k < i);
        }
    }
    false
}

/// The lines of `s` from position `i` on, as `str::lines` cuts them: a line ended by a newline
/// loses it and a carriage return before it; a last line without a newline is kept as it is,
/// and there is no empty line after a final newline.
pub open spec fn pieces_from(s: Seq<char>, i: int, cur: Seq<char>, acc: Seq<Seq<char>>) -> Seq<Seq<char>>
    decreases s.len() - i,
{
    if i >= s.len() {
        if cur.len() > 0 { acc.push(cur) } else { acc }
    } else if s[i] == '\n' {
        pieces_from(s, i + 1, seq![], acc.push(without_cr(cur)))
    } else {
        pieces_from(s, i + 1, cur.push(s[i]), acc)
    }
}

/// A newline-ended line without its carriage return.
pub open spec fn without_cr(l: Seq<char>) -> Seq<char> {
    if l.len() > 0 && l.last() == '\r' { l.drop_last() } else { l }
}

/// The lines of `s`, as `str::lines` yields them.
pub open spec fn lines_of(s: Seq<char>) -> Seq<Seq<char>> {
    pieces_from(s, 0, seq![], seq![])
}

/// The lines joined with newlines.
pub open spec fn joined_lines(ls: Seq<Seq<char>>) -> Seq<char>
    decreases ls.len(),
{
    if ls.len() == 0 {
        seq![]
    } else if ls.len() == 1 {
        ls[0]
    } else {
        joined_lines(ls.drop_last()) + seq!['\n'] + ls.last()
    }
}

/// `content` with every line that mentions `part` removed, the rest joined with newlines.
pub open spec fn without_lines_containing(content: Seq<char>, part: Seq<char>) -> Seq<char> {
    joined_lines(lines_of(content).filter(|l: Seq<char>| !contains_text(l, part)))
}

fn split_pieces(s: &str) -> (r: Vec<String>)
    ensures
        views(r@) == pieces_from(s@, 0, seq![], seq![]),
{
    let n = s.unicode_len();
    let mut acc: Vec<String> = Vec::new();
    let mut cur = String::new();
    let mut i: usize = 0;
    assert(views(acc@) =~= Seq::<Seq<char>>::empty());
    assert(cur@ =~= Seq::<char>::empty());
    while i < n
        invariant
            n == s@.len(),
            i <= n,
            pieces_from(s@, 0, seq![], seq![]) == pieces_from(s@, i as int, cur@, views(acc@)),
        decreases n - i,
    {
        let c = s.get_char(i);
        if c == '\n' {
            let ghost before = views(acc@);
            let line = strip_cr(cur.as_str());
            let ghost lv = line@;
            cur = String::new();
            acc.push(line);
            assert(views(acc@) =~= before.push(lv));
            assert(cur@ =~= Seq::<char>::empty());
        } else {
            cur.push(c);
        }
        i = i + 1;
    }
    if cur.unicode_len() > 0 {
        let ghost before = views(acc@);
        let ghost cv = cur@;
        acc.push(cur);
        assert(views(acc@) =~= before.push(cv));
    }
    acc
}

fn strip_cr(l: &str) -> (r: String)
    ensures
        r@ == without_cr(l@),
{
    let n = l.unicode_len();
    if n > 0 && l.get_char(n - 1) == '\r' {
        copy_str(l.substring_char(0, n - 1))
    } else {
        copy_str(l)
    }
}

/// Removes every line of `content` that mentions `part`, joining the others with newlines.
pub fn remove_lines_containing(content: &str, part: &str) -> (r: String)
    ensures
        r@ == without_lines_containing(content@, part@),
{
    let pieces = split_pieces(content);
    let ghost lines = lines_of(content@);
    let ghost pred = |l: Seq<char>| !contains_text(l, part@);
    let mut kept: Vec<String> = Vec::new();
    let mut k: usize = 0;
    assert(lines.subrange(0, 0).filter(pred) =~= Seq::<Seq<char>>::empty()) by {
        reveal(Seq::filter);
    }
    while k < pieces.len()
        invariant
            lines == views(pieces@),
            pred == (|l: Seq<char>| !contains_text(l, part@)),
            k <= pieces@.len(),
            views(kept@) == lines.subrange(0, k as int).filter(pred),
        decreases pieces@.len() - k,
    {
        let line = copy_str(pieces[k].as_str());
        assert(line@ == lines[k as int]);
        let ghost before = views(kept@);
        assert(lines.subrange(0, k + 1).drop_last() =~= lines.subrange(0, k as int));
        assert(lines.subrange(0, k + 1).last() == lines[k as int]);
        assert(lines.subrange(0, k + 1).filter(pred) == if pred(lines[k as int]) {
            lines.subrange(0, k as int).filter(pred).push(lines[k as int])
        } else {
            lines.subrange(0, k as int).filter(pred)
        }) by {
            reveal(Seq::filter);
        }
        let found = has_text(line.as_str(), part);
        assert(pred(lines[k as int]) == !found);
        if !found {
            let ghost lv = line@;
            kept.push(line);
            assert(views(kept@) =~= before.push(lv));
        }
        k = k + 1;
    }
    assert(lines.subrange(0, pieces@.len() as int) =~= lines);
    let ghost ks = views(kept@);
    let mut out = String::new();
    let mut t: usize = 0;
    while t < kept.len()
        invariant
            ks == views(kept@),
            t <= kept@.len(),
            out@ == joined_lines(ks.subrange(0, t as int)),
        decreases kept@.len() - t,
    {
        assert(ks.subrange(0, t + 1).drop_last() =~= ks.subrange(0, t as int));
        if t > 0 {
            out.push('\n');
        }
        push_str_chars(&mut out, kept[t].as_str());
        if t == 0 {
            assert(out@ =~= joined_lines(ks.subrange(0, 1)));
        } else {
            assert(out@ =~= joined_lines(ks.subrange(0, t + 1)));
        }
        t = t + 1;
    }
    assert(ks.subrange(0, kept@.len() as int) =~= ks);
    out
}

/// The text before the first space of `s`, if it has one.
pub open spec fn before_first_space(s: Seq<char>) -> Option<Seq<char>> {
    if exists|i: int| 0 <= i < s.len() && s[i] == ' ' {
        let i = choose|i: int| 0 <= i < s.len() && s[i] == ' ' && forall|k: int| 0 <= k < i ==> s[k] != ' ';
        Some(s.subrange(0, i))
    } else {
        None
    }
}

/// A start-up file already holds `line`: it contains the line itself, or, for a line that
/// extends `fpath`, the assignment before the line's first space.
pub open spec fn already_sourced(existing: Seq<char>, line: Seq<char>) -> bool {
    contains_text(existing, line) || (contains_text(line, "fpath"@) && match before_first_space(line) {
        Some(prefix) => contains_text(existing, prefix),
        None => false,
    })
}

/// Whether a start-up file with content `existing` already holds `line`.
pub fn is_already_sourced(existing: &str, line: &str) -> (r: bool)
    ensures
        r == already_sourced(existing@, line@),
{
    if has_text(existing, line) {
        return true;
    }
    if !has_text(line, "fpath") {
        return false;
    }
    let n = line.unicode_len();
    let mut i: usize = 0;
    while i < n && line.get_char(i) != ' '
        invariant
            n == line@.len(),
            i <= n,
            forall|k: int| 0 <= k < i ==> line@[k] != ' ',
        decreases n - i,
    {
        i = i + 1;
    }
    if i == n {
        assert(!exists|j: int| 0 <= j < line@.len() && line@[j] == ' ');
        return false;
    }
    proof {
        let j = choose|j: int| 0 <= j < line@.len() && line@[j] == ' ' && forall|k: int| 0 <= k < j ==> line@[k] != ' ';
        if j < i {
            assert(line@[j] != ' ');
        }
        if i < j {
            assert(line@[i as int] != ' ');
        }
        assert(before_first_space(line@) == Some(line@.subrange(0, i as int)));
    }
    has_text(existing, line.substring_char(0, i))
}

} // verus!
