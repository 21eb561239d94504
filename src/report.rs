//! What a finished run reports: the folder each moved entry landed in, and
//! the count of moved entries.

use vstd::prelude::*;
use crate::path::last_index_of;
use crate::planner::PlannedMove;
use crate::text::{decimal, copy_str, push_decimal, push_str_chars, contains_str, is_listed, views};

verus! {

/// The folder that holds `p`: what precedes its last `/`, `/` for a top-level entry, and
/// nothing for a bare name.
pub open spec fn parent_of(p: Seq<char>) -> Seq<char> {
    let k = last_index_of(p, '/', p.len() as int);
    if k < 0 {
        seq![]
    } else if k == 0 {
        seq!['/']
    } else {
        p.subrange(0, k)
    }
}

/// The folder that holds `p`.
pub fn parent_dir(p: &str) -> (r: String)
    ensures
        r@ == parent_of(p@),
{
    let n = p.unicode_len();
    let mut i: usize = n;
    while i > 0 && p.get_char(i - 1) != '/'
        invariant
            i <= n == p@.len(),
            last_index_of(p@, '/', n as int) == last_index_of(p@, '/', i as int),
        decreases i,
    {
        i = i - 1;
    }
    if i == 0 {
        return String::new();
    }
    if i == 1 {
        let mut s = String::new();
        s.push('/');
        return s;
    }
    copy_str(p.substring_char(0, i - 1))
}

/// `d` is the folder of one of the first `n` moves' destinations.
pub open spec fn receives(moves: Seq<PlannedMove>, n: int, d: Seq<char>) -> bool {
    exists|m: int| 0 <= m < n && parent_of(#[trigger] moves[m].destination@) == d
}

/// The folders that receive the planned moves, each once, in order of first use.
pub fn destination_dirs(moves: &Vec<PlannedMove>) -> (r: Vec<String>)
    ensures
        forall|k: int| 0 <= k < r@.len() ==> receives(moves@, moves@.len() as int, #[trigger] r@[k]@),
        forall|m: int| 0 <= m < moves@.len() ==> is_listed(r@, parent_of(#[trigger] moves@[m].destination@)),
        forall|k1: int, k2: int| 0 <= k1 < k2 < r@.len() ==> #[trigger] r@[k1]@ != #[trigger] r@[k2]@,
{
    let mut out: Vec<String> = Vec::new();
    let mut i: usize = 0;
    while i < moves.len()
        invariant
            i <= moves@.len(),
            forall|k: int| 0 <= k < out@.len() ==> receives(moves@, i as int, #[trigger] out@[k]@),
            forall|m: int| 0 <= m < i ==> is_listed(out@, parent_of(#[trigger] moves@[m].destination@)),
            forall|k1: int, k2: int| 0 <= k1 < k2 < out@.len() ==> #[trigger] out@[k1]@ != #[trigger] out@[k2]@,
        decreases moves@.len() - i,
    {
        let d = parent_dir(moves[i].destination.as_str());
        let ghost old_out = out@;
        let ghost dv = d@;
        proof {
            assert forall|k: int| 0 <= k < old_out.len() implies receives(moves@, i + 1, #[trigger] old_out[k]@) by {
                let m = choose|m: int| 0 <= m < i && parent_of(#[trigger] moves@[m].destination@) == old_out[k]@;
            }
            assert(receives(moves@, i + 1, dv)) by {
                assert(parent_of(moves@[i as int].destination@) == dv);
            }
        }
        if !contains_str(&out, d.as_str()) {
            out.push(d);
            assert(out@[old_out.len() as int]@ == dv);
            assert forall|k: int| 0 <= k < out@.len() implies receives(moves@, i + 1, #[trigger] out@[k]@) by {
                if k < old_out.len() {
                    assert(out@[k] == old_out[k]);
                }
            }
            assert forall|m: int| 0 <= m < i + 1 implies is_listed(out@, parent_of(#[trigger] moves@[m].destination@)) by {
                if m < i {
                    let k = choose|k: int| 0 <= k < old_out.len() && #[trigger] old_out[k]@ == parent_of(moves@[m].destination@);
                    assert(out@[k] == old_out[k]);
                }
            }
            assert forall|k1: int, k2: int| 0 <= k1 < k2 < out@.len() implies #[trigger] out@[k1]@ != #[trigger] out@[k2]@ by {
                assert(out@[k1] == old_out[k1]);
                if k2 < old_out.len() {
                    assert(out@[k2] == old_out[k2]);
                }
            }
        }
        i = i + 1;
    }
    out
}

/// `x` sorts before `y` among path characters: the separator before every other character,
/// so that paths order component by component, as `Path`s do; other characters by code point.
pub open spec fn char_less(x: char, y: char) -> bool {
    if x == y {
        false
    } else if x == '/' {
        true
    } else if y == '/' {
        false
    } else {
        (x as int) < (y as int)
    }
}

/// `a` sorts before `b`: compared character by character by `char_less`, a proper prefix first.
pub open spec fn lex_less(a: Seq<char>, b: Seq<char>) -> bool
    decreases a.len(),
{
    if a.len() == 0 {
        b.len() > 0
    } else if b.len() == 0 {
        false
    } else if char_less(a[0], b[0]) {
        true
    } else if a[0] == b[0] {
        lex_less(a.drop_first(), b.drop_first())
    } else {
        false
    }
}

proof fn lemma_lex_total(a: Seq<char>, b: Seq<char>)
    requires
        a != b,
    ensures
        lex_less(a, b) || lex_less(b, a),
    decreases a.len(),
{
    if a.len() > 0 && b.len() > 0 && a[0] == b[0] {
        if a.drop_first() == b.drop_first() {
            assert(a =~= seq![a[0]] + a.drop_first());
            assert(b =~= seq![b[0]] + b.drop_first());
            assert(a =~= b);
        }
        lemma_lex_total(a.drop_first(), b.drop_first());
    } else if a.len() > 0 && b.len() > 0 {
        assert((a[0] as int) != (b[0] as int));
    } else if a.len() == 0 && b.len() == 0 {
        assert(a =~= b);
    }
}

proof fn lemma_lex_trans(a: Seq<char>, b: Seq<char>, c: Seq<char>)
    requires
        lex_less(a, b),
        lex_less(b, c),
    ensures
        lex_less(a, c),
    decreases a.len(),
{
    if a.len() > 0 && b.len() > 0 && c.len() > 0 && a[0] == b[0] && b[0] == c[0] {
        lemma_lex_trans(a.drop_first(), b.drop_first(), c.drop_first());
    }
}

/// Whether `a` sorts before `b`.
pub fn less_than(a: &str, b: &str) -> (r: bool)
    ensures
        r == lex_less(a@, b@),
{
    let n = a.unicode_len();
    let m = b.unicode_len();
    let mut i: usize = 0;
    assert(a@.subrange(0, n as int) =~= a@ && b@.subrange(0, m as int) =~= b@);
    while i < n && i < m && a.get_char(i) == b.get_char(i)
        invariant
            n == a@.len(),
            m == b@.len(),
            i <= n && i <= m,
            lex_less(a@, b@) == lex_less(a@.subrange(i as int, n as int), b@.subrange(i as int, m as int)),
        decreases n - i,
    {
        assert(a@.subrange(i as int, n as int).drop_first() =~= a@.subrange(i + 1, n as int));
        assert(b@.subrange(i as int, m as int).drop_first() =~= b@.subrange(i + 1, m as int));
        i = i + 1;
    }
    if i == n {
        return i < m;
    }
    if i == m {
        return false;
    }
    let x = a.get_char(i);
    let y = b.get_char(i);
    if y == '/' {
        false
    } else if x == '/' {
        true
    } else {
        (x as u32) < (y as u32)
    }
}

/// One destination folder and the sources of the moves that landed in it.
pub struct MovedGroup {
    pub folder: String,
    pub sources: Vec<String>,
}

/// The sources, in order, of the first `n` moves that succeeded and landed in `folder`.
pub open spec fn moved_into(moves: Seq<PlannedMove>, outcomes: Seq<Result<(), String>>, n: int, folder: Seq<char>) -> Seq<Seq<char>>
    decreases n,
{
    if n <= 0 {
        seq![]
    } else {
        let prev = moved_into(moves, outcomes, n - 1, folder);
        if outcomes[n - 1] is Ok && parent_of(moves[n - 1].destination@) == folder {
            prev.push(moves[n - 1].source@)
        } else {
            prev
        }
    }
}

/// One of the first `n` moves succeeded and landed in `folder`.
pub open spec fn received(moves: Seq<PlannedMove>, outcomes: Seq<Result<(), String>>, n: int, folder: Seq<char>) -> bool {
    exists|m: int| 0 <= m < n && (#[trigger] outcomes[m]) is Ok && parent_of(moves[m].destination@) == folder
}

fn sources_into(moves: &Vec<PlannedMove>, outcomes: &Vec<Result<(), String>>, folder: &str) -> (r: Vec<String>)
    requires
        moves@.len() == outcomes@.len(),
    ensures
        views(r@) == moved_into(moves@, outcomes@, moves@.len() as int, folder@),
{
    let mut out: Vec<String> = Vec::new();
    let mut i: usize = 0;
    assert(views(out@) =~= Seq::<Seq<char>>::empty());
    while i < moves.len()
        invariant
            moves@.len() == outcomes@.len(),
            i <= moves@.len(),
            views(out@) == moved_into(moves@, outcomes@, i as int, folder@),
        decreases moves@.len() - i,
    {
        if outcomes[i].is_ok() {
            let d = parent_dir(moves[i].destination.as_str());
            if crate::text::same_chars(d.as_str(), folder) {
                let ghost before = views(out@);
                out.push(copy_str(moves[i].source.as_str()));
                assert(views(out@) =~= before.push(moves@[i as int].source@));
            }
        }
        i = i + 1;
    }
    out
}

fn sorted_folders(moves: &Vec<PlannedMove>, outcomes: &Vec<Result<(), String>>) -> (r: Vec<String>)
    requires
        moves@.len() == outcomes@.len(),
    ensures
        forall|i: int, j: int| 0 <= i < j < r@.len() ==> lex_less(#[trigger] r@[i]@, #[trigger] r@[j]@),
        forall|k: int| 0 <= k < r@.len() ==> received(moves@, outcomes@, moves@.len() as int, #[trigger] r@[k]@),
        forall|m: int| 0 <= m < moves@.len() && (#[trigger] outcomes@[m]) is Ok
            ==> is_listed(r@, parent_of(moves@[m].destination@)),
{
    let mut out: Vec<String> = Vec::new();
    let mut i: usize = 0;
    while i < moves.len()
        invariant
            moves@.len() == outcomes@.len(),
            i <= moves@.len(),
            forall|a: int, b: int| 0 <= a < b < out@.len() ==> lex_less(#[trigger] out@[a]@, #[trigger] out@[b]@),
            forall|k: int| 0 <= k < out@.len() ==> received(moves@, outcomes@, i as int, #[trigger] out@[k]@),
            forall|m: int| 0 <= m < i && (#[trigger] outcomes@[m]) is Ok
                ==> is_listed(out@, parent_of(moves@[m].destination@)),
        decreases moves@.len() - i,
    {
        let ghost old_out = out@;
        assert forall|k: int| 0 <= k < old_out.len() implies received(moves@, outcomes@, i + 1, #[trigger] old_out[k]@) by {
            let m = choose|m: int| 0 <= m < i && (#[trigger] outcomes@[m]) is Ok
                && parent_of(moves@[m].destination@) == old_out[k]@;
        }
        if outcomes[i].is_ok() {
            let d = parent_dir(moves[i].destination.as_str());
            assert(received(moves@, outcomes@, i + 1, d@)) by {
                assert(outcomes@[i as int] is Ok);
            }
            if !contains_str(&out, d.as_str()) {
                let mut p: usize = 0;
                while p < out.len() && less_than(out[p].as_str(), d.as_str())
                    invariant
                        out@ == old_out,
                        p <= out@.len(),
                        forall|q: int| 0 <= q < p ==> lex_less(#[trigger] out@[q]@, d@),
                    decreases out@.len() - p,
                {
                    p = p + 1;
                }
                proof {
                    if p < old_out.len() {
                        assert(old_out[p as int]@ != d@);
                        lemma_lex_total(old_out[p as int]@, d@);
                        assert forall|j: int| p <= j < old_out.len() implies lex_less(d@, #[trigger] old_out[j]@) by {
                            if j > p {
                                lemma_lex_trans(d@, old_out[p as int]@, old_out[j]@);
                            }
                        }
                    }
                }
                let ghost dv = d@;
                out.insert(p, d);
                assert(out@ == old_out.insert(p as int, out@[p as int]));
                assert(out@[p as int]@ == dv);
                assert forall|a: int, b: int| 0 <= a < b < out@.len() implies lex_less(#[trigger] out@[a]@, #[trigger] out@[b]@) by {
                    if b < p {
                        assert(out@[a] == old_out[a] && out@[b] == old_out[b]);
                    } else if b == p {
                        assert(out@[a] == old_out[a]);
                    } else if a < p {
                        assert(out@[a] == old_out[a] && out@[b] == old_out[b - 1]);
                        assert(lex_less(old_out[a]@, dv));
                        assert(lex_less(dv, old_out[b - 1]@));
                        lemma_lex_trans(old_out[a]@, dv, old_out[b - 1]@);
                    } else if a == p {
                        assert(out@[b] == old_out[b - 1]);
                    } else {
                        assert(out@[a] == old_out[a - 1] && out@[b] == old_out[b - 1]);
                    }
                }
                assert forall|k: int| 0 <= k < out@.len() implies received(moves@, outcomes@, i + 1, #[trigger] out@[k]@) by {
                    if k < p {
                        assert(out@[k] == old_out[k]);
                    } else if k > p {
                        assert(out@[k] == old_out[k - 1]);
                    }
                }
                assert forall|m: int| 0 <= m < i + 1 && (#[trigger] outcomes@[m]) is Ok
                    implies is_listed(out@, parent_of(moves@[m].destination@)) by {
                    if m < i {
                        let k = choose|k: int| 0 <= k < old_out.len() && #[trigger] old_out[k]@ == parent_of(moves@[m].destination@);
                        if k < p {
                            assert(out@[k] == old_out[k]);
                        } else {
                            assert(out@[k + 1] == old_out[k]);
                        }
                    } else {
                        assert(out@[p as int]@ == parent_of(moves@[m].destination@));
                    }
                }
            }
        }
        i = i + 1;
    }
    out
}

/// The successful moves grouped by the folder they landed in: one group per folder, folders in
/// ascending path order, each group's sources in the order of the moves.
pub fn group_moved(moves: &Vec<PlannedMove>, outcomes: &Vec<Result<(), String>>) -> (r: Vec<MovedGroup>)
    requires
        moves@.len() == outcomes@.len(),
    ensures
        forall|i: int, j: int| 0 <= i < j < r@.len() ==> lex_less(#[trigger] r@[i].folder@, #[trigger] r@[j].folder@),
        forall|k: int| 0 <= k < r@.len() ==> received(moves@, outcomes@, moves@.len() as int, (#[trigger] r@[k]).folder@)
            && views(r@[k].sources@) == moved_into(moves@, outcomes@, moves@.len() as int, r@[k].folder@),
        forall|m: int| 0 <= m < moves@.len() && (#[trigger] outcomes@[m]) is Ok
            ==> exists|k: int| 0 <= k < r@.len() && r@[k].folder@ == parent_of(moves@[m].destination@),
{
    let folders = sorted_folders(moves, outcomes);
    let mut groups: Vec<MovedGroup> = Vec::new();
    let mut k: usize = 0;
    while k < folders.len()
        invariant
            moves@.len() == outcomes@.len(),
            k <= folders@.len(),
            groups@.len() == k,
            forall|q: int| 0 <= q < k ==> (#[trigger] groups@[q]).folder@ == folders@[q]@
                && views(groups@[q].sources@) == moved_into(moves@, outcomes@, moves@.len() as int, folders@[q]@),
        decreases folders@.len() - k,
    {
        let sources = sources_into(moves, outcomes, folders[k].as_str());
        groups.push(MovedGroup { folder: copy_str(folders[k].as_str()), sources });
        k = k + 1;
    }
    assert forall|i: int, j: int| 0 <= i < j < groups@.len() implies lex_less(#[trigger] groups@[i].folder@, #[trigger] groups@[j].folder@) by {
        assert(lex_less(folders@[i]@, folders@[j]@));
    }
    assert forall|m: int| 0 <= m < moves@.len() && (#[trigger] outcomes@[m]) is Ok
        implies exists|q: int| 0 <= q < groups@.len() && groups@[q].folder@ == parent_of(moves@[m].destination@) by {
        let q = choose|q: int| 0 <= q < folders@.len() && #[trigger] folders@[q]@ == parent_of(moves@[m].destination@);
        assert(groups@[q].folder@ == folders@[q]@);
    }
    assert forall|q: int| 0 <= q < groups@.len() implies received(moves@, outcomes@, moves@.len() as int, (#[trigger] groups@[q]).folder@) by {
        assert(received(moves@, outcomes@, moves@.len() as int, folders@[q]@));
    }
    groups
}

/// The number of successful outcomes.
pub open spec fn successes(outcomes: Seq<Result<(), String>>) -> nat
    decreases outcomes.len(),
{
    if outcomes.len() == 0 {
        0
    } else {
        successes(outcomes.drop_last()) + if outcomes.last() is Ok { 1nat } else { 0nat }
    }
}

/// The number of successful outcomes.
pub fn count_moved(outcomes: &Vec<Result<(), String>>) -> (r: usize)
    ensures
        r == successes(outcomes@),
{
    let mut n: usize = 0;
    let mut i: usize = 0;
    while i < outcomes.len()
        invariant
            i <= outcomes@.len(),
            n == successes(outcomes@.subrange(0, i as int)),
            n <= i,
        decreases outcomes@.len() - i,
    {
        assert(outcomes@.subrange(0, i + 1).drop_last() =~= outcomes@.subrange(0, i as int));
        if outcomes[i].is_ok() {
            n = n + 1;
        }
        i = i + 1;
    }
    assert(outcomes@.subrange(0, outcomes@.len() as int) =~= outcomes@);
    n
}

/// The closing line of a run that moved `n` entries.
pub open spec fn summary_text(n: nat) -> Seq<char> {
    "Summary: "@ + decimal(n) + (if n == 1 { " file"@ } else { " files"@ }) + " moved"@
}

/// The closing line of a run that moved `n` entries.
pub fn summary_line(n: usize) -> (r: String)
    ensures
        r@ == summary_text(n as nat),
{
    let mut s = copy_str("Summary: ");
    push_decimal(&mut s, n);
    if n == 1 {
        push_str_chars(&mut s, " file");
    } else {
        push_str_chars(&mut s, " files");
    }
    push_str_chars(&mut s, " moved");
    s
}

} // verus!
