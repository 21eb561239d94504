//! Properties of a sort run, stated over the planner's specification.

use vstd::prelude::*;
use crate::config::{IrisConfig, PresetConfig};
use crate::path::{join, extension_of, candidate, suffixed_name};
use crate::rules::{claims, is_first_claimant, is_protected_name};
use crate::planner::{
    DirEntry, Listing, ProtectedPaths, entry_base, entry_rule, is_taken, is_first_free, on_disk, plan_upto, planned_moves,
    reservation,
};
use crate::text::lower_of;

verus! {

/// When two enabled rules claim the same extension, the index resolves it to a rule declared
/// no later than the earlier of the two, and to that rule itself when no rule before it claims it.
pub proof fn lemma_first_declared_rule_wins(presets: Seq<PresetConfig>, key: Seq<char>, i1: int, i2: int, r: int)
    requires
        0 <= i1 < i2 < presets.len(),
        claims(presets[i1], key),
        claims(presets[i2], key),
        is_first_claimant(presets, key, r),
    ensures
        r <= i1,
        r != i2,
        (forall|k: int| 0 <= k < i1 ==> !claims(#[trigger] presets[k], key)) ==> r == i1,
{
    if r > i1 {
        assert(!claims(presets[i1], key));
    }
    if forall|k: int| 0 <= k < i1 ==> !claims(#[trigger] presets[k], key) {
        if r < i1 {
            assert(!claims(presets[r], key));
        }
    }
}

proof fn lemma_reservation_free(
    base: Seq<char>,
    name: Seq<char>,
    is_dir: bool,
    existing: Listing,
    reserved: Seq<Seq<char>>,
)
    requires
        reservation(base, name, is_dir, existing, reserved) is Some,
    ensures
        !is_taken(existing, reserved, reservation(base, name, is_dir, existing, reserved)->0),
        exists|n: nat| is_first_free(base, name, is_dir, existing, reserved, n)
            && reservation(base, name, is_dir, existing, reserved)->0 == candidate(base, name, n, is_dir),
{
    let n = choose|n: nat| is_first_free(base, name, is_dir, existing, reserved, n);
    assert(is_first_free(base, name, is_dir, existing, reserved, n));
}

/// A destination that already exists is never handed out again: the reservation is the
/// suffixed name `stem-N.ext` (or `name-N` for a directory) for the smallest free `N >= 1`.
pub proof fn lemma_existing_destination_is_suffixed(
    base: Seq<char>,
    name: Seq<char>,
    is_dir: bool,
    existing: Listing,
    reserved: Seq<Seq<char>>,
)
    requires
        on_disk(existing, join(base, name)),
        reservation(base, name, is_dir, existing, reserved) is Some,
    ensures
        ({
            let d = reservation(base, name, is_dir, existing, reserved)->0;
            &&& d != join(base, name)
            &&& exists|n: nat| n >= 1 && d == join(base, suffixed_name(name, n, is_dir))
                && !is_taken(existing, reserved, d)
                && forall|m: nat| 1 <= m < n ==> is_taken(existing, reserved,
                    #[trigger] join(base, suffixed_name(name, m, is_dir)))
        }),
{
    lemma_reservation_free(base, name, is_dir, existing, reserved);
    let d = reservation(base, name, is_dir, existing, reserved)->0;
    let n = choose|n: nat| is_first_free(base, name, is_dir, existing, reserved, n)
        && d == candidate(base, name, n, is_dir);
    assert(is_taken(existing, reserved, join(base, name)));
    if n == 0 {
        assert(candidate(base, name, 0, is_dir) == join(base, name));
    }
    assert(n >= 1);
    assert forall|m: nat| 1 <= m < n implies is_taken(existing, reserved,
        #[trigger] join(base, suffixed_name(name, m, is_dir))) by {
        assert(is_taken(existing, reserved, candidate(base, name, m, is_dir)));
    }
}

/// What holds of the plan after the first `j` entries: every move's destination is reserved,
/// destinations are pairwise distinct, and every move comes from an entry that has a destination
/// base, which is a directory or a file with an extension.
pub proof fn lemma_plan_upto_facts(
    target: Seq<char>,
    entries: Seq<DirEntry>,
    presets: Seq<PresetConfig>,
    mode: crate::config::Mode,
    protected: ProtectedPaths,
    existing: Listing,
    j: int,
)
    requires
        0 <= j <= entries.len(),
    ensures
        ({
            let (moves, reserved) = plan_upto(target, entries, presets, mode, protected, existing, j);
            &&& forall|k: int| 0 <= k < moves.len() ==> reserved.contains(#[trigger] moves[k].1)
            &&& forall|k1: int, k2: int| 0 <= k1 < moves.len() && 0 <= k2 < moves.len() && k1 != k2
                ==> #[trigger] moves[k1].1 != #[trigger] moves[k2].1
            &&& forall|k: int| 0 <= k < moves.len() ==> exists|i: int| 0 <= i < j
                && (#[trigger] moves[k]).0 == join(target, entries[i].name@)
                && entry_base(target, presets, mode, protected, entries[i].name@, entries[i].is_dir) is Some
                && (entries[i].is_dir || extension_of(entries[i].name@) is Some)
        }),
    decreases j,
{
    if j > 0 {
        lemma_plan_upto_facts(target, entries, presets, mode, protected, existing, j - 1);
        let (moves, reserved) = plan_upto(target, entries, presets, mode, protected, existing, j - 1);
        let e = entries[j - 1];
        let (moves2, reserved2) = plan_upto(target, entries, presets, mode, protected, existing, j);
        match entry_base(target, presets, mode, protected, e.name@, e.is_dir) {
            None => {
                assert forall|k: int| 0 <= k < moves2.len() implies exists|i: int| 0 <= i < j
                    && (#[trigger] moves2[k]).0 == join(target, entries[i].name@)
                    && entry_base(target, presets, mode, protected, entries[i].name@, entries[i].is_dir) is Some
                    && (entries[i].is_dir || extension_of(entries[i].name@) is Some) by {
                    let i = choose|i: int| 0 <= i < j - 1
                        && (#[trigger] moves[k]).0 == join(target, entries[i].name@)
                        && entry_base(target, presets, mode, protected, entries[i].name@, entries[i].is_dir) is Some
                        && (entries[i].is_dir || extension_of(entries[i].name@) is Some);
                }
            },
            Some(b) => {
                match reservation(b, e.name@, e.is_dir, existing, reserved) {
                    None => {
                        assert forall|k: int| 0 <= k < moves2.len() implies exists|i: int| 0 <= i < j
                            && (#[trigger] moves2[k]).0 == join(target, entries[i].name@)
                            && entry_base(target, presets, mode, protected, entries[i].name@, entries[i].is_dir) is Some
                            && (entries[i].is_dir || extension_of(entries[i].name@) is Some) by {
                            let i = choose|i: int| 0 <= i < j - 1
                                && (#[trigger] moves[k]).0 == join(target, entries[i].name@)
                                && entry_base(target, presets, mode, protected, entries[i].name@, entries[i].is_dir) is Some
                                && (entries[i].is_dir || extension_of(entries[i].name@) is Some);
                        }
                    },
                    Some(d) => {
                        lemma_reservation_free(b, e.name@, e.is_dir, existing, reserved);
                        assert(!reserved.contains(d));
                        assert(reserved2 == reserved.push(d));
                        assert(e.is_dir || extension_of(e.name@) is Some) by {
                            if !e.is_dir && extension_of(e.name@) is None {
                                assert(entry_rule(presets, mode, e.name@, e.is_dir) is None);
                            }
                        }
                        assert forall|k: int| 0 <= k < moves2.len() implies reserved2.contains(#[trigger] moves2[k].1) by {
                            if k < moves.len() {
                                assert(moves2[k] == moves[k]);
                                assert(reserved.contains(moves[k].1));
                                let t = choose|t: int| 0 <= t < reserved.len() && reserved[t] == moves[k].1;
                                assert(reserved2[t] == reserved[t]);
                            } else {
                                assert(reserved2[reserved.len() as int] == d);
                            }
                        }
                        assert forall|k1: int, k2: int| 0 <= k1 < moves2.len() && 0 <= k2 < moves2.len() && k1 != k2
                            implies #[trigger] moves2[k1].1 != #[trigger] moves2[k2].1 by {
                            if k1 < moves.len() && k2 < moves.len() {
                                assert(moves2[k1] == moves[k1]);
                                assert(moves2[k2] == moves[k2]);
                            } else if k1 < moves.len() {
                                assert(moves2[k1] == moves[k1]);
                                assert(reserved.contains(moves[k1].1));
                            } else {
                                assert(moves2[k2] == moves[k2]);
                                assert(reserved.contains(moves[k2].1));
                            }
                        }
                        assert forall|k: int| 0 <= k < moves2.len() implies exists|i: int| 0 <= i < j
                            && (#[trigger] moves2[k]).0 == join(target, entries[i].name@)
                            && entry_base(target, presets, mode, protected, entries[i].name@, entries[i].is_dir) is Some
                            && (entries[i].is_dir || extension_of(entries[i].name@) is Some) by {
                            if k < moves.len() {
                                assert(moves2[k] == moves[k]);
                                let i = choose|i: int| 0 <= i < j - 1
                                    && (#[trigger] moves[k]).0 == join(target, entries[i].name@)
                                    && entry_base(target, presets, mode, protected, entries[i].name@, entries[i].is_dir) is Some
                                    && (entries[i].is_dir || extension_of(entries[i].name@) is Some);
                            } else {
                                assert(moves2[k].0 == join(target, entries[j - 1].name@));
                            }
                        }
                    },
                }
            },
        }
    }
}

proof fn lemma_plan_upto_fresh(
    target: Seq<char>,
    entries: Seq<DirEntry>,
    presets: Seq<PresetConfig>,
    mode: crate::config::Mode,
    protected: ProtectedPaths,
    existing: Listing,
    j: int,
)
    requires
        0 <= j <= entries.len(),
    ensures
        forall|k: int| 0 <= k < plan_upto(target, entries, presets, mode, protected, existing, j).0.len()
            ==> !on_disk(existing, #[trigger] plan_upto(target, entries, presets, mode, protected, existing, j).0[k].1),
    decreases j,
{
    if j > 0 {
        lemma_plan_upto_fresh(target, entries, presets, mode, protected, existing, j - 1);
        let (moves, reserved) = plan_upto(target, entries, presets, mode, protected, existing, j - 1);
        let e = entries[j - 1];
        let moves2 = plan_upto(target, entries, presets, mode, protected, existing, j).0;
        match entry_base(target, presets, mode, protected, e.name@, e.is_dir) {
            None => {},
            Some(b) => {
                match reservation(b, e.name@, e.is_dir, existing, reserved) {
                    None => {},
                    Some(d) => {
                        lemma_reservation_free(b, e.name@, e.is_dir, existing, reserved);
                        assert forall|k: int| 0 <= k < moves2.len() implies !on_disk(existing, #[trigger] moves2[k].1) by {
                            if k < moves.len() {
                                assert(moves2[k] == moves[k]);
                            }
                        }
                    },
                }
            },
        }
    }
}

/// The destinations of one run's planned moves are pairwise distinct, and none of them existed
/// before the run.
pub proof fn lemma_destinations_distinct(
    target: Seq<char>,
    entries: Seq<DirEntry>,
    config: IrisConfig,
    protected: ProtectedPaths,
    existing: Listing,
)
    ensures
        ({
            let moves = planned_moves(target, entries, config, protected, existing);
            &&& forall|k1: int, k2: int| 0 <= k1 < moves.len() && 0 <= k2 < moves.len() && k1 != k2
                ==> #[trigger] moves[k1].1 != #[trigger] moves[k2].1
            &&& forall|k: int| 0 <= k < moves.len() ==> !on_disk(existing, #[trigger] moves[k].1)
        }),
{
    lemma_plan_upto_facts(target, entries, config.presets@, config.general.mode, protected, existing, entries.len() as int);
    lemma_plan_upto_fresh(target, entries, config.presets@, config.general.mode, protected, existing, entries.len() as int);
}

/// No move is planned for a file without an extension: every move's source is the path of an
/// entry that is a directory or a file with an extension.
pub proof fn lemma_files_without_extension_stay(
    target: Seq<char>,
    entries: Seq<DirEntry>,
    config: IrisConfig,
    protected: ProtectedPaths,
    existing: Listing,
)
    ensures
        ({
            let moves = planned_moves(target, entries, config, protected, existing);
            forall|k: int| 0 <= k < moves.len() ==> exists|i: int| 0 <= i < entries.len()
                && (#[trigger] moves[k]).0 == join(target, entries[i].name@)
                && (entries[i].is_dir || extension_of(entries[i].name@) is Some)
        }),
{
    lemma_plan_upto_facts(target, entries, config.presets@, config.general.mode, protected, existing, entries.len() as int);
    let moves = planned_moves(target, entries, config, protected, existing);
    assert forall|k: int| 0 <= k < moves.len() implies exists|i: int| 0 <= i < entries.len()
        && (#[trigger] moves[k]).0 == join(target, entries[i].name@)
        && (entries[i].is_dir || extension_of(entries[i].name@) is Some) by {
        let i = choose|i: int| 0 <= i < entries.len()
            && (#[trigger] moves[k]).0 == join(target, entries[i].name@)
            && entry_base(target, config.presets@, config.general.mode, protected, entries[i].name@, entries[i].is_dir) is Some
            && (entries[i].is_dir || extension_of(entries[i].name@) is Some);
    }
}

proof fn lemma_join_cancels(target: Seq<char>, n1: Seq<char>, n2: Seq<char>)
    requires
        n1.len() > 0 && n1[0] != '/',
        n2.len() > 0 && n2[0] != '/',
        join(target, n1) == join(target, n2),
    ensures
        n1 == n2,
{
    let p = if target.len() == 0 { seq![] } else if target.last() == '/' { target } else { target + seq!['/'] };
    assert(join(target, n1) == p + n1);
    assert(join(target, n2) == p + n2);
    assert(n1 =~= (p + n1).subrange(p.len() as int, (p + n1).len() as int));
    assert(n2 =~= (p + n2).subrange(p.len() as int, (p + n2).len() as int));
}

/// In a listing whose names are distinct and non-empty and do not start with `/`, a file without
/// an extension is the source of no planned move.
pub proof fn lemma_extensionless_file_not_moved(
    target: Seq<char>,
    entries: Seq<DirEntry>,
    config: IrisConfig,
    protected: ProtectedPaths,
    existing: Listing,
    i: int,
)
    requires
        0 <= i < entries.len(),
        !entries[i].is_dir,
        extension_of(entries[i].name@) is None,
        forall|a: int| 0 <= a < entries.len() ==> (#[trigger] entries[a]).name@.len() > 0 && entries[a].name@[0] != '/',
        forall|a: int, b: int| 0 <= a < b < entries.len() ==> (#[trigger] entries[a]).name@ != (#[trigger] entries[b]).name@,
    ensures
        forall|k: int| 0 <= k < planned_moves(target, entries, config, protected, existing).len()
            ==> (#[trigger] planned_moves(target, entries, config, protected, existing)[k]).0 != join(target, entries[i].name@),
{
    lemma_files_without_extension_stay(target, entries, config, protected, existing);
    let moves = planned_moves(target, entries, config, protected, existing);
    assert forall|k: int| 0 <= k < moves.len() implies (#[trigger] moves[k]).0 != join(target, entries[i].name@) by {
        let j = choose|j: int| 0 <= j < entries.len()
            && (#[trigger] moves[k]).0 == join(target, entries[j].name@)
            && (entries[j].is_dir || extension_of(entries[j].name@) is Some);
        if moves[k].0 == join(target, entries[i].name@) {
            lemma_join_cancels(target, entries[j].name@, entries[i].name@);
            if j < i {
                assert(entries[j].name@ != entries[i].name@);
            } else if i < j {
                assert(entries[i].name@ != entries[j].name@);
            }
        }
    }
}

/// In a listing whose names are distinct and non-empty and do not start with `/`, a directory that
/// is a rule's own output folder (a protected name) is the source of no planned move.
pub proof fn lemma_output_folder_not_moved(
    target: Seq<char>,
    entries: Seq<DirEntry>,
    config: IrisConfig,
    protected: ProtectedPaths,
    existing: Listing,
    i: int,
)
    requires
        0 <= i < entries.len(),
        entries[i].is_dir,
        is_protected_name(config.presets@, config.general.mode, lower_of(entries[i].name@)),
        forall|a: int| 0 <= a < entries.len() ==> (#[trigger] entries[a]).name@.len() > 0 && entries[a].name@[0] != '/',
        forall|a: int, b: int| 0 <= a < b < entries.len() ==> (#[trigger] entries[a]).name@ != (#[trigger] entries[b]).name@,
    ensures
        forall|k: int| 0 <= k < planned_moves(target, entries, config, protected, existing).len()
            ==> (#[trigger] planned_moves(target, entries, config, protected, existing)[k]).0 != join(target, entries[i].name@),
{
    lemma_plan_upto_facts(target, entries, config.presets@, config.general.mode, protected, existing, entries.len() as int);
    let moves = planned_moves(target, entries, config, protected, existing);
    assert(entry_rule(config.presets@, config.general.mode, entries[i].name@, true) is None);
    assert forall|k: int| 0 <= k < moves.len() implies (#[trigger] moves[k]).0 != join(target, entries[i].name@) by {
        let j = choose|j: int| 0 <= j < entries.len()
            && (#[trigger] moves[k]).0 == join(target, entries[j].name@)
            && entry_base(target, config.presets@, config.general.mode, protected, entries[j].name@, entries[j].is_dir) is Some
            && (entries[j].is_dir || extension_of(entries[j].name@) is Some);
        if moves[k].0 == join(target, entries[i].name@) {
            lemma_join_cancels(target, entries[j].name@, entries[i].name@);
            if j < i {
                assert(entries[j].name@ != entries[i].name@);
            } else if i < j {
                assert(entries[i].name@ != entries[j].name@);
            }
        }
    }
}

proof fn lemma_no_bases_no_moves(
    target: Seq<char>,
    entries: Seq<DirEntry>,
    presets: Seq<PresetConfig>,
    mode: crate::config::Mode,
    protected: ProtectedPaths,
    existing: Listing,
    j: int,
)
    requires
        0 <= j <= entries.len(),
        forall|i: int| 0 <= i < entries.len() ==>
            entry_base(target, presets, mode, protected, (#[trigger] entries[i]).name@, entries[i].is_dir) is None,
    ensures
        plan_upto(target, entries, presets, mode, protected, existing, j).0.len() == 0,
    decreases j,
{
    if j > 0 {
        lemma_no_bases_no_moves(target, entries, presets, mode, protected, existing, j - 1);
        let e = entries[j - 1];
        assert(entry_base(target, presets, mode, protected, e.name@, e.is_dir) is None);
    }
}

/// Sorting again moves nothing: when every entry left after a first run is either one that
/// run had no destination for, or a rule's own output folder (a protected name), the second
/// run plans no move, whatever is on disk.
pub proof fn lemma_second_run_moves_nothing(
    target: Seq<char>,
    first: Seq<DirEntry>,
    second: Seq<DirEntry>,
    config: IrisConfig,
    protected: ProtectedPaths,
    existing: Listing,
)
    requires
        forall|i: int| 0 <= i < second.len() ==> ({
            let e = #[trigger] second[i];
            (exists|j: int| 0 <= j < first.len() && first[j] == e
                && entry_base(target, config.presets@, config.general.mode, protected, first[j].name@, first[j].is_dir) is None)
            || (e.is_dir && is_protected_name(config.presets@, config.general.mode, lower_of(e.name@)))
        }),
    ensures
        planned_moves(target, second, config, protected, existing).len() == 0,
{
    assert forall|i: int| 0 <= i < second.len() implies
        entry_base(target, config.presets@, config.general.mode, protected, (#[trigger] second[i]).name@, second[i].is_dir) is None by {
        let e = second[i];
        if e.is_dir && is_protected_name(config.presets@, config.general.mode, lower_of(e.name@)) {
            assert(entry_rule(config.presets@, config.general.mode, e.name@, e.is_dir) is None);
        } else {
            let j = choose|j: int| 0 <= j < first.len() && first[j] == e
                && entry_base(target, config.presets@, config.general.mode, protected, first[j].name@, first[j].is_dir) is None;
        }
    }
    lemma_no_bases_no_moves(target, second, config.presets@, config.general.mode, protected, existing, second.len() as int);
}

} // verus!
