//! The planner: one pass over a directory's entries that decides, for each,
//! whether it moves and where, reserving collision-free destinations.

use vstd::prelude::*;
use crate::config::{IrisConfig, Mode, PresetConfig};
use crate::path::{join, join_path, extension_of, file_extension, candidate, candidate_path};
use crate::rules::{
    dest_base, get_dest_base, is_first_claimant, is_claimed, is_protected_name, is_dirs_rule,
    RuleIndex, find_dirs_rule, protected_names,
};
use crate::resolve::{normalized, normalize_components};
use crate::text::{lower_of, to_lower, copy_str, push_str_chars, same_chars, contains_str, views, is_listed};

verus! {

/// One immediate child of the directory being sorted.
#[derive(Clone, Debug)]
pub struct DirEntry {
    pub name: String,
    pub is_dir: bool,
}

/// What planning decided: the moves, in entry order, and a diagnostic for each entry whose
/// rule could not place it.
#[derive(Debug)]
pub struct Plan {
    pub moves: Vec<PlannedMove>,
    pub notes: Vec<String>,
}

/// A move decided by the planner: `source` goes to `destination`.
#[derive(Clone, Debug)]
pub struct PlannedMove {
    pub source: String,
    pub destination: String,
}

/// The first claimant of `key` among `presets`, if any rule claims it.
pub open spec fn first_claimant(presets: Seq<PresetConfig>, key: Seq<char>) -> Option<int> {
    if is_claimed(presets, key) {
        Some(choose|i: int| is_first_claimant(presets, key, i))
    } else {
        None
    }
}

/// Rule `i` is the first enabled rule named `dirs`.
pub open spec fn is_first_dirs_rule(presets: Seq<PresetConfig>, i: int) -> bool {
    0 <= i < presets.len() && is_dirs_rule(presets[i]) && forall|k: int| 0 <= k < i ==> !is_dirs_rule(#[trigger] presets[k])
}

/// The first enabled rule named `dirs`, if there is one.
pub open spec fn first_dirs_rule(presets: Seq<PresetConfig>) -> Option<int> {
    if exists|i: int| is_first_dirs_rule(presets, i) {
        Some(choose|i: int| is_first_dirs_rule(presets, i))
    } else {
        None
    }
}

/// The rule that governs an entry: the directory rule for a directory whose name is not a
/// protected output folder, the first claimant of the lower-cased extension for a file.
pub open spec fn entry_rule(presets: Seq<PresetConfig>, mode: Mode, name: Seq<char>, is_dir: bool) -> Option<int> {
    if is_dir {
        if is_protected_name(presets, mode, lower_of(name)) {
            None
        } else {
            first_dirs_rule(presets)
        }
    } else {
        match extension_of(name) {
            Some(x) => first_claimant(presets, lower_of(x)),
            None => None,
        }
    }
}

/// The paths that must never be sorted nor receive sorted entries, and whether they follow
/// Windows conventions (both separators, drive prefixes) when compared.
pub struct ProtectedPaths {
    pub paths: Vec<String>,
    pub windows: bool,
}

/// `p` is one of the protected paths, both compared once normalized.
pub open spec fn is_protected_path(protected: ProtectedPaths, p: Seq<char>) -> bool {
    exists|k: int| 0 <= k < protected.paths@.len()
        && normalized(#[trigger] protected.paths@[k]@, protected.windows) == normalized(p, protected.windows)
}

/// Whether `p` is one of the protected paths, both compared once normalized.
pub fn is_protected(protected: &ProtectedPaths, p: &str) -> (r: bool)
    ensures
        r == is_protected_path(*protected, p@),
{
    let w = protected.windows;
    let np = normalize_components(p, w);
    let mut k: usize = 0;
    while k < protected.paths.len()
        invariant
            w == protected.windows,
            np@ == normalized(p@, w),
            k <= protected.paths@.len(),
            forall|j: int| 0 <= j < k ==> normalized(#[trigger] protected.paths@[j]@, w) != normalized(p@, w),
        decreases protected.paths@.len() - k,
    {
        let nq = normalize_components(protected.paths[k].as_str(), w);
        if same_chars(nq.as_str(), np.as_str()) {
            return true;
        }
        k = k + 1;
    }
    false
}

/// The destination base of an entry, or none when the entry stays: no rule governs it, the rule
/// lacks the path the mode needs, the base is a protected path, or the directory is the base itself
/// (paths compared once normalized, so that `/usr/` and `/usr/.` are `/usr`).
pub open spec fn entry_base(
    target: Seq<char>,
    presets: Seq<PresetConfig>,
    mode: Mode,
    protected: ProtectedPaths,
    name: Seq<char>,
    is_dir: bool,
) -> Option<Seq<char>> {
    match entry_rule(presets, mode, name, is_dir) {
        None => None,
        Some(i) => match dest_base(target, presets[i], mode) {
            None => None,
            Some(b) => if is_protected_path(protected, b) || (is_dir && normalized(join(target, name), protected.windows) == normalized(b, protected.windows)) {
                None
            } else {
                Some(b)
            },
        },
    }
}

/// The diagnostic for an entry whose rule cannot place it: the rule lacks the path the mode
/// needs, or its destination base is a protected path.
pub open spec fn entry_note(
    target: Seq<char>,
    presets: Seq<PresetConfig>,
    mode: Mode,
    protected: ProtectedPaths,
    name: Seq<char>,
    is_dir: bool,
) -> Option<Seq<char>> {
    match entry_rule(presets, mode, name, is_dir) {
        None => None,
        Some(i) => match dest_base(target, presets[i], mode) {
            None => Some(
                (if is_dir {
                    "Could not determine sort destination for folder '"@
                } else {
                    "Could not determine sort destination for '"@
                }) + join(target, name) + "': "@ + crate::rules::missing_path_message(presets[i].name@, mode),
            ),
            Some(b) => if is_protected_path(protected, b) {
                Some("Refusing to sort into protected path: "@ + b)
            } else {
                None
            },
        },
    }
}

/// The diagnostics for the first `j` entries, in order.
pub open spec fn notes_upto(
    target: Seq<char>,
    entries: Seq<DirEntry>,
    presets: Seq<PresetConfig>,
    mode: Mode,
    protected: ProtectedPaths,
    j: int,
) -> Seq<Seq<char>>
    decreases j,
{
    if j <= 0 {
        seq![]
    } else {
        let notes = notes_upto(target, entries, presets, mode, protected, j - 1);
        let e = entries[j - 1];
        match entry_note(target, presets, mode, protected, e.name@, e.is_dir) {
            Some(m) => notes.push(m),
            None => notes,
        }
    }
}

/// What exists in the destination folders before the run: their entries' paths, and whether
/// the file system ignores case, so that names differing in case alone collide.
pub struct Listing {
    pub paths: Vec<String>,
    pub case_insensitive: bool,
}

/// `p` exists according to the listing.
pub open spec fn on_disk(existing: Listing, p: Seq<char>) -> bool {
    if existing.case_insensitive {
        exists|k: int| 0 <= k < existing.paths@.len() && lower_of(#[trigger] existing.paths@[k]@) == lower_of(p)
    } else {
        is_listed(existing.paths@, p)
    }
}

/// Whether `p` exists according to the listing.
pub fn exists_in(existing: &Listing, p: &str) -> (r: bool)
    ensures
        r == on_disk(*existing, p@),
{
    if !existing.case_insensitive {
        return contains_str(&existing.paths, p);
    }
    let low = to_lower(p);
    let mut k: usize = 0;
    while k < existing.paths.len()
        invariant
            existing.case_insensitive,
            low@ == lower_of(p@),
            k <= existing.paths@.len(),
            forall|j: int| 0 <= j < k ==> lower_of(#[trigger] existing.paths@[j]@) != lower_of(p@),
        decreases existing.paths@.len() - k,
    {
        let other = to_lower(existing.paths[k].as_str());
        if same_chars(other.as_str(), low.as_str()) {
            return true;
        }
        k = k + 1;
    }
    false
}

/// `p` exists on disk or was reserved earlier in the run.
pub open spec fn is_taken(existing: Listing, reserved: Seq<Seq<char>>, p: Seq<char>) -> bool {
    on_disk(existing, p) || reserved.contains(p)
}

/// `n` is the smallest retry number whose candidate is free.
pub open spec fn is_first_free(
    base: Seq<char>,
    name: Seq<char>,
    is_dir: bool,
    existing: Listing,
    reserved: Seq<Seq<char>>,
    n: nat,
) -> bool {
    &&& n < usize::MAX
    &&& !is_taken(existing, reserved, candidate(base, name, n, is_dir))
    &&& forall|m: nat| m < n ==> is_taken(existing, reserved, #[trigger] candidate(base, name, m, is_dir))
}

/// The destination reserved for `name` under `base`: the first free candidate, none if all are taken.
pub open spec fn reservation(
    base: Seq<char>,
    name: Seq<char>,
    is_dir: bool,
    existing: Listing,
    reserved: Seq<Seq<char>>,
) -> Option<Seq<char>> {
    if exists|n: nat| is_first_free(base, name, is_dir, existing, reserved, n) {
        Some(candidate(base, name, choose|n: nat| is_first_free(base, name, is_dir, existing, reserved, n), is_dir))
    } else {
        None
    }
}

/// The moves (source, destination) and the reserved destinations after the first `j` entries.
pub open spec fn plan_upto(
    target: Seq<char>,
    entries: Seq<DirEntry>,
    presets: Seq<PresetConfig>,
    mode: Mode,
    protected: ProtectedPaths,
    existing: Listing,
    j: int,
) -> (Seq<(Seq<char>, Seq<char>)>, Seq<Seq<char>>)
    decreases j,
{
    if j <= 0 {
        (seq![], seq![])
    } else {
        let (moves, reserved) = plan_upto(target, entries, presets, mode, protected, existing, j - 1);
        let e = entries[j - 1];
        match entry_base(target, presets, mode, protected, e.name@, e.is_dir) {
            None => (moves, reserved),
            Some(b) => match reservation(b, e.name@, e.is_dir, existing, reserved) {
                None => (moves, reserved),
                Some(d) => if d == join(target, e.name@) {
                    (moves, reserved.push(d))
                } else {
                    (moves.push((join(target, e.name@), d)), reserved.push(d))
                },
            },
        }
    }
}

/// The moves planned for all of `entries`.
pub open spec fn planned_moves(
    target: Seq<char>,
    entries: Seq<DirEntry>,
    config: IrisConfig,
    protected: ProtectedPaths,
    existing: Listing,
) -> Seq<(Seq<char>, Seq<char>)> {
    plan_upto(target, entries, config.presets@, config.general.mode, protected, existing, entries.len() as int).0
}

/// The message of the run-level refusal to sort a protected path.
pub open spec fn protected_target_message(target: Seq<char>) -> Seq<char> {
    "Operation aborted. '"@ + target + "' is a protected system path."@
}

/// `v` holds exactly the moves of `m`, in order.
pub open spec fn same_moves(v: Seq<PlannedMove>, m: Seq<(Seq<char>, Seq<char>)>) -> bool {
    v.len() == m.len() && forall|k: int| 0 <= k < v.len() ==>
        (#[trigger] v[k]).source@ == m[k].0 && v[k].destination@ == m[k].1
}

proof fn lemma_first_claimant(presets: Seq<PresetConfig>, key: Seq<char>, i: int)
    requires
        is_first_claimant(presets, key, i),
    ensures
        first_claimant(presets, key) == Some(i),
{
    assert(is_claimed(presets, key)) by {
        assert(crate::rules::claims(presets[i], key));
    }
    let j = choose|j: int| is_first_claimant(presets, key, j);
    assert(is_first_claimant(presets, key, j));
    if j < i {
        assert(!crate::rules::claims(presets[j], key));
    } else if i < j {
        assert(!crate::rules::claims(presets[i], key));
    }
}

proof fn lemma_first_dirs_rule(presets: Seq<PresetConfig>, i: int)
    requires
        is_first_dirs_rule(presets, i),
    ensures
        first_dirs_rule(presets) == Some(i),
{
    let j = choose|j: int| is_first_dirs_rule(presets, j);
    assert(is_first_dirs_rule(presets, j));
    if j < i {
        assert(!is_dirs_rule(presets[j]));
    } else if i < j {
        assert(!is_dirs_rule(presets[i]));
    }
}

/// The first free candidate is unique, so the reservation is that candidate.
pub proof fn lemma_reservation_is_first_free(
    base: Seq<char>,
    name: Seq<char>,
    is_dir: bool,
    existing: Listing,
    reserved: Seq<Seq<char>>,
    n: nat,
)
    requires
        is_first_free(base, name, is_dir, existing, reserved, n),
    ensures
        reservation(base, name, is_dir, existing, reserved) == Some(candidate(base, name, n, is_dir)),
{
    let m = choose|m: nat| is_first_free(base, name, is_dir, existing, reserved, m);
    assert(is_first_free(base, name, is_dir, existing, reserved, m));
    if m < n {
        assert(is_taken(existing, reserved, candidate(base, name, m, is_dir)));
    } else if n < m {
        assert(is_taken(existing, reserved, candidate(base, name, n, is_dir)));
    }
}

/// Reserves the first free candidate destination for `name` under `base` and records it.
pub fn reserve_destination(
    base: &str,
    name: &str,
    is_dir: bool,
    existing: &Listing,
    reserved: &mut Vec<String>,
) -> (r: Option<String>)
    ensures
        match reservation(base@, name@, is_dir, *existing, views(old(reserved)@)) {
            Some(d) => r matches Some(s) && s@ == d && views(final(reserved)@) == views(old(reserved)@).push(d),
            None => r is None && views(final(reserved)@) == views(old(reserved)@),
        },
{
    let ghost res0 = views(reserved@);
    let mut n: usize = 0;
    while n < usize::MAX
        invariant
            reserved@ == old(reserved)@,
            res0 == views(reserved@),
            forall|m: nat| m < n ==> is_taken(*existing, res0, #[trigger] candidate(base@, name@, m, is_dir)),
        decreases usize::MAX - n,
    {
        let c = candidate_path(base, name, n, is_dir);
        let in_existing = exists_in(existing, c.as_str());
        let in_reserved = contains_str(reserved, c.as_str());
        proof {
            if in_reserved {
                let k = choose|k: int| 0 <= k < reserved@.len() && #[trigger] reserved@[k]@ == c@;
                assert(res0[k] == c@);
            }
            if res0.contains(c@) {
                let k = choose|k: int| 0 <= k < res0.len() && res0[k] == c@;
                assert(reserved@[k]@ == c@);
            }
        }
        if !in_existing && !in_reserved {
            proof {
                assert(is_first_free(base@, name@, is_dir, *existing, res0, n as nat));
                lemma_reservation_is_first_free(base@, name@, is_dir, *existing, res0, n as nat);
            }
            let kept = copy_str(c.as_str());
            reserved.push(c);
            assert(views(reserved@) =~= res0.push(kept@));
            return Some(kept);
        }
        n = n + 1;
    }
    proof {
        if exists|m: nat| is_first_free(base@, name@, is_dir, *existing, res0, m) {
            let m = choose|m: nat| is_first_free(base@, name@, is_dir, *existing, res0, m);
            assert(is_taken(*existing, res0, candidate(base@, name@, m, is_dir)));
        }
    }
    None
}

/// The destination base of an entry, computed with the run's prepared lookups.
fn entry_destination_base(
    target: &str,
    presets: &Vec<PresetConfig>,
    mode: Mode,
    protected: &ProtectedPaths,
    index: &RuleIndex,
    dirs_rule: Option<usize>,
    names: &Vec<String>,
    entry: &DirEntry,
) -> (r: (Option<String>, Option<String>))
    requires
        index.wf(),
        index.rules@ == presets@,
        dirs_rule matches Some(i) ==> is_first_dirs_rule(presets@, i as int),
        dirs_rule is None ==> forall|k: int| 0 <= k < presets@.len() ==> !is_dirs_rule(#[trigger] presets@[k]),
        forall|k: int| 0 <= k < names@.len() ==> is_protected_name(presets@, mode, #[trigger] names@[k]@),
        forall|nm: Seq<char>| is_protected_name(presets@, mode, nm)
            ==> exists|k: int| 0 <= k < names@.len() && #[trigger] names@[k]@ == nm,
    ensures
        match entry_base(target@, presets@, mode, *protected, entry.name@, entry.is_dir) {
            Some(b) => r.0 matches Some(s) && s@ == b,
            None => r.0 is None,
        },
        match entry_note(target@, presets@, mode, *protected, entry.name@, entry.is_dir) {
            Some(m) => r.1 matches Some(s) && s@ == m,
            None => r.1 is None,
        },
{
    let rule: Option<usize>;
    if entry.is_dir {
        let low = to_lower(entry.name.as_str());
        if contains_str(names, low.as_str()) {
            proof {
                let k = choose|k: int| 0 <= k < names@.len() && #[trigger] names@[k]@ == low@;
                assert(is_protected_name(presets@, mode, names@[k]@));
            }
            return (None, None);
        }
        proof {
            match dirs_rule {
                Some(i) => lemma_first_dirs_rule(presets@, i as int),
                None => {
                    if exists|i: int| is_first_dirs_rule(presets@, i) {
                        let i = choose|i: int| is_first_dirs_rule(presets@, i);
                        assert(!is_dirs_rule(presets@[i]));
                    }
                },
            }
        }
        rule = dirs_rule;
    } else {
        match file_extension(entry.name.as_str()) {
            None => {
                return (None, None);
            },
            Some(x) => {
                let key = to_lower(x.as_str());
                rule = index.lookup(key.as_str());
                proof {
                    match rule {
                        Some(i) => lemma_first_claimant(presets@, key@, i as int),
                        None => {},
                    }
                }
            },
        }
    }
    assert(entry_rule(presets@, mode, entry.name@, entry.is_dir) == match rule {
        Some(i) => Some(i as int),
        None => None::<int>,
    });
    match rule {
        None => (None, None),
        Some(i) => {
            proof {
                if entry.is_dir {
                    assert(is_first_dirs_rule(presets@, i as int));
                } else {
                    assert(is_first_claimant(presets@, lower_of(extension_of(entry.name@)->0), i as int));
                }
            }
            match get_dest_base(target, &presets[i], mode) {
                Err(e) => {
                    let mut m = if entry.is_dir {
                        copy_str("Could not determine sort destination for folder '")
                    } else {
                        copy_str("Could not determine sort destination for '")
                    };
                    let src = join_path(target, entry.name.as_str());
                    push_str_chars(&mut m, src.as_str());
                    push_str_chars(&mut m, "': ");
                    push_str_chars(&mut m, e.as_str());
                    (None, Some(m))
                },
                Ok(b) => {
                    if is_protected(protected, b.as_str()) {
                        let mut m = copy_str("Refusing to sort into protected path: ");
                        push_str_chars(&mut m, b.as_str());
                        return (None, Some(m));
                    }
                    if entry.is_dir {
                        let src = normalize_components(join_path(target, entry.name.as_str()).as_str(), protected.windows);
                        if same_chars(src.as_str(), normalize_components(b.as_str(), protected.windows).as_str()) {
                            return (None, None);
                        }
                    }
                    (Some(b), None)
                },
            }
        },
    }
}

/// Refuses a target that is itself one of the protected paths (the same path once both are
/// normalized, not a prefix).
pub fn guard_target(target: &str, protected: &ProtectedPaths) -> (r: Result<(), String>)
    ensures
        is_protected_path(*protected, target@) ==> (r matches Err(e) && e@ == protected_target_message(target@)),
        !is_protected_path(*protected, target@) ==> r is Ok,
{
    if is_protected(protected, target) {
        let mut e = copy_str("Operation aborted. '");
        push_str_chars(&mut e, target);
        push_str_chars(&mut e, "' is a protected system path.");
        return Err(e);
    }
    Ok(())
}

/// Plans the moves for the entries of `target`. Sorting a protected path itself is refused;
/// otherwise each entry is placed by its rule, at the first free candidate destination.
pub fn plan(
    target: &str,
    entries: &Vec<DirEntry>,
    config: &IrisConfig,
    protected: &ProtectedPaths,
    existing: &Listing,
) -> (r: Result<Plan, String>)
    ensures
        is_protected_path(*protected, target@) ==> (r matches Err(e) && e@ == protected_target_message(target@)),
        !is_protected_path(*protected, target@) ==> (r matches Ok(p)
            && same_moves(p.moves@, planned_moves(target@, entries@, *config, *protected, *existing))
            && views(p.notes@) == notes_upto(target@, entries@, config.presets@, config.general.mode, *protected,
                entries@.len() as int)),
{
    match guard_target(target, protected) {
        Err(e) => {
            return Err(e);
        },
        Ok(()) => {},
    }
    let presets = &config.presets;
    let mode = config.general.mode;
    let index = RuleIndex::new(presets);
    let dirs_rule = find_dirs_rule(presets);
    let names = protected_names(presets, mode);
    let mut moves: Vec<PlannedMove> = Vec::new();
    let mut reserved: Vec<String> = Vec::new();
    let mut notes: Vec<String> = Vec::new();
    let mut j: usize = 0;
    assert(views(notes@) =~= Seq::<Seq<char>>::empty());
    while j < entries.len()
        invariant
            j <= entries@.len(),
            presets == &config.presets,
            mode == config.general.mode,
            index.wf(),
            index.rules@ == presets@,
            dirs_rule matches Some(i) ==> i < presets@.len() && is_dirs_rule(presets@[i as int])
                && forall|k: int| 0 <= k < i ==> !is_dirs_rule(#[trigger] presets@[k]),
            dirs_rule is None ==> forall|k: int| 0 <= k < presets@.len() ==> !is_dirs_rule(#[trigger] presets@[k]),
            forall|k: int| 0 <= k < names@.len() ==> is_protected_name(presets@, mode, #[trigger] names@[k]@),
            forall|nm: Seq<char>| is_protected_name(presets@, mode, nm)
                ==> exists|k: int| 0 <= k < names@.len() && #[trigger] names@[k]@ == nm,
            same_moves(moves@, plan_upto(target@, entries@, presets@, mode, *protected, *existing, j as int).0),
            views(reserved@) == plan_upto(target@, entries@, presets@, mode, *protected, *existing, j as int).1,
            views(notes@) == notes_upto(target@, entries@, presets@, mode, *protected, j as int),
        decreases entries@.len() - j,
    {
        let e = &entries[j];
        let ghost prev = plan_upto(target@, entries@, presets@, mode, *protected, *existing, j as int);
        assert(plan_upto(target@, entries@, presets@, mode, *protected, *existing, j + 1) == {
            let (mv, rs) = prev;
            match entry_base(target@, presets@, mode, *protected, e.name@, e.is_dir) {
                None => (mv, rs),
                Some(b) => match reservation(b, e.name@, e.is_dir, *existing, rs) {
                    None => (mv, rs),
                    Some(d) => if d == join(target@, e.name@) {
                        (mv, rs.push(d))
                    } else {
                        (mv.push((join(target@, e.name@), d)), rs.push(d))
                    },
                },
            }
        });
        let (base, note) = entry_destination_base(target, presets, mode, protected, &index, dirs_rule, &names, e);
        match note {
            Some(m) => {
                let ghost before = views(notes@);
                let ghost mv = m@;
                notes.push(m);
                assert(views(notes@) =~= before.push(mv));
            },
            None => {},
        }
        match base {
            None => {},
            Some(b) => {
                match reserve_destination(b.as_str(), e.name.as_str(), e.is_dir, existing, &mut reserved) {
                    None => {},
                    Some(d) => {
                        let src = join_path(target, e.name.as_str());
                        if !same_chars(src.as_str(), d.as_str()) {
                            let ghost old_moves = moves@;
                            moves.push(PlannedMove { source: src, destination: d });
                            assert forall|k: int| 0 <= k < moves@.len() implies
                                (#[trigger] moves@[k]).source@ == plan_upto(target@, entries@, presets@, mode, *protected, *existing, j + 1).0[k].0
                                && moves@[k].destination@ == plan_upto(target@, entries@, presets@, mode, *protected, *existing, j + 1).0[k].1 by {
                                if k < old_moves.len() {
                                    assert(moves@[k] == old_moves[k]);
                                }
                            }
                        }
                    },
                }
            },
        }
        j = j + 1;
    }
    Ok(Plan { moves, notes })
}

/// The operating system whose protected paths guard a run.
#[derive(Clone, Copy, Debug, PartialEq, Eq, Structural)]
pub enum Platform {
    Linux,
    Android,
    MacOs,
    Windows,
    Other,
}

/// The paths that must never be sorted, nor receive sorted entries, on `platform`.
pub open spec fn protected_path_list(platform: Platform) -> Seq<Seq<char>> {
    match platform {
        Platform::Linux => seq![
            "/"@, "/bin"@, "/boot"@, "/dev"@, "/etc"@, "/lib"@, "/lib32"@, "/lib64"@, "/libx32"@,
            "/media"@, "/mnt"@, "/opt"@, "/proc"@, "/root"@, "/run"@, "/sbin"@, "/srv"@, "/sys"@,
            "/usr"@, "/var"@,
        ],
        Platform::Android => seq!["/system"@, "/vendor"@, "/proc"@, "/sys"@],
        Platform::MacOs => seq![
            "/"@, "/System"@, "/bin"@, "/sbin"@, "/usr"@, "/private"@, "/var"@, "/etc"@, "/dev"@,
            "/Applications"@, "/Library"@,
        ],
        Platform::Windows => seq![
            "C:\\"@, "C:\\Windows"@, "C:\\Program Files"@, "C:\\Program Files (x86)"@, "C:\\Users"@,
            "C:\\Users\\Administrator"@, "C:\\ProgramData"@, "C:\\System32"@, "C:\\Windows\\System32"@,
            "C:\\Recovery"@, "C:\\PerfLogs"@,
        ],
        Platform::Other => seq![],
    }
}

fn push_all(v: &mut Vec<String>, items: &[&str])
    ensures
        views(final(v)@) == views(old(v)@) + items@.map_values(|s: &str| s@),
{
    let mut i: usize = 0;
    while i < items.len()
        invariant
            i <= items@.len(),
            views(v@) == views(old(v)@) + items@.subrange(0, i as int).map_values(|s: &str| s@),
        decreases items@.len() - i,
    {
        let ghost before = views(v@);
        v.push(copy_str(items[i]));
        assert(items@.subrange(0, i + 1).map_values(|s: &str| s@)
            =~= items@.subrange(0, i as int).map_values(|s: &str| s@).push(items@[i as int]@));
        assert(views(v@) =~= before.push(items@[i as int]@));
        i = i + 1;
    }
    assert(items@.subrange(0, items@.len() as int) =~= items@);
}

/// The protected paths of `platform`.
pub fn protected_paths(platform: Platform) -> (r: ProtectedPaths)
    ensures
        views(r.paths@) == protected_path_list(platform),
        r.windows == (platform == Platform::Windows),
{
    let mut v: Vec<String> = Vec::new();
    match platform {
        Platform::Linux => {
            let items: [&str; 20] = [
                "/", "/bin", "/boot", "/dev", "/etc", "/lib", "/lib32", "/lib64", "/libx32",
                "/media", "/mnt", "/opt", "/proc", "/root", "/run", "/sbin", "/srv", "/sys",
                "/usr", "/var",
            ];
            push_all(&mut v, &items);
        },
        Platform::Android => {
            let items: [&str; 4] = ["/system", "/vendor", "/proc", "/sys"];
            push_all(&mut v, &items);
        },
        Platform::MacOs => {
            let items: [&str; 11] = [
                "/", "/System", "/bin", "/sbin", "/usr", "/private", "/var", "/etc", "/dev",
                "/Applications", "/Library",
            ];
            push_all(&mut v, &items);
        },
        Platform::Windows => {
            let items: [&str; 11] = [
                "C:\\", "C:\\Windows", "C:\\Program Files", "C:\\Program Files (x86)", "C:\\Users",
                "C:\\Users\\Administrator", "C:\\ProgramData", "C:\\System32", "C:\\Windows\\System32",
                "C:\\Recovery", "C:\\PerfLogs",
            ];
            push_all(&mut v, &items);
        },
        Platform::Other => {},
    }
    assert(views(v@) =~= protected_path_list(platform));
    ProtectedPaths { paths: v, windows: platform == Platform::Windows }
}

/// `b` is the destination base of some enabled rule.
pub open spec fn is_rule_base(target: Seq<char>, config: IrisConfig, b: Seq<char>) -> bool {
    exists|i: int| 0 <= i < config.presets@.len() && config.presets@[i].enabled
        && #[trigger] dest_base(target, config.presets@[i], config.general.mode) == Some(b)
}

/// The destination bases of the enabled rules that have the path the mode needs: the
/// directories whose contents decide which candidate destinations are free.
pub fn destination_bases(target: &str, config: &IrisConfig) -> (r: Vec<String>)
    ensures
        forall|k: int| 0 <= k < r@.len() ==> is_rule_base(target@, *config, #[trigger] r@[k]@),
        forall|i: int| 0 <= i < config.presets@.len() && config.presets@[i].enabled
            && #[trigger] dest_base(target@, config.presets@[i], config.general.mode) is Some
            ==> is_listed(r@, dest_base(target@, config.presets@[i], config.general.mode)->0),
{
    let mut out: Vec<String> = Vec::new();
    let mut i: usize = 0;
    while i < config.presets.len()
        invariant
            i <= config.presets@.len(),
            forall|k: int| 0 <= k < out@.len() ==> is_rule_base(target@, *config, #[trigger] out@[k]@),
            forall|i2: int| 0 <= i2 < i && config.presets@[i2].enabled
                && #[trigger] dest_base(target@, config.presets@[i2], config.general.mode) is Some
                ==> is_listed(out@, dest_base(target@, config.presets@[i2], config.general.mode)->0),
        decreases config.presets@.len() - i,
    {
        let ghost old_out = out@;
        if config.presets[i].enabled {
            match get_dest_base(target, &config.presets[i], config.general.mode) {
                Ok(b) => {
                    out.push(b);
                    assert(out@[out@.len() - 1]@ == dest_base(target@, config.presets@[i as int], config.general.mode)->0);
                },
                Err(_) => {},
            }
        }
        assert forall|i2: int| 0 <= i2 < i + 1 && config.presets@[i2].enabled
            && #[trigger] dest_base(target@, config.presets@[i2], config.general.mode) is Some
            implies is_listed(out@, dest_base(target@, config.presets@[i2], config.general.mode)->0) by {
            if i2 < i {
                let k = choose|k: int| 0 <= k < old_out.len()
                    && #[trigger] old_out[k]@ == dest_base(target@, config.presets@[i2], config.general.mode)->0;
                assert(out@[k] == old_out[k]);
            } else {
                assert(out@[out@.len() - 1]@ == dest_base(target@, config.presets@[i2], config.general.mode)->0);
            }
        }
        assert forall|k: int| 0 <= k < out@.len() implies is_rule_base(target@, *config, #[trigger] out@[k]@) by {
            if k < old_out.len() {
                assert(out@[k] == old_out[k]);
            } else {
                assert(dest_base(target@, config.presets@[i as int], config.general.mode) == Some(out@[k]@));
            }
        }
        i = i + 1;
    }
    out
}

} // verus!
