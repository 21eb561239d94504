//! Destination resolution, the extension index with first-rule-wins
//! precedence, the protected output-folder names, and the directory rule.

use vstd::prelude::*;
use crate::config::{Mode, PresetConfig};
use crate::path::{join, join_path, first_component, path_first_component};
use crate::text::{lower_of, to_lower, copy_str, push_str_chars, same_chars, contains_str};

verus! {

/// The destination base of `p` under `target` in `mode`, if the rule has the path that `mode` needs.
pub open spec fn dest_base(target: Seq<char>, p: PresetConfig, mode: Mode) -> Option<Seq<char>> {
    match mode {
        Mode::Relative => match p.relative_path {
            Some(r) => Some(join(target, r@)),
            None => None,
        },
        Mode::Absolute => match p.absolute_path {
            Some(a) => Some(a@),
            None => None,
        },
    }
}

/// The message reported when a rule lacks the path that `mode` needs.
pub open spec fn missing_path_message(name: Seq<char>, mode: Mode) -> Seq<char> {
    match mode {
        Mode::Relative => "preset '"@ + name + "' missing relative_path"@,
        Mode::Absolute => "preset '"@ + name + "' missing absolute_path"@,
    }
}

/// The destination base directory of `preset` for a run on `target`.
pub fn get_dest_base(target: &str, preset: &PresetConfig, mode: Mode) -> (r: Result<String, String>)
    ensures
        match dest_base(target@, *preset, mode) {
            Some(b) => r matches Ok(s) && s@ == b,
            None => r matches Err(e) && e@ == missing_path_message(preset.name@, mode),
        },
{
    match mode {
        Mode::Relative => match &preset.relative_path {
            Some(rel) => Ok(join_path(target, rel.as_str())),
            None => {
                let mut e = copy_str("preset '");
                push_str_chars(&mut e, preset.name.as_str());
                push_str_chars(&mut e, "' missing relative_path");
                Err(e)
            },
        },
        Mode::Absolute => match &preset.absolute_path {
            Some(abs) => Ok(copy_str(abs.as_str())),
            None => {
                let mut e = copy_str("preset '");
                push_str_chars(&mut e, preset.name.as_str());
                push_str_chars(&mut e, "' missing absolute_path");
                Err(e)
            },
        },
    }
}

/// `p` is enabled and lists an extension whose lower-cased form is `key`.
pub open spec fn claims(p: PresetConfig, key: Seq<char>) -> bool {
    p.enabled && exists|j: int|
        0 <= j < p.extension@.len() && lower_of(#[trigger] p.extension@[j]@) == key
}

/// Rule `i` claims `key` and no rule declared before it does.
pub open spec fn is_first_claimant(presets: Seq<PresetConfig>, key: Seq<char>, i: int) -> bool {
    &&& 0 <= i < presets.len()
    &&& claims(presets[i], key)
    &&& forall|k: int| 0 <= k < i ==> !claims(#[trigger] presets[k], key)
}

/// Some rule claims `key`.
pub open spec fn is_claimed(presets: Seq<PresetConfig>, key: Seq<char>) -> bool {
    exists|i: int| 0 <= i < presets.len() && claims(#[trigger] presets[i], key)
}

/// Lookup from lower-cased extension to the index of the first enabled rule that claims it.
pub struct RuleIndex {
    pub entries: Vec<(String, usize)>,
    pub rules: Ghost<Seq<PresetConfig>>,
}

impl RuleIndex {
    /// Every entry names the first claimant of its key, and every claimed key has an entry.
    pub open spec fn wf(&self) -> bool {
        &&& forall|k: int| 0 <= k < self.entries@.len() ==>
            is_first_claimant(self.rules@, (#[trigger] self.entries@[k]).0@, self.entries@[k].1 as int)
        &&& forall|i: int, key: Seq<char>| 0 <= i < self.rules@.len() && #[trigger] claims(self.rules@[i], key)
            ==> exists|k: int| 0 <= k < self.entries@.len() && (#[trigger] self.entries@[k]).0@ == key
    }

    /// Builds the index over `presets`, in declared order.
    pub fn new(presets: &Vec<PresetConfig>) -> (r: RuleIndex)
        ensures
            r.wf(),
            r.rules@ == presets@,
    {
        let mut entries: Vec<(String, usize)> = Vec::new();
        let mut i: usize = 0;
        while i < presets.len()
            invariant
                i <= presets@.len(),
                forall|k: int| 0 <= k < entries@.len() ==>
                    is_first_claimant(presets@, (#[trigger] entries@[k]).0@, entries@[k].1 as int),
                forall|i2: int, key: Seq<char>| 0 <= i2 < i && #[trigger] claims(presets@[i2], key)
                    ==> exists|k: int| 0 <= k < entries@.len() && (#[trigger] entries@[k]).0@ == key,
            decreases presets@.len() - i,
        {
            let p = &presets[i];
            if p.enabled {
                let mut j: usize = 0;
                while j < p.extension.len()
                    invariant
                        i < presets@.len(),
                        *p == presets@[i as int],
                        p.enabled,
                        j <= p.extension@.len(),
                        forall|k: int| 0 <= k < entries@.len() ==>
                            is_first_claimant(presets@, (#[trigger] entries@[k]).0@, entries@[k].1 as int),
                        forall|i2: int, key: Seq<char>| 0 <= i2 < i && #[trigger] claims(presets@[i2], key)
                            ==> exists|k: int| 0 <= k < entries@.len() && (#[trigger] entries@[k]).0@ == key,
                        forall|j2: int| 0 <= j2 < j ==> exists|k: int| 0 <= k < entries@.len()
                            && (#[trigger] entries@[k]).0@ == lower_of(#[trigger] p.extension@[j2]@),
                    decreases p.extension@.len() - j,
                {
                    let key = to_lower(p.extension[j].as_str());
                    let mut found = false;
                    let mut k: usize = 0;
                    while k < entries.len()
                        invariant
                            k <= entries@.len(),
                            found ==> exists|k2: int| 0 <= k2 < entries@.len() && (#[trigger] entries@[k2]).0@ == key@,
                            !found ==> forall|k2: int| 0 <= k2 < k ==> (#[trigger] entries@[k2]).0@ != key@,
                        decreases entries@.len() - k,
                    {
                        if same_chars(entries[k].0.as_str(), key.as_str()) {
                            found = true;
                        }
                        k = k + 1;
                    }
                    let ghost old_entries = entries@;
                    if !found {
                        proof {
                            assert(claims(presets@[i as int], key@)) by {
                                assert(lower_of(p.extension@[j as int]@) == key@);
                            }
                            assert forall|k2: int| 0 <= k2 < i implies !claims(#[trigger] presets@[k2], key@) by {
                                if claims(presets@[k2], key@) {
                                    let kk = choose|kk: int| 0 <= kk < entries@.len() && (#[trigger] entries@[kk]).0@ == key@;
                                    assert(entries@[kk].0@ == key@);
                                }
                            }
                        }
                        entries.push((key, i));
                        assert(entries@[entries@.len() - 1].0@ == lower_of(p.extension@[j as int]@));
                    }
                    assert forall|i2: int, key2: Seq<char>| 0 <= i2 < i && #[trigger] claims(presets@[i2], key2)
                        implies exists|k2: int| 0 <= k2 < entries@.len() && (#[trigger] entries@[k2]).0@ == key2 by {
                        let kk = choose|kk: int| 0 <= kk < old_entries.len() && (#[trigger] old_entries[kk]).0@ == key2;
                        assert(entries@[kk] == old_entries[kk]);
                    }
                    assert forall|j2: int| 0 <= j2 < j + 1 implies exists|k2: int| 0 <= k2 < entries@.len()
                        && (#[trigger] entries@[k2]).0@ == lower_of(#[trigger] p.extension@[j2]@) by {
                        if j2 < j {
                            let kk = choose|kk: int| 0 <= kk < old_entries.len()
                                && (#[trigger] old_entries[kk]).0@ == lower_of(p.extension@[j2]@);
                            assert(entries@[kk] == old_entries[kk]);
                        } else if found {
                            let kk = choose|kk: int| 0 <= kk < old_entries.len() && (#[trigger] old_entries[kk]).0@ == key@;
                            assert(entries@[kk] == old_entries[kk]);
                        } else {
                            assert(entries@[entries@.len() - 1].0@ == lower_of(p.extension@[j2]@));
                        }
                    }
                    j = j + 1;
                }
                assert forall|i2: int, key: Seq<char>| 0 <= i2 < i + 1 && #[trigger] claims(presets@[i2], key)
                    implies exists|k: int| 0 <= k < entries@.len() && (#[trigger] entries@[k]).0@ == key by {
                    if i2 == i {
                        let j2 = choose|j2: int| 0 <= j2 < p.extension@.len() && lower_of(#[trigger] p.extension@[j2]@) == key;
                        assert(lower_of(p.extension@[j2]@) == key);
                    }
                }
            }
            i = i + 1;
        }
        let ghost e = entries@;
        let r = RuleIndex { entries, rules: Ghost(presets@) };
        assert(r.entries@ == e);
        assert forall|i2: int, key: Seq<char>| 0 <= i2 < r.rules@.len() && #[trigger] claims(r.rules@[i2], key)
            implies exists|k: int| 0 <= k < r.entries@.len() && (#[trigger] r.entries@[k]).0@ == key by {
            assert(claims(presets@[i2], key));
            let kk = choose|kk: int| 0 <= kk < e.len() && (#[trigger] e[kk]).0@ == key;
            assert(r.entries@[kk].0@ == key);
        }
        r
    }

    /// The index of the first enabled rule that claims the lower-cased extension `key`.
    pub fn lookup(&self, key: &str) -> (r: Option<usize>)
        requires
            self.wf(),
        ensures
            r matches Some(i) ==> is_first_claimant(self.rules@, key@, i as int),
            r is None ==> !is_claimed(self.rules@, key@),
    {
        let mut k: usize = 0;
        while k < self.entries.len()
            invariant
                self.wf(),
                k <= self.entries@.len(),
                forall|k2: int| 0 <= k2 < k ==> (#[trigger] self.entries@[k2]).0@ != key@,
            decreases self.entries@.len() - k,
        {
            if same_chars(self.entries[k].0.as_str(), key) {
                return Some(self.entries[k].1);
            }
            k = k + 1;
        }
        None
    }
}

/// `p` is enabled and the first component of its relative path, lower-cased, is `name`.
pub open spec fn protects(p: PresetConfig, name: Seq<char>) -> bool {
    p.enabled && match p.relative_path {
        Some(r) => match first_component(r@) {
            Some(c) => lower_of(c) == name,
            None => false,
        },
        None => false,
    }
}

/// In relative mode, `name` is the (lower-cased) output folder of some enabled rule.
pub open spec fn is_protected_name(presets: Seq<PresetConfig>, mode: Mode, name: Seq<char>) -> bool {
    mode == Mode::Relative && exists|i: int| 0 <= i < presets.len() && protects(#[trigger] presets[i], name)
}

/// The lower-cased output folder names of the enabled rules, collected in relative mode only.
pub fn protected_names(presets: &Vec<PresetConfig>, mode: Mode) -> (r: Vec<String>)
    ensures
        forall|k: int| 0 <= k < r@.len() ==> is_protected_name(presets@, mode, #[trigger] r@[k]@),
        forall|name: Seq<char>| is_protected_name(presets@, mode, name)
            ==> exists|k: int| 0 <= k < r@.len() && #[trigger] r@[k]@ == name,
{
    let mut out: Vec<String> = Vec::new();
    if mode != Mode::Relative {
        return out;
    }
    let mut i: usize = 0;
    while i < presets.len()
        invariant
            mode == Mode::Relative,
            i <= presets@.len(),
            forall|k: int| 0 <= k < out@.len() ==> is_protected_name(presets@, mode, #[trigger] out@[k]@),
            forall|i2: int, name: Seq<char>| 0 <= i2 < i && #[trigger] protects(presets@[i2], name)
                ==> exists|k: int| 0 <= k < out@.len() && #[trigger] out@[k]@ == name,
        decreases presets@.len() - i,
    {
        let p = &presets[i];
        let ghost old_out = out@;
        if p.enabled {
            match &p.relative_path {
                Some(rel) => match path_first_component(rel.as_str()) {
                    Some(c) => {
                        let low = to_lower(c.as_str());
                        assert(protects(presets@[i as int], low@));
                        out.push(low);
                    },
                    None => {},
                },
                None => {},
            }
        }
        assert forall|i2: int, name: Seq<char>| 0 <= i2 < i + 1 && #[trigger] protects(presets@[i2], name)
            implies exists|k: int| 0 <= k < out@.len() && #[trigger] out@[k]@ == name by {
            if i2 < i {
                let kk = choose|kk: int| 0 <= kk < old_out.len() && #[trigger] old_out[kk]@ == name;
                assert(out@[kk] == old_out[kk]);
            } else {
                assert(out@[out@.len() - 1]@ == name);
            }
        }
        i = i + 1;
    }
    out
}

/// `p` is the enabled rule for sorting directories.
pub open spec fn is_dirs_rule(p: PresetConfig) -> bool {
    p.enabled && p.name@ == "dirs"@
}

/// The index of the first enabled rule named `dirs`.
pub fn find_dirs_rule(presets: &Vec<PresetConfig>) -> (r: Option<usize>)
    ensures
        r matches Some(i) ==> i < presets@.len() && is_dirs_rule(presets@[i as int])
            && forall|k: int| 0 <= k < i ==> !is_dirs_rule(#[trigger] presets@[k]),
        r is None ==> forall|k: int| 0 <= k < presets@.len() ==> !is_dirs_rule(#[trigger] presets@[k]),
{
    let mut i: usize = 0;
    while i < presets.len()
        invariant
            i <= presets@.len(),
            forall|k: int| 0 <= k < i ==> !is_dirs_rule(#[trigger] presets@[k]),
        decreases presets@.len() - i,
    {
        if presets[i].enabled && same_chars(presets[i].name.as_str(), "dirs") {
            return Some(i);
        }
        i = i + 1;
    }
    None
}

} // verus!
