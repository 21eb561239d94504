//! Checks of a parsed configuration file, the `[general]` section and the
//! `[preset.<name>]` tables, reporting the first problem in file order; and
//! the typed configuration that a checked file describes.

use vstd::prelude::*;
use crate::config::{GeneralConfig, Mode, PresetConfig, Target, ValidationError};
use crate::path::{join, join_path};
use crate::resolve::{is_blank, opt_view};
use crate::text::{copy_str, push_str_chars, same_chars, views};

verus! {

/// A value of the configuration file, as far as the checks read it.
pub enum FieldValue {
    Str(String),
    Bool(bool),
    /// An array, with each item's text when the item is a string.
    Array(Vec<Option<String>>),
    /// Any other value: a number, a date, a table.
    Other,
}

/// One `key = value` entry of a table; `rendered` is the value as TOML writes it.
pub struct Field {
    pub key: String,
    pub value: FieldValue,
    pub rendered: String,
}

/// One entry of the `[preset]` table; `fields` is none when the entry is not a table.
pub struct PresetTable {
    pub name: String,
    pub fields: Option<Vec<Field>>,
}

/// A parsed configuration file: its `[general]` and `[preset]` tables, in file order, each
/// none when absent or not a table.
pub struct ConfigDocument {
    pub general: Option<Vec<Field>>,
    pub presets: Option<Vec<PresetTable>>,
}

/// A validation error as plain text fields.
pub enum Fault {
    MissingSection(Seq<char>),
    MissingKey(Seq<char>, Seq<char>),
    InvalidValue(Seq<char>, Seq<char>),
    InvalidKey(Seq<char>, Seq<char>),
    NoEntries(Seq<char>),
    NoEnabledPresets,
    Io(Seq<char>),
}

/// The fields of `e` as text.
pub open spec fn fault_of(e: ValidationError) -> Fault {
    match e {
        ValidationError::MissingSection { section } => Fault::MissingSection(section@),
        ValidationError::MissingKey { key, section } => Fault::MissingKey(key@, section@),
        ValidationError::InvalidValue { key, value } => Fault::InvalidValue(key@, value@),
        ValidationError::InvalidKey { preset, key } => Fault::InvalidKey(preset@, key@),
        ValidationError::NoEntries { section } => Fault::NoEntries(section@),
        ValidationError::NoEnabledPresets => Fault::NoEnabledPresets,
        ValidationError::Io(m) => Fault::Io(m@),
    }
}

/// `r` is the outcome that `expected` describes.
pub open spec fn reports(r: Result<(), ValidationError>, expected: Option<Fault>) -> bool {
    match expected {
        None => r is Ok,
        Some(f) => r matches Err(e) && fault_of(e) == f,
    }
}

/// The problem with one entry of `[general]`: a key other than `target`, `mode` and
/// `presets_path`, or a `target` or `mode` that is not one of the key's allowed strings.
pub open spec fn general_field_fault(f: Field) -> Option<Fault> {
    let k = f.key@;
    if k != "target"@ && k != "mode"@ && k != "presets_path"@ {
        Some(Fault::InvalidKey("general"@, k))
    } else {
        match f.value {
            FieldValue::Str(s) => if (k == "target"@ && s@ != "required"@ && s@ != "downloads"@ && s@ != "current"@)
                || (k == "mode"@ && s@ != "relative"@ && s@ != "absolute"@) {
                Some(Fault::InvalidValue(k, s@))
            } else {
                None
            },
            _ => if k == "target"@ || k == "mode"@ {
                Some(Fault::InvalidValue(k, f.rendered@))
            } else {
                None
            },
        }
    }
}

/// The first problem among the entries of `[general]`, in file order.
pub open spec fn first_general_fault(fields: Seq<Field>) -> Option<Fault>
    decreases fields.len(),
{
    if fields.len() == 0 {
        None
    } else {
        match first_general_fault(fields.drop_last()) {
            Some(e) => Some(e),
            None => general_field_fault(fields.last()),
        }
    }
}

/// Some entry of `fields` has key `k`.
pub open spec fn has_key(fields: Seq<Field>, k: Seq<char>) -> bool {
    exists|i: int| 0 <= i < fields.len() && (#[trigger] fields[i]).key@ == k
}

/// The verdict on `[general]`: it must be a non-empty table with valid entries and a `mode`.
pub open spec fn general_fault(doc: ConfigDocument) -> Option<Fault> {
    match doc.general {
        None => Some(Fault::MissingSection("general"@)),
        Some(fs) => if fs@.len() == 0 {
            Some(Fault::NoEntries("general"@))
        } else {
            match first_general_fault(fs@) {
                Some(e) => Some(e),
                None => if !has_key(fs@, "mode"@) {
                    Some(Fault::MissingKey("mode"@, "general"@))
                } else {
                    None
                },
            }
        },
    }
}

proof fn lemma_general_fault_prefix(fields: Seq<Field>, m: int, n: int)
    requires
        0 <= m <= n <= fields.len(),
        first_general_fault(fields.subrange(0, m)) is Some,
    ensures
        first_general_fault(fields.subrange(0, n)) == first_general_fault(fields.subrange(0, m)),
    decreases n - m,
{
    if n > m {
        lemma_general_fault_prefix(fields, m, n - 1);
        assert(fields.subrange(0, n).drop_last() =~= fields.subrange(0, n - 1));
    }
}

fn find_key(fields: &Vec<Field>, k: &str) -> (r: bool)
    ensures
        r == has_key(fields@, k@),
{
    let mut i: usize = 0;
    while i < fields.len()
        invariant
            i <= fields@.len(),
            forall|j: int| 0 <= j < i ==> (#[trigger] fields@[j]).key@ != k@,
        decreases fields@.len() - i,
    {
        if same_chars(fields[i].key.as_str(), k) {
            return true;
        }
        i = i + 1;
    }
    false
}

fn check_general_field(f: &Field) -> (r: Result<(), ValidationError>)
    ensures
        reports(r, general_field_fault(*f)),
{
    let k = f.key.as_str();
    let is_target = same_chars(k, "target");
    let is_mode = same_chars(k, "mode");
    if !is_target && !is_mode && !same_chars(k, "presets_path") {
        return Err(ValidationError::InvalidKey { preset: copy_str("general"), key: copy_str(k) });
    }
    match &f.value {
        FieldValue::Str(s) => {
            let v = s.as_str();
            if (is_target && !same_chars(v, "required") && !same_chars(v, "downloads") && !same_chars(v, "current"))
                || (is_mode && !same_chars(v, "relative") && !same_chars(v, "absolute")) {
                return Err(ValidationError::InvalidValue { key: copy_str(k), value: copy_str(v) });
            }
            Ok(())
        },
        _ => if is_target || is_mode {
            Err(ValidationError::InvalidValue { key: copy_str(k), value: copy_str(f.rendered.as_str()) })
        } else {
            Ok(())
        },
    }
}

fn check_general_fields(fields: &Vec<Field>) -> (r: Result<(), ValidationError>)
    ensures
        reports(r, first_general_fault(fields@)),
{
    let mut i: usize = 0;
    while i < fields.len()
        invariant
            i <= fields@.len(),
            first_general_fault(fields@.subrange(0, i as int)) is None,
        decreases fields@.len() - i,
    {
        assert(fields@.subrange(0, i + 1).drop_last() =~= fields@.subrange(0, i as int));
        assert(fields@.subrange(0, i + 1).last() == fields@[i as int]);
        let checked = check_general_field(&fields[i]);
        if checked.is_err() {
            proof {
                lemma_general_fault_prefix(fields@, i + 1, fields@.len() as int);
                assert(fields@.subrange(0, fields@.len() as int) =~= fields@);
            }
            return checked;
        }
        i = i + 1;
    }
    assert(fields@.subrange(0, fields@.len() as int) =~= fields@);
    Ok(())
}

/// Checks the `[general]` section, reporting the first problem in file order.
pub fn validate_general(doc: &ConfigDocument) -> (r: Result<(), ValidationError>)
    ensures
        reports(r, general_fault(*doc)),
{
    let fields = match &doc.general {
        None => {
            return Err(ValidationError::MissingSection { section: copy_str("general") });
        },
        Some(fs) => fs,
    };
    if fields.len() == 0 {
        return Err(ValidationError::NoEntries { section: copy_str("general") });
    }
    let checked = check_general_fields(fields);
    if checked.is_err() {
        return checked;
    }
    if !find_key(fields, "mode") {
        return Err(ValidationError::MissingKey { key: copy_str("mode"), section: copy_str("general") });
    }
    Ok(())
}

/// The section name of a preset in messages: `[preset.<name>]`.
pub open spec fn preset_section(name: Seq<char>) -> Seq<char> {
    "[preset."@ + name + "]"@
}

fn section_of(name: &str) -> (r: String)
    ensures
        r@ == preset_section(name@),
{
    let mut s = copy_str("[preset.");
    push_str_chars(&mut s, name);
    push_str_chars(&mut s, "]");
    s
}

/// Every item of an array is a string.
pub open spec fn all_strings(items: Seq<Option<String>>) -> bool {
    forall|i: int| 0 <= i < items.len() ==> (#[trigger] items[i]) is Some
}

/// The problem with one entry of a preset table: an unknown key, `enabled` that is not a
/// boolean, `extension` that is not a non-empty array of strings, or a path that is not a string.
pub open spec fn preset_field_fault(name: Seq<char>, f: Field) -> Option<Fault> {
    let k = f.key@;
    if k == "enabled"@ {
        match f.value {
            FieldValue::Bool(_) => None,
            _ => Some(Fault::InvalidValue(k, f.rendered@)),
        }
    } else if k == "extension"@ {
        match f.value {
            FieldValue::Array(items) => if items@.len() == 0 {
                Some(Fault::InvalidValue(k, "array cannot be empty"@))
            } else if !all_strings(items@) {
                Some(Fault::InvalidValue(k, "array must contain only strings"@))
            } else {
                None
            },
            _ => Some(Fault::InvalidValue(k, "must be an array"@)),
        }
    } else if k == "relative_path"@ || k == "absolute_path"@ {
        match f.value {
            FieldValue::Str(_) => None,
            _ => Some(Fault::InvalidValue(k, f.rendered@)),
        }
    } else {
        Some(Fault::InvalidKey(name, k))
    }
}

/// The first problem among the entries of a preset table.
pub open spec fn first_preset_field_fault(name: Seq<char>, fields: Seq<Field>) -> Option<Fault>
    decreases fields.len(),
{
    if fields.len() == 0 {
        None
    } else {
        match first_preset_field_fault(name, fields.drop_last()) {
            Some(e) => Some(e),
            None => preset_field_fault(name, fields.last()),
        }
    }
}

/// The first of the four required keys that a preset table lacks.
pub open spec fn missing_preset_key(name: Seq<char>, fields: Seq<Field>) -> Option<Fault> {
    if !has_key(fields, "enabled"@) {
        Some(Fault::MissingKey("enabled"@, preset_section(name)))
    } else if !has_key(fields, "extension"@) {
        Some(Fault::MissingKey("extension"@, preset_section(name)))
    } else if !has_key(fields, "relative_path"@) {
        Some(Fault::MissingKey("relative_path"@, preset_section(name)))
    } else if !has_key(fields, "absolute_path"@) {
        Some(Fault::MissingKey("absolute_path"@, preset_section(name)))
    } else {
        None
    }
}

/// The problem with one preset: an entry that is not a table, an empty table, a bad entry, or
/// a missing key.
pub open spec fn preset_fault(p: PresetTable) -> Option<Fault> {
    match p.fields {
        None => Some(Fault::InvalidValue(p.name@, "must be a table"@)),
        Some(fs) => if fs@.len() == 0 {
            Some(Fault::NoEntries(preset_section(p.name@)))
        } else {
            match first_preset_field_fault(p.name@, fs@) {
                Some(e) => Some(e),
                None => missing_preset_key(p.name@, fs@),
            }
        },
    }
}

/// The first problem among the presets.
pub open spec fn first_preset_fault(ps: Seq<PresetTable>) -> Option<Fault>
    decreases ps.len(),
{
    if ps.len() == 0 {
        None
    } else {
        match first_preset_fault(ps.drop_last()) {
            Some(e) => Some(e),
            None => preset_fault(ps.last()),
        }
    }
}

/// The preset is a table that sets `enabled = true`.
pub open spec fn enables(p: PresetTable) -> bool {
    p.fields is Some && exists|j: int| 0 <= j < p.fields->0@.len()
        && (#[trigger] p.fields->0@[j]).key@ == "enabled"@ && p.fields->0@[j].value == FieldValue::Bool(true)
}

/// Some preset table sets `enabled = true`.
pub open spec fn some_enabled(ps: Seq<PresetTable>) -> bool {
    exists|i: int| 0 <= i < ps.len() && enables(#[trigger] ps[i])
}

/// The verdict on `[preset]`: a non-empty table of valid presets, at least one of them enabled.
pub open spec fn presets_fault(doc: ConfigDocument) -> Option<Fault> {
    match doc.presets {
        None => Some(Fault::MissingSection("presets"@)),
        Some(ps) => if ps@.len() == 0 {
            Some(Fault::NoEntries("presets"@))
        } else {
            match first_preset_fault(ps@) {
                Some(e) => Some(e),
                None => if !some_enabled(ps@) { Some(Fault::NoEnabledPresets) } else { None },
            }
        },
    }
}

fn only_strings(items: &Vec<Option<String>>) -> (r: bool)
    ensures
        r == all_strings(items@),
{
    let mut i: usize = 0;
    while i < items.len()
        invariant
            i <= items@.len(),
            forall|j: int| 0 <= j < i ==> (#[trigger] items@[j]) is Some,
        decreases items@.len() - i,
    {
        if items[i].is_none() {
            return false;
        }
        i = i + 1;
    }
    true
}

fn check_preset_field(name: &str, f: &Field) -> (r: Result<bool, ValidationError>)
    ensures
        match preset_field_fault(name@, *f) {
            None => r matches Ok(b) && b == (f.key@ == "enabled"@ && f.value == FieldValue::Bool(true)),
            Some(e) => r matches Err(x) && fault_of(x) == e,
        },
{
    let k = f.key.as_str();
    if same_chars(k, "enabled") {
        return match &f.value {
            FieldValue::Bool(b) => Ok(*b),
            _ => Err(ValidationError::InvalidValue { key: copy_str(k), value: copy_str(f.rendered.as_str()) }),
        };
    }
    if same_chars(k, "extension") {
        return match &f.value {
            FieldValue::Array(items) => {
                if items.len() == 0 {
                    Err(ValidationError::InvalidValue { key: copy_str(k), value: copy_str("array cannot be empty") })
                } else if !only_strings(items) {
                    Err(ValidationError::InvalidValue { key: copy_str(k), value: copy_str("array must contain only strings") })
                } else {
                    Ok(false)
                }
            },
            _ => Err(ValidationError::InvalidValue { key: copy_str(k), value: copy_str("must be an array") }),
        };
    }
    if same_chars(k, "relative_path") || same_chars(k, "absolute_path") {
        return match &f.value {
            FieldValue::Str(_) => Ok(false),
            _ => Err(ValidationError::InvalidValue { key: copy_str(k), value: copy_str(f.rendered.as_str()) }),
        };
    }
    Err(ValidationError::InvalidKey { preset: copy_str(name), key: copy_str(k) })
}

proof fn lemma_preset_field_fault_prefix(name: Seq<char>, fields: Seq<Field>, m: int, n: int)
    requires
        0 <= m <= n <= fields.len(),
        first_preset_field_fault(name, fields.subrange(0, m)) is Some,
    ensures
        first_preset_field_fault(name, fields.subrange(0, n)) == first_preset_field_fault(name, fields.subrange(0, m)),
    decreases n - m,
{
    if n > m {
        lemma_preset_field_fault_prefix(name, fields, m, n - 1);
        assert(fields.subrange(0, n).drop_last() =~= fields.subrange(0, n - 1));
    }
}

proof fn lemma_preset_fault_prefix(ps: Seq<PresetTable>, m: int, n: int)
    requires
        0 <= m <= n <= ps.len(),
        first_preset_fault(ps.subrange(0, m)) is Some,
    ensures
        first_preset_fault(ps.subrange(0, n)) == first_preset_fault(ps.subrange(0, m)),
    decreases n - m,
{
    if n > m {
        lemma_preset_fault_prefix(ps, m, n - 1);
        assert(ps.subrange(0, n).drop_last() =~= ps.subrange(0, n - 1));
    }
}

fn check_preset_fields(name: &str, fields: &Vec<Field>) -> (r: Result<bool, ValidationError>)
    ensures
        match first_preset_field_fault(name@, fields@) {
            None => r matches Ok(b) && b == exists|j: int| 0 <= j < fields@.len()
                && (#[trigger] fields@[j]).key@ == "enabled"@ && fields@[j].value == FieldValue::Bool(true),
            Some(e) => r matches Err(x) && fault_of(x) == e,
        },
{
    let mut enabled = false;
    let mut i: usize = 0;
    while i < fields.len()
        invariant
            i <= fields@.len(),
            first_preset_field_fault(name@, fields@.subrange(0, i as int)) is None,
            enabled == exists|j: int| 0 <= j < i
                && (#[trigger] fields@[j]).key@ == "enabled"@ && fields@[j].value == FieldValue::Bool(true),
        decreases fields@.len() - i,
    {
        assert(fields@.subrange(0, i + 1).drop_last() =~= fields@.subrange(0, i as int));
        assert(fields@.subrange(0, i + 1).last() == fields@[i as int]);
        match check_preset_field(name, &fields[i]) {
            Err(e) => {
                proof {
                    lemma_preset_field_fault_prefix(name@, fields@, i + 1, fields@.len() as int);
                    assert(fields@.subrange(0, fields@.len() as int) =~= fields@);
                }
                return Err(e);
            },
            Ok(b) => {
                enabled = enabled || b;
            },
        }
        i = i + 1;
    }
    assert(fields@.subrange(0, fields@.len() as int) =~= fields@);
    Ok(enabled)
}

fn check_preset(p: &PresetTable) -> (r: Result<bool, ValidationError>)
    ensures
        match preset_fault(*p) {
            None => r matches Ok(b) && b == enables(*p),
            Some(e) => r matches Err(x) && fault_of(x) == e,
        },
{
    let fields = match &p.fields {
        None => {
            return Err(ValidationError::InvalidValue { key: copy_str(p.name.as_str()), value: copy_str("must be a table") });
        },
        Some(fs) => fs,
    };
    let name = p.name.as_str();
    if fields.len() == 0 {
        return Err(ValidationError::NoEntries { section: section_of(name) });
    }
    let enabled = match check_preset_fields(name, fields) {
        Err(e) => {
            return Err(e);
        },
        Ok(b) => b,
    };
    if !find_key(fields, "enabled") {
        return Err(ValidationError::MissingKey { key: copy_str("enabled"), section: section_of(name) });
    }
    if !find_key(fields, "extension") {
        return Err(ValidationError::MissingKey { key: copy_str("extension"), section: section_of(name) });
    }
    if !find_key(fields, "relative_path") {
        return Err(ValidationError::MissingKey { key: copy_str("relative_path"), section: section_of(name) });
    }
    if !find_key(fields, "absolute_path") {
        return Err(ValidationError::MissingKey { key: copy_str("absolute_path"), section: section_of(name) });
    }
    Ok(enabled)
}

fn check_presets(presets: &Vec<PresetTable>) -> (r: Result<bool, ValidationError>)
    ensures
        match first_preset_fault(presets@) {
            None => r matches Ok(b) && b == some_enabled(presets@),
            Some(e) => r matches Err(x) && fault_of(x) == e,
        },
{
    let mut has_enabled = false;
    let mut i: usize = 0;
    while i < presets.len()
        invariant
            i <= presets@.len(),
            first_preset_fault(presets@.subrange(0, i as int)) is None,
            has_enabled == exists|j: int| 0 <= j < i && enables(#[trigger] presets@[j]),
        decreases presets@.len() - i,
    {
        assert(presets@.subrange(0, i + 1).drop_last() =~= presets@.subrange(0, i as int));
        assert(presets@.subrange(0, i + 1).last() == presets@[i as int]);
        match check_preset(&presets[i]) {
            Err(e) => {
                proof {
                    lemma_preset_fault_prefix(presets@, i + 1, presets@.len() as int);
                    assert(presets@.subrange(0, presets@.len() as int) =~= presets@);
                }
                return Err(e);
            },
            Ok(b) => {
                has_enabled = has_enabled || b;
            },
        }
        i = i + 1;
    }
    assert(presets@.subrange(0, presets@.len() as int) =~= presets@);
    Ok(has_enabled)
}

/// Checks the `[preset]` table: each preset in file order, then that at least one is enabled.
pub fn validate_presets(doc: &ConfigDocument) -> (r: Result<(), ValidationError>)
    ensures
        reports(r, presets_fault(*doc)),
{
    let presets = match &doc.presets {
        None => {
            return Err(ValidationError::MissingSection { section: copy_str("presets") });
        },
        Some(ps) => ps,
    };
    if presets.len() == 0 {
        return Err(ValidationError::NoEntries { section: copy_str("presets") });
    }
    match check_presets(presets) {
        Err(e) => Err(e),
        Ok(true) => Ok(()),
        Ok(false) => Err(ValidationError::NoEnabledPresets),
    }
}

/// Checks the whole file: `[general]` first, then `[preset]`.
pub fn validate_config(doc: &ConfigDocument) -> (r: Result<(), ValidationError>)
    ensures
        reports(r, match general_fault(*doc) {
            Some(e) => Some(e),
            None => presets_fault(*doc),
        }),
{
    let general = validate_general(doc);
    if general.is_err() {
        return general;
    }
    validate_presets(doc)
}

/// `s` without every leading `./`.
pub open spec fn without_dot_slash(s: Seq<char>) -> Seq<char>
    decreases s.len(),
{
    if s.len() >= 2 && s[0] == '.' && s[1] == '/' {
        without_dot_slash(s.subrange(2, s.len() as int))
    } else {
        s
    }
}

/// A path written in the config file: `~/...` under the home directory, `./...` next to the
/// config file, anything else as written; none for a blank path or an unknown home.
pub open spec fn config_path_of(s: Seq<char>, home: Option<Seq<char>>, config_dir: Seq<char>) -> Option<Seq<char>> {
    if is_blank(s) {
        None
    } else if s.len() >= 2 && s[0] == '~' && s[1] == '/' {
        match home {
            Some(h) => Some(join(h, s.subrange(2, s.len() as int))),
            None => None,
        }
    } else if s.len() >= 2 && s[0] == '.' && s[1] == '/' {
        Some(join(config_dir, without_dot_slash(s)))
    } else {
        Some(s)
    }
}

fn config_path_raw(s: &str, home: &Option<String>, config_dir: &str) -> (r: Option<String>)
    ensures
        opt_view(r) == config_path_of(s@, opt_view(*home), config_dir@),
{
    if crate::resolve::blank_text(s) {
        return None;
    }
    let n = s.unicode_len();
    if n >= 2 && s.get_char(0) == '~' && s.get_char(1) == '/' {
        return match home {
            Some(h) => Some(join_path(h.as_str(), s.substring_char(2, n))),
            None => None,
        };
    }
    if n >= 2 && s.get_char(0) == '.' && s.get_char(1) == '/' {
        let mut i: usize = 0;
        assert(s@.subrange(0, n as int) =~= s@);
        while n - i >= 2 && s.get_char(i) == '.' && s.get_char(i + 1) == '/'
            invariant
                n == s@.len(),
                i <= n,
                without_dot_slash(s@) == without_dot_slash(s@.subrange(i as int, n as int)),
            decreases n - i,
        {
            assert(s@.subrange(i as int, n as int).subrange(2, n - i) =~= s@.subrange(i + 2, n as int));
            i = i + 2;
        }
        return Some(join_path(config_dir, s.substring_char(i, n)));
    }
    Some(copy_str(s))
}

/// A path with Windows conventions written with `\` as its only separator; as it is otherwise.
pub open spec fn native_path(p: Option<Seq<char>>, windows: bool) -> Option<Seq<char>> {
    match p {
        Some(q) => Some(if windows { q.map_values(|c: char| if c == '/' { '\\' } else { c }) } else { q }),
        None => None,
    }
}

/// Resolves a path written in the config file, written with `\` separators on Windows.
pub fn resolve_path(s: &str, home: &Option<String>, config_dir: &str, windows: bool) -> (r: Option<String>)
    ensures
        opt_view(r) == native_path(config_path_of(s@, opt_view(*home), config_dir@), windows),
{
    match config_path_raw(s, home, config_dir) {
        None => None,
        Some(q) => if !windows {
            Some(q)
        } else {
            let n = q.unicode_len();
            let mut out = String::new();
            let mut i: usize = 0;
            while i < n
                invariant
                    n == q@.len(),
                    i <= n,
                    out@ =~= q@.subrange(0, i as int).map_values(|c: char| if c == '/' { '\\' } else { c }),
                decreases n - i,
            {
                let c = q.as_str().get_char(i);
                if c == '/' {
                    out.push('\\');
                } else {
                    out.push(c);
                }
                assert(q@.subrange(0, i + 1).map_values(|c: char| if c == '/' { '\\' } else { c })
                    =~= q@.subrange(0, i as int).map_values(|c: char| if c == '/' { '\\' } else { c }).push(
                    if c == '/' { '\\' } else { c },
                ));
                i = i + 1;
            }
            assert(q@.subrange(0, n as int) =~= q@);
            Some(out)
        },
    }
}

/// The value of the first entry with key `k`.
pub open spec fn value_of(fields: Seq<Field>, k: Seq<char>) -> Option<FieldValue>
    decreases fields.len(),
{
    if fields.len() == 0 {
        None
    } else if fields[0].key@ == k {
        Some(fields[0].value)
    } else {
        value_of(fields.subrange(1, fields.len() as int), k)
    }
}

fn find_value<'a>(fields: &'a Vec<Field>, k: &str) -> (r: Option<&'a FieldValue>)
    ensures
        match value_of(fields@, k@) {
            Some(v) => r matches Some(x) && *x == v,
            None => r is None,
        },
{
    let mut i: usize = 0;
    assert(fields@.subrange(0, fields@.len() as int) =~= fields@);
    while i < fields.len()
        invariant
            i <= fields@.len(),
            value_of(fields@, k@) == value_of(fields@.subrange(i as int, fields@.len() as int), k@),
        decreases fields@.len() - i,
    {
        let ghost rest = fields@.subrange(i as int, fields@.len() as int);
        assert(rest[0] == fields@[i as int]);
        assert(rest.subrange(1, rest.len() as int) =~= fields@.subrange(i + 1, fields@.len() as int));
        if same_chars(fields[i].key.as_str(), k) {
            return Some(&fields[i].value);
        }
        i = i + 1;
    }
    None
}

/// The path an entry names, when it is a non-empty string that resolves.
pub open spec fn path_entry(
    fields: Seq<Field>,
    k: Seq<char>,
    home: Option<Seq<char>>,
    config_dir: Seq<char>,
    windows: bool,
) -> Option<Seq<char>> {
    match value_of(fields, k) {
        Some(FieldValue::Str(s)) => if s@.len() == 0 { None } else { native_path(config_path_of(s@, home, config_dir), windows) },
        _ => None,
    }
}

fn path_field(fields: &Vec<Field>, k: &str, home: &Option<String>, config_dir: &str, windows: bool) -> (r: Option<String>)
    ensures
        opt_view(r) == path_entry(fields@, k@, opt_view(*home), config_dir@, windows),
{
    match find_value(fields, k) {
        Some(FieldValue::Str(s)) => if s.unicode_len() == 0 {
            None
        } else {
            resolve_path(s.as_str(), home, config_dir, windows)
        },
        _ => None,
    }
}

/// The mode the `[general]` table names, if it names a valid one.
pub open spec fn mode_of(fields: Seq<Field>) -> Option<Mode> {
    match value_of(fields, "mode"@) {
        Some(FieldValue::Str(s)) => if s@ == "relative"@ {
            Some(Mode::Relative)
        } else if s@ == "absolute"@ {
            Some(Mode::Absolute)
        } else {
            None
        },
        _ => None,
    }
}

/// The target the `[general]` table names: none for a missing, empty or non-string value,
/// and an error for an unknown one.
pub open spec fn target_of(fields: Seq<Field>) -> Result<Option<Target>, ()> {
    match value_of(fields, "target"@) {
        Some(FieldValue::Str(s)) => if s@.len() == 0 {
            Ok(None)
        } else if s@ == "downloads"@ {
            Ok(Some(Target::Downloads))
        } else if s@ == "current"@ {
            Ok(Some(Target::CurrentDir))
        } else if s@ == "required"@ {
            Ok(Some(Target::Required))
        } else {
            Err(())
        },
        _ => Ok(None),
    }
}

/// The general settings of a checked file: none when `[general]` is missing or its `mode` or
/// `target` is not one of the known values.
pub fn process_general(doc: &ConfigDocument, home: &Option<String>, config_dir: &str, windows: bool) -> (r: Option<GeneralConfig>)
    ensures
        match doc.general {
            None => r is None,
            Some(fs) => match (mode_of(fs@), target_of(fs@)) {
                (Some(m), Ok(t)) => r matches Some(g) && g.mode == m && g.target == t
                    && opt_view(g.presets_path) == path_entry(fs@, "presets_path"@, opt_view(*home), config_dir@, windows),
                _ => r is None,
            },
        },
{
    let fields = match &doc.general {
        None => {
            return None;
        },
        Some(fs) => fs,
    };
    let mode = match find_value(fields, "mode") {
        Some(FieldValue::Str(s)) => if same_chars(s.as_str(), "relative") {
            Mode::Relative
        } else if same_chars(s.as_str(), "absolute") {
            Mode::Absolute
        } else {
            return None;
        },
        _ => {
            return None;
        },
    };
    let target = match find_value(fields, "target") {
        Some(FieldValue::Str(s)) => if s.unicode_len() == 0 {
            None
        } else if same_chars(s.as_str(), "downloads") {
            Some(Target::Downloads)
        } else if same_chars(s.as_str(), "current") {
            Some(Target::CurrentDir)
        } else if same_chars(s.as_str(), "required") {
            Some(Target::Required)
        } else {
            return None;
        },
        _ => None,
    };
    let presets_path = path_field(fields, "presets_path", home, config_dir, windows);
    Some(GeneralConfig { target, mode, presets_path })
}

/// The strings of an array, in order, skipping items that are not strings.
pub open spec fn strings_of(items: Seq<Option<String>>) -> Seq<Seq<char>>
    decreases items.len(),
{
    if items.len() == 0 {
        seq![]
    } else {
        let rest = strings_of(items.drop_last());
        match items.last() {
            Some(s) => rest.push(s@),
            None => rest,
        }
    }
}

/// The extensions a preset table lists.
pub open spec fn extensions_of(fields: Seq<Field>) -> Seq<Seq<char>> {
    match value_of(fields, "extension"@) {
        Some(FieldValue::Array(items)) => strings_of(items@),
        _ => seq![],
    }
}

/// `p` is the rule that a preset table named `name` with entries `fields` describes.
pub open spec fn describes(
    p: PresetConfig,
    name: Seq<char>,
    fields: Seq<Field>,
    home: Option<Seq<char>>,
    config_dir: Seq<char>,
    windows: bool,
) -> bool {
    &&& p.name@ == name
    &&& p.enabled == (value_of(fields, "enabled"@) == Some(FieldValue::Bool(true)))
    &&& views(p.extension@) == extensions_of(fields)
    &&& opt_view(p.relative_path) == path_entry(fields, "relative_path"@, home, config_dir, windows)
    &&& opt_view(p.absolute_path) == path_entry(fields, "absolute_path"@, home, config_dir, windows)
}

/// The tables among the presets, in order.
pub open spec fn tables_of(ps: Seq<PresetTable>) -> Seq<PresetTable>
    decreases ps.len(),
{
    if ps.len() == 0 {
        seq![]
    } else {
        let rest = tables_of(ps.drop_last());
        if ps.last().fields is Some { rest.push(ps.last()) } else { rest }
    }
}

fn strings(items: &Vec<Option<String>>) -> (r: Vec<String>)
    ensures
        views(r@) == strings_of(items@),
{
    let mut out: Vec<String> = Vec::new();
    let mut i: usize = 0;
    assert(views(out@) =~= strings_of(items@.subrange(0, 0)));
    while i < items.len()
        invariant
            i <= items@.len(),
            views(out@) == strings_of(items@.subrange(0, i as int)),
        decreases items@.len() - i,
    {
        assert(items@.subrange(0, i + 1).drop_last() =~= items@.subrange(0, i as int));
        assert(items@.subrange(0, i + 1).last() == items@[i as int]);
        match &items[i] {
            Some(s) => {
                let ghost before = views(out@);
                out.push(copy_str(s.as_str()));
                assert(views(out@) =~= before.push(s@));
            },
            None => {},
        }
        i = i + 1;
    }
    assert(items@.subrange(0, items@.len() as int) =~= items@);
    out
}

/// The rules of a checked file, one for each preset table, in file order.
pub fn process_presets(doc: &ConfigDocument, home: &Option<String>, config_dir: &str, windows: bool) -> (r: Vec<PresetConfig>)
    ensures
        match doc.presets {
            None => r@.len() == 0,
            Some(ps) => r@.len() == tables_of(ps@).len() && forall|k: int| 0 <= k < r@.len() ==>
                describes(#[trigger] r@[k], tables_of(ps@)[k].name@, tables_of(ps@)[k].fields->0@, opt_view(*home), config_dir@, windows),
        },
{
    let mut out: Vec<PresetConfig> = Vec::new();
    let presets = match &doc.presets {
        None => {
            return out;
        },
        Some(ps) => ps,
    };
    let mut i: usize = 0;
    while i < presets.len()
        invariant
            i <= presets@.len(),
            out@.len() == tables_of(presets@.subrange(0, i as int)).len(),
            forall|k: int| 0 <= k < out@.len() ==> describes(#[trigger] out@[k],
                tables_of(presets@.subrange(0, i as int))[k].name@,
                tables_of(presets@.subrange(0, i as int))[k].fields->0@, opt_view(*home), config_dir@, windows),
        decreases presets@.len() - i,
    {
        assert(presets@.subrange(0, i + 1).drop_last() =~= presets@.subrange(0, i as int));
        assert(presets@.subrange(0, i + 1).last() == presets@[i as int]);
        let p = &presets[i];
        match &p.fields {
            None => {},
            Some(fields) => {
                let enabled = match find_value(fields, "enabled") {
                    Some(FieldValue::Bool(b)) => *b,
                    _ => false,
                };
                let extension = match find_value(fields, "extension") {
                    Some(FieldValue::Array(items)) => strings(items),
                    _ => Vec::new(),
                };
                proof {
                    if !(value_of(fields@, "extension"@) matches Some(FieldValue::Array(_))) {
                        assert(views(extension@) =~= Seq::<Seq<char>>::empty());
                    }
                }
                let relative_path = path_field(fields, "relative_path", home, config_dir, windows);
                let absolute_path = path_field(fields, "absolute_path", home, config_dir, windows);
                let ghost old_out = out@;
                out.push(PresetConfig { name: copy_str(p.name.as_str()), enabled, extension, relative_path, absolute_path });
                assert forall|k: int| 0 <= k < out@.len() implies describes(#[trigger] out@[k],
                    tables_of(presets@.subrange(0, i + 1))[k].name@,
                    tables_of(presets@.subrange(0, i + 1))[k].fields->0@, opt_view(*home), config_dir@, windows) by {
                    if k < old_out.len() {
                        assert(out@[k] == old_out[k]);
                    }
                }
            },
        }
        i = i + 1;
    }
    assert(presets@.subrange(0, presets@.len() as int) =~= presets@);
    out
}

} // verus!
