//! Turning a user-supplied path string into a clean absolute path: quote
//! stripping, environment expansion over a snapshot of the environment,
//! anchoring at the working directory, and lexical normalization.

use vstd::prelude::*;
use crate::path::join;
use crate::text::{copy_str, push_str_chars, views};

verus! {

/// `s` without surrounding matching quotes, or without a stray trailing quote.
pub open spec fn dequoted(s: Seq<char>) -> Seq<char> {
    if s.len() >= 2 && ((s[0] == '"' && s.last() == '"') || (s[0] == '\'' && s.last() == '\'')) {
        s.subrange(1, s.len() - 1)
    } else if s.len() >= 1 && (s.last() == '"' || s.last() == '\'') {
        s.subrange(0, s.len() - 1)
    } else {
        s
    }
}

/// Removes surrounding quotes, or a stray trailing quote, that a Windows shell may leave on a path.
pub fn dequote(s: &str) -> (r: String)
    ensures
        r@ == dequoted(s@),
{
    let n = s.unicode_len();
    if n >= 2 {
        let first = s.get_char(0);
        let last = s.get_char(n - 1);
        if (first == '"' && last == '"') || (first == '\'' && last == '\'') {
            return copy_str(s.substring_char(1, n - 1));
        }
    }
    if n >= 1 {
        let last = s.get_char(n - 1);
        if last == '"' || last == '\'' {
            return copy_str(s.substring_char(0, n - 1));
        }
    }
    copy_str(s)
}

/// The stack of components after folding in one more segment: empty segments and `.` vanish,
/// `..` drops the last component when that is a name; a `..` that cannot be resolved is kept
/// in a relative path and dropped at the root.
pub open spec fn fold_segment(stack: Seq<Seq<char>>, seg: Seq<char>, rooted: bool) -> Seq<Seq<char>> {
    if seg.len() == 0 || seg =~= seq!['.'] {
        stack
    } else if seg =~= seq!['.', '.'] {
        if stack.len() > 0 && !(stack.last() =~= seq!['.', '.']) {
            stack.drop_last()
        } else if rooted {
            stack
        } else {
            stack.push(seg)
        }
    } else {
        stack.push(seg)
    }
}

/// `c` separates path components: `/`, and with Windows conventions also `\`.
pub open spec fn is_sep(c: char, windows: bool) -> bool {
    c == '/' || (windows && c == '\\')
}

/// The separator written between components: `\` with Windows conventions, `/` otherwise.
pub open spec fn separator(windows: bool) -> char {
    if windows { '\\' } else { '/' }
}

/// With Windows conventions, `p` starts with a drive prefix such as `C:`.
pub open spec fn has_drive(p: Seq<char>, windows: bool) -> bool {
    windows && p.len() >= 2 && p[1] == ':' && (('a' <= p[0] && p[0] <= 'z') || ('A' <= p[0] && p[0] <= 'Z'))
}

/// With Windows conventions, `p` starts with two separators, as a UNC path `\\server\share` does.
pub open spec fn has_unc(p: Seq<char>, windows: bool) -> bool {
    windows && !has_drive(p, windows) && p.len() >= 2 && is_sep(p[0], true) && is_sep(p[1], true)
}

/// The length of the prefix that normalization keeps apart: a drive or the two UNC separators.
pub open spec fn prefix_len(p: Seq<char>, windows: bool) -> int {
    if has_drive(p, windows) || has_unc(p, windows) { 2 } else { 0 }
}

/// `p` is rooted: a separator follows its prefix (a UNC path always is).
pub open spec fn is_rooted(p: Seq<char>, windows: bool) -> bool {
    has_unc(p, windows) || (p.len() > prefix_len(p, windows) && is_sep(p[prefix_len(p, windows)], windows))
}

/// The components of `p` from position `i` on, with `cur` the segment being read and `stack`
/// the components folded so far.
pub open spec fn components_from(
    p: Seq<char>,
    windows: bool,
    rooted: bool,
    i: int,
    cur: Seq<char>,
    stack: Seq<Seq<char>>,
) -> Seq<Seq<char>>
    decreases p.len() - i,
{
    if i >= p.len() {
        fold_segment(stack, cur, rooted)
    } else if is_sep(p[i], windows) {
        components_from(p, windows, rooted, i + 1, seq![], fold_segment(stack, cur, rooted))
    } else {
        components_from(p, windows, rooted, i + 1, cur.push(p[i]), stack)
    }
}

/// The components joined with `sep`.
pub open spec fn joined_components(c: Seq<Seq<char>>, sep: char) -> Seq<char>
    decreases c.len(),
{
    if c.len() == 0 {
        seq![]
    } else if c.len() == 1 {
        c[0]
    } else {
        joined_components(c.drop_last(), sep) + seq![sep] + c.last()
    }
}

/// What comes before the components: the drive, the two UNC separators, or the root separator.
pub open spec fn normal_head(p: Seq<char>, windows: bool) -> Seq<char> {
    let sep = separator(windows);
    if has_unc(p, windows) {
        seq![sep, sep]
    } else if has_drive(p, windows) {
        if is_rooted(p, windows) { p.subrange(0, 2).push(sep) } else { p.subrange(0, 2) }
    } else if is_rooted(p, windows) {
        seq![sep]
    } else {
        seq![]
    }
}

/// `p` with `.` and `..` collapsed and repeated separators merged, `.` for an empty result; with
/// Windows conventions both `/` and `\` separate, a drive or UNC prefix is kept, and `\` is written.
pub open spec fn normalized(p: Seq<char>, windows: bool) -> Seq<char> {
    let rooted = is_rooted(p, windows);
    let c = components_from(p, windows, rooted, prefix_len(p, windows), seq![], seq![]);
    let whole = normal_head(p, windows) + joined_components(c, separator(windows));
    if whole.len() == 0 { seq!['.'] } else { whole }
}

fn is_dot_dot(s: &str) -> (r: bool)
    ensures
        r == (s@ =~= seq!['.', '.']),
{
    let n = s.unicode_len();
    let r = n == 2 && s.get_char(0) == '.' && s.get_char(1) == '.';
    proof {
        if s@ =~= seq!['.', '.'] {
            assert(s@.len() == 2 && s@[0] == '.' && s@[1] == '.');
        }
    }
    r
}

fn fold_segment_exec(stack: &mut Vec<String>, seg: String, rooted: bool)
    ensures
        views(final(stack)@) == fold_segment(views(old(stack)@), seg@, rooted),
{
    let ghost before = views(stack@);
    let n = seg.unicode_len();
    if n == 0 || (n == 1 && seg.as_str().get_char(0) == '.') {
        if n == 1 {
            assert(seg@ =~= seq!['.']);
        }
        return;
    }
    assert(!(seg@ =~= seq!['.'])) by {
        if seg@ =~= seq!['.'] {
            assert(seg@.len() == 1 && seg@[0] == '.');
        }
    }
    if n == 2 && seg.as_str().get_char(0) == '.' && seg.as_str().get_char(1) == '.' {
        assert(seg@ =~= seq!['.', '.']);
        if stack.len() > 0 && !is_dot_dot(stack[stack.len() - 1].as_str()) {
            stack.pop();
            assert(views(stack@) =~= before.drop_last());
        } else if !rooted {
            stack.push(seg);
            assert(views(stack@) =~= before.push(seq!['.', '.']));
        }
        return;
    }
    assert(!(seg@ =~= seq!['.', '.'])) by {
        if seg@ =~= seq!['.', '.'] {
            assert(seg@.len() == 2 && seg@[0] == '.' && seg@[1] == '.');
        }
    }
    let ghost sv = seg@;
    stack.push(seg);
    assert(views(stack@) =~= before.push(sv));
}

fn is_sep_char(c: char, windows: bool) -> (r: bool)
    ensures
        r == is_sep(c, windows),
{
    c == '/' || (windows && c == '\\')
}

/// Collapses `.` and `..` components and repeated separators without touching the file system.
/// A `..` at the root stays at the root; one that cannot be resolved in a relative path is kept.
/// With Windows conventions both separators count, a drive or UNC prefix is kept, and `\` is
/// written between components.
pub fn normalize_components(p: &str, windows: bool) -> (r: String)
    ensures
        r@ == normalized(p@, windows),
{
    let n = p.unicode_len();
    let sep = if windows { '\\' } else { '/' };
    let first = if n >= 1 { p.get_char(0) } else { ' ' };
    let drive = windows && n >= 2 && p.get_char(1) == ':'
        && (('a' <= first && first <= 'z') || ('A' <= first && first <= 'Z'));
    let unc = windows && !drive && n >= 2 && is_sep_char(p.get_char(0), true) && is_sep_char(p.get_char(1), true);
    let start: usize = if drive || unc { 2 } else { 0 };
    assert(start == prefix_len(p@, windows));
    let rooted = unc || (n > start && is_sep_char(p.get_char(start), windows));
    assert(rooted == is_rooted(p@, windows));
    let mut stack: Vec<String> = Vec::new();
    let mut cur = String::new();
    let mut i: usize = start;
    assert(views(stack@) =~= Seq::<Seq<char>>::empty());
    assert(cur@ =~= Seq::<char>::empty());
    while i < n
        invariant
            n == p@.len(),
            start <= i <= n,
            start == prefix_len(p@, windows),
            rooted == is_rooted(p@, windows),
            components_from(p@, windows, rooted, start as int, seq![], seq![])
                == components_from(p@, windows, rooted, i as int, cur@, views(stack@)),
        decreases n - i,
    {
        let c = p.get_char(i);
        if is_sep_char(c, windows) {
            let seg = cur;
            cur = String::new();
            fold_segment_exec(&mut stack, seg, rooted);
        } else {
            cur.push(c);
        }
        i = i + 1;
    }
    fold_segment_exec(&mut stack, cur, rooted);
    let ghost comps = views(stack@);
    assert(comps == components_from(p@, windows, rooted, prefix_len(p@, windows), seq![], seq![]));
    let mut out = String::new();
    if unc {
        out.push(sep);
        out.push(sep);
    } else if drive {
        out.push(p.get_char(0));
        out.push(p.get_char(1));
        if rooted {
            out.push(sep);
        }
        assert(p@.subrange(0, 2) =~= seq![p@[0], p@[1]]);
    } else if rooted {
        out.push(sep);
    }
    let ghost head = out@;
    assert(head =~= normal_head(p@, windows));
    let mut k: usize = 0;
    while k < stack.len()
        invariant
            comps == views(stack@),
            k <= stack@.len(),
            sep == separator(windows),
            out@ == head + joined_components(comps.subrange(0, k as int), sep),
        decreases stack@.len() - k,
    {
        let ghost prev = comps.subrange(0, k as int);
        assert(comps.subrange(0, k + 1).drop_last() =~= prev);
        if k > 0 {
            out.push(sep);
        }
        push_str_chars(&mut out, stack[k].as_str());
        assert(comps.subrange(0, k + 1).last() == stack@[k as int]@);
        if k == 0 {
            assert(joined_components(comps.subrange(0, 1), sep) == comps[0]);
            assert(out@ =~= head + joined_components(comps.subrange(0, k + 1), sep));
        } else {
            assert(out@ =~= head + joined_components(comps.subrange(0, k + 1), sep));
        }
        k = k + 1;
    }
    assert(comps.subrange(0, stack@.len() as int) =~= comps);
    if out.unicode_len() == 0 {
        out.push('.');
        assert(out@ =~= seq!['.']);
    }
    out
}

/// Unicode `White_Space`, the property that `char::is_whitespace` tests.
pub open spec fn is_white_space(c: char) -> bool {
    let u = c as u32;
    (0x9 <= u && u <= 0xD) || u == 0x20 || u == 0x85 || u == 0xA0 || u == 0x1680
        || (0x2000 <= u && u <= 0x200A) || u == 0x2028 || u == 0x2029 || u == 0x202F
        || u == 0x205F || u == 0x3000
}

/// `s` holds nothing but white space.
pub open spec fn is_blank(s: Seq<char>) -> bool {
    forall|k: int| 0 <= k < s.len() ==> is_white_space(#[trigger] s[k])
}

fn white_space(c: char) -> (r: bool)
    ensures
        r == is_white_space(c),
{
    let u = c as u32;
    (0x9 <= u && u <= 0xD) || u == 0x20 || u == 0x85 || u == 0xA0 || u == 0x1680
        || (0x2000 <= u && u <= 0x200A) || u == 0x2028 || u == 0x2029 || u == 0x202F
        || u == 0x205F || u == 0x3000
}

/// Whether `s` holds nothing but white space.
pub fn blank_text(s: &str) -> (r: bool)
    ensures
        r == is_blank(s@),
{
    let n = s.unicode_len();
    let mut i: usize = 0;
    while i < n
        invariant
            n == s@.len(),
            i <= n,
            forall|k: int| 0 <= k < i ==> is_white_space(#[trigger] s@[k]),
        decreases n - i,
    {
        if !white_space(s.get_char(i)) {
            return false;
        }
        i = i + 1;
    }
    true
}

/// What the resolution of a path reads from its surroundings, captured as plain values.
pub struct PathEnv {
    /// Whether paths follow Windows conventions (quotes, `%VAR%`, drive prefixes).
    pub windows: bool,
    /// The home directory, if known.
    pub home: Option<String>,
    /// The working directory, or why it could not be read.
    pub cwd: Result<String, String>,
    /// The environment variables, as name and value.
    pub vars: Vec<(String, String)>,
}

/// The characters of each name and value.
pub open spec fn pair_views(v: Seq<(String, String)>) -> Seq<(Seq<char>, Seq<char>)> {
    v.map_values(|p: (String, String)| (p.0@, p.1@))
}

/// The characters of an optional string.
pub open spec fn opt_view(o: Option<String>) -> Option<Seq<char>> {
    match o {
        Some(s) => Some(s@),
        None => None,
    }
}

/// The value of the first variable named `name`.
pub open spec fn var_value(vars: Seq<(Seq<char>, Seq<char>)>, name: Seq<char>) -> Option<Seq<char>>
    decreases vars.len(),
{
    if vars.len() == 0 {
        None
    } else if vars[0].0 == name {
        Some(vars[0].1)
    } else {
        var_value(vars.subrange(1, vars.len() as int), name)
    }
}

/// The value of the first variable named `name`.
pub fn lookup_var(vars: &Vec<(String, String)>, name: &str) -> (r: Option<String>)
    ensures
        opt_view(r) == var_value(pair_views(vars@), name@),
{
    let ghost all = pair_views(vars@);
    assert(all.subrange(0, all.len() as int) =~= all);
    let mut k: usize = 0;
    while k < vars.len()
        invariant
            all == pair_views(vars@),
            k <= vars@.len(),
            var_value(all, name@) == var_value(all.subrange(k as int, all.len() as int), name@),
        decreases vars@.len() - k,
    {
        let ghost rest = all.subrange(k as int, all.len() as int);
        assert(rest[0] == all[k as int]);
        assert(rest.subrange(1, rest.len() as int) =~= all.subrange(k + 1, all.len() as int));
        if crate::text::same_chars(vars[k].0.as_str(), name) {
            return Some(copy_str(vars[k].1.as_str()));
        }
        k = k + 1;
    }
    assert(all.subrange(k as int, all.len() as int).len() == 0);
    None
}

/// A variable's value as the expansion asks for it: its value, or the error of a missing variable.
pub fn var_for_expansion(vars: &Vec<(String, String)>, name: &str) -> (r: Result<Option<String>, String>)
    ensures
        match var_value(pair_views(vars@), name@) {
            Some(v) => r matches Ok(Some(s)) && s@ == v,
            None => r matches Err(e) && e@ == "environment variable not found"@,
        },
{
    match lookup_var(vars, name) {
        Some(v) => Ok(Some(v)),
        None => Err(copy_str("environment variable not found")),
    }
}

/// What shell-style expansion (`~`, `$VAR`, `${VAR}`) makes of `input` with the given home
/// directory and variables: the expanded text, or the message of the lookup that failed.
pub uninterp spec fn shell_expansion(
    input: Seq<char>,
    home: Option<Seq<char>>,
    vars: Seq<(Seq<char>, Seq<char>)>,
) -> Result<Seq<char>, Seq<char>>;

/// `s` does not start with `~\` or `~$`: the only inputs whose tilde expansion could differ
/// between platforms (a backslash after the tilde counts as a separator on Windows alone).
pub open spec fn plain_tilde(s: Seq<char>) -> bool {
    !(s.len() >= 2 && s[0] == '~' && (s[1] == '\\' || s[1] == '$'))
}

/// `s` holds no `$` and does not start with `~`: shell expansion has nothing to do on it.
pub open spec fn expansion_free(s: Seq<char>) -> bool {
    (forall|k: int| 0 <= k < s.len() ==> s[k] != '$') && !(s.len() > 0 && s[0] == '~')
}

/// Relies on `shellexpand::full_with_context`: tilde and variable expansion whose result, on an
/// input with a plain tilde, depends on the input, the home directory and the variables alone;
/// an input without `$` that does not start with `~` comes back unchanged.
#[verifier::external_body]
fn expand_shell(input: &str, home: &Option<String>, vars: &Vec<(String, String)>) -> (r: Result<String, String>)
    ensures
        plain_tilde(input@) ==> match r {
            Ok(s) => shell_expansion(input@, opt_view(*home), pair_views(vars@)) == Ok::<Seq<char>, Seq<char>>(s@),
            Err(e) => shell_expansion(input@, opt_view(*home), pair_views(vars@)) == Err::<Seq<char>, Seq<char>>(e@),
        },
        expansion_free(input@) ==> (r is Ok && r->Ok_0@ == input@),
{
    shellexpand::full_with_context(input, || home.as_deref(), |name: &str| var_for_expansion(vars, name))
        .map(|s| s.into_owned())
        .map_err(|e| e.to_string())
}

/// The first index at or after `from` where `s` holds `c`, or the length of `s`.
pub open spec fn next_index_of(s: Seq<char>, c: char, from: int) -> int
    decreases s.len() - from,
{
    if from >= s.len() {
        s.len() as int
    } else if s[from] == c {
        from
    } else {
        next_index_of(s, c, from + 1)
    }
}

/// `s` from position `i` on with each `%NAME%` replaced by the variable's value (nothing for an
/// unknown name); a `%` without a closing one stays.
pub open spec fn percent_expanded_from(s: Seq<char>, vars: Seq<(Seq<char>, Seq<char>)>, i: int) -> Seq<char>
    decreases s.len() - i,
{
    if i < 0 || i >= s.len() {
        seq![]
    } else {
        let j = next_index_of(s, '%', i + 1);
        if s[i] == '%' && i < j < s.len() {
            let v = match var_value(vars, s.subrange(i + 1, j)) {
                Some(v) => v,
                None => seq![],
            };
            v + percent_expanded_from(s, vars, j + 1)
        } else {
            seq![s[i]] + percent_expanded_from(s, vars, i + 1)
        }
    }
}

/// Replaces each Windows-style `%NAME%` by the variable's value.
fn pre_expand_percent_vars(s: &str, vars: &Vec<(String, String)>) -> (r: String)
    ensures
        r@ == percent_expanded_from(s@, pair_views(vars@), 0),
{
    let n = s.unicode_len();
    let mut out = String::new();
    let mut i: usize = 0;
    while i < n
        invariant
            n == s@.len(),
            i <= n,
            out@ + percent_expanded_from(s@, pair_views(vars@), i as int)
                == percent_expanded_from(s@, pair_views(vars@), 0),
        decreases n - i,
    {
        let c = s.get_char(i);
        let mut j: usize = i + 1;
        while j < n && s.get_char(j) != '%'
            invariant
                n == s@.len(),
                i < j <= n,
                next_index_of(s@, '%', i + 1) == next_index_of(s@, '%', j as int),
            decreases n - j,
        {
            j = j + 1;
        }
        assert(next_index_of(s@, '%', i + 1) == j);
        if c == '%' && j < n {
            let name = s.substring_char(i + 1, j);
            match lookup_var(vars, name) {
                Some(v) => push_str_chars(&mut out, v.as_str()),
                None => {},
            }
            assert(out@ + percent_expanded_from(s@, pair_views(vars@), j + 1)
                =~= percent_expanded_from(s@, pair_views(vars@), 0));
            i = j + 1;
        } else {
            let ghost before = out@;
            out.push(c);
            assert(out@ + percent_expanded_from(s@, pair_views(vars@), i + 1)
                =~= before + percent_expanded_from(s@, pair_views(vars@), i as int));
            i = i + 1;
        }
    }
    assert(out@ =~= out@ + percent_expanded_from(s@, pair_views(vars@), i as int));
    out
}

/// `s` with every backslash turned into a slash.
pub open spec fn slashed(s: Seq<char>) -> Seq<char> {
    s.map_values(|c: char| if c == '\\' { '/' } else { c })
}

fn to_slashes(s: &str) -> (r: String)
    ensures
        r@ == slashed(s@),
{
    let n = s.unicode_len();
    let mut out = String::new();
    let mut i: usize = 0;
    while i < n
        invariant
            n == s@.len(),
            i <= n,
            out@ =~= slashed(s@.subrange(0, i as int)),
        decreases n - i,
    {
        let c = s.get_char(i);
        if c == '\\' {
            out.push('/');
        } else {
            out.push(c);
        }
        assert(slashed(s@.subrange(0, i + 1)) =~= slashed(s@.subrange(0, i as int)).push(
            if c == '\\' { '/' } else { c },
        ));
        i = i + 1;
    }
    assert(s@.subrange(0, n as int) =~= s@);
    out
}

/// `s` starts with a drive prefix (`C:`) or a UNC prefix (`\\`).
pub open spec fn has_prefix(s: Seq<char>) -> bool {
    s.len() >= 2 && ((s[1] == ':' && (('a' <= s[0] && s[0] <= 'z') || ('A' <= s[0] && s[0] <= 'Z')))
        || (s[0] == '\\' && s[1] == '\\'))
}

/// `s` stands on its own and is not placed under the working directory: it starts with `/`,
/// or, with Windows conventions, with a drive or UNC prefix.
pub open spec fn is_anchored(s: Seq<char>, windows: bool) -> bool {
    (s.len() > 0 && s[0] == '/') || (windows && has_prefix(s))
}

fn anchored(s: &str, windows: bool) -> (r: bool)
    ensures
        r == is_anchored(s@, windows),
{
    let n = s.unicode_len();
    if n > 0 && s.get_char(0) == '/' {
        return true;
    }
    if !windows || n < 2 {
        return false;
    }
    let a = s.get_char(0);
    let b = s.get_char(1);
    (b == ':' && (('a' <= a && a <= 'z') || ('A' <= a && a <= 'Z'))) || (a == '\\' && b == '\\')
}

/// `p` itself, or, for a path with the verbatim prefix `\\?\`, possibly `p` without it.
pub open spec fn is_simplified_form(r: Seq<char>, p: Seq<char>) -> bool {
    r == p || (p.len() >= 4 && p.subrange(0, 4) == "\\\\?\\"@ && r == p.subrange(4, p.len() as int))
}

/// Relies on `dunce::simplified`: a path comes back unchanged unless it starts with the verbatim
/// prefix `\\?\`, which may then be dropped.
#[verifier::external_body]
fn simplify(p: &str) -> (r: String)
    ensures
        is_simplified_form(r@, p@),
{
    dunce::simplified(std::path::Path::new(p)).to_string_lossy().into_owned()
}

/// The text handed to shell expansion: `input` without quotes and with `%NAME%` replaced
/// (Windows), as given otherwise.
pub open spec fn expansion_input(input: Seq<char>, env: PathEnv) -> Seq<char> {
    if env.windows {
        percent_expanded_from(dequoted(input), pair_views(env.vars@), 0)
    } else {
        input
    }
}

/// Where an expanded path stands: with `/` for `\` (not Windows), as it is when anchored,
/// otherwise under the working directory (a Windows path rooted without a drive takes the
/// working directory's drive).
pub open spec fn anchored_text(expanded: Seq<char>, env: PathEnv) -> Result<Seq<char>, Seq<char>> {
    let x2 = if env.windows { expanded } else { slashed(expanded) };
    if is_anchored(x2, env.windows) {
        Ok(x2)
    } else {
        match env.cwd {
            Ok(c) => if env.windows && x2.len() > 0 && x2[0] == '\\' {
                Ok((if has_drive(c@, true) { c@.subrange(0, 2) } else { seq![] }) + x2)
            } else {
                Ok(join(c@, x2))
            },
            Err(e) => Err("failed to get current directory: "@ + e@),
        }
    }
}

/// The path that `input` denotes before normalization, or the error that stops its resolution.
pub open spec fn anchored_path(input: Seq<char>, env: PathEnv) -> Result<Seq<char>, Seq<char>> {
    let s = if env.windows { dequoted(input) } else { input };
    if is_blank(s) {
        Err("empty path provided"@)
    } else {
        let vars = pair_views(env.vars@);
        let pre = expansion_input(input, env);
        match shell_expansion(pre, opt_view(env.home), vars) {
            Err(e) => Err("failed to expand '"@ + input + "': "@ + e),
            Ok(x) => anchored_text(x, env),
        }
    }
}

/// Finishes the resolution of an already expanded path: anchors it (see `anchored_text`),
/// collapses `.` and `..`, and simplifies a verbatim prefix.
pub fn anchor_expanded(expanded: &str, env: &PathEnv) -> (r: Result<String, String>)
    ensures
        match anchored_text(expanded@, *env) {
            Ok(p) => r matches Ok(x) && is_simplified_form(x@, normalized(p, env.windows)),
            Err(e) => r matches Err(m) && m@ == e,
        },
{
    let x2 = if env.windows { copy_str(expanded) } else { to_slashes(expanded) };
    let raw = if anchored(x2.as_str(), env.windows) {
        x2
    } else {
        match &env.cwd {
            Ok(c) => {
                if env.windows && x2.unicode_len() > 0 && x2.as_str().get_char(0) == '\\' {
                    let cn = c.unicode_len();
                    let mut out = String::new();
                    if cn >= 2 && c.as_str().get_char(1) == ':' {
                        let d = c.as_str().get_char(0);
                        if ('a' <= d && d <= 'z') || ('A' <= d && d <= 'Z') {
                            out.push(d);
                            out.push(':');
                            assert(c@.subrange(0, 2) =~= seq![d, ':']);
                        }
                    }
                    push_str_chars(&mut out, x2.as_str());
                    assert(out@ == (if has_drive(c@, true) { c@.subrange(0, 2) } else { seq![] }) + x2@);
                    out
                } else {
                    crate::path::join_path(c.as_str(), x2.as_str())
                }
            },
            Err(e) => {
                let mut m = copy_str("failed to get current directory: ");
                push_str_chars(&mut m, e.as_str());
                return Err(m);
            },
        }
    };
    assert(anchored_text(expanded@, *env) == Ok::<Seq<char>, Seq<char>>(raw@));
    let normal = normalize_components(raw.as_str(), env.windows);
    Ok(simplify(normal.as_str()))
}

/// Resolves `input` to a normalized absolute path without requiring that it exists and without
/// following links: quotes are stripped (Windows), variables and `~` expanded, a relative path is
/// placed under the working directory, and `.` / `..` are collapsed. The expansion's result is
/// named for inputs with a plain tilde (see `plain_tilde`); for every input, a path returned is
/// what `anchor_expanded` makes of some expanded text.
pub fn resolve_path_permissive(input: &str, env: &PathEnv) -> (r: Result<String, String>)
    ensures
        plain_tilde(expansion_input(input@, *env)) ==> match anchored_path(input@, *env) {
            Ok(p) => r matches Ok(x) && is_simplified_form(x@, normalized(p, env.windows)),
            Err(e) => r matches Err(m) && m@ == e,
        },
        is_blank(if env.windows { dequoted(input@) } else { input@ })
            ==> (r matches Err(m) && m@ == "empty path provided"@),
        r matches Ok(x) ==> exists|e: Seq<char>| #[trigger] anchored_text(e, *env) matches Ok(p)
            && is_simplified_form(x@, normalized(p, env.windows)),
{
    let s = if env.windows { dequote(input) } else { copy_str(input) };
    if blank_text(s.as_str()) {
        return Err(copy_str("empty path provided"));
    }
    let pre = if env.windows { pre_expand_percent_vars(s.as_str(), &env.vars) } else { s };
    let expanded = match expand_shell(pre.as_str(), &env.home, &env.vars) {
        Err(e) => {
            let mut m = copy_str("failed to expand '");
            push_str_chars(&mut m, input);
            push_str_chars(&mut m, "': ");
            push_str_chars(&mut m, e.as_str());
            return Err(m);
        },
        Ok(x) => x,
    };
    anchor_expanded(expanded.as_str(), env)
}

} // verus!
