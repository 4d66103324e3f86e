//! Expansion of `~`, `$NAME`, `${NAME}` and `%NAME%` in patch paths, and
//! the requirement that a patch path be absolute.
//!
//! The environment is passed in as a snapshot: the home directory and the
//! variables (a name absent from the snapshot is unset).

use crate::text::{
    chars_of, char_pos_from, equals_str, find_char_from, find_pair_from, has_prefix, is_whitespace,
    is_ws, lemma_char_pos_from, lemma_pair_pos_from, pair_pos_from, starts_with,
    string_of,
};
use vstd::prelude::*;

verus! {

/// The value of an environment variable (or of the home directory).
#[derive(Debug, Clone, PartialEq, Eq)]
pub enum VariableValue {
    Present(String),
    Missing,
    NonUnicode,
}

pub enum VarView {
    Present(Seq<char>),
    Missing,
    NonUnicode,
}

impl VariableValue {
    pub open spec fn view(&self) -> VarView {
        match self {
            VariableValue::Present(s) => VarView::Present(s@),
            VariableValue::Missing => VarView::Missing,
            VariableValue::NonUnicode => VarView::NonUnicode,
        }
    }
}

/// A snapshot of what path expansion reads from the process environment.
#[derive(Debug, Clone, PartialEq, Eq)]
pub struct PathEnvironment {
    pub home: VariableValue,
    pub variables: Vec<(String, VariableValue)>,
}

impl PathEnvironment {
    pub open spec fn vars_view(&self) -> Seq<(Seq<char>, VarView)> {
        self.variables@.map_values(|e: (String, VariableValue)| (e.0@, e.1.view()))
    }
}

/// The value of `name`: its first entry, unset when there is none.
pub open spec fn lookup(vars: Seq<(Seq<char>, VarView)>, name: Seq<char>) -> VarView
    decreases vars.len(),
{
    if vars.len() == 0 {
        VarView::Missing
    } else if vars[0].0 == name {
        vars[0].1
    } else {
        lookup(vars.drop_first(), name)
    }
}

/// Looks a variable up in the snapshot (see `lookup`).
pub fn lookup_variable(env: &PathEnvironment, name: &[char]) -> (r: VariableValue)
    ensures
        r.view() == lookup(env.vars_view(), name@),
{
    let ghost vv = env.vars_view();
    let mut i: usize = 0;
    assert(vv.skip(0) =~= vv);
    while i < env.variables.len()
        invariant
            i <= env.variables@.len(),
            vv == env.vars_view(),
            lookup(vv, name@) == lookup(vv.skip(i as int), name@),
        decreases env.variables@.len() - i,
    {
        assert(vv.skip(i as int)[0] == (env.variables@[i as int].0@, env.variables@[i as int].1.view()));
        assert(vv.skip(i as int).drop_first() =~= vv.skip(i + 1));
        let entry_name = chars_of(env.variables[i].0.as_str());
        if crate::text::chars_equal(&entry_name, name) {
            return env.variables[i].1.clone_value();
        }
        i += 1;
    }
    VariableValue::Missing
}

impl VariableValue {
    /// A copy of the value.
    pub fn clone_value(&self) -> (r: Self)
        ensures
            r.view() == self.view(),
    {
        match self {
            VariableValue::Present(s) => VariableValue::Present(string_of(&chars_of(s.as_str()))),
            VariableValue::Missing => VariableValue::Missing,
            VariableValue::NonUnicode => VariableValue::NonUnicode,
        }
    }
}

/// The lookup that shell expansion performs: a set variable gives its
/// value; an unset or non-Unicode one fails with that kind.
pub fn context_lookup(env: &PathEnvironment, name: &str) -> (r: Result<Option<String>, VariableValue>)
    ensures
        match lookup(env.vars_view(), name@) {
            VarView::Present(v) => r matches Ok(Some(s)) && s@ == v,
            VarView::Missing => r matches Err(VariableValue::Missing),
            VarView::NonUnicode => r matches Err(VariableValue::NonUnicode),
        },
{
    let n = chars_of(name);
    match lookup_variable(env, &n) {
        VariableValue::Present(v) => Ok(Some(v)),
        VariableValue::Missing => Err(VariableValue::Missing),
        VariableValue::NonUnicode => Err(VariableValue::NonUnicode),
    }
}

/// What `shellexpand::full_with_context` returns for an input, a home
/// directory and the variable lookup of an environment snapshot: the
/// expanded text, or the name of the variable whose lookup failed with the
/// lookup's failure.
pub uninterp spec fn shell_expansion(
    input: Seq<char>,
    home: Option<Seq<char>>,
    vars: Seq<(Seq<char>, VarView)>,
) -> Result<Seq<char>, (Seq<char>, VarView)>;

/// Calls `shellexpand::full_with_context` with the given home directory
/// and with `context_lookup` on the snapshot.  The contract names the
/// result (`shell_expansion`): it depends on the input, the home directory
/// and the snapshot alone.  The `requires` excludes a home directory for
/// inputs other than `~` and `~/...`, where shellexpand's treatment of
/// `~\` differs between platforms.
#[verifier::external_body]
fn shell_expand(input: &str, home: Option<&str>, env: &PathEnvironment) -> (r: Result<
    String,
    (String, VariableValue),
>)
    requires
        home is Some ==> (input@ == "~"@ || has_prefix(input@, "~/"@)),
    ensures
        match r {
            Ok(s) => Ok::<Seq<char>, (Seq<char>, VarView)>(s@),
            Err(e) => Err((e.0@, e.1.view())),
        } == shell_expansion(
            input@,
            match home {
                Some(h) => Some(h@),
                None => None,
            },
            env.vars_view(),
        ),
{
    match shellexpand::full_with_context(input, || home, |name| context_lookup(env, name)) {
        Ok(expanded) => Ok(expanded.into_owned()),
        Err(error) => Err((error.var_name, error.cause)),
    }
}

/// Why a path could not be expanded.
#[derive(Debug, Clone, PartialEq, Eq)]
pub enum PathExpansionError {
    MissingVariable { name: String, path: String },
    EmptyVariable { path: String },
    UnterminatedBracedVariable { path: String },
    MissingHome { path: String },
    NonUnicodeHome { path: String },
    NonUnicodeVariable { name: String, path: String },
}

pub enum ExpansionFailure {
    MissingVariable { name: Seq<char>, path: Seq<char> },
    EmptyVariable { path: Seq<char> },
    UnterminatedBracedVariable { path: Seq<char> },
    MissingHome { path: Seq<char> },
    NonUnicodeHome { path: Seq<char> },
    NonUnicodeVariable { name: Seq<char>, path: Seq<char> },
}

impl PathExpansionError {
    pub open spec fn view(&self) -> ExpansionFailure {
        match self {
            PathExpansionError::MissingVariable { name, path } => ExpansionFailure::MissingVariable {
                name: name@,
                path: path@,
            },
            PathExpansionError::EmptyVariable { path } => ExpansionFailure::EmptyVariable {
                path: path@,
            },
            PathExpansionError::UnterminatedBracedVariable { path } =>
                ExpansionFailure::UnterminatedBracedVariable { path: path@ },
            PathExpansionError::MissingHome { path } => ExpansionFailure::MissingHome { path: path@ },
            PathExpansionError::NonUnicodeHome { path } => ExpansionFailure::NonUnicodeHome {
                path: path@,
            },
            PathExpansionError::NonUnicodeVariable { name, path } =>
                ExpansionFailure::NonUnicodeVariable { name: name@, path: path@ },
        }
    }
}

pub open spec fn expansion_view(r: Result<String, PathExpansionError>) -> Result<
    Seq<char>,
    ExpansionFailure,
> {
    match r {
        Ok(s) => Ok(s@),
        Err(e) => Err(e.view()),
    }
}

/// The failure for a failed lookup of `name` in `path`.
pub open spec fn lookup_failure(name: Seq<char>, path: Seq<char>, v: VarView) -> ExpansionFailure {
    match v {
        VarView::NonUnicode => ExpansionFailure::NonUnicodeVariable { name, path },
        _ => ExpansionFailure::MissingVariable { name, path },
    }
}

/// `~` alone or at the start of a `~/` or `~\` path.
pub open spec fn needs_tilde(path: Seq<char>) -> bool {
    path == "~"@ || has_prefix(path, "~/"@) || has_prefix(path, "~\\"@)
}

/// Paths that need expanding.
pub open spec fn needs_expansion(path: Seq<char>) -> bool {
    needs_tilde(path) || path.contains('$') || path.contains('%')
}

/// Checks that every `${` is closed by a `}` with a nonempty name between.
pub open spec fn brace_failure(path: Seq<char>, cursor: int) -> Option<ExpansionFailure>
    decreases path.len() - cursor,
{
    match pair_pos_from(path, '$', '{', cursor) {
        None => None,
        Some(o) => if o < cursor {
            None
        } else {
            let name_start = o + 2;
            proof {
                lemma_char_pos_from(path, '}', name_start);
            }
            match char_pos_from(path, '}', name_start) {
                None => Some(ExpansionFailure::UnterminatedBracedVariable { path }),
                Some(c) => if c == name_start {
                    Some(ExpansionFailure::EmptyVariable { path })
                } else if c < name_start {
                    None
                } else {
                    brace_failure(path, c + 1)
                },
            }
        },
    }
}

/// The home directory text, for paths that need tilde expansion.
pub open spec fn home_text(path: Seq<char>, home: VarView) -> Result<Option<Seq<char>>, ExpansionFailure> {
    if !needs_tilde(path) {
        Ok(None)
    } else {
        match home {
            VarView::Present(h) => Ok(Some(h)),
            VarView::Missing => Err(ExpansionFailure::MissingHome { path }),
            VarView::NonUnicode => Err(ExpansionFailure::NonUnicodeHome { path }),
        }
    }
}

/// The input handed to shell expansion, and the home directory for it: a
/// `~\` prefix is replaced by the home directory here.
pub open spec fn tilde_input(path: Seq<char>, home: VarView) -> Result<(Seq<char>, Option<Seq<char>>), ExpansionFailure> {
    match home_text(path, home) {
        Err(e) => Err(e),
        Ok(h) => if !has_prefix(path, "~\\"@) {
            Ok((path, h))
        } else {
            match h {
                Some(hs) => Ok((hs + path.skip(1), None)),
                None => Err(ExpansionFailure::MissingHome { path }),
            }
        },
    }
}

/// A `%NAME%` name: nonempty, without whitespace or path separators.
pub open spec fn is_windows_name(name: Seq<char>) -> bool {
    name.len() > 0 && forall|i: int|
        0 <= i < name.len() ==> !is_ws(#[trigger] name[i]) && name[i] != '/' && name[i] != '\\'
}

/// Prepends text to a successful expansion.
pub open spec fn prepend(p: Seq<char>, r: Result<Seq<char>, ExpansionFailure>) -> Result<
    Seq<char>,
    ExpansionFailure,
> {
    match r {
        Ok(s) => Ok(p + s),
        Err(e) => Err(e),
    }
}

/// Expands `%NAME%` references of `s` from `cursor` on; `%` signs that do
/// not start a reference stay.  Failures name the original path.
pub open spec fn windows_expansion(
    s: Seq<char>,
    original: Seq<char>,
    vars: Seq<(Seq<char>, VarView)>,
    cursor: int,
) -> Result<Seq<char>, ExpansionFailure>
    decreases s.len() - cursor,
{
    proof {
        lemma_char_pos_from(s, '%', cursor);
    }
    match char_pos_from(s, '%', cursor) {
        None => Ok(s.subrange(cursor, s.len() as int)),
        Some(m) => if m < cursor {
            Ok(s.subrange(cursor, s.len() as int))
        } else {
            let ns = m + 1;
            proof {
                lemma_char_pos_from(s, '%', ns);
            }
            match char_pos_from(s, '%', ns) {
                None => prepend(
                    s.subrange(cursor, m).push('%'),
                    windows_expansion(s, original, vars, ns),
                ),
                Some(ne) => {
                    let name = s.subrange(ns, ne);
                    if ne < ns {
                        Ok(s)
                    } else if is_windows_name(name) {
                        match lookup(vars, name) {
                            VarView::Present(v) => prepend(
                                s.subrange(cursor, m) + v,
                                windows_expansion(s, original, vars, ne + 1),
                            ),
                            other => Err(lookup_failure(name, original, other)),
                        }
                    } else {
                        prepend(
                            s.subrange(cursor, m).push('%'),
                            windows_expansion(s, original, vars, ns),
                        )
                    }
                },
            }
        },
    }
}

/// The expansion of a patch path.
pub open spec fn expand_spec(path: Seq<char>, env_home: VarView, vars: Seq<(Seq<char>, VarView)>) -> Result<
    Seq<char>,
    ExpansionFailure,
> {
    if !needs_expansion(path) {
        Ok(path)
    } else {
        match brace_failure(path, 0) {
            Some(e) => Err(e),
            None => match tilde_input(path, env_home) {
                Err(e) => Err(e),
                Ok((input, home)) => match shell_expansion(input, home, vars) {
                    Err((name, v)) => Err(lookup_failure(name, path, v)),
                    Ok(expanded) => if expanded.contains('%') {
                        windows_expansion(expanded, path, vars, 0)
                    } else {
                        Ok(expanded)
                    },
                },
            },
        }
    }
}

pub proof fn lemma_prepend_assoc(a: Seq<char>, b: Seq<char>, r: Result<Seq<char>, ExpansionFailure>)
    ensures
        prepend(a, prepend(b, r)) == prepend(a + b, r),
{
    if let Ok(x) = r {
        assert(a + (b + x) =~= (a + b) + x);
    }
}

pub proof fn lemma_prepend_empty(r: Result<Seq<char>, ExpansionFailure>)
    ensures
        prepend(seq![], r) == r,
{
    if let Ok(x) = r {
        assert(Seq::<char>::empty() + x =~= x);
    }
}

fn contains_char(s: &[char], c: char) -> (r: bool)
    ensures
        r == s@.contains(c),
{
    let mut i: usize = 0;
    while i < s.len()
        invariant
            i <= s@.len(),
            forall|j: int| 0 <= j < i ==> s@[j] != c,
        decreases s@.len() - i,
    {
        if s[i] == c {
            assert(s@[i as int] == c);
            return true;
        }
        i += 1;
    }
    false
}

fn validate_unix_braces(path: &[char]) -> (r: Option<PathExpansionError>)
    ensures
        match r {
            Some(e) => brace_failure(path@, 0) == Some(e.view()),
            None => brace_failure(path@, 0) is None,
        },
{
    let mut cursor: usize = 0;
    let total = path.len();
    loop
        invariant
            total == path@.len(),
            brace_failure(path@, 0) == brace_failure(path@, cursor as int),
        decreases path@.len() - cursor,
    {
        proof {
            lemma_pair_pos_from(path@, '$', '{', cursor as int);
        }
        match find_pair_from(path, '$', '{', cursor) {
            None => {
                return None;
            },
            Some(o) => {
                let name_start = o + 2;
                proof {
                    lemma_char_pos_from(path@, '}', name_start as int);
                }
                match find_char_from(path, '}', name_start) {
                    None => {
                        return Some(
                            PathExpansionError::UnterminatedBracedVariable { path: string_of(path) },
                        );
                    },
                    Some(c) => {
                        if c == name_start {
                            return Some(PathExpansionError::EmptyVariable { path: string_of(path) });
                        }
                        cursor = c + 1;
                    },
                }
            },
        }
    }
}

fn windows_name_ok(name: &[char]) -> (r: bool)
    ensures
        r == is_windows_name(name@),
{
    if name.len() == 0 {
        return false;
    }
    let mut i: usize = 0;
    while i < name.len()
        invariant
            i <= name@.len(),
            forall|j: int| 0 <= j < i ==> !is_ws(#[trigger] name@[j]) && name@[j] != '/' && name@[j] != '\\',
        decreases name@.len() - i,
    {
        let c = name[i];
        if is_whitespace(c) || c == '/' || c == '\\' {
            return false;
        }
        i += 1;
    }
    true
}

fn failure_of(name: &[char], original: &[char], v: VariableValue) -> (r: PathExpansionError)
    requires
        !(v.view() is Present),
    ensures
        r.view() == lookup_failure(name@, original@, v.view()),
{
    match v {
        VariableValue::NonUnicode => PathExpansionError::NonUnicodeVariable {
            name: string_of(name),
            path: string_of(original),
        },
        _ => PathExpansionError::MissingVariable { name: string_of(name), path: string_of(original) },
    }
}

/// Expands `%NAME%` references (see `windows_expansion`).
fn expand_windows_variables(s: &[char], original: &[char], env: &PathEnvironment) -> (r: Result<
    String,
    PathExpansionError,
>)
    ensures
        expansion_view(r) == windows_expansion(s@, original@, env.vars_view(), 0),
{
    let mut out: Vec<char> = Vec::new();
    let mut cursor: usize = 0;
    let total = s.len();
    assert(prepend(out@, windows_expansion(s@, original@, env.vars_view(), 0)) =~= windows_expansion(s@, original@, env.vars_view(), 0)) by {
        lemma_prepend_empty(windows_expansion(s@, original@, env.vars_view(), 0));
    }
    loop
        invariant
            total == s@.len(),
            cursor <= s@.len(),
            windows_expansion(s@, original@, env.vars_view(), 0) == prepend(
                out@,
                windows_expansion(s@, original@, env.vars_view(), cursor as int),
            ),
        decreases s@.len() - cursor,
    {
        proof {
            lemma_char_pos_from(s@, '%', cursor as int);
        }
        match find_char_from(s, '%', cursor) {
            None => {
                let ghost before = out@;
                let tail = crate::text::copy_range(s, cursor, s.len());
                crate::content::push_all(&mut out, &tail);
                return Ok(string_of(&out));
            },
            Some(m) => {
                let ns = m + 1;
                let head = crate::text::copy_range(s, cursor, m);
                proof {
                    lemma_char_pos_from(s@, '%', ns as int);
                }
                match find_char_from(s, '%', ns) {
                    None => {
                        let ghost o0 = out@;
                        crate::content::push_all(&mut out, &head);
                        out.push('%');
                        proof {
                            lemma_prepend_assoc(o0, head@.push('%'), windows_expansion(s@, original@, env.vars_view(), ns as int));
                            assert(o0 + head@.push('%') =~= out@);
                        }
                        cursor = ns;
                    },
                    Some(ne) => {
                        let name = crate::text::copy_range(s, ns, ne);
                        if windows_name_ok(&name) {
                            match lookup_variable(env, &name) {
                                VariableValue::Present(v) => {
                                    let ghost o0 = out@;
                                    crate::content::push_all(&mut out, &head);
                                    let vc = chars_of(v.as_str());
                                    crate::content::push_all(&mut out, &vc);
                                    proof {
                                        lemma_prepend_assoc(o0, head@ + vc@, windows_expansion(s@, original@, env.vars_view(), ne + 1));
                                        assert(o0 + (head@ + vc@) =~= out@);
                                    }
                                    cursor = ne + 1;
                                },
                                other => {
                                    return Err(failure_of(&name, original, other));
                                },
                            }
                        } else {
                            let ghost o0 = out@;
                            crate::content::push_all(&mut out, &head);
                            out.push('%');
                            proof {
                                lemma_prepend_assoc(o0, head@.push('%'), windows_expansion(s@, original@, env.vars_view(), ns as int));
                                assert(o0 + head@.push('%') =~= out@);
                            }
                            cursor = ns;
                        }
                    },
                }
            },
        }
    }
}

} // verus!

verus! {

/// Expands a patch path against an environment snapshot (see
/// `expand_spec`).
pub fn expand_with(path: &str, env: &PathEnvironment) -> (r: Result<String, PathExpansionError>)
    ensures
        expansion_view(r) == expand_spec(path@, env.home.view(), env.vars_view()),
{
    let p = chars_of(path);
    let is_tilde = equals_str(&p, "~") || starts_with(&p, "~/") || starts_with(&p, "~\\");
    if !is_tilde && !contains_char(&p, '$') && !contains_char(&p, '%') {
        return Ok(string_of(&p));
    }
    match validate_unix_braces(&p) {
        Some(e) => {
            return Err(e);
        },
        None => {},
    }
    // The home directory, for paths that need it.
    let home: Option<String> = if !is_tilde {
        None
    } else {
        match &env.home {
            VariableValue::Present(h) => Some(string_of(&chars_of(h.as_str()))),
            VariableValue::Missing => {
                return Err(PathExpansionError::MissingHome { path: string_of(&p) });
            },
            VariableValue::NonUnicode => {
                return Err(PathExpansionError::NonUnicodeHome { path: string_of(&p) });
            },
        }
    };
    let (input, input_home): (String, Option<String>) = if !starts_with(&p, "~\\") {
        (string_of(&p), home)
    } else {
        match home {
            Some(h) => {
                proof {
                    reveal_strlit("~\\");
                }
                let mut combined = chars_of(h.as_str());
                let rest = crate::text::copy_range(&p, 1, p.len());
                crate::content::push_all(&mut combined, &rest);
                assert(rest@ == p@.skip(1));
                (string_of(&combined), None)
            },
            None => {
                return Err(PathExpansionError::MissingHome { path: string_of(&p) });
            },
        }
    };
    let expanded = match &input_home {
        Some(h) => shell_expand(input.as_str(), Some(h.as_str()), env),
        None => shell_expand(input.as_str(), None, env),
    };
    match expanded {
        Err((name, v)) => {
            let nc = chars_of(name.as_str());
            match v {
                VariableValue::NonUnicode => Err(PathExpansionError::NonUnicodeVariable { name: string_of(&nc), path: string_of(&p) }),
                _ => Err(PathExpansionError::MissingVariable { name: string_of(&nc), path: string_of(&p) }),
            }
        },
        Ok(text) => {
            let tc = chars_of(text.as_str());
            if contains_char(&tc, '%') {
                expand_windows_variables(&tc, &p, env)
            } else {
                Ok(string_of(&tc))
            }
        },
    }
}

/// Absolute paths: rooted at `/`, a UNC path (`\\`), or a drive letter
/// followed by `:` and a separator.
pub open spec fn is_absolute_path(p: Seq<char>) -> bool {
    ||| (p.len() >= 1 && p[0] == '/')
    ||| (p.len() >= 2 && p[0] == '\\' && p[1] == '\\')
    ||| (p.len() >= 3 && (('a' <= p[0] && p[0] <= 'z') || ('A' <= p[0] && p[0] <= 'Z')) && p[1]
        == ':' && (p[2] == '\\' || p[2] == '/'))
}

/// Decides `is_absolute_path`.
pub fn is_absolute(p: &[char]) -> (r: bool)
    ensures
        r == is_absolute_path(p@),
{
    (p.len() >= 1 && p[0] == '/') || (p.len() >= 2 && p[0] == '\\' && p[1] == '\\') || (p.len()
        >= 3 && (('a' <= p[0] && p[0] <= 'z') || ('A' <= p[0] && p[0] <= 'Z')) && p[1] == ':'
        && (p[2] == '\\' || p[2] == '/'))
}

} // verus!

verus! {

/// A path without `~`, `$` or `%` expansion is kept as it is.
pub proof fn law_plain_path_unchanged(path: Seq<char>, home: VarView, vars: Seq<(Seq<char>, VarView)>)
    requires
        !needs_expansion(path),
    ensures
        expand_spec(path, home, vars) == Ok::<Seq<char>, ExpansionFailure>(path),
{
}

} // verus!

verus! {

proof fn lemma_char_pos_shift(p: Seq<char>, y: Seq<char>, ch: char, c: int)
    requires
        0 <= c,
    ensures
        char_pos_from(p + y, ch, p.len() + c) == match char_pos_from(y, ch, c) {
            Some(i) => Some(i + p.len()),
            None => None::<int>,
        },
    decreases y.len() - c,
{
    if c < y.len() {
        assert((p + y)[p.len() + c] == y[c]);
        lemma_char_pos_shift(p, y, ch, c + 1);
    }
}

proof fn lemma_char_pos_first(s: Seq<char>, ch: char, c: int, k: int)
    requires
        0 <= c <= k < s.len(),
        s[k] == ch,
        forall|j: int| c <= j < k ==> s[j] != ch,
    ensures
        char_pos_from(s, ch, c) == Some(k),
    decreases k - c,
{
    if c < k {
        lemma_char_pos_first(s, ch, c + 1, k);
    }
}

/// The expansion from a position depends only on the text from there on.
proof fn lemma_windows_shift(
    p: Seq<char>,
    y: Seq<char>,
    original: Seq<char>,
    vars: Seq<(Seq<char>, VarView)>,
    c: int,
)
    requires
        0 <= c <= y.len(),
    ensures
        windows_expansion(p + y, original, vars, p.len() + c) == windows_expansion(y, original, vars, c),
    decreases y.len() - c,
{
    let s = p + y;
    let cursor = p.len() + c;
    lemma_char_pos_shift(p, y, '%', c);
    lemma_char_pos_from(y, '%', c);
    match char_pos_from(y, '%', c) {
        None => {
            assert(s.subrange(cursor, s.len() as int) =~= y.subrange(c, y.len() as int));
        },
        Some(m1) => {
            let m = m1 + p.len();
            let ns1 = m1 + 1;
            lemma_char_pos_shift(p, y, '%', ns1);
            lemma_char_pos_from(y, '%', ns1);
            assert(s.subrange(cursor, m) =~= y.subrange(c, m1));
            match char_pos_from(y, '%', ns1) {
                None => {
                    lemma_windows_shift(p, y, original, vars, ns1);
                },
                Some(ne1) => {
                    assert(s.subrange(m + 1, ne1 + p.len()) =~= y.subrange(ns1, ne1));
                    lemma_windows_shift(p, y, original, vars, ns1);
                    lemma_windows_shift(p, y, original, vars, ne1 + 1);
                },
            }
        },
    }
}

/// Every `%NAME%` reference is expanded, not only the first: in a text
/// `a` + `%NAME%` + `b`, where `a` has no '%' and `NAME` (letters, digits
/// and '_') is set to `value`, the expansion is `a`, then `value`, then the
/// expansion of `b` on its own (so a second reference in `b` is expanded
/// too); a failure in `b` is the failure of the whole.
pub proof fn law_windows_references_all_expanded(
    a: Seq<char>,
    name: Seq<char>,
    b: Seq<char>,
    original: Seq<char>,
    vars: Seq<(Seq<char>, VarView)>,
    value: Seq<char>,
)
    requires
        !a.contains('%'),
        name.len() > 0,
        forall|k: int|
            0 <= k < name.len() ==> ('a' <= #[trigger] name[k] <= 'z') || ('A' <= name[k] <= 'Z')
                || ('0' <= name[k] <= '9') || name[k] == '_',
        lookup(vars, name) == VarView::Present(value),
    ensures
        windows_expansion(a + seq!['%'] + name + seq!['%'] + b, original, vars, 0) == match windows_expansion(
            b,
            original,
            vars,
            0,
        ) {
            Ok(t) => Ok(a + value + t),
            Err(e) => Err::<Seq<char>, ExpansionFailure>(e),
        },
{
    let p = a + seq!['%'] + name + seq!['%'];
    let s = p + b;
    assert(a + seq!['%'] + name + seq!['%'] + b =~= s);
    let m = a.len() as int;
    let ns = m + 1;
    let ne = ns + name.len();
    assert forall|j: int| 0 <= j < m implies s[j] != '%' by {
        assert(s[j] == a[j]);
        if s[j] == '%' {
            assert(a.contains('%'));
        }
    }
    assert(s[m] == '%');
    lemma_char_pos_first(s, '%', 0, m);
    assert forall|j: int| ns <= j < ne implies s[j] != '%' by {
        assert(s[j] == name[j - ns]);
    }
    assert(s[ne] == '%');
    lemma_char_pos_first(s, '%', ns, ne);
    assert(s.subrange(ns, ne) =~= name);
    assert(is_windows_name(name));
    assert(s.subrange(0, m) =~= a);
    assert(p.len() == ne + 1);
    lemma_windows_shift(p, b, original, vars, 0);
    if let Ok(t) = windows_expansion(b, original, vars, 0) {
        assert(a + value + t =~= (a + value) + t);
    }
}

} // verus!
