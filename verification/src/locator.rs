//! Finding the apply-patch executable: the configured one, or the first of
//! the known names found in a `PATH` directory (`codex` gets the argument
//! that makes it act as apply-patch).

use crate::config::Settings;
use crate::text::{chars_of, equals_str, string_of, strings_view};
use vstd::prelude::*;

verus! {

pub const CONFIG_PATH_ERROR: &'static str = "configured apply-patch executable does not exist";

pub const NOT_FOUND_ERROR: &'static str = "apply-patch or codex executable was not found in config or PATH";

pub const CODEX_APPLY_PATCH_ARG: &'static str = "--codex-run-as-apply-patch";

/// The executable names looked for in `PATH`, in order of preference.
pub open spec fn candidate_names() -> Seq<Seq<char>> {
    seq![
        "apply-patch.exe"@,
        "apply_patch.exe"@,
        "apply-patch"@,
        "apply_patch"@,
        "codex.exe"@,
        "codex"@,
    ]
}

/// The executable names looked for in `PATH` (see `candidate_names`).
pub fn path_candidate_names() -> (r: Vec<&'static str>)
    ensures
        r@.map_values(|s: &str| s@) == candidate_names(),
{
    let r = vec![
        "apply-patch.exe",
        "apply_patch.exe",
        "apply-patch",
        "apply_patch",
        "codex.exe",
        "codex",
    ];
    assert(r@.map_values(|s: &str| s@) =~= candidate_names());
    r
}

/// An apply-patch command line.
#[derive(Debug, Clone, PartialEq, Eq)]
pub struct ApplyPatchCommand {
    pub executable: String,
    pub arguments: Vec<String>,
}

impl ApplyPatchCommand {
    pub fn new(executable: String, arguments: Vec<String>) -> (r: Self)
        ensures
            r.executable == executable,
            r.arguments == arguments,
    {
        ApplyPatchCommand { executable, arguments }
    }
}

/// `dir` joined with `name` (`Path::join`): an absolute `name` replaces
/// `dir`; otherwise a '/' separates them unless `dir` is empty or ends in
/// one.
pub open spec fn join_path(dir: Seq<char>, name: Seq<char>) -> Seq<char> {
    if name.len() > 0 && name[0] == '/' {
        name
    } else if dir.len() == 0 || dir.last() == '/' {
        dir + name
    } else {
        dir.push('/') + name
    }
}

/// `directory` joined with `name` (see `join_path`).
pub fn candidate_path(directory: &str, name: &str) -> (r: String)
    ensures
        r@ == join_path(directory@, name@),
{
    let d = chars_of(directory);
    let n = chars_of(name);
    if n.len() > 0 && n[0] == '/' {
        return string_of(&n);
    }
    let mut out = d;
    if out.len() > 0 && out[out.len() - 1] != '/' {
        out.push('/');
    }
    crate::content::push_all(&mut out, &n);
    string_of(&out)
}

/// Every name joined with every directory: the names in order, and for
/// each name the directories in order.
pub open spec fn candidates_of(names: Seq<Seq<char>>, dirs: Seq<Seq<char>>) -> Seq<Seq<char>>
    decreases names.len(),
{
    if names.len() == 0 {
        seq![]
    } else {
        candidates_of(names.drop_last(), dirs) + dirs.map_values(
            |d: Seq<char>| join_path(d, names.last()),
        )
    }
}

/// The paths at which an executable is looked for, in the order they are
/// tried (see `candidates_of`).
pub fn candidate_paths(directories: &[String]) -> (r: Vec<String>)
    ensures
        strings_view(r@) == candidates_of(candidate_names(), strings_view(directories@)),
{
    let names = path_candidate_names();
    let ghost nv = names@.map_values(|s: &str| s@);
    let ghost dv = strings_view(directories@);
    let mut out: Vec<String> = Vec::new();
    let mut i: usize = 0;
    while i < names.len()
        invariant
            i <= names@.len(),
            nv == names@.map_values(|s: &str| s@),
            dv == strings_view(directories@),
            strings_view(out@) == candidates_of(nv.subrange(0, i as int), dv),
        decreases names@.len() - i,
    {
        let ghost before = strings_view(out@);
        let mut j: usize = 0;
        while j < directories.len()
            invariant
                i < names@.len(),
                j <= directories@.len(),
                nv == names@.map_values(|s: &str| s@),
                dv == strings_view(directories@),
                strings_view(out@) == before + dv.subrange(0, j as int).map_values(
                    |d: Seq<char>| join_path(d, nv[i as int]),
                ),
            decreases directories@.len() - j,
        {
            let ghost o0 = strings_view(out@);
            let c = candidate_path(directories[j].as_str(), names[i]);
            out.push(c);
            proof {
                assert(dv[j as int] == directories@[j as int]@);
                assert(strings_view(out@) =~= o0.push(c@));
                assert(dv.subrange(0, j + 1).map_values(|d: Seq<char>| join_path(d, nv[i as int]))
                    =~= dv.subrange(0, j as int).map_values(
                    |d: Seq<char>| join_path(d, nv[i as int]),
                ).push(join_path(dv[j as int], nv[i as int])));
            }
            j += 1;
        }
        proof {
            assert(dv.subrange(0, dv.len() as int) =~= dv);
            assert(nv.subrange(0, i + 1).drop_last() =~= nv.subrange(0, i as int));
        }
        i += 1;
    }
    assert(nv.subrange(0, nv.len() as int) =~= nv);
    out
}

/// The `sep`-separated parts of `s` (always at least one).
pub open spec fn split_on(s: Seq<char>, sep: char) -> Seq<Seq<char>>
    decreases s.len(),
{
    if s.len() == 0 {
        seq![seq![]]
    } else {
        let r = split_on(s.drop_last(), sep);
        if s.last() == sep {
            r.push(seq![])
        } else {
            r.update(r.len() - 1, r.last().push(s.last()))
        }
    }
}

/// A path component that names something (not empty, not ".").
pub open spec fn is_named_component(c: Seq<char>) -> bool {
    c.len() > 0 && c != "."@
}

/// The last named component.
pub open spec fn last_named(parts: Seq<Seq<char>>) -> Option<Seq<char>>
    decreases parts.len(),
{
    if parts.len() == 0 {
        None
    } else if is_named_component(parts.last()) {
        Some(parts.last())
    } else {
        last_named(parts.drop_last())
    }
}

/// The final component of a '/'-separated path (`Path::file_name`): none
/// when the path ends in "..".
pub open spec fn file_name_of(path: Seq<char>) -> Option<Seq<char>> {
    match last_named(split_on(path, '/')) {
        Some(n) => if n == ".."@ {
            None
        } else {
            Some(n)
        },
        None => None,
    }
}

/// The position of the last '.' in `s`.
pub open spec fn last_dot(s: Seq<char>) -> Option<int>
    decreases s.len(),
{
    if s.len() == 0 {
        None
    } else if s.last() == '.' {
        Some(s.len() - 1)
    } else {
        last_dot(s.drop_last())
    }
}

/// A file name without its extension (`Path::file_stem`): what precedes
/// the last '.', unless that '.' starts the name.
pub open spec fn stem_of(name: Seq<char>) -> Seq<char> {
    match last_dot(name) {
        Some(k) => if k > 0 {
            name.take(k)
        } else {
            name
        },
        None => name,
    }
}

/// The code of `c` in ASCII lower case.
pub open spec fn ascii_lower(c: char) -> u32 {
    if 'A' <= c && c <= 'Z' {
        (c as u32 + 32) as u32
    } else {
        c as u32
    }
}

/// `a` and `b` are equal up to ASCII case (`eq_ignore_ascii_case`).
pub open spec fn equal_ignoring_ascii_case(a: Seq<char>, b: Seq<char>) -> bool {
    a.len() == b.len() && forall|i: int| 0 <= i < a.len() ==> ascii_lower(a[i]) == ascii_lower(b[i])
}

/// The executable is `codex` (whatever the case and the extension).
pub open spec fn is_codex_path(path: Seq<char>) -> bool {
    match file_name_of(path) {
        Some(n) => equal_ignoring_ascii_case(stem_of(n), "codex"@),
        None => false,
    }
}

fn lower(c: char) -> (r: u32)
    ensures
        r == ascii_lower(c),
{
    if 'A' <= c && c <= 'Z' {
        (c as u32) + 32
    } else {
        c as u32
    }
}

/// The final component of a path (see `file_name_of`).
pub fn file_name(path: &[char]) -> (r: Option<Vec<char>>)
    ensures
        match r {
            Some(n) => file_name_of(path@) == Some(n@),
            None => file_name_of(path@) is None,
        },
{
    let mut cur: Vec<char> = Vec::new();
    let mut last: Option<Vec<char>> = None;
    let ghost mut done: Seq<Seq<char>> = seq![];
    let mut i: usize = 0;
    while i < path.len()
        invariant
            i <= path@.len(),
            split_on(path@.take(i as int), '/') == done.push(cur@),
            match last {
                Some(l) => last_named(done) == Some(l@),
                None => last_named(done) is None,
            },
        decreases path@.len() - i,
    {
        let ghost pre = path@.take(i as int);
        assert(path@.take(i + 1).drop_last() =~= pre);
        if path[i] == '/' {
            let named = cur.len() > 0 && !equals_str(&cur, ".");
            proof {
                assert(done.push(cur@).drop_last() =~= done);
                done = done.push(cur@);
            }
            if named {
                last = Some(cur);
            }
            cur = Vec::new();
        } else {
            cur.push(path[i]);
            assert(split_on(path@.take(i + 1), '/') =~= done.push(cur@));
        }
        i += 1;
    }
    assert(path@.take(path@.len() as int) =~= path@);
    let named = cur.len() > 0 && !equals_str(&cur, ".");
    let result = if named {
        Some(cur)
    } else {
        proof {
            assert(done.push(cur@).drop_last() =~= done);
        }
        last
    };
    match result {
        Some(n) => if equals_str(&n, "..") {
            None
        } else {
            Some(n)
        },
        None => None,
    }
}

/// A file name without its extension (see `stem_of`).
pub fn file_stem(name: &[char]) -> (r: Vec<char>)
    ensures
        r@ == stem_of(name@),
{
    let mut k = name.len();
    assert(name@.take(k as int) =~= name@);
    while k > 0 && name[k - 1] != '.'
        invariant
            k <= name@.len(),
            last_dot(name@) == last_dot(name@.take(k as int)),
        decreases k,
    {
        assert(name@.take(k as int).drop_last() =~= name@.take(k - 1));
        k -= 1;
    }
    assert(name@.take(name@.len() as int) =~= name@);
    if k > 1 {
        assert(last_dot(name@.take(k as int)) == Some((k - 1) as int));
        crate::text::copy_range(name, 0, k - 1)
    } else {
        proof {
            if k == 1 {
                assert(last_dot(name@.take(1)) == Some(0int));
            } else {
                assert(name@.take(0) =~= Seq::<char>::empty());
            }
        }
        crate::text::copy_range(name, 0, name.len())
    }
}

/// Decides `is_codex_path`.
pub fn is_codex(path: &str) -> (r: bool)
    ensures
        r == is_codex_path(path@),
{
    let p = chars_of(path);
    match file_name(&p) {
        None => false,
        Some(n) => {
            let stem = file_stem(&n);
            let target = chars_of("codex");
            if stem.len() != target.len() {
                return false;
            }
            let mut i: usize = 0;
            while i < stem.len()
                invariant
                    i <= stem@.len(),
                    stem@.len() == target@.len(),
                    target@ == "codex"@,
                    p@ == path@,
                    stem@ == stem_of(n@),
                    file_name_of(path@) == Some(n@),
                    forall|j: int| 0 <= j < i ==> ascii_lower(stem@[j]) == ascii_lower(target@[j]),
                decreases stem@.len() - i,
            {
                if lower(stem[i]) != lower(target[i]) {
                    assert(!equal_ignoring_ascii_case(stem@, target@)) by {
                        assert(ascii_lower(stem@[i as int]) != ascii_lower(target@[i as int]));
                    }
                    return false;
                }
                i += 1;
            }
            true
        },
    }
}

/// The command for an executable found in `PATH`: `codex` is asked to act
/// as apply-patch.
pub fn command_from_path(executable: String) -> (r: ApplyPatchCommand)
    ensures
        r.executable == executable,
        strings_view(r.arguments@) == (if is_codex_path(executable@) {
            seq![CODEX_APPLY_PATCH_ARG@]
        } else {
            Seq::<Seq<char>>::empty()
        }),
{
    let codex = is_codex(executable.as_str());
    let mut arguments: Vec<String> = Vec::new();
    if codex {
        arguments.push(string_of(&chars_of(CODEX_APPLY_PATCH_ARG)));
    }
    assert(strings_view(arguments@) =~= (if is_codex_path(executable@) {
        seq![CODEX_APPLY_PATCH_ARG@]
    } else {
        Seq::<Seq<char>>::empty()
    }));
    ApplyPatchCommand::new(executable, arguments)
}

/// The apply-patch command: the configured executable (which must exist)
/// with the configured arguments; otherwise the first executable found in
/// `PATH` (`found`, see `candidate_paths`); otherwise an error.
pub fn resolve(settings: &Settings, configured_exists: bool, found: Option<String>) -> (r: Result<
    ApplyPatchCommand,
    String,
>)
    ensures
        match settings.executable_path {
            Some(e) => if configured_exists {
                r matches Ok(c) && c.executable == e && strings_view(c.arguments@) == strings_view(
                    settings.arguments@,
                )
            } else {
                r matches Err(m) && m@ == CONFIG_PATH_ERROR@ + ": "@ + e@
            },
            None => match found {
                Some(x) => r matches Ok(c) && c.executable == x && strings_view(c.arguments@) == (
                if is_codex_path(x@) {
                    seq![CODEX_APPLY_PATCH_ARG@]
                } else {
                    Seq::<Seq<char>>::empty()
                }),
                None => r matches Err(m) && m@ == NOT_FOUND_ERROR@,
            },
        },
{
    match &settings.executable_path {
        Some(executable) => {
            if !configured_exists {
                let mut m = chars_of(CONFIG_PATH_ERROR);
                crate::content::push_all(&mut m, &chars_of(": "));
                crate::content::push_all(&mut m, &chars_of(executable.as_str()));
                return Err(string_of(&m));
            }
            let mut arguments: Vec<String> = Vec::new();
            let mut i: usize = 0;
            while i < settings.arguments.len()
                invariant
                    i <= settings.arguments@.len(),
                    strings_view(arguments@) == strings_view(settings.arguments@).subrange(
                        0,
                        i as int,
                    ),
                decreases settings.arguments@.len() - i,
            {
                let ghost a0 = strings_view(arguments@);
                let a = settings.arguments[i].clone();
                assert(a@ == strings_view(settings.arguments@)[i as int]);
                arguments.push(a);
                assert(strings_view(arguments@) =~= a0.push(a@));
                assert(strings_view(arguments@) =~= strings_view(settings.arguments@).subrange(
                    0,
                    i + 1,
                ));
                i += 1;
            }
            assert(strings_view(settings.arguments@).subrange(0, settings.arguments@.len() as int)
                =~= strings_view(settings.arguments@));
            Ok(ApplyPatchCommand::new(executable.clone(), arguments))
        },
        None => match found {
            Some(x) => Ok(command_from_path(x)),
            None => Err(string_of(&chars_of(NOT_FOUND_ERROR))),
        },
    }
}

} // verus!
