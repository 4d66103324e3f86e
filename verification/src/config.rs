//! Settings of the tool: an optional apply-patch executable and its
//! arguments.

use crate::text::strings_view;
use vstd::prelude::*;

verus! {

/// The settings read from `settings.toml`.
#[derive(Debug, Clone, PartialEq, Eq)]
pub struct Settings {
    pub executable_path: Option<String>,
    pub arguments: Vec<String>,
}

/// The non-empty strings of `s`, in order.
pub open spec fn non_empty(s: Seq<Seq<char>>) -> Seq<Seq<char>>
    decreases s.len(),
{
    if s.len() == 0 {
        seq![]
    } else if s.last().len() > 0 {
        non_empty(s.drop_last()).push(s.last())
    } else {
        non_empty(s.drop_last())
    }
}

/// An empty executable path counts as none.
pub open spec fn normalized_path(p: Option<Seq<char>>) -> Option<Seq<char>> {
    match p {
        Some(s) => if s.len() == 0 {
            None
        } else {
            Some(s)
        },
        None => None,
    }
}

impl Default for Settings {
    fn default() -> (r: Self)
        ensures
            r.executable_path.is_none(),
            r.arguments@.len() == 0,
    {
        Settings { executable_path: None, arguments: Vec::new() }
    }
}

impl Settings {
    pub open spec fn path_view(&self) -> Option<Seq<char>> {
        match self.executable_path {
            Some(p) => Some(p@),
            None => None,
        }
    }

    /// The settings without an empty executable path and without empty
    /// arguments.
    pub fn normalized(self) -> (r: Self)
        ensures
            r.path_view() == normalized_path(self.path_view()),
            strings_view(r.arguments@) == non_empty(strings_view(self.arguments@)),
    {
        let Settings { executable_path, arguments } = self;
        let executable_path = match executable_path {
            Some(p) => if p.as_str().is_empty() {
                None
            } else {
                Some(p)
            },
            None => None,
        };
        let ghost all = strings_view(arguments@);
        let total = arguments.len();
        let mut kept: Vec<String> = Vec::new();
        let mut arguments = arguments;
        let mut rest: Vec<String> = Vec::new();
        while arguments.len() > 0
            invariant
                strings_view(arguments@) + strings_view(rest@).reverse() == all,
            decreases arguments@.len(),
        {
            let ghost a0 = strings_view(arguments@);
            let ghost r0 = strings_view(rest@);
            match arguments.pop() {
                Some(a) => {
                    rest.push(a);
                    proof {
                        assert(strings_view(arguments@) =~= a0.drop_last());
                        assert(strings_view(rest@) =~= r0.push(a@));
                        assert(r0.push(a@).reverse() =~= seq![a@] + r0.reverse());
                        assert(a0.drop_last() + (seq![a@] + r0.reverse()) =~= a0 + r0.reverse());
                    }
                },
                None => {},
            }
        }
        assert(strings_view(rest@).reverse() =~= all);
        let mut i: usize = 0;
        while rest.len() > 0
            invariant
                i <= all.len(),
                all.len() == total,
                strings_view(rest@).reverse() == all.subrange(i as int, all.len() as int),
                strings_view(kept@) == non_empty(all.subrange(0, i as int)),
            decreases rest@.len(),
        {
            let ghost r0 = strings_view(rest@);
            match rest.pop() {
                Some(a) => {
                    proof {
                        assert(r0.reverse()[0] == a@);
                        assert(strings_view(rest@) =~= r0.drop_last());
                        assert(r0.drop_last().reverse() =~= r0.reverse().drop_first());
                        assert(all.subrange(0, i + 1).drop_last() =~= all.subrange(0, i as int));
                        assert(all[i as int] == a@);
                    }
                    let ghost k0 = strings_view(kept@);
                    if !a.as_str().is_empty() {
                        kept.push(a);
                        assert(strings_view(kept@) =~= k0.push(all[i as int]));
                    }
                    i += 1;
                },
                None => {},
            }
        }
        assert(all.subrange(0, all.len() as int) =~= all);
        Settings { executable_path, arguments: kept }
    }
}

} // verus!

verus! {

proof fn lemma_non_empty_all_nonempty(s: Seq<Seq<char>>)
    ensures
        forall|i: int| 0 <= i < non_empty(s).len() ==> #[trigger] non_empty(s)[i].len() > 0,
    decreases s.len(),
{
    if s.len() > 0 {
        lemma_non_empty_all_nonempty(s.drop_last());
        let p = non_empty(s.drop_last());
        if s.last().len() > 0 {
            assert forall|i: int| 0 <= i < p.push(s.last()).len() implies #[trigger] p.push(
                s.last(),
            )[i].len() > 0 by {
                if i < p.len() {
                    assert(p.push(s.last())[i] == p[i]);
                }
            }
        }
    }
}

proof fn lemma_non_empty_keeps_nonempty(s: Seq<Seq<char>>)
    requires
        forall|i: int| 0 <= i < s.len() ==> #[trigger] s[i].len() > 0,
    ensures
        non_empty(s) == s,
    decreases s.len(),
{
    if s.len() > 0 {
        lemma_non_empty_keeps_nonempty(s.drop_last());
        assert(s.drop_last().push(s.last()) =~= s);
    }
}

/// Normalizing settings twice changes nothing more than normalizing once.
pub proof fn law_normalization_is_idempotent(path: Option<Seq<char>>, arguments: Seq<Seq<char>>)
    ensures
        normalized_path(normalized_path(path)) == normalized_path(path),
        non_empty(non_empty(arguments)) == non_empty(arguments),
{
    lemma_non_empty_all_nonempty(arguments);
    lemma_non_empty_keeps_nonempty(non_empty(arguments));
}

} // verus!
