//! The result of running a patch, as the tool reports it.

use crate::patch::session::{start_spec, FileAction};
use crate::content::Planning;
use crate::patch::performer::Performer;
use crate::patch::{applied_as, run_patch, ApplyResult};
use crate::path_expansion::PathEnvironment;
use vstd::prelude::*;

verus! {

/// Runs patch requests.
#[derive(Debug, Clone, Copy, Default)]
pub struct PatchRunner;

/// The rendered outcome of a patch.
#[derive(Debug, Clone, PartialEq, Eq)]
pub struct PatchOutput {
    succeeded: bool,
    content: String,
}

/// A request to apply `patch`.
#[derive(Debug, Copy, Clone)]
pub struct PatchExecution<'request> {
    pub patch: &'request str,
}

impl PatchOutput {
    pub closed spec fn succeeded_spec(&self) -> bool {
        self.succeeded
    }

    pub closed spec fn content_spec(&self) -> Seq<char> {
        self.content@
    }

    /// The output of an applied patch.
    pub fn from_result(result: ApplyResult) -> (r: Self)
        ensures
            r.succeeded_spec() == result.succeeded,
            r.content_spec() == result.output@,
    {
        PatchOutput { succeeded: result.succeeded, content: result.output }
    }

    /// Nothing failed.
    pub fn succeeded(&self) -> (r: bool)
        ensures
            r == self.succeeded_spec(),
    {
        self.succeeded
    }

    /// The rendered summary.
    pub fn render(&self) -> (r: &str)
        ensures
            r@ == self.content_spec(),
    {
        self.content.as_str()
    }
}

impl PatchRunner {
    /// Applies the patch of `request` as `apply_patch_text` does, handing its
    /// file operations to `performer`, except that update chunks are planned
    /// reconciling (`Planning::Reconciling`): already applied chunks are
    /// recognized, and a chunk that cannot be located is reported with the
    /// closest match in the file, when one is close enough.
    pub fn apply<F: Fn(FileAction) -> Result<String, String>>(
        request: PatchExecution<'_>,
        env: &PathEnvironment,
        performer: &mut Performer<F>,
    ) -> (r: PatchOutput)
        requires
            old(performer).ready(),
        ensures
            final(performer).function() == old(performer).function(),
            exists|result: ApplyResult|
                {
                    &&& applied_as(
                        result,
                        old(performer).function(),
                        start_spec(request.patch@, env.home.view(), env.vars_view()),
                        Planning::Reconciling,
                        old(performer).log(),
                        final(performer).log(),
                    )
                    &&& r.succeeded_spec() == result.succeeded
                    &&& r.content_spec() == result.output@
                },
    {
        PatchOutput::from_result(run_patch(request.patch, env, Planning::Reconciling, performer))
    }
}

} // verus!
