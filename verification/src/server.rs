//! The `apply_patch` tool: its request, and the reply it sends.

use crate::command::PatchOutput;
use crate::text::{chars_of, string_of, trim, trim_bounds};
use vstd::prelude::*;

verus! {

/// The arguments of an `apply_patch` call.
#[derive(Debug, Clone, PartialEq, Eq)]
pub struct ApplyPatchRequest {
    pub patch: String,
}

/// A tool result: its text, and whether it reports an error.
#[derive(Debug, Clone, PartialEq, Eq)]
pub struct ToolReply {
    pub is_error: bool,
    pub text: String,
}

impl ApplyPatchRequest {
    /// The reply to a blank patch, which is refused before it runs; `None`
    /// when the patch is to be run.
    pub fn refusal(&self) -> (r: Option<ToolReply>)
        ensures
            (r is Some) == (trim(self.patch@).len() == 0),
            r matches Some(x) ==> x.is_error && x.text@ == "patch must not be empty"@,
    {
        let text = chars_of(self.patch.as_str());
        let (a, b) = trim_bounds(&text, 0, text.len(), true, true);
        assert(text@.subrange(0, text@.len() as int) == text@);
        if a == b {
            Some(ToolReply { is_error: true, text: string_of(&chars_of("patch must not be empty")) })
        } else {
            None
        }
    }
}

impl ToolReply {
    /// The reply for a patch that ran: its summary, an error when anything
    /// failed.
    pub fn from_output(output: &PatchOutput) -> (r: Self)
        ensures
            r.is_error == !output.succeeded_spec(),
            r.text@ == output.content_spec(),
    {
        ToolReply { is_error: !output.succeeded(), text: string_of(&chars_of(output.render())) }
    }
}

} // verus!
