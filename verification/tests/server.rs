use apply_patch_mcp::command::PatchOutput;
use apply_patch_mcp::patch::ApplyResult;
use apply_patch_mcp::server::{ApplyPatchRequest, ToolReply};

#[test]
fn blank_patch_is_refused_before_it_runs() {
    let request = ApplyPatchRequest { patch: String::from(" \n\t") };
    assert_eq!(
        request.refusal(),
        Some(ToolReply { is_error: true, text: String::from("patch must not be empty") })
    );
    let request = ApplyPatchRequest { patch: String::from("*** Begin Patch") };
    assert_eq!(request.refusal(), None);
}

#[test]
fn reply_reports_failure_as_error() {
    let output: PatchOutput = PatchOutput::from_result(ApplyResult { output: String::from("<FAILED>"), succeeded: false });
    let reply = ToolReply::from_output(&output);
    assert!(reply.is_error);
    assert_eq!(reply.text, "<FAILED>");
    let output = PatchOutput::from_result(ApplyResult { output: String::from("<SUCCEEDED>"), succeeded: true });
    assert!(!ToolReply::from_output(&output).is_error);
}
