use apply_patch_mcp::config::Settings;
use apply_patch_mcp::locator::{
    candidate_path, candidate_paths, command_from_path, resolve, ApplyPatchCommand,
    CODEX_APPLY_PATCH_ARG,
};

#[test]
fn candidates_include_unmodified_name() {
    let candidate = candidate_path("bin", "apply-patch");
    assert_eq!(candidate, String::from("bin/apply-patch"));
}

#[test]
fn codex_from_path_gets_apply_patch_argument() {
    let command = command_from_path(String::from("bin/codex.exe"));
    assert_eq!(command.arguments, vec![String::from(CODEX_APPLY_PATCH_ARG)]);
}

#[test]
fn other_executables_get_no_argument() {
    assert!(command_from_path(String::from("/usr/bin/apply_patch")).arguments.is_empty());
    assert!(command_from_path(String::from("/usr/bin/codexx")).arguments.is_empty());
    assert_eq!(command_from_path(String::from("/opt/CODEX")).arguments.len(), 1);
    assert!(command_from_path(String::from("/opt/codex/..")).arguments.is_empty());
}

#[test]
fn absolute_names_replace_the_directory() {
    assert_eq!(candidate_path("bin/", "x"), "bin/x");
    assert_eq!(candidate_path("bin", "/x"), "/x");
    assert_eq!(candidate_path("", "x"), "x");
}

#[test]
fn candidates_are_tried_name_by_name() {
    let candidates = candidate_paths(&[String::from("/a"), String::from("/b")]);
    assert_eq!(candidates.len(), 12);
    assert_eq!(candidates[0], "/a/apply-patch.exe");
    assert_eq!(candidates[1], "/b/apply-patch.exe");
    assert_eq!(candidates[11], "/b/codex");
}

#[test]
fn configured_executable_is_preferred() {
    let settings = Settings { executable_path: Some(String::from("/opt/tool")), arguments: vec![String::from("run")] };
    assert_eq!(
        resolve(&settings, true, Some(String::from("/usr/bin/codex"))),
        Ok(ApplyPatchCommand::new(String::from("/opt/tool"), vec![String::from("run")]))
    );
    assert_eq!(
        resolve(&settings, false, None),
        Err(String::from("configured apply-patch executable does not exist: /opt/tool"))
    );
}

#[test]
fn executable_in_path_is_used_otherwise() {
    let settings = Settings { executable_path: None, arguments: Vec::new() };
    assert_eq!(
        resolve(&settings, false, Some(String::from("/usr/bin/codex"))),
        Ok(ApplyPatchCommand::new(String::from("/usr/bin/codex"), vec![String::from(CODEX_APPLY_PATCH_ARG)]))
    );
    assert_eq!(
        resolve(&settings, false, None),
        Err(String::from("apply-patch or codex executable was not found in config or PATH"))
    );
}
