use apply_patch_mcp::config::Settings;

#[test]
fn normalized_removes_empty_path_and_arguments() {
    let settings = Settings {
        executable_path: Some(String::new()),
        arguments: vec![String::new(), String::from("run")],
    };
    assert_eq!(
        settings.normalized(),
        Settings { executable_path: None, arguments: vec![String::from("run")] }
    );
}

#[test]
fn normalization_keeps_meaningful_values_in_order() {
    let settings = Settings {
        executable_path: Some(String::from("/opt/tool")),
        arguments: vec![String::from("a"), String::new(), String::from("b"), String::new()],
    };
    let once = settings.normalized();
    assert_eq!(once, Settings { executable_path: Some(String::from("/opt/tool")), arguments: vec![String::from("a"), String::from("b")] });
    assert_eq!(once.clone().normalized(), once);
}

#[test]
fn default_settings_are_empty() {
    let settings = Settings::default();
    assert_eq!(settings.executable_path, None);
    assert!(settings.arguments.is_empty());
}
