use apply_patch_mcp::path_expansion::{expand_with, PathEnvironment, VariableValue};

fn environment(home: Option<&str>, variables: &[(&str, &str)]) -> PathEnvironment {
    PathEnvironment {
        home: match home {
            Some(h) => VariableValue::Present(String::from(h)),
            None => VariableValue::Missing,
        },
        variables: variables
            .iter()
            .map(|(name, value)| (String::from(*name), VariableValue::Present(String::from(*value))))
            .collect(),
    }
}

#[test]
fn expands_unix_and_windows_variables() {
    let env = environment(None, &[("ROOT", "base"), ("LEAF", "dir"), ("FILE", "target.txt")]);
    let expanded = expand_with("$ROOT/${LEAF}/%FILE%", &env).unwrap();
    assert_eq!(expanded, "base/dir/target.txt");
}

#[test]
fn expands_home_prefix() {
    let expanded = expand_with("~/target.txt", &environment(Some("/home/user"), &[])).unwrap();
    assert_eq!(expanded, "/home/user/target.txt");
}

#[test]
fn expands_backslash_home_prefix() {
    let expanded = expand_with("~\\target.txt", &environment(Some("C:\\Users\\agent"), &[])).unwrap();
    assert_eq!(expanded, "C:\\Users\\agent\\target.txt");
}

#[test]
fn reports_missing_variable() {
    let error = expand_with("$MISSING/target.txt", &environment(None, &[])).unwrap_err();
    assert_eq!(
        error.to_message(),
        "environment variable 'MISSING' is not set in path '$MISSING/target.txt'"
    );
}

#[test]
fn leaves_literal_percent_text_unchanged() {
    let expanded = expand_with("100%/target.txt", &environment(None, &[])).unwrap();
    assert_eq!(expanded, "100%/target.txt");
}

#[test]
fn plain_path_is_unchanged() {
    assert_eq!(expand_with("/srv/a b/c.txt", &environment(None, &[])).unwrap(), "/srv/a b/c.txt");
}

#[test]
fn unterminated_brace_is_reported() {
    let error = expand_with("${ROOT/x", &environment(None, &[("ROOT", "r")])).unwrap_err();
    assert_eq!(error.to_message(), "unterminated braced environment variable in path '${ROOT/x'");
}

#[test]
fn missing_home_is_reported() {
    let error = expand_with("~/x", &environment(None, &[])).unwrap_err();
    assert_eq!(error.to_message(), "home directory is unavailable for path '~/x'");
}
