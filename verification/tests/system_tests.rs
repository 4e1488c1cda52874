use pyforge::system::OpenAction;

#[test]
fn open_action_from_str_valid() {
    assert_eq!(OpenAction::from_str("dir"), Some(OpenAction::Dir));
    assert_eq!(OpenAction::from_str("terminal"), Some(OpenAction::Terminal));
    assert_eq!(OpenAction::from_str("vscode"), Some(OpenAction::VsCode));
}

#[test]
fn open_action_from_str_invalid() {
    assert_eq!(OpenAction::from_str("rm"), None);
    assert_eq!(OpenAction::from_str("exec"), None);
    assert_eq!(OpenAction::from_str(""), None);
    assert_eq!(OpenAction::from_str("Dir"), None);
    assert_eq!(OpenAction::from_str("../../../etc/passwd"), None);
}

#[test]
fn open_action_whitelist_completeness() {
    let valid = ["dir", "terminal", "vscode"];
    for a in &valid {
        assert!(OpenAction::from_str(a).is_some(), "{} should be valid", a);
    }
}
