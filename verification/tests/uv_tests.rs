use pyforge::uv::{outdated_mock, parse_outdated_output, parse_uv_version, uv_version_mock, UvError};

#[test]
fn parse_empty_output_returns_empty() {
    assert!(parse_outdated_output("").unwrap().is_empty());
    assert!(parse_outdated_output("\n").unwrap().is_empty());
}

#[test]
fn parse_header_only_returns_empty() {
    let output = "Package       Current  Latest\n";
    assert!(parse_outdated_output(output).unwrap().is_empty());
}

#[test]
fn parse_table_with_deps() {
    let output = "Package       Current  Latest\nfastapi       0.100.0  0.109.0\nuvicorn       0.23.0   0.27.0\n";
    let deps = parse_outdated_output(output).unwrap();
    assert_eq!(deps.len(), 2);
    assert_eq!(deps[0].name, "fastapi");
    assert_eq!(deps[0].current, "0.100.0");
    assert_eq!(deps[0].latest, "0.109.0");
    assert_eq!(deps[1].name, "uvicorn");
    assert_eq!(deps[1].current, "0.23.0");
    assert_eq!(deps[1].latest, "0.27.0");
}

#[test]
fn parse_malformed_line_returns_error() {
    let output = "Package       Current  Latest\nbad_line\n";
    let result = parse_outdated_output(output);
    assert!(result.is_err());
    match result.unwrap_err() {
        UvError::ParseError(_) => {}
        other => panic!("expected ParseError, got: {:?}", other),
    }
}

#[test]
fn parse_trailing_whitespace_handled() {
    let output = "Package       Current  Latest\nfastapi       0.100.0  0.109.0   \n";
    let deps = parse_outdated_output(output).unwrap();
    assert_eq!(deps.len(), 1);
    assert_eq!(deps[0].name, "fastapi");
}

#[test]
fn parse_mixed_blank_lines_handled() {
    let output = "\nPackage       Current  Latest\n\nfastapi       0.100.0  0.109.0\n\nuvicorn       0.23.0   0.27.0\n\n";
    let deps = parse_outdated_output(output).unwrap();
    assert_eq!(deps.len(), 2);
}

#[test]
fn parse_data_without_header() {
    let output = "fastapi       0.100.0  0.109.0\n";
    let deps = parse_outdated_output(output).unwrap();
    assert_eq!(deps.len(), 1);
    assert_eq!(deps[0].name, "fastapi");
}

#[test]
fn mock_outdated_empty_csv_returns_empty() {
    let result = outdated_mock("outdated:").unwrap();
    assert!(result.unwrap().is_empty());
}

#[test]
fn mock_outdated_entries_and_errors() {
    let deps = outdated_mock("outdated:requests:2.0:2.31,click:7.0:8.1").unwrap().unwrap();
    assert_eq!(deps.len(), 2);
    assert_eq!(deps[1].name, "click");
    assert_eq!(deps[1].latest, "8.1");
    match outdated_mock("outdated:broken").unwrap() {
        Err(UvError::ParseError(m)) => assert_eq!(m, "invalid mock data: broken"),
        other => panic!("expected ParseError, got: {:?}", other),
    }
    assert!(outdated_mock("outdated_clean").unwrap().unwrap().is_empty());
    assert!(matches!(outdated_mock("missing"), Some(Err(UvError::NotInstalled))));
    assert!(outdated_mock("something else").is_none());
}

#[test]
fn uv_version_text_is_read() {
    assert_eq!(parse_uv_version("uv 0.4.18 (7b55e9790 2024-10-01)\n"), "0.4.18");
    let v = uv_version_mock("success").unwrap();
    assert!(v.installed);
    assert_eq!(v.version, Some("0.6.0 (mock)".to_string()));
    let m = uv_version_mock("missing").unwrap();
    assert!(!m.installed);
    assert!(uv_version_mock("other").is_none());
}

#[test]
fn uv_errors_read_as_text() {
    assert_eq!(UvError::NotInstalled.to_string(), "uv 未安装");
    assert_eq!(UvError::InitFailed("x".into()).to_string(), "uv init 失败: x");
    assert!(matches!(UvError::from_io(true, "gone".into()), UvError::NotInstalled));
    assert_eq!(UvError::from_io(false, "denied".into()).to_string(), "uv 执行错误: denied");
}
