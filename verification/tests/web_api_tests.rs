use pyforge::dates::{days_since_epoch, epoch_secs_to_iso8601, is_leap_year, is_recent, parse_iso8601_to_secs};
use pyforge::index::{IndexData, JsonStore, ProjectInfo, StoreRead};
use pyforge::web::open::{
    check_open_request, find_open_target, is_valid_project_name, missing_dir_failure, opened, OpenRequest,
};
use pyforge::web::projects::{filter_projects, ProjectCard, ProjectsQuery};
use pyforge::web::stats::compute_stats;
use pyforge::system::OpenAction;

fn project(name: &str, path: &str, py: &str, tool: Option<&str>, git: Option<&str>, deps: u64) -> ProjectInfo {
    ProjectInfo {
        name: name.into(),
        path: path.into(),
        python_version: Some(py.into()),
        toolchain: tool.map(|t| t.to_string()),
        git_remote: None,
        git_branch: None,
        git_status: git.map(|g| g.to_string()),
        deps_count: Some(deps),
        created_at: None,
        last_modified: None,
        tags: vec![],
        description: None,
    }
}

fn mock_projects() -> Vec<ProjectInfo> {
    let mut a = project("fastapi-app", "/home/user/fastapi-app", "3.12", Some("uv"), Some("clean"), 15);
    a.git_branch = Some("main".into());
    let mut b = project("django-site", "/home/user/django-site", "3.11", Some("pip"), Some("dirty"), 20);
    b.git_branch = Some("develop".into());
    let c = project("my-uv-tool", "/home/user/my-uv-tool", "3.12", Some("uv"), None, 3);
    vec![a, b, c]
}

fn query(q: Option<&str>, t: Option<&str>) -> ProjectsQuery {
    ProjectsQuery { q: q.map(|s| s.to_string()), toolchain: t.map(|s| s.to_string()) }
}

#[test]
fn valid_project_names() {
    assert!(is_valid_project_name("my-project"));
    assert!(is_valid_project_name("fastapi_app"));
    assert!(is_valid_project_name("project.v2"));
    assert!(is_valid_project_name("a"));
}

#[test]
fn invalid_project_names() {
    assert!(!is_valid_project_name(""));
    assert!(!is_valid_project_name("../etc/passwd"));
    assert!(!is_valid_project_name("name; rm -rf /"));
    assert!(!is_valid_project_name("name$(whoami)"));
    assert!(!is_valid_project_name("name|pipe"));
    assert!(!is_valid_project_name("name with spaces"));
    assert!(!is_valid_project_name("name/slash"));
}

#[test]
fn project_name_length_limit() {
    let long_name = "a".repeat(257);
    assert!(!is_valid_project_name(&long_name));
    let max_name = "a".repeat(256);
    assert!(is_valid_project_name(&max_name));
}

#[test]
fn project_name_counts_bytes_and_accepts_letters() {
    assert!(is_valid_project_name("项目"));
    assert!(is_valid_project_name(&"项".repeat(85)));
    assert!(!is_valid_project_name(&"项".repeat(86)));
}

#[test]
fn project_card_from_project_info() {
    let projects = mock_projects();
    let card = ProjectCard::from(&projects[0]);
    assert_eq!(card.name, "fastapi-app");
    assert_eq!(card.path, "/home/user/fastapi-app");
    assert_eq!(card.python_version, Some("3.12".into()));
    assert_eq!(card.toolchain, Some("uv".into()));
    assert_eq!(card.git_status, Some("clean".into()));
}

#[test]
fn filter_by_q_name_match() {
    let filtered = filter_projects(&mock_projects(), &query(Some("fastapi"), None));
    assert_eq!(filtered.len(), 1);
    assert_eq!(filtered[0].name, "fastapi-app");
}

#[test]
fn filter_by_q_path_match() {
    let filtered = filter_projects(&mock_projects(), &query(Some("django"), None));
    assert_eq!(filtered.len(), 1);
    assert_eq!(filtered[0].name, "django-site");
}

#[test]
fn filter_by_toolchain() {
    let filtered = filter_projects(&mock_projects(), &query(None, Some("uv")));
    assert_eq!(filtered.len(), 2);
    assert!(filtered.iter().all(|p| p.toolchain.as_deref() == Some("uv")));
}

#[test]
fn filter_by_q_and_toolchain_combined() {
    let filtered = filter_projects(&mock_projects(), &query(Some("fast"), Some("uv")));
    assert_eq!(filtered.len(), 1);
    assert_eq!(filtered[0].name, "fastapi-app");
}

#[test]
fn no_filter_returns_all() {
    let projects = mock_projects();
    assert_eq!(projects.len(), 3);
    assert_eq!(filter_projects(&projects, &query(None, None)).len(), 3);
}

#[test]
fn filter_ignores_case() {
    let filtered = filter_projects(&mock_projects(), &query(Some("DJANGO"), None));
    assert_eq!(filtered.len(), 1);
    assert_eq!(filter_projects(&mock_projects(), &query(Some("home"), Some("UV"))).len(), 0);
}

#[test]
fn is_recent_with_unix_timestamp() {
    let now = "1000000000";
    let old = "999000000";
    let very_recent = "999999900";
    assert!(!is_recent(old, now, 7));
    assert!(is_recent(very_recent, now, 7));
}

#[test]
fn is_recent_with_iso8601() {
    let now = "1767225600";
    let recent = "2025-12-30";
    let old = "2025-12-01";
    assert!(is_recent(recent, now, 7));
    assert!(!is_recent(old, now, 7));
}

#[test]
fn parse_iso8601_date() {
    let secs = parse_iso8601_to_secs("2026-01-15").unwrap();
    assert!(secs > 1_700_000_000);
}

#[test]
fn days_since_epoch_basic() {
    assert_eq!(days_since_epoch(1970, 1, 1), Some(0));
    assert_eq!(days_since_epoch(1970, 1, 2), Some(1));
    assert_eq!(days_since_epoch(1971, 1, 1), Some(365));
}

#[test]
fn is_leap_year_check() {
    assert!(is_leap_year(2024));
    assert!(!is_leap_year(2023));
    assert!(is_leap_year(2000));
    assert!(!is_leap_year(1900));
}

#[test]
fn iso8601_round_trip_on_a_date() {
    let text = epoch_secs_to_iso8601(1_767_225_600 + 3_723);
    assert_eq!(text, "2026-01-01T01:02:03Z");
    assert_eq!(parse_iso8601_to_secs(&text), Some(1_767_225_600));
    assert_eq!(epoch_secs_to_iso8601(0), "1970-01-01T00:00:00Z");
    assert_eq!(epoch_secs_to_iso8601(951_782_400), "2000-02-29T00:00:00Z");
}

#[test]
fn dates_reject_bad_input() {
    assert_eq!(days_since_epoch(2024, 13, 1), None);
    assert_eq!(days_since_epoch(2024, 1, 0), None);
    assert_eq!(parse_iso8601_to_secs("2024/01/01"), None);
    assert!(!is_recent("yesterday", "1000", 7));
}

#[test]
fn stats_count_and_order_recent_projects() {
    let mut ps = mock_projects();
    ps[0].last_modified = Some("999999000".into());
    ps[1].last_modified = Some("1000000000".into());
    ps[2].last_modified = Some("100".into());
    ps[2].python_version = None;
    let stats = compute_stats(&ps, "1000000000");
    assert_eq!(stats.total, 3);
    let count = |v: &Vec<(String, usize)>, k: &str| v.iter().find(|(n, _)| n == k).map(|(_, c)| *c);
    assert_eq!(count(&stats.by_python_version, "3.12"), Some(1));
    assert_eq!(count(&stats.by_python_version, "3.11"), Some(1));
    assert_eq!(count(&stats.by_python_version, "unknown"), Some(1));
    assert_eq!(count(&stats.by_toolchain, "uv"), Some(2));
    assert_eq!(count(&stats.by_toolchain, "pip"), Some(1));
    assert_eq!(stats.by_toolchain.len(), 2);
    let sum = |v: &Vec<(String, usize)>| v.iter().map(|(_, c)| *c).sum::<usize>();
    assert_eq!(sum(&stats.by_python_version), stats.total);
    assert_eq!(sum(&stats.by_toolchain), stats.total);
    let names: Vec<&str> = stats.recent_active.iter().map(|a| a.name.as_str()).collect();
    assert_eq!(names, vec!["fastapi-app", "django-site"]);
}

#[test]
fn open_requests_are_checked() {
    let req = OpenRequest { action: "rm".into(), project: "x".into() };
    let f = check_open_request(&req).unwrap_err();
    assert_eq!(f.status, 400);
    assert_eq!(f.body.error, "不支持的操作: 'rm'。允许的值: dir, terminal, vscode");
    let req = OpenRequest { action: "dir".into(), project: "a b".into() };
    let f = check_open_request(&req).unwrap_err();
    assert_eq!(f.status, 400);
    assert_eq!(f.body.error, "项目名称包含非法字符");
    let req = OpenRequest { action: "vscode".into(), project: "fastapi-app".into() };
    assert_eq!(check_open_request(&req).unwrap(), OpenAction::VsCode);
}

#[test]
fn open_targets_come_from_the_index() {
    let records: Vec<(String, ProjectInfo)> =
        mock_projects().into_iter().map(|p| (p.name.clone(), p)).collect();
    let store = JsonStore::load_or_create(
        "/tmp/projects.json".into(),
        StoreRead::Parsed("1.0".into(), records),
    )
    .unwrap();
    let req = OpenRequest { action: "dir".into(), project: "django-site".into() };
    let p = find_open_target(&store, &req).unwrap();
    assert_eq!(p.path, "/home/user/django-site");
    let req = OpenRequest { action: "dir".into(), project: "ghost".into() };
    let f = find_open_target(&store, &req).unwrap_err();
    assert_eq!(f.status, 404);
    assert_eq!(f.body.error, "项目不存在: ghost");
    assert_eq!(missing_dir_failure("/x").body.error, "项目目录不存在: /x");
    assert_eq!(opened(&req, "/p").message, "已打开 dir: /p");
    let _ = IndexData::empty();
}

#[test]
fn date_cut_needs_a_char_boundary() {
    assert!(pyforge::dates::date_cut_allowed("2026-01-01T00:00:00Z"));
    assert!(pyforge::dates::date_cut_allowed("短"));
    assert!(!pyforge::dates::date_cut_allowed("2026-01-0日"));
}

#[test]
fn iso8601_names_the_date_and_time() {
    let days = days_since_epoch(2024, 2, 29).unwrap();
    assert_eq!(epoch_secs_to_iso8601(days * 86400 + 23 * 3600 + 59 * 60 + 58), "2024-02-29T23:59:58Z");
    let days = days_since_epoch(1999, 12, 31).unwrap();
    assert_eq!(epoch_secs_to_iso8601(days * 86400), "1999-12-31T00:00:00Z");
}
