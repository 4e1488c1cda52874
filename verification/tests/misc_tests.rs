use pyforge::cli::{init_exit_code, intermediate_dirs, mock_pyproject};
use pyforge::uv::{init_mock, uv_version_from_output};
use pyforge::index::sort_by_name;
use pyforge::system::bad_path_message;
use pyforge::web::open::{load_failure, open_failure};
use pyforge::agent::{confirmed, copy_needed, known_targets, parse_python_version, recent_projects, uv_status_text, SKILL_MD};
use pyforge::cli::{
    git_state, lang_pack_url, package_dir, project_status, repo_url, status_icon, track_name, uv_exit_code,
    validate_lang_code, validate_package_name, validate_project_name,
};
use pyforge::index::ProjectInfo;
use pyforge::output::{output_format, OutputFormat};
use pyforge::templates::{apply_vars, builtin_templates, render, RenderPlan, TemplateError};
use pyforge::uv::UvError;

#[test]
fn agent_targets_and_skill() {
    let t = known_targets();
    assert_eq!(t.len(), 2);
    assert_eq!(t[0].name, "Codex CLI");
    assert_eq!(t[0].dir, ".codex/skills");
    assert_eq!(t[1].filename, "pyforge.md");
    assert!(SKILL_MD.contains("Capabilities"));
    assert!(!copy_needed(Some(SKILL_MD)));
    assert!(copy_needed(Some("old")));
    assert!(copy_needed(None));
    assert!(confirmed(""));
    assert!(confirmed(" Y \n"));
    assert!(!confirmed("n"));
}

fn recent(name: &str, ts: Option<&str>) -> ProjectInfo {
    ProjectInfo {
        name: name.into(),
        path: format!("/p/{}", name),
        python_version: None,
        toolchain: None,
        git_remote: None,
        git_branch: None,
        git_status: None,
        deps_count: None,
        created_at: None,
        last_modified: ts.map(|t| t.to_string()),
        tags: vec![],
        description: None,
    }
}

#[test]
fn recent_projects_sorted_by_last_modified() {
    let ps = vec![recent("a", Some("2026-01-01")), recent("b", None), recent("c", Some("2026-03-01")), recent("d", Some("2026-01-01"))];
    let r = recent_projects(&ps);
    let names: Vec<&str> = r.iter().map(|p| p.name.as_str()).collect();
    assert_eq!(names, vec!["c", "a", "d", "b"]);
}

#[test]
fn recent_projects_truncated_to_5() {
    let ps: Vec<ProjectInfo> = (0..8).map(|i| recent(&format!("p{i}"), Some(&format!("2026-01-0{}", i + 1)))).collect();
    let r = recent_projects(&ps);
    assert_eq!(r.len(), 5);
    assert_eq!(r[0].name, "p7");
    assert_eq!(r[4].name, "p3");
}

#[test]
fn agent_info_texts() {
    assert_eq!(uv_status_text(false, &Some("1".into())), "not installed");
    assert_eq!(uv_status_text(true, &None), "unknown");
    assert_eq!(uv_status_text(true, &Some("0.6.0".into())), "0.6.0");
    assert_eq!(parse_python_version("Python 3.12.1\n"), "3.12.1");
    assert_eq!(parse_python_version("3.11"), "3.11");
}

#[test]
fn command_name_checks() {
    assert!(validate_lang_code("pt-BR").is_ok());
    assert_eq!(validate_lang_code(""), Err("invalid language code"));
    assert_eq!(validate_lang_code("../x"), Err("invalid language code"));
    assert_eq!(validate_lang_code("a?b"), Err("invalid language code"));
    assert!(validate_package_name("a.b.c").is_ok());
    assert_eq!(validate_package_name("a..b"), Err("invalid package name: a..b".to_string()));
    assert_eq!(validate_package_name("a/b"), Err("invalid package name: a/b".to_string()));
    assert!(validate_project_name("my-app").is_ok());
    assert_eq!(validate_project_name("../x"), Err("invalid project name"));
    assert_eq!(validate_project_name("c:x"), Err("invalid project name"));
    assert_eq!(package_dir("a.b.c", '/'), "a/b/c");
}

#[test]
fn small_decisions() {
    assert_eq!(track_name(Some("x".into()), Some("dir".into())), "x");
    assert_eq!(track_name(None, Some("dir".into())), "dir");
    assert_eq!(track_name(None, None), "unknown");
    assert_eq!(git_state(false, 3), "no_git");
    assert_eq!(git_state(true, 0), "clean");
    assert_eq!(git_state(true, 2), "dirty");
    assert_eq!(project_status(false, "clean"), "missing");
    assert_eq!(project_status(true, "dirty"), "dirty");
    assert_eq!(project_status(true, "no_git"), "ok");
    assert_eq!(status_icon("missing"), "[missing]");
    assert_eq!(status_icon("ok"), "[ok]");
    assert_eq!(repo_url(None), "https://raw.githubusercontent.com/pyforge/i18n-packs/main");
    assert_eq!(repo_url(Some("http://localhost:8080".into())), "http://localhost:8080");
    assert_eq!(lang_pack_url("http://h", "ja"), "http://h/ja.json");
    assert_eq!(uv_exit_code(&UvError::NotInstalled), 1);
    assert_eq!(uv_exit_code(&UvError::ParseError("x".into())), 2);
    assert_eq!(output_format(true), OutputFormat::Json);
    assert_eq!(output_format(false), OutputFormat::Plain);
}

#[test]
fn templates_are_chosen_and_filled() {
    assert_eq!(builtin_templates(), vec!["fastapi", "cli", "lib"]);
    assert_eq!(apply_vars("name = \"{{name}}\" {{name}}", "demo"), "name = \"demo\" demo");
    assert_eq!(apply_vars("print('{name}')", "demo"), "print('{name}')");
    match render("lib", "demo", false) {
        RenderPlan::Builtin { files, shadows_custom } => {
            assert_eq!(files, vec!["src/__init__.py".to_string(), "src/demo.py".to_string()]);
            assert!(!shadows_custom);
        }
        _ => panic!("expected a built-in plan"),
    }
    assert!(matches!(render("mine", "demo", true), RenderPlan::Custom));
    match render("nope", "demo", false) {
        RenderPlan::Unknown(e) => assert_eq!(e.to_string(), "未知模板: nope。可用模板: fastapi, cli, lib"),
        _ => panic!("expected an unknown template"),
    }
    assert_eq!(TemplateError::Io("x".into()).to_string(), "模板渲染失败: x");
}

#[test]
fn package_paths_and_new_project_texts() {
    assert_eq!(intermediate_dirs("a/b/c", '/'), vec!["a".to_string(), "a/b".to_string()]);
    assert!(intermediate_dirs("a", '/').is_empty());
    assert_eq!(mock_pyproject("demo"), "[project]\nname = \"demo\"\nversion = \"0.1.0\"\n");
    assert_eq!(init_exit_code(&UvError::NotInstalled), 1);
    assert_eq!(init_exit_code(&UvError::InitFailed("x".into())), 1);
    assert_eq!(init_exit_code(&UvError::Io("x".into())), 2);
}

#[test]
fn uv_stand_ins_and_outputs() {
    assert!(matches!(init_mock("success"), Some(Ok(()))));
    assert!(matches!(init_mock("missing"), Some(Err(UvError::NotInstalled))));
    match init_mock("fail") {
        Some(Err(UvError::InitFailed(m))) => assert_eq!(m, "mock failure"),
        _ => panic!("expected InitFailed"),
    }
    assert!(init_mock("outdated_clean").is_none());
    let v = uv_version_from_output(true, "uv 0.5.1\n");
    assert!(v.installed);
    assert_eq!(v.version, Some("0.5.1".to_string()));
    let none = uv_version_from_output(false, "uv 0.5.1");
    assert!(!none.installed);
    assert_eq!(none.version, None);
}

#[test]
fn list_is_ordered_by_name() {
    let ps = vec![recent("zeta", None), recent("Alpha", None), recent("beta", None)];
    let names: Vec<String> = sort_by_name(ps).into_iter().map(|p| p.name).collect();
    assert_eq!(names, vec!["Alpha", "beta", "zeta"]);
}

#[test]
fn open_replies() {
    let f = load_failure("disk");
    assert_eq!(f.status, 500);
    assert_eq!(f.body.error, "加载索引失败: disk");
    assert!(!f.body.success);
    let g = open_failure("打开目录失败".to_string());
    assert_eq!(g.status, 500);
    assert_eq!(g.body.error, "打开目录失败");
    assert_eq!(bad_path_message(), "项目路径包含无效字符");
}
