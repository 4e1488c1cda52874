use pyforge::deps::{aggregate_dependencies, extract_dep_name, parse_project_deps, DepInfo};

#[test]
fn extract_dep_name_pep508() {
    assert_eq!(extract_dep_name("requests>=2.28"), Some("requests".into()));
    assert_eq!(extract_dep_name("uvicorn[standard]"), Some("uvicorn".into()));
    assert_eq!(extract_dep_name("Django~=4.2"), Some("django".into()));
    assert_eq!(extract_dep_name("click !=8.0"), Some("click".into()));
    assert_eq!(extract_dep_name("my-package>=1.0"), Some("my-package".into()));
    assert_eq!(extract_dep_name("my_package>=1.0"), Some("my-package".into()));
}

#[test]
fn extract_dep_name_edge_cases() {
    assert_eq!(extract_dep_name(""), None);
    assert_eq!(extract_dep_name("# comment"), None);
    assert_eq!(extract_dep_name("-e ./local"), None);
    assert_eq!(extract_dep_name("requests @ https://example.com/pkg"), None);
    assert_eq!(extract_dep_name("mypkg ; python_version >= '3.8'"), Some("mypkg".into()));
}

#[test]
fn aggregation_groups_by_name() {
    let info = DepInfo { count: 3, projects: vec!["a".into(), "b".into(), "c".into()] };
    assert_eq!(info.count, 3);
    assert_eq!(info.projects.len(), 3);
}

#[test]
fn parse_project_deps_pep621() {
    let pyproject = r#"
[project]
name = "test-proj"
version = "0.1.0"
dependencies = [
    "requests>=2.28",
    "click>=8.0",
]
"#;
    let deps = parse_project_deps(pyproject);
    assert!(deps.contains(&"requests".to_string()));
    assert!(deps.contains(&"click".to_string()));
    assert_eq!(deps.len(), 2);
}

#[test]
fn parse_project_deps_poetry() {
    let pyproject = r#"
[tool.poetry]
name = "test-proj"

[tool.poetry.dependencies]
python = "^3.10"
requests = "^2.28"
click = ">=8.0"
"#;
    let deps = parse_project_deps(pyproject);
    assert!(deps.contains(&"requests".to_string()));
    assert!(deps.contains(&"click".to_string()));
    assert!(!deps.iter().any(|d| d == "python"));
}

#[test]
fn parse_project_deps_invalid_toml() {
    let deps = parse_project_deps("not valid toml [[[");
    assert!(deps.is_empty());
}

#[test]
fn parse_project_deps_sorted_and_unique() {
    let pyproject = r#"
[project]
dependencies = ["Zeta>=1", "alpha", "zeta==2"]

[project.optional-dependencies]
dev = ["pytest>=7", "alpha[extra]"]

[tool.poetry.extras]
docs = ["sphinx>=5"]
web = { flask = "*" }
"#;
    let deps = parse_project_deps(pyproject);
    assert_eq!(deps, vec!["alpha", "flask", "pytest", "sphinx", "zeta"]);
}

#[test]
fn aggregate_counts_and_orders_dependencies() {
    let projects = vec![
        ("web".to_string(), vec!["requests".to_string(), "flask".to_string(), "requests".to_string()]),
        ("cli".to_string(), vec!["click".to_string(), "requests".to_string()]),
        ("api".to_string(), vec!["flask".to_string()]),
    ];
    let agg = aggregate_dependencies(&projects);
    let names: Vec<&str> = agg.iter().map(|(n, _)| n.as_str()).collect();
    assert_eq!(names, vec!["flask", "requests", "click"]);
    assert_eq!(agg[0].1.count, 2);
    assert_eq!(agg[0].1.projects, vec!["api".to_string(), "web".to_string()]);
    assert_eq!(agg[1].1.count, 2);
    assert_eq!(agg[1].1.projects, vec!["cli".to_string(), "web".to_string()]);
    assert_eq!(agg[2].1.count, 1);
    assert_eq!(agg[2].1.projects, vec!["cli".to_string()]);
}

#[test]
fn dependency_aggregates_shared_deps() {
    let deps_a = parse_project_deps(
        r#"
[project]
name = "proj-a"
dependencies = ["requests>=2.28", "click>=8.0", "httpx>=0.24"]
"#,
    );
    let deps_b = parse_project_deps(
        r#"
[project]
name = "proj-b"
dependencies = ["requests>=2.28", "pydantic>=2.0"]
"#,
    );
    assert_eq!(deps_a.len(), 3);
    assert!(deps_a.contains(&"requests".to_string()));
    assert!(deps_a.contains(&"click".to_string()));
    assert!(deps_a.contains(&"httpx".to_string()));
    assert_eq!(deps_b.len(), 2);
    assert!(deps_b.contains(&"requests".to_string()));
    assert!(deps_b.contains(&"pydantic".to_string()));
    let agg = aggregate_dependencies(&vec![("proj-a".to_string(), deps_a), ("proj-b".to_string(), deps_b)]);
    let users = |name: &str| agg.iter().find(|(n, _)| n == name).map(|(_, d)| d.projects.len()).unwrap();
    assert_eq!(users("requests"), 2);
    assert_eq!(users("click"), 1);
    assert_eq!(users("httpx"), 1);
    assert_eq!(users("pydantic"), 1);
}

#[test]
fn dependency_handles_poetry_format() {
    let deps = parse_project_deps(
        r#"
[tool.poetry]
name = "poetry-proj"

[tool.poetry.dependencies]
python = "^3.10"
fastapi = "^0.100"
uvicorn = {version = "^0.23", extras = ["standard"]}
"#,
    );
    assert!(deps.contains(&"fastapi".to_string()));
    assert!(deps.contains(&"uvicorn".to_string()));
    assert!(!deps.iter().any(|d| d == "python"));
}

#[test]
fn dependency_handles_invalid_toml() {
    let deps = parse_project_deps("not valid toml [[[");
    assert!(deps.is_empty());
}

#[test]
fn dependency_deduplicates_within_project() {
    let deps = parse_project_deps(
        r#"
[project]
name = "dup-proj"
dependencies = ["requests>=2.28"]

[project.optional-dependencies]
dev = ["requests>=2.28", "pytest>=7.0"]
"#,
    );
    let requests_count = deps.iter().filter(|d| d.as_str() == "requests").count();
    assert_eq!(requests_count, 1);
    assert!(deps.contains(&"pytest".to_string()));
}

#[test]
fn dependency_optional_dependencies_parsed() {
    let deps = parse_project_deps(
        r#"
[project]
name = "extras-proj"
dependencies = ["requests>=2.28"]

[project.optional-dependencies]
dev = ["pytest>=7.0", "ruff>=0.1"]
docs = ["sphinx>=7.0"]
"#,
    );
    assert!(deps.contains(&"requests".to_string()));
    assert!(deps.contains(&"pytest".to_string()));
    assert!(deps.contains(&"ruff".to_string()));
    assert!(deps.contains(&"sphinx".to_string()));
}
