use pyforge::detector::{detect, detect_toolchain, parse_python_requires, Confidence, ProjectFiles};
use pyforge::scanner::{
    is_py_file, is_python_project, scan_result, should_skip, sort_results, within_depth, DirFacts, ScanResult, ScanWalk,
};
use std::collections::HashMap;

fn files(pyproject: bool, setup_py: bool, uv_lock: bool) -> ProjectFiles {
    ProjectFiles { pyproject_toml: pyproject, setup_py, setup_cfg: false, uv_lock, poetry_lock: false }
}

#[test]
fn high_confidence_for_pyproject() {
    let d = detect(&files(true, false, false), Some("[project]\nname = \"test\"\nrequires-python = \">=3.10\"\n"));
    assert_eq!(d.confidence, Confidence::High);
    assert_eq!(d.python_version.unwrap(), ">=3.10");
}

#[test]
fn medium_confidence_for_setup_py() {
    let d = detect(&files(false, true, false), None);
    assert_eq!(d.confidence, Confidence::Medium);
    assert_eq!(d.toolchain, Some("setuptools".to_string()));
}

#[test]
fn uv_toolchain_detected() {
    let d = detect(&files(true, false, true), Some(""));
    assert_eq!(d.toolchain.unwrap(), "uv");
}

#[test]
fn python_requires_forms() {
    assert_eq!(parse_python_requires("requires-python = '>=3.9'\n"), Some(">=3.9".to_string()));
    assert_eq!(parse_python_requires("  requires-python=\">=3.8,<4\"  \r\n"), Some(">=3.8,<4".to_string()));
    assert_eq!(parse_python_requires("requires-python = \"\"\nrequires-python = \"3.11\""), Some("3.11".to_string()));
    assert_eq!(parse_python_requires("name = \"x\"\n"), None);
    let none = ProjectFiles { pyproject_toml: false, setup_py: false, setup_cfg: false, uv_lock: false, poetry_lock: false };
    assert_eq!(detect_toolchain(&none), None);
    let poetry = ProjectFiles { poetry_lock: true, ..none };
    assert_eq!(detect_toolchain(&poetry), Some("poetry".to_string()));
}

#[test]
fn skip_names() {
    for n in [".git", "node_modules", "target", "__pycache__", ".venv", "venv"] {
        assert!(should_skip(Some(n)));
    }
    assert!(!should_skip(Some("src")));
    assert!(!should_skip(None));
}

#[test]
fn depth_limit_check() {
    assert!(within_depth(1, Some(1)));
    assert!(!within_depth(2, Some(1)));
    assert!(within_depth(100, None));
}

#[test]
fn recognises_projects() {
    assert!(is_python_project(&files(true, false, false), false));
    assert!(is_python_project(&files(false, false, false), true));
    assert!(!is_python_project(&files(false, false, true), false));
    assert!(is_py_file("main.py"));
    assert!(!is_py_file(".py"));
    assert!(!is_py_file("main.pyc"));
}

#[test]
fn results_sorted_by_path_components() {
    let mk = |p: &str| scan_result(p.rsplit('/').next().unwrap().to_string(), p.to_string(), detect(&files(true, false, false), None));
    let sorted = sort_results(vec![mk("/root/a-b"), mk("/root/a/c"), mk("/root/B"), mk("/root/a")]);
    let paths: Vec<&str> = sorted.iter().map(|r| r.path.as_str()).collect();
    assert_eq!(paths, vec!["/root/B", "/root/a", "/root/a/c", "/root/a-b"]);
}

/// A directory tree in memory: each directory's marker files, `.py` flag,
/// `pyproject.toml` text and children.
struct Tree {
    dirs: HashMap<String, (ProjectFiles, bool, Option<String>, Vec<String>)>,
}

impl Tree {
    fn new() -> Tree {
        Tree { dirs: HashMap::new() }
    }

    fn dir(&mut self, path: &str) {
        let none = ProjectFiles { pyproject_toml: false, setup_py: false, setup_cfg: false, uv_lock: false, poetry_lock: false };
        self.dirs.entry(path.to_string()).or_insert((none, false, None, vec![]));
        if let Some((parent, _)) = path.rsplit_once('/') {
            if !parent.is_empty() {
                self.dir(parent);
                let kids = &mut self.dirs.get_mut(parent).unwrap().3;
                if !kids.contains(&path.to_string()) {
                    kids.push(path.to_string());
                }
            }
        }
    }

    fn pyproject(&mut self, path: &str, text: &str) {
        self.dir(path);
        let d = self.dirs.get_mut(path).unwrap();
        d.0.pyproject_toml = true;
        d.2 = Some(text.to_string());
    }

    fn scan(&self, root: &str, depth: Option<usize>) -> Vec<ScanResult> {
        let name = root.rsplit('/').next().map(|s| s.to_string());
        let mut walk = ScanWalk::new(root.to_string(), name, depth);
        while let Some(task) = walk.next_dir() {
            let (files, has_py, text, kids) = self.dirs.get(&task.path).unwrap();
            let subdirs = kids.iter().map(|k| (k.clone(), k.rsplit('/').next().map(|s| s.to_string()))).collect();
            walk.visit(task, DirFacts { files: *files, has_py_file: *has_py, pyproject: text.clone(), subdirs });
        }
        walk.finish()
    }
}

#[test]
fn finds_pyproject_projects() {
    let mut t = Tree::new();
    t.dir("/tmp/root");
    for i in 0..5 {
        t.pyproject(&format!("/tmp/root/p{i}"), "[project]\n");
    }
    let found = t.scan("/tmp/root", None);
    assert_eq!(found.len(), 5);
    assert!(found.iter().all(|p| p.confidence == Confidence::High));
    assert_eq!(found[0].name, "p0");
    assert_eq!(found[4].path, "/tmp/root/p4");
}

#[test]
fn detects_mixed_confidence() {
    let mut t = Tree::new();
    t.pyproject("/tmp/root/high", "[project]\n");
    t.dir("/tmp/root/med");
    t.dirs.get_mut("/tmp/root/med").unwrap().0.setup_py = true;
    t.dir("/tmp/root/low");
    t.dirs.get_mut("/tmp/root/low").unwrap().1 = true;
    let found = t.scan("/tmp/root", None);
    assert_eq!(found.len(), 3);
    assert!(found.iter().any(|p| p.confidence == Confidence::High));
    assert!(found.iter().any(|p| p.confidence == Confidence::Medium));
    assert!(found.iter().any(|p| p.confidence == Confidence::Low));
}

#[test]
fn honors_depth_limit() {
    let mut t = Tree::new();
    t.pyproject("/tmp/root/a/b/c", "[project]\n");
    assert_eq!(t.scan("/tmp/root", Some(2)).len(), 0);
    assert_eq!(t.scan("/tmp/root", Some(3)).len(), 1);
}

#[test]
fn skips_noise_dirs() {
    let mut t = Tree::new();
    t.pyproject("/tmp/root/target/p", "[project]\n");
    assert_eq!(t.scan("/tmp/root", None).len(), 0);
}

#[test]
fn scan_stops_at_projects_and_reads_versions() {
    let mut t = Tree::new();
    t.pyproject("/tmp/root/outer", "requires-python = \">=3.11\"\n");
    t.pyproject("/tmp/root/outer/inner", "[project]\n");
    let found = t.scan("/tmp/root", None);
    assert_eq!(found.len(), 1);
    assert_eq!(found[0].name, "outer");
    assert_eq!(found[0].python_version, Some(">=3.11".to_string()));
    assert_eq!(found[0].toolchain, Some("unknown".to_string()));
}
