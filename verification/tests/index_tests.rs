use pyforge::index::{too_large, IndexData, IndexError, IndexStore, JsonStore, ProjectInfo, StoreRead};

fn helper_project(name: &str) -> ProjectInfo {
    ProjectInfo {
        name: name.to_string(),
        path: format!("/tmp/{}", name),
        python_version: Some("3.12".into()),
        toolchain: Some("uv".into()),
        git_remote: None,
        git_branch: None,
        git_status: None,
        deps_count: Some(5),
        created_at: None,
        last_modified: None,
        tags: vec![],
        description: None,
    }
}

fn open_empty() -> JsonStore {
    JsonStore::load_or_create("/tmp/pyforge-test/projects.json".into(), StoreRead::Missing).unwrap()
}

#[test]
fn add_and_get_project() {
    let mut store = open_empty();
    store.add_project(helper_project("a")).unwrap();
    let p = store.get_project("a").unwrap();
    assert_eq!(p.name, "a");
    assert_eq!(p.python_version.unwrap(), "3.12");
}

#[test]
fn add_duplicate_returns_already_tracked() {
    let mut store = open_empty();
    store.add_project(helper_project("a")).unwrap();
    let err = store.add_project(helper_project("a")).unwrap_err();
    match err {
        IndexError::AlreadyTracked(name) => assert_eq!(name, "a"),
        _ => panic!("expected AlreadyTracked"),
    }
}

#[test]
fn remove_project() {
    let mut store = open_empty();
    store.add_project(helper_project("a")).unwrap();
    store.remove_project("a").unwrap();
    assert!(store.get_project("a").is_none());
}

#[test]
fn remove_nonexistent_returns_project_not_found() {
    let mut store = open_empty();
    let err = store.remove_project("noexist").unwrap_err();
    match err {
        IndexError::ProjectNotFound(name) => assert_eq!(name, "noexist"),
        _ => panic!("expected ProjectNotFound"),
    }
}

#[test]
fn list_projects() {
    let mut store = open_empty();
    store.add_project(helper_project("a")).unwrap();
    store.add_project(helper_project("b")).unwrap();
    let list = store.list_projects();
    assert_eq!(list.len(), 2);
}

#[test]
fn empty_index_on_nonexistent_file() {
    let store = open_empty();
    assert_eq!(store.list_projects().len(), 0);
    assert_eq!(store.data().version, "1.0");
    assert_eq!(store.path(), "/tmp/pyforge-test/projects.json");
}

#[test]
fn add_then_remove_restores_the_index() {
    let mut store = open_empty();
    store.add_project(helper_project("keep")).unwrap();
    store.add_project(helper_project("tmp")).unwrap();
    store.remove_project("tmp").unwrap();
    let list = store.list_projects();
    assert_eq!(list.len(), 1);
    assert_eq!(list[0].name, "keep");
    assert!(store.get_project("tmp").is_none());
}

#[test]
fn read_failures_become_errors() {
    match JsonStore::load_or_create("p".into(), StoreRead::Failed("denied".into())) {
        Err(IndexError::StoreError(m)) => assert_eq!(m, "denied"),
        _ => panic!("expected StoreError"),
    }
    match JsonStore::load_or_create("p".into(), StoreRead::TooLarge) {
        Err(IndexError::StoreError(m)) => assert_eq!(m, "索引文件过大，可能已损坏"),
        _ => panic!("expected StoreError"),
    }
    match JsonStore::load_or_create("p".into(), StoreRead::Invalid("bad json".into())) {
        Err(IndexError::SerializationError(m)) => assert_eq!(m, "bad json"),
        _ => panic!("expected SerializationError"),
    }
    assert!(too_large(10 * 1024 * 1024 + 1));
    assert!(!too_large(10 * 1024 * 1024));
}

#[test]
fn repeated_keys_keep_the_last_record() {
    let mut second = helper_project("a");
    second.path = "/elsewhere".into();
    let records = vec![
        ("a".to_string(), helper_project("a")),
        ("b".to_string(), helper_project("b")),
        ("a".to_string(), second),
    ];
    let data = IndexData::from_records("1.0".into(), records);
    assert_eq!(data.projects.len(), 2);
    let store = JsonStore::load_or_create("p".into(), StoreRead::Parsed("1.0".into(), data.projects)).unwrap();
    assert_eq!(store.get_project("a").unwrap().path, "/elsewhere");
    assert_eq!(store.list_projects().len(), 2);
}

#[test]
fn index_errors_read_as_text() {
    assert_eq!(IndexError::ProjectNotFound("x".into()).to_string(), "项目 'x' 不在索引中");
    assert_eq!(IndexError::AlreadyTracked("x".into()).to_string(), "项目 'x' 已在索引中");
    assert_eq!(IndexError::StoreError("io".into()).to_string(), "存储错误: io");
    assert_eq!(IndexError::SerializationError("e".into()).to_string(), "序列化错误: e");
}
