use spm::project::Project;
use spm::storage::Storage;
use spm::SpmError;

fn project(name: &str, path: &str, tags: &[&str], bare: bool, added_at: &str) -> Project {
    Project {
        name: name.to_string(),
        path: path.to_string(),
        tags: tags.iter().map(|t| t.to_string()).collect(),
        is_bare_repo: bare,
        added_at: added_at.to_string(),
    }
}

#[test]
fn test_to_json_empty() {
    let storage = Storage::new();
    assert_eq!(storage.to_json(), "[]");
}

#[test]
fn test_to_json_one_record() {
    let mut storage = Storage::new();
    storage.add(project("a", "/p/a", &["x"], false, "2024-01-01T00:00:00+00:00")).unwrap();
    assert_eq!(
        storage.to_json(),
        "[{\"name\":\"a\",\"path\":\"/p/a\",\"tags\":[\"x\"],\"is_bare_repo\":false,\
         \"added_at\":\"2024-01-01T00:00:00+00:00\"}]"
    );
}

#[test]
fn test_round_trip() {
    let mut storage = Storage::new();
    storage.add(project("a", "/p/a", &["x", "y"], true, "2024-01-01T00:00:00+00:00")).unwrap();
    storage.add(project("b \"q\"", "/p/b\\c", &[], false, "2025-06-30T12:34:56+00:00")).unwrap();

    let text = storage.to_json();
    let loaded = Storage::from_json(&text).expect("document parses back");

    let before = storage.list();
    let after = loaded.list();
    assert_eq!(before.len(), after.len());
    for (x, y) in before.iter().zip(after.iter()) {
        assert_eq!(x.name, y.name);
        assert_eq!(x.path, y.path);
        assert_eq!(x.tags, y.tags);
        assert_eq!(x.is_bare_repo, y.is_bare_repo);
        assert_eq!(x.added_at, y.added_at);
    }
}

#[test]
fn test_defaulted_fields_on_load() {
    let text = "[{\"name\":\"old\",\"path\":\"/p/old\",\"added_at\":\"2020-02-02T00:00:00+00:00\"}]";
    let loaded = Storage::from_json(text).expect("older document parses");
    let projects = loaded.list();
    assert_eq!(projects.len(), 1);
    assert_eq!(projects[0].name, "old");
    assert!(projects[0].tags.is_empty());
    assert!(!projects[0].is_bare_repo);
}

#[test]
fn test_load_empty_document() {
    let loaded = Storage::from_json("[]").expect("empty array parses");
    assert!(loaded.list().is_empty());
}

#[test]
fn test_corrupt_documents_rejected() {
    assert!(matches!(Storage::from_json(""), Err(SpmError::StorageCorrupt)));
    assert!(matches!(Storage::from_json("not json"), Err(SpmError::StorageCorrupt)));
    assert!(matches!(Storage::from_json("{\"name\":\"a\"}"), Err(SpmError::StorageCorrupt)));
    assert!(matches!(Storage::from_json("[]trailing"), Err(SpmError::StorageCorrupt)));
    assert!(matches!(
        Storage::from_json("[{\"name\":\"a\",\"path\":\"/p\"}]"),
        Err(SpmError::StorageCorrupt)
    ));
}

#[test]
fn test_escape_sequences_on_load() {
    let text = "[{\"name\":\"tab\\there\",\"path\":\"/p/\\\"q\\\"\",\
                \"added_at\":\"t\"}]";
    let loaded = Storage::from_json(text).expect("escapes parse");
    let projects = loaded.list();
    assert_eq!(projects[0].name, "tab\there");
    assert_eq!(projects[0].path, "/p/\"q\"");
}
