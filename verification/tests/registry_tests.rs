use spm::project::Project;
use spm::storage::Storage;
use spm::SpmError;

fn project(name: &str, path: &str, tags: &[&str]) -> Project {
    Project::new(name.to_string(), path.to_string(), false).with_tags(
        tags.iter().map(|t| t.to_string()).collect(),
    )
}

#[test]
fn test_add_then_find() {
    let mut storage = Storage::new();
    storage.add(project("a", "/p/a", &["x"])).unwrap();
    let by_name = storage.find_by_name("a").expect("found by name");
    assert_eq!(by_name.name, "a");
    assert_eq!(by_name.path, "/p/a");
    assert_eq!(by_name.tags, vec!["x".to_string()]);
    let by_path = storage.find_by_path("/p/a").expect("found by path");
    assert_eq!(by_path.name, "a");
}

#[test]
fn test_add_duplicate_name_fails_unchanged() {
    let mut storage = Storage::new();
    storage.add(project("a", "/p/a", &[])).unwrap();
    let r = storage.add(project("a", "/p/other", &[]));
    assert_eq!(r, Err(SpmError::DuplicateName));
    assert_eq!(storage.list().len(), 1);
    assert_eq!(storage.list()[0].path, "/p/a");
}

#[test]
fn test_add_duplicate_path_fails_unchanged() {
    let mut storage = Storage::new();
    storage.add(project("a", "/p/a", &[])).unwrap();
    let r = storage.add(project("b", "/p/a", &[]));
    assert_eq!(r, Err(SpmError::DuplicatePath));
    assert_eq!(storage.list().len(), 1);
    assert_eq!(storage.list()[0].name, "a");
}

#[test]
fn test_remove_missing_fails_unchanged() {
    let mut storage = Storage::new();
    storage.add(project("a", "/p/a", &[])).unwrap();
    let r = storage.remove("b");
    assert_eq!(r, Err(SpmError::NotFound));
    assert_eq!(storage.list().len(), 1);
}

#[test]
fn test_remove_all_on_empty() {
    let mut storage = Storage::new();
    storage.remove_all();
    assert!(storage.list().is_empty());
}

#[test]
fn test_list_filtered_or_semantics() {
    let mut storage = Storage::new();
    storage.add(project("a", "/p/a", &["x"])).unwrap();
    storage.add(project("b", "/p/b", &["y"])).unwrap();
    storage.add(project("c", "/p/c", &[])).unwrap();

    let all = storage.list_filtered(&[]);
    assert_eq!(all.len(), 3);

    let xs = storage.list_filtered(&["x".to_string()]);
    assert_eq!(xs.len(), 1);
    assert_eq!(xs[0].name, "a");

    let either = storage.list_filtered(&["x".to_string(), "y".to_string()]);
    assert_eq!(either.len(), 2);
    assert_eq!(either[0].name, "a");
    assert_eq!(either[1].name, "b");
}

#[test]
fn test_filter_then_remove_scenario() {
    let mut storage = Storage::new();
    storage.add(project("a", "/p/a", &["x"])).unwrap();
    storage.add(project("b", "/p/b", &[])).unwrap();

    let filtered = storage.list_filtered(&["x".to_string()]);
    assert_eq!(filtered.len(), 1);
    assert_eq!(filtered[0].name, "a");

    storage.remove("b").unwrap();
    let remaining = storage.list();
    assert_eq!(remaining.len(), 1);
    assert_eq!(remaining[0].name, "a");
}

#[test]
fn test_remove_all_filtered() {
    let mut storage = Storage::new();
    storage.add(project("a", "/p/a", &["x"])).unwrap();
    storage.add(project("b", "/p/b", &["y"])).unwrap();
    storage.add(project("c", "/p/c", &[])).unwrap();

    storage.remove_all_filtered(&["x".to_string()]);
    assert_eq!(storage.list().len(), 2);
    assert_eq!(storage.list()[0].name, "b");
    assert_eq!(storage.list()[1].name, "c");

    storage.remove_all_filtered(&[]);
    assert!(storage.list().is_empty());
}

#[test]
fn test_update_tags() {
    let mut storage = Storage::new();
    storage.add(project("a", "/p/a", &["x"])).unwrap();

    storage.update("a", &vec!["y".to_string(), "x".to_string()], false).unwrap();
    let p = storage.find_by_name("a").unwrap();
    assert_eq!(p.tags, vec!["x".to_string(), "y".to_string()]);

    storage.update("a", &vec!["x".to_string()], true).unwrap();
    let p = storage.find_by_name("a").unwrap();
    assert_eq!(p.tags, vec!["y".to_string()]);

    let r = storage.update("missing", &vec!["z".to_string()], false);
    assert_eq!(r, Err(SpmError::NotFound));
}

#[test]
fn test_storage_path() {
    assert_eq!(Storage::path("/home/u/.config/spm"), "/home/u/.config/spm/projects.json");
}
