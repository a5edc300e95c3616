use spm::project::{default_name_for_path, Project};

fn sample_project() -> Project {
    Project::new("test-project".to_string(), "/tmp/test".to_string(), false)
}

#[test]
fn test_project_creation() {
    let project = sample_project();
    assert_eq!(project.name, "test-project");
    assert_eq!(project.path, "/tmp/test");
    assert!(!project.is_bare_repo);
    assert!(project.tags.is_empty());
}

#[test]
fn test_with_tags() {
    let project = sample_project().with_tags(vec!["rust".to_string(), "cli".to_string()]);
    assert_eq!(project.tags.len(), 2);
    assert!(project.tags.contains(&"rust".to_string()));
}

#[test]
fn test_add_tag() {
    let mut project = sample_project();
    project.add_tag("new-tag".to_string());
    assert!(project.has_tag("new-tag"));

    project.add_tag("new-tag".to_string());
    assert_eq!(project.tags.len(), 1);
}

#[test]
fn test_remove_tag() {
    let mut project = sample_project().with_tags(vec!["a".to_string(), "b".to_string()]);
    project.remove_tag("a");
    assert!(!project.has_tag("a"));
    assert!(project.has_tag("b"));
}

#[test]
fn test_has_any_tag() {
    let project = sample_project().with_tags(vec!["rust".to_string(), "cli".to_string()]);
    assert!(project.has_any_tag(&["rust".to_string()]));
    assert!(project.has_any_tag(&["python".to_string(), "cli".to_string()]));
    assert!(!project.has_any_tag(&["python".to_string(), "js".to_string()]));
}

#[test]
fn test_default_name_for_path() {
    assert_eq!(default_name_for_path("/home/user/projects/spm"), "spm");
    assert_eq!(default_name_for_path("spm"), "spm");
    assert_eq!(default_name_for_path("/"), "unknown");
    assert_eq!(default_name_for_path(""), "unknown");
}

#[test]
fn test_display_line() {
    let plain = sample_project();
    assert_eq!(plain.display_line(), "test-project - /tmp/test");

    let tagged = Project::new("web".to_string(), "/srv/web".to_string(), true).with_tags(vec![
        "rust".to_string(),
        "cli".to_string(),
    ]);
    assert_eq!(tagged.display_line(), "web (bare) - /srv/web [rust, cli]");
}
