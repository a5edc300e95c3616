use spm::git::Worktree;
use spm::project::Project;
use spm::select::{needs_worktree_prompt, plan_selection, resolve_path, PickPlan, WorktreeChoice};
use spm::SpmError;

fn project(name: &str, path: &str, bare: bool) -> Project {
    Project::new(name.to_string(), path.to_string(), bare)
}

fn worktree(name: &str, path: &str, branch: Option<&str>) -> Worktree {
    Worktree { name: name.to_string(), path: path.to_string(), branch: branch.map(|b| b.to_string()) }
}

#[test]
fn test_plan_no_projects() {
    let projects: Vec<Project> = Vec::new();
    assert!(matches!(plan_selection(&projects, None), PickPlan::NoProjects));
    assert!(matches!(plan_selection(&projects, Some("q")), PickPlan::NoProjects));
}

#[test]
fn test_plan_unique_query_match() {
    let projects = vec![project("alpha", "/p/alpha", false), project("beta", "/p/beta", false)];
    match plan_selection(&projects, Some("alp")) {
        PickPlan::Direct(p) => assert_eq!(p.name, "alpha"),
        _ => panic!("expected a direct selection"),
    }
}

#[test]
fn test_plan_multiple_matches_seeds_prompt() {
    let projects = vec![project("alpha", "/p/alpha", false), project("alps", "/p/alps", false)];
    match plan_selection(&projects, Some("alp")) {
        PickPlan::Prompt { initial_query } => assert_eq!(initial_query, Some("alp".to_string())),
        _ => panic!("expected a prompt"),
    }
}

#[test]
fn test_plan_no_match_unseeded_prompt() {
    let projects = vec![project("alpha", "/p/alpha", false)];
    match plan_selection(&projects, Some("zzz")) {
        PickPlan::Prompt { initial_query } => assert_eq!(initial_query, None),
        _ => panic!("expected a prompt"),
    }
    match plan_selection(&projects, None) {
        PickPlan::Prompt { initial_query } => assert_eq!(initial_query, None),
        _ => panic!("expected a prompt"),
    }
}

#[test]
fn test_resolve_non_bare() {
    let p = project("a", "/p/a", false);
    let listing: Result<Vec<Worktree>, SpmError> = Ok(vec![worktree("w", "/w", None)]);
    assert!(!needs_worktree_prompt(&p, &listing));
    assert_eq!(resolve_path(&p, &listing, None), Ok("/p/a".to_string()));
}

#[test]
fn test_resolve_bare_listing_error_falls_back() {
    let p = project("a", "/p/a", true);
    let listing: Result<Vec<Worktree>, SpmError> = Err(SpmError::RepositoryError);
    assert!(!needs_worktree_prompt(&p, &listing));
    assert_eq!(resolve_path(&p, &listing, None), Ok("/p/a".to_string()));
}

#[test]
fn test_resolve_bare_empty_listing_falls_back() {
    let p = project("a", "/p/a", true);
    let listing: Result<Vec<Worktree>, SpmError> = Ok(Vec::new());
    assert!(!needs_worktree_prompt(&p, &listing));
    assert_eq!(resolve_path(&p, &listing, None), Ok("/p/a".to_string()));
}

#[test]
fn test_resolve_worktree_choices() {
    let p = project("a", "/p/a", true);
    let listing: Result<Vec<Worktree>, SpmError> = Ok(vec![worktree("feat", "/wt/feat", None)]);
    assert!(needs_worktree_prompt(&p, &listing));

    let chosen = WorktreeChoice::Chosen(worktree("feat", "/wt/feat", None));
    assert_eq!(resolve_path(&p, &listing, Some(&chosen)), Ok("/wt/feat".to_string()));

    let skipped = WorktreeChoice::Skipped;
    assert_eq!(resolve_path(&p, &listing, Some(&skipped)), Ok("/p/a".to_string()));

    let cancelled = WorktreeChoice::Cancelled;
    assert_eq!(resolve_path(&p, &listing, Some(&cancelled)), Err(SpmError::SelectionCancelled));
}

#[test]
fn test_worktree_display_strings() {
    let with_branch = worktree("feat", "/wt/feat", Some("refs/heads/feature-1"));
    assert_eq!(with_branch.display_string(), "feat [feature-1]");

    let without_branch = worktree("main", "/wt/main", None);
    assert_eq!(without_branch.display_string(), "main (/wt/main)");
}
