use vstd::prelude::*;
use crate::error::SpmError;
use crate::git::Worktree;
use crate::project::{Project, ProjectView};
use crate::strutil::{is_substring, str_contains};

verus! {

/// How the first selection stage proceeds: nothing to choose from, one
/// query match chosen outright, or an interactive prompt (optionally
/// pre-seeded with the query text).
pub enum PickPlan {
    NoProjects,
    Direct(Project),
    Prompt { initial_query: Option<String> },
}

/// The candidates whose name contains the query as a substring, in
/// order.
pub open spec fn sp_query_filtered(s: Seq<ProjectView>, q: Seq<char>) -> Seq<ProjectView>
    decreases s.len(),
{
    if s.len() == 0 {
        Seq::empty()
    } else if is_substring(s[0].name, q) {
        seq![s[0]] + sp_query_filtered(s.skip(1), q)
    } else {
        sp_query_filtered(s.skip(1), q)
    }
}

/// Decides the first selection stage. An empty candidate list is the
/// terminal `NoProjects` failure. With a query, a unique substring match
/// on the name is selected outright; several matches lead to a prompt
/// pre-seeded with the query; no match leads to an unseeded prompt, as
/// does having no query at all.
pub fn plan_selection(projects: &Vec<Project>, query: Option<&str>) -> (r: PickPlan)
    ensures
        (projects@.len() == 0 <==> r is NoProjects),
        projects@.len() > 0 && query is None ==> (r matches PickPlan::Prompt { initial_query }
            && initial_query is None),
        projects@.len() > 0 ==> match query {
            None => true,
            Some(q) => {
                let m = sp_query_filtered(projects@.map_values(|p: Project| p@), q@);
                &&& m.len() == 1 ==> (r matches PickPlan::Direct(p) && p@ == m[0])
                &&& m.len() > 1 ==> (r matches PickPlan::Prompt { initial_query } && (initial_query
                    matches Some(iq) && iq@ == q@))
                &&& m.len() == 0 ==> (r matches PickPlan::Prompt { initial_query } && initial_query
                    is None)
            },
        },
{
    if projects.len() == 0 {
        return PickPlan::NoProjects;
    }
    let q = match query {
        None => {
            return PickPlan::Prompt { initial_query: None };
        },
        Some(q) => q,
    };
    let ghost full = projects@.map_values(|p: Project| p@);
    let mut matched: Vec<Project> = Vec::new();
    let mut i: usize = 0;
    proof {
        assert(full.skip(0) =~= full);
        assert(matched@.map_values(|p: Project| p@) =~= Seq::<ProjectView>::empty());
        assert(Seq::<ProjectView>::empty() + sp_query_filtered(full, q@) =~= sp_query_filtered(
            full,
            q@,
        ));
    }
    while i < projects.len()
        invariant
            full == projects@.map_values(|p: Project| p@),
            i <= projects.len(),
            sp_query_filtered(full, q@) == matched@.map_values(|p: Project| p@)
                + sp_query_filtered(full.skip(i as int), q@),
        decreases projects.len() - i,
    {
        proof {
            assert(i < full.len());
            assert(full.skip(i as int)[0] == full[i as int]);
            assert(full.skip(i as int).skip(1) =~= full.skip(i + 1));
        }
        if str_contains(projects[i].name.as_str(), q) {
            let ghost before = matched@.map_values(|p: Project| p@);
            matched.push(projects[i].clone());
            proof {
                assert(matched@.map_values(|p: Project| p@) =~= before.push(full[i as int]));
                assert(before.push(full[i as int]) + sp_query_filtered(full.skip(i + 1), q@)
                    =~= before + (seq![full[i as int]] + sp_query_filtered(full.skip(i + 1), q@)));
            }
        }
        i += 1;
    }
    proof {
        assert(full.skip(i as int) =~= Seq::empty());
        assert(sp_query_filtered(full, q@) =~= matched@.map_values(|p: Project| p@));
    }
    if matched.len() == 1 {
        PickPlan::Direct(matched[0].clone())
    } else if matched.len() > 1 {
        PickPlan::Prompt { initial_query: Some(q.to_owned()) }
    } else {
        PickPlan::Prompt { initial_query: None }
    }
}

/// The three distinct outcomes of the skippable worktree prompt. Skip
/// accepts the project root as a default; cancel aborts the whole
/// command; the two must never collapse into one.
pub enum WorktreeChoice {
    Chosen(Worktree),
    Skipped,
    Cancelled,
}

/// Whether the second selection stage needs the skippable worktree
/// prompt: only for a bare project whose worktree listing succeeded and
/// is non-empty.
pub fn needs_worktree_prompt(project: &Project, listing: &Result<Vec<Worktree>, SpmError>) -> (r:
    bool)
    ensures
        r == (project@.is_bare_repo && (listing matches Ok(ws) && ws@.len() > 0)),
{
    if !project.is_bare_repo {
        return false;
    }
    match listing {
        Ok(ws) => ws.len() > 0,
        Err(_) => false,
    }
}

/// Decides the final resolved path. A non-bare project resolves to its
/// stored path; a bare one whose worktree listing failed or is empty
/// falls back to that same path; otherwise the prompt's outcome decides:
/// a chosen worktree's path, the project root on an explicit skip, and
/// the `SelectionCancelled` failure on a cancel.
pub fn resolve_path(
    project: &Project,
    listing: &Result<Vec<Worktree>, SpmError>,
    choice: Option<&WorktreeChoice>,
) -> (r: Result<String, SpmError>)
    requires
        (project@.is_bare_repo && (listing matches Ok(ws) && ws@.len() > 0)) <==> choice is Some,
    ensures
        !project@.is_bare_repo ==> (r matches Ok(p) && p@ == project@.path),
        project@.is_bare_repo && (listing is Err || (listing matches Ok(ws) && ws@.len() == 0))
            ==> (r matches Ok(p) && p@ == project@.path),
        choice matches Some(c) ==> match c {
            WorktreeChoice::Chosen(w) => (r matches Ok(p) && p@ == w@.path),
            WorktreeChoice::Skipped => (r matches Ok(p) && p@ == project@.path),
            WorktreeChoice::Cancelled => r == Err::<String, SpmError>(
                SpmError::SelectionCancelled,
            ),
        },
{
    if !project.is_bare_repo {
        return Ok(project.path.clone());
    }
    match choice {
        None => Ok(project.path.clone()),
        Some(c) => match c {
            WorktreeChoice::Chosen(w) => Ok(w.path.clone()),
            WorktreeChoice::Skipped => Ok(project.path.clone()),
            WorktreeChoice::Cancelled => Err(SpmError::SelectionCancelled),
        },
    }
}

} // verus!
