use vstd::prelude::*;
use crate::error::SpmError;
use crate::strutil::{is_prefix, push_char, str_has_prefix};

verus! {

#[verifier::external_type_specification]
#[verifier::external_body]
pub struct ExRepository(git2::Repository);

/// Mathematical model of one linked worktree.
pub ghost struct WorktreeView {
    pub name: Seq<char>,
    pub path: Seq<char>,
    pub branch: Option<Seq<char>>,
}

/// One linked worktree of a repository: its name, its checkout path and,
/// when it resolves, the symbolic name of its checked-out branch.
pub struct Worktree {
    pub name: String,
    pub path: String,
    pub branch: Option<String>,
}

impl View for Worktree {
    type V = WorktreeView;

    open spec fn view(&self) -> WorktreeView {
        WorktreeView {
            name: self.name@,
            path: self.path@,
            branch: match self.branch {
                Some(b) => Some(b@),
                None => None,
            },
        }
    }
}

impl Clone for Worktree {
    /// A clone carries the same name, path and branch.
    fn clone(&self) -> (r: Self)
        ensures
            r@ == self@,
    {
        Worktree {
            name: self.name.clone(),
            path: self.path.clone(),
            branch: match &self.branch {
                Some(b) => Some(b.clone()),
                None => None,
            },
        }
    }
}

/// A branch name with any leading `refs/heads/` dropped.
pub open spec fn sp_strip_heads(b: Seq<char>) -> Seq<char> {
    if is_prefix(b, "refs/heads/"@) {
        b.skip("refs/heads/"@.len() as int)
    } else {
        b
    }
}

/// How one worktree is rendered for selection: `name [branch]` with the
/// `refs/heads/` prefix stripped when the branch is known, else
/// `name (path)`.
pub open spec fn sp_worktree_display(w: WorktreeView) -> Seq<char> {
    match w.branch {
        Some(b) => w.name + seq![' ', '['] + sp_strip_heads(b) + seq![']'],
        None => w.name + seq![' ', '('] + w.path + seq![')'],
    }
}

/// Drops a leading `refs/heads/` from a branch name.
pub fn strip_heads(b: &str) -> (r: String)
    ensures
        r@ == sp_strip_heads(b@),
{
    if str_has_prefix(b, "refs/heads/") {
        let m = "refs/heads/".unicode_len();
        let n = b.unicode_len();
        let tail = b.substring_char(m, n);
        proof {
            assert(b@.subrange(m as int, n as int) =~= b@.skip("refs/heads/"@.len() as int));
        }
        tail.to_owned()
    } else {
        b.to_owned()
    }
}

impl Worktree {
    /// The selection-time display string for this worktree.
    pub fn display_string(&self) -> (r: String)
        ensures
            r@ == sp_worktree_display(self@),
    {
        let mut out = self.name.clone();
        match &self.branch {
            Some(b) => {
                push_char(&mut out, ' ');
                push_char(&mut out, '[');
                let stripped = strip_heads(b.as_str());
                out.append(stripped.as_str());
                push_char(&mut out, ']');
                proof {
                    assert(out@ =~= self@.name + seq![' ', '['] + sp_strip_heads(b@) + seq![']']);
                }
            },
            None => {
                push_char(&mut out, ' ');
                push_char(&mut out, '(');
                out.append(self.path.as_str());
                push_char(&mut out, ')');
                proof {
                    assert(out@ =~= self@.name + seq![' ', '('] + self@.path + seq![')']);
                }
            },
        }
        out
    }
}

/// Relies on git2's `Repository::open`: opens the repository at the
/// given path; any failure to open becomes `None`.
#[verifier::external_body]
fn repo_open(path: &str) -> Option<git2::Repository> {
    git2::Repository::open(path).ok()
}

/// Relies on git2's `Repository::discover`: walks upwards from the given
/// path to find a repository; any failure becomes `None`.
#[verifier::external_body]
fn repo_discover(path: &str) -> Option<git2::Repository> {
    git2::Repository::discover(path).ok()
}

/// Relies on git2's `Repository::is_bare`: whether the repository
/// reports itself as bare.
#[verifier::external_body]
fn repo_is_bare(repo: &git2::Repository) -> bool {
    repo.is_bare()
}

/// Relies on git2's `Repository::path`: the repository's own `.git`
/// directory, rendered as a string.
#[verifier::external_body]
fn repo_gitdir(repo: &git2::Repository) -> String {
    repo.path().to_string_lossy().into_owned()
}

/// Relies on git2's `Repository::workdir`: the repository's working
/// directory, when it has one, rendered as a string.
#[verifier::external_body]
fn repo_workdir(repo: &git2::Repository) -> Option<String> {
    repo.workdir().map(|p| p.to_string_lossy().into_owned())
}

/// Relies on git2's `Repository::worktrees`: the registered worktree
/// names; a name that is unreadable or not valid UTF-8 comes back as
/// `None`, and a failure of the listing itself as an outer `None`.
#[verifier::external_body]
fn repo_worktree_names(repo: &git2::Repository) -> Option<Vec<Option<String>>> {
    match repo.worktrees() {
        Ok(names) => Some(
            names.iter().map(
                |n| match n {
                    Ok(Some(s)) => Some(s.to_string()),
                    Ok(None) => None,
                    Err(_) => None,
                },
            ).collect(),
        ),
        Err(_) => None,
    }
}

/// Relies on git2's `Repository::find_worktree` and `Worktree::path`:
/// the checkout path of the named worktree, rendered as a string; any
/// failure becomes `None`.
#[verifier::external_body]
fn repo_worktree_path(repo: &git2::Repository, name: &str) -> Option<String> {
    match repo.find_worktree(name) {
        Ok(wt) => Some(wt.path().to_string_lossy().into_owned()),
        Err(_) => None,
    }
}

/// Relies on git2's `Repository::head` and `Reference::name`: the
/// symbolic name of the current HEAD, when it resolves and is valid
/// UTF-8.
#[verifier::external_body]
fn repo_head_name(repo: &git2::Repository) -> Option<String> {
    match repo.head() {
        Ok(h) => match h.name() {
            Ok(s) => Some(s.to_string()),
            Err(_) => None,
        },
        Err(_) => None,
    }
}

/// Whether the path opens as a repository that reports itself bare; any
/// open failure classifies as not bare. The answer depends on the state
/// of the filesystem.
pub fn is_bare_repo(path: &str) -> bool {
    match repo_open(path) {
        Some(repo) => repo_is_bare(&repo),
        None => false,
    }
}

/// The root a repository found from `path` should be entered at: the
/// working directory when there is one, else the repository's own
/// directory. Fails with `RepositoryError` exactly when no repository
/// is found.
pub fn get_repo_root(path: &str) -> (r: Result<String, SpmError>)
    ensures
        r is Err ==> r == Err::<String, SpmError>(SpmError::RepositoryError),
{
    match repo_discover(path) {
        None => Err(SpmError::RepositoryError),
        Some(repo) => {
            if repo_is_bare(&repo) {
                Ok(repo_gitdir(&repo))
            } else {
                match repo_workdir(&repo) {
                    Some(w) => Ok(w),
                    None => Ok(repo_gitdir(&repo)),
                }
            }
        },
    }
}

/// Enumerates the linked worktrees of the bare repository at the given
/// path, with each worktree's checked-out branch when it resolves. A
/// single unreadable worktree is skipped, never aborting the others;
/// the call fails, with `RepositoryError`, exactly when the bare
/// repository itself cannot be opened or its worktree list cannot be
/// read.
pub fn list_worktrees(bare_repo_path: &str) -> (r: Result<Vec<Worktree>, SpmError>)
    ensures
        r is Err ==> r == Err::<Vec<Worktree>, SpmError>(SpmError::RepositoryError),
{
    let repo = match repo_open(bare_repo_path) {
        None => {
            return Err(SpmError::RepositoryError);
        },
        Some(r) => r,
    };
    let names = match repo_worktree_names(&repo) {
        None => {
            return Err(SpmError::RepositoryError);
        },
        Some(n) => n,
    };
    let mut out: Vec<Worktree> = Vec::new();
    let mut i: usize = 0;
    while i < names.len()
        decreases names.len() - i,
    {
        match &names[i] {
            None => {},
            Some(name) => {
                match repo_worktree_path(&repo, name.as_str()) {
                    None => {},
                    Some(wt_path) => {
                        match repo_open(wt_path.as_str()) {
                            None => {},
                            Some(wtrepo) => {
                                let branch = repo_head_name(&wtrepo);
                                out.push(Worktree { name: name.clone(), path: wt_path, branch });
                            },
                        }
                    },
                }
            },
        }
        i += 1;
    }
    Ok(out)
}

} // verus!
