use vstd::prelude::*;
use crate::codec::{enc_registry, px_registry, registry_json, sp_parse_registry};
use crate::error::SpmError;
use crate::project::{Project, ProjectView, sp_add_tag, sp_has_any_tag, sp_remove_tag};
use crate::strutil::str_eq;

verus! {

/// The registry: the ordered collection of tracked projects.
pub struct Storage {
    projects: Vec<Project>,
}

impl View for Storage {
    type V = Seq<ProjectView>;

    closed spec fn view(&self) -> Seq<ProjectView> {
        self.projects@.map_values(|p: Project| p@)
    }
}

/// First-match lookup by project name.
pub open spec fn sp_find_by_name(s: Seq<ProjectView>, name: Seq<char>) -> Option<ProjectView>
    decreases s.len(),
{
    if s.len() == 0 {
        None
    } else if s[0].name == name {
        Some(s[0])
    } else {
        sp_find_by_name(s.skip(1), name)
    }
}

/// First-match lookup by canonical path.
pub open spec fn sp_find_by_path(s: Seq<ProjectView>, path: Seq<char>) -> Option<ProjectView>
    decreases s.len(),
{
    if s.len() == 0 {
        None
    } else if s[0].path == path {
        Some(s[0])
    } else {
        sp_find_by_path(s.skip(1), path)
    }
}

/// Some project in the registry carries this name.
pub open spec fn sp_has_name(s: Seq<ProjectView>, name: Seq<char>) -> bool {
    exists|i: int| 0 <= i < s.len() && s[i].name == name
}

/// Some project in the registry sits at this path.
pub open spec fn sp_has_path(s: Seq<ProjectView>, path: Seq<char>) -> bool {
    exists|i: int| 0 <= i < s.len() && s[i].path == path
}

/// The index of the first project with this name.
pub open spec fn sp_first_name_index(s: Seq<ProjectView>, name: Seq<char>) -> int
    decreases s.len(),
{
    if s.len() == 0 {
        0
    } else if s[0].name == name {
        0
    } else {
        1 + sp_first_name_index(s.skip(1), name)
    }
}

/// What removing a name does to the registry: every project with that
/// exact name is dropped, order otherwise kept.
pub open spec fn sp_remove_name(s: Seq<ProjectView>, name: Seq<char>) -> Seq<ProjectView>
    decreases s.len(),
{
    if s.len() == 0 {
        Seq::empty()
    } else if s[0].name == name {
        sp_remove_name(s.skip(1), name)
    } else {
        seq![s[0]] + sp_remove_name(s.skip(1), name)
    }
}

/// The listing filter: an empty tag list matches everything, otherwise a
/// project matches when it shares at least one tag with the list.
pub open spec fn sp_matches_filter(p: ProjectView, filter: Seq<Seq<char>>) -> bool {
    filter.len() == 0 || sp_has_any_tag(p.tags, filter)
}

/// The projects that match the filter, in registry order.
pub open spec fn sp_filtered(s: Seq<ProjectView>, filter: Seq<Seq<char>>) -> Seq<ProjectView>
    decreases s.len(),
{
    if s.len() == 0 {
        Seq::empty()
    } else if sp_matches_filter(s[0], filter) {
        seq![s[0]] + sp_filtered(s.skip(1), filter)
    } else {
        sp_filtered(s.skip(1), filter)
    }
}

/// The projects that do not match the filter, in registry order: what a
/// filtered bulk removal leaves behind.
pub open spec fn sp_reject_filtered(s: Seq<ProjectView>, filter: Seq<Seq<char>>) -> Seq<
    ProjectView,
>
    decreases s.len(),
{
    if s.len() == 0 {
        Seq::empty()
    } else if sp_matches_filter(s[0], filter) {
        sp_reject_filtered(s.skip(1), filter)
    } else {
        seq![s[0]] + sp_reject_filtered(s.skip(1), filter)
    }
}

/// Folding a list of tag edits over one tag sequence, front to back.
pub open spec fn sp_apply_tags(
    tags: Seq<Seq<char>>,
    edits: Seq<Seq<char>>,
    remove: bool,
) -> Seq<Seq<char>>
    decreases edits.len(),
{
    if edits.len() == 0 {
        tags
    } else {
        sp_apply_tags(
            if remove {
                sp_remove_tag(tags, edits[0])
            } else {
                sp_add_tag(tags, edits[0])
            },
            edits.skip(1),
            remove,
        )
    }
}

/// When the first match sits at `i`, first-match lookup returns it.
pub proof fn lemma_find_name_first(s: Seq<ProjectView>, name: Seq<char>, i: int)
    requires
        0 <= i < s.len(),
        s[i].name == name,
        forall|j: int| 0 <= j < i ==> s[j].name != name,
    ensures
        sp_find_by_name(s, name) == Some(s[i]),
        sp_first_name_index(s, name) == i,
    decreases s.len(),
{
    if i > 0 {
        assert(s.skip(1)[i - 1] == s[i]);
        assert(forall|j: int| 0 <= j < i - 1 ==> #[trigger] s.skip(1)[j] == s[j + 1]);
        lemma_find_name_first(s.skip(1), name, i - 1);
    }
}

/// When no project carries the name, lookup returns nothing.
pub proof fn lemma_find_name_none(s: Seq<ProjectView>, name: Seq<char>)
    requires
        forall|j: int| 0 <= j < s.len() ==> s[j].name != name,
    ensures
        sp_find_by_name(s, name) is None,
    decreases s.len(),
{
    if s.len() > 0 {
        assert(forall|j: int| 0 <= j < s.skip(1).len() ==> #[trigger] s.skip(1)[j] == s[j + 1]);
        lemma_find_name_none(s.skip(1), name);
    }
}

/// The path-lookup counterparts of the two name-lookup lemmas.
pub proof fn lemma_find_path_first(s: Seq<ProjectView>, path: Seq<char>, i: int)
    requires
        0 <= i < s.len(),
        s[i].path == path,
        forall|j: int| 0 <= j < i ==> s[j].path != path,
    ensures
        sp_find_by_path(s, path) == Some(s[i]),
    decreases s.len(),
{
    if i > 0 {
        assert(s.skip(1)[i - 1] == s[i]);
        assert(forall|j: int| 0 <= j < i - 1 ==> #[trigger] s.skip(1)[j] == s[j + 1]);
        lemma_find_path_first(s.skip(1), path, i - 1);
    }
}

pub proof fn lemma_find_path_none(s: Seq<ProjectView>, path: Seq<char>)
    requires
        forall|j: int| 0 <= j < s.len() ==> s[j].path != path,
    ensures
        sp_find_by_path(s, path) is None,
    decreases s.len(),
{
    if s.len() > 0 {
        assert(forall|j: int| 0 <= j < s.skip(1).len() ==> #[trigger] s.skip(1)[j] == s[j + 1]);
        lemma_find_path_none(s.skip(1), path);
    }
}

/// A project added to a registry free of its name and path is found
/// unchanged by both lookups afterwards.
pub proof fn lemma_add_then_find(s: Seq<ProjectView>, p: ProjectView)
    requires
        !sp_has_name(s, p.name),
        !sp_has_path(s, p.path),
    ensures
        sp_find_by_name(s.push(p), p.name) == Some(p),
        sp_find_by_path(s.push(p), p.path) == Some(p),
{
    let t = s.push(p);
    assert(t[s.len() as int] == p);
    assert(forall|j: int| 0 <= j < s.len() ==> #[trigger] t[j] == s[j]);
    lemma_find_name_first(t, p.name, s.len() as int);
    lemma_find_path_first(t, p.path, s.len() as int);
}

/// An empty filter list keeps every project.
pub proof fn lemma_filtered_all(s: Seq<ProjectView>, filter: Seq<Seq<char>>)
    requires
        filter.len() == 0,
    ensures
        sp_filtered(s, filter) == s,
    decreases s.len(),
{
    if s.len() == 0 {
        assert(sp_filtered(s, filter) =~= s);
    } else {
        lemma_filtered_all(s.skip(1), filter);
        assert(seq![s[0]] + s.skip(1) =~= s);
    }
}

/// A one-tag filter keeps exactly the projects that carry that tag.
pub proof fn lemma_has_any_tag_single(ptags: Seq<Seq<char>>, tag: Seq<char>)
    ensures
        sp_has_any_tag(ptags, seq![tag]) <==> ptags.contains(tag),
{
    if ptags.contains(tag) {
        assert(seq![tag][0] == tag);
        assert(sp_has_any_tag(ptags, seq![tag]));
    }
}

/// Filtering by a concatenation of two tag lists matches exactly where
/// one of the two lists matches: the filter has OR semantics.
pub proof fn lemma_has_any_tag_or(ptags: Seq<Seq<char>>, f1: Seq<Seq<char>>, f2: Seq<Seq<char>>)
    ensures
        sp_has_any_tag(ptags, f1 + f2) <==> (sp_has_any_tag(ptags, f1) || sp_has_any_tag(
            ptags,
            f2,
        )),
{
    let f = f1 + f2;
    if sp_has_any_tag(ptags, f1) {
        let i = choose|i: int| 0 <= i < f1.len() && ptags.contains(f1[i]);
        assert(f[i] == f1[i]);
        assert(sp_has_any_tag(ptags, f));
    }
    if sp_has_any_tag(ptags, f2) {
        let i = choose|i: int| 0 <= i < f2.len() && ptags.contains(f2[i]);
        assert(f[f1.len() + i] == f2[i]);
        assert(sp_has_any_tag(ptags, f));
    }
    if sp_has_any_tag(ptags, f) {
        let i = choose|i: int| 0 <= i < f.len() && ptags.contains(f[i]);
        if i < f1.len() {
            assert(f1[i] == f[i]);
            assert(sp_has_any_tag(ptags, f1));
        } else {
            assert(f2[i - f1.len()] == f[i]);
            assert(sp_has_any_tag(ptags, f2));
        }
    }
}



/// The filtered listing holds exactly the projects of the registry that
/// match the filter.
pub proof fn lemma_filtered_membership(s: Seq<ProjectView>, filter: Seq<Seq<char>>, x: ProjectView)
    ensures
        sp_filtered(s, filter).contains(x) <==> (s.contains(x) && sp_matches_filter(x, filter)),
    decreases s.len(),
{
    if s.len() > 0 {
        lemma_filtered_membership(s.skip(1), filter, x);
        let rest = sp_filtered(s.skip(1), filter);
        if sp_matches_filter(s[0], filter) {
            let r = seq![s[0]] + rest;
            if r.contains(x) {
                let k = choose|k: int| 0 <= k < r.len() && r[k] == x;
                if k == 0 {
                    assert(s[0] == x);
                    assert(s.contains(x));
                } else {
                    assert(rest[k - 1] == x);
                    assert(rest.contains(x));
                    let k2 = choose|k2: int| 0 <= k2 < s.skip(1).len() && s.skip(1)[k2] == x;
                    assert(s[k2 + 1] == x);
                    assert(s.contains(x));
                }
            }
            if s.contains(x) && sp_matches_filter(x, filter) {
                let k = choose|k: int| 0 <= k < s.len() && s[k] == x;
                if k == 0 {
                    assert(r[0] == x);
                    assert(r.contains(x));
                } else {
                    assert(s.skip(1)[k - 1] == x);
                    assert(s.skip(1).contains(x));
                    let k2 = choose|k2: int| 0 <= k2 < rest.len() && rest[k2] == x;
                    assert(r[k2 + 1] == x);
                    assert(r.contains(x));
                }
            }
        } else {
            if rest.contains(x) {
                let k2 = choose|k2: int| 0 <= k2 < s.skip(1).len() && s.skip(1)[k2] == x;
                assert(s[k2 + 1] == x);
                assert(s.contains(x));
            }
            if s.contains(x) && sp_matches_filter(x, filter) {
                let k = choose|k: int| 0 <= k < s.len() && s[k] == x;
                assert(k != 0);
                assert(s.skip(1)[k - 1] == x);
                assert(s.skip(1).contains(x));
            }
        }
    }
}

/// The registry invariant: any two distinct projects differ in name and
/// differ in canonical path.
pub open spec fn sp_registry_wf(s: Seq<ProjectView>) -> bool {
    forall|i: int, j: int|
        0 <= i < j < s.len() ==> s[i].name != s[j].name && s[i].path != s[j].path
}

/// A successful add keeps the registry invariant: appending a project
/// whose name and path are free preserves pairwise uniqueness.
pub proof fn lemma_add_preserves_wf(s: Seq<ProjectView>, p: ProjectView)
    requires
        sp_registry_wf(s),
        !sp_has_name(s, p.name),
        !sp_has_path(s, p.path),
    ensures
        sp_registry_wf(s.push(p)),
{
    let t = s.push(p);
    assert forall|i: int, j: int|
        0 <= i < j < t.len() implies t[i].name != t[j].name && t[i].path != t[j].path by {
        if j < s.len() {
            assert(t[i] == s[i] && t[j] == s[j]);
        } else {
            assert(t[i] == s[i] && t[j] == p);
            assert(s[i].name != p.name);
            assert(s[i].path != p.path);
        }
    }
}

/// Everything a removal leaves behind already stood in the registry.
proof fn lemma_remove_name_mem(s: Seq<ProjectView>, name: Seq<char>, x: ProjectView)
    requires
        sp_remove_name(s, name).contains(x),
    ensures
        s.contains(x),
    decreases s.len(),
{
    if s.len() > 0 {
        if s[0].name == name {
            lemma_remove_name_mem(s.skip(1), name, x);
            let k = choose|k: int| 0 <= k < s.skip(1).len() && s.skip(1)[k] == x;
            assert(s[k + 1] == x);
        } else {
            let r = seq![s[0]] + sp_remove_name(s.skip(1), name);
            let k = choose|k: int| 0 <= k < r.len() && r[k] == x;
            if k == 0 {
                assert(s[0] == x);
            } else {
                assert(sp_remove_name(s.skip(1), name)[k - 1] == x);
                lemma_remove_name_mem(s.skip(1), name, x);
                let k2 = choose|k2: int| 0 <= k2 < s.skip(1).len() && s.skip(1)[k2] == x;
                assert(s[k2 + 1] == x);
            }
        }
    }
}

/// A removal keeps the registry invariant.
pub proof fn lemma_remove_preserves_wf(s: Seq<ProjectView>, name: Seq<char>)
    requires
        sp_registry_wf(s),
    ensures
        sp_registry_wf(sp_remove_name(s, name)),
    decreases s.len(),
{
    if s.len() > 0 {
        assert(sp_registry_wf(s.skip(1))) by {
            assert(forall|i: int, j: int|
                0 <= i < j < s.skip(1).len() ==> #[trigger] s.skip(1)[i] == s[i + 1]
                    && #[trigger] s.skip(1)[j] == s[j + 1] && s[i + 1].name != s[j + 1].name && s[i
                    + 1].path != s[j + 1].path);
        }
        lemma_remove_preserves_wf(s.skip(1), name);
        if s[0].name != name {
            let rest = sp_remove_name(s.skip(1), name);
            let r = seq![s[0]] + rest;
            assert forall|i: int, j: int|
                0 <= i < j < r.len() implies r[i].name != r[j].name && r[i].path != r[j].path by {
                if i == 0 {
                    assert(rest[j - 1] == r[j]);
                    assert(rest.contains(rest[j - 1]));
                    lemma_remove_name_mem(s.skip(1), name, rest[j - 1]);
                    let k = choose|k: int|
                        0 <= k < s.skip(1).len() && s.skip(1)[k] == rest[j - 1];
                    assert(s[k + 1] == rest[j - 1]);
                    assert(s[0].name != s[k + 1].name && s[0].path != s[k + 1].path);
                } else {
                    assert(rest[i - 1] == r[i] && rest[j - 1] == r[j]);
                    assert(sp_registry_wf(rest));
                }
            }
        }
    }
}


/// A name that no project carries removes nothing.
proof fn lemma_remove_name_absent(s: Seq<ProjectView>, name: Seq<char>)
    requires
        forall|j: int| 0 <= j < s.len() ==> s[j].name != name,
    ensures
        sp_remove_name(s, name) == s,
    decreases s.len(),
{
    if s.len() > 0 {
        assert(forall|j: int| 0 <= j < s.skip(1).len() ==> #[trigger] s.skip(1)[j] == s[j + 1]);
        lemma_remove_name_absent(s.skip(1), name);
        assert(seq![s[0]] + s.skip(1) =~= s);
    }
}

/// On a registry that satisfies the invariant, a removal by a present
/// name drops exactly one project.
pub proof fn lemma_remove_single(s: Seq<ProjectView>, name: Seq<char>)
    requires
        sp_registry_wf(s),
        sp_has_name(s, name),
    ensures
        sp_remove_name(s, name).len() == s.len() - 1,
    decreases s.len(),
{
    if s[0].name == name {
        assert forall|j: int| 0 <= j < s.skip(1).len() implies s.skip(1)[j].name != name by {
            assert(s.skip(1)[j] == s[j + 1]);
            assert(s[0].name != s[j + 1].name);
        }
        lemma_remove_name_absent(s.skip(1), name);
    } else {
        let k = choose|k: int| 0 <= k < s.len() && s[k].name == name;
        assert(k != 0);
        assert(s.skip(1)[k - 1] == s[k]);
        assert(sp_has_name(s.skip(1), name));
        assert(sp_registry_wf(s.skip(1))) by {
            assert(forall|i: int, j: int|
                0 <= i < j < s.skip(1).len() ==> #[trigger] s.skip(1)[i] == s[i + 1]
                    && #[trigger] s.skip(1)[j] == s[j + 1] && s[i + 1].name != s[j + 1].name && s[i
                    + 1].path != s[j + 1].path);
        }
        lemma_remove_single(s.skip(1), name);
    }
}

/// A tag edit keeps the registry invariant: it rewrites one project's
/// tags and touches no name or path.
pub proof fn lemma_update_preserves_wf(
    s: Seq<ProjectView>,
    i: int,
    tags: Seq<Seq<char>>,
)
    requires
        sp_registry_wf(s),
        0 <= i < s.len(),
    ensures
        sp_registry_wf(s.update(i, ProjectView { tags, ..s[i] })),
{
    let t = s.update(i, ProjectView { tags, ..s[i] });
    assert forall|a: int, b: int|
        0 <= a < b < t.len() implies t[a].name != t[b].name && t[a].path != t[b].path by {
        assert(t[a].name == s[a].name && t[a].path == s[a].path);
        assert(t[b].name == s[b].name && t[b].path == s[b].path);
    }
}

impl Storage {
    /// An empty registry.
    pub fn new() -> (r: Storage)
        ensures
            r@ == Seq::<ProjectView>::empty(),
    {
        let r = Storage { projects: Vec::new() };
        proof {
            assert(r@ =~= Seq::<ProjectView>::empty());
        }
        r
    }

    /// The index of the first project with this name, when one exists.
    fn index_of_name(&self, name: &str) -> (r: Option<usize>)
        ensures
            match r {
                Some(i) => i < self@.len() && self@[i as int].name == name@ && forall|j: int|
                    0 <= j < i ==> self@[j].name != name@,
                None => forall|j: int| 0 <= j < self@.len() ==> self@[j].name != name@,
            },
    {
        let mut i: usize = 0;
        while i < self.projects.len()
            invariant
                i <= self.projects.len(),
                forall|j: int| 0 <= j < i ==> self@[j].name != name@,
            decreases self.projects.len() - i,
        {
            if str_eq(self.projects[i].name.as_str(), name) {
                return Some(i);
            }
            i += 1;
        }
        None
    }

    /// The index of the first project with this path, when one exists.
    fn index_of_path(&self, path: &str) -> (r: Option<usize>)
        ensures
            match r {
                Some(i) => i < self@.len() && self@[i as int].path == path@ && forall|j: int|
                    0 <= j < i ==> self@[j].path != path@,
                None => forall|j: int| 0 <= j < self@.len() ==> self@[j].path != path@,
            },
    {
        let mut i: usize = 0;
        while i < self.projects.len()
            invariant
                i <= self.projects.len(),
                forall|j: int| 0 <= j < i ==> self@[j].path != path@,
            decreases self.projects.len() - i,
        {
            if str_eq(self.projects[i].path.as_str(), path) {
                return Some(i);
            }
            i += 1;
        }
        None
    }

    /// First-match lookup by name.
    pub fn find_by_name(&self, name: &str) -> (r: Option<&Project>)
        ensures
            match r {
                Some(p) => sp_find_by_name(self@, name@) == Some(p@),
                None => sp_find_by_name(self@, name@) is None,
            },
    {
        match self.index_of_name(name) {
            Some(i) => {
                proof {
                    lemma_find_name_first(self@, name@, i as int);
                }
                Some(&self.projects[i])
            },
            None => {
                proof {
                    lemma_find_name_none(self@, name@);
                }
                None
            },
        }
    }

    /// First-match lookup by canonical path.
    pub fn find_by_path(&self, path: &str) -> (r: Option<&Project>)
        ensures
            match r {
                Some(p) => sp_find_by_path(self@, path@) == Some(p@),
                None => sp_find_by_path(self@, path@) is None,
            },
    {
        match self.index_of_path(path) {
            Some(i) => {
                proof {
                    lemma_find_path_first(self@, path@, i as int);
                }
                Some(&self.projects[i])
            },
            None => {
                proof {
                    lemma_find_path_none(self@, path@);
                }
                None
            },
        }
    }

    /// Appends a project, unless its name or its canonical path is
    /// already taken; a rejected add leaves the registry unmodified.
    pub fn add(&mut self, project: Project) -> (r: Result<(), SpmError>)
        ensures
            sp_has_name(old(self)@, project@.name) ==> r == Err::<(), SpmError>(
                SpmError::DuplicateName,
            ) && final(self)@ == old(self)@,
            !sp_has_name(old(self)@, project@.name) && sp_has_path(old(self)@, project@.path)
                ==> r == Err::<(), SpmError>(SpmError::DuplicatePath) && final(self)@ == old(
                self,
            )@,
            !sp_has_name(old(self)@, project@.name) && !sp_has_path(old(self)@, project@.path)
                ==> r == Ok::<(), SpmError>(()) && final(self)@ == old(self)@.push(project@),
    {
        if self.index_of_name(project.name.as_str()).is_some() {
            return Err(SpmError::DuplicateName);
        }
        if self.index_of_path(project.path.as_str()).is_some() {
            return Err(SpmError::DuplicatePath);
        }
        let ghost before = self@;
        let ghost pv = project@;
        self.projects.push(project);
        proof {
            assert(self@ =~= before.push(pv));
        }
        Ok(())
    }

    /// Removes the project with this name; fails with `NotFound`, and
    /// changes nothing, when no project carries it.
    pub fn remove(&mut self, name: &str) -> (r: Result<(), SpmError>)
        ensures
            !sp_has_name(old(self)@, name@) ==> r == Err::<(), SpmError>(SpmError::NotFound)
                && final(self)@ == old(self)@,
            sp_has_name(old(self)@, name@) ==> r == Ok::<(), SpmError>(()) && final(self)@
                == sp_remove_name(old(self)@, name@),
    {
        if self.index_of_name(name).is_none() {
            return Err(SpmError::NotFound);
        }
        let ghost full = self@;
        let mut kept: Vec<Project> = Vec::new();
        let mut i: usize = 0;
        proof {
            assert(full.skip(0) =~= full);
            assert(kept@.map_values(|p: Project| p@) =~= Seq::<ProjectView>::empty());
            assert(Seq::<ProjectView>::empty() + sp_remove_name(full, name@) =~= sp_remove_name(
                full,
                name@,
            ));
        }
        while i < self.projects.len()
            invariant
                *self == *old(self),
                full == self@,
                i <= self.projects.len(),
                sp_remove_name(full, name@) == kept@.map_values(|p: Project| p@)
                    + sp_remove_name(full.skip(i as int), name@),
            decreases self.projects.len() - i,
        {
            proof {
                assert(i < full.len());
                assert(full.skip(i as int)[0] == full[i as int]);
                assert(full.skip(i as int).skip(1) =~= full.skip(i + 1));
            }
            if !str_eq(self.projects[i].name.as_str(), name) {
                let ghost kept_before = kept@.map_values(|p: Project| p@);
                kept.push(self.projects[i].clone());
                proof {
                    assert(kept@.map_values(|p: Project| p@) =~= kept_before.push(
                        full[i as int],
                    ));
                    assert(kept_before.push(full[i as int]) + sp_remove_name(
                        full.skip(i + 1),
                        name@,
                    ) =~= kept_before + (seq![full[i as int]] + sp_remove_name(
                        full.skip(i + 1),
                        name@,
                    )));
                }
            }
            i += 1;
        }
        proof {
            assert(full.skip(i as int) =~= Seq::empty());
            assert(sp_remove_name(full, name@) =~= kept@.map_values(|p: Project| p@));
        }
        self.projects = kept;
        Ok(())
    }

    /// Unconditionally clears the registry; succeeds even when it is
    /// already empty.
    pub fn remove_all(&mut self)
        ensures
            final(self)@ == Seq::<ProjectView>::empty(),
    {
        self.projects.clear();
        proof {
            assert(self@ =~= Seq::<ProjectView>::empty());
        }
    }

    /// Clears every project matching the tag filter (an empty filter
    /// matches all); what does not match stays, in order.
    pub fn remove_all_filtered(&mut self, tags: &[String])
        ensures
            final(self)@ == sp_reject_filtered(old(self)@, tags@.map_values(|t: String| t@)),
    {
        let ghost fview = tags@.map_values(|t: String| t@);
        let ghost full = self@;
        let mut kept: Vec<Project> = Vec::new();
        let mut i: usize = 0;
        proof {
            assert(full.skip(0) =~= full);
            assert(kept@.map_values(|p: Project| p@) =~= Seq::<ProjectView>::empty());
            assert(Seq::<ProjectView>::empty() + sp_reject_filtered(full, fview)
                =~= sp_reject_filtered(full, fview));
        }
        while i < self.projects.len()
            invariant
                *self == *old(self),
                full == self@,
                fview == tags@.map_values(|t: String| t@),
                i <= self.projects.len(),
                sp_reject_filtered(full, fview) == kept@.map_values(|p: Project| p@)
                    + sp_reject_filtered(full.skip(i as int), fview),
            decreases self.projects.len() - i,
        {
            proof {
                assert(i < full.len());
                assert(full.skip(i as int)[0] == full[i as int]);
                assert(full.skip(i as int).skip(1) =~= full.skip(i + 1));
            }
            let matches = tags.len() == 0 || self.projects[i].has_any_tag(tags);
            if !matches {
                let ghost kept_before = kept@.map_values(|p: Project| p@);
                kept.push(self.projects[i].clone());
                proof {
                    assert(kept@.map_values(|p: Project| p@) =~= kept_before.push(
                        full[i as int],
                    ));
                    assert(kept_before.push(full[i as int]) + sp_reject_filtered(
                        full.skip(i + 1),
                        fview,
                    ) =~= kept_before + (seq![full[i as int]] + sp_reject_filtered(
                        full.skip(i + 1),
                        fview,
                    )));
                }
            }
            i += 1;
        }
        proof {
            assert(full.skip(i as int) =~= Seq::empty());
            assert(sp_reject_filtered(full, fview) =~= kept@.map_values(|p: Project| p@));
        }
        self.projects = kept;
    }

    /// The full ordered project sequence.
    pub fn list(&self) -> (r: &[Project])
        ensures
            r@.map_values(|p: Project| p@) == self@,
    {
        self.projects.as_slice()
    }

    /// The projects matching the tag filter, in registry order: all of
    /// them for an empty filter, otherwise those sharing at least one
    /// tag with it.
    pub fn list_filtered(&self, tags: &[String]) -> (r: Vec<Project>)
        ensures
            r@.map_values(|p: Project| p@) == sp_filtered(self@, tags@.map_values(|t: String| t@)),
    {
        let ghost fview = tags@.map_values(|t: String| t@);
        let ghost full = self@;
        let mut out: Vec<Project> = Vec::new();
        let mut i: usize = 0;
        proof {
            assert(full.skip(0) =~= full);
            assert(out@.map_values(|p: Project| p@) =~= Seq::<ProjectView>::empty());
            assert(Seq::<ProjectView>::empty() + sp_filtered(full, fview) =~= sp_filtered(
                full,
                fview,
            ));
        }
        while i < self.projects.len()
            invariant
                full == self@,
                fview == tags@.map_values(|t: String| t@),
                i <= self.projects.len(),
                sp_filtered(full, fview) == out@.map_values(|p: Project| p@) + sp_filtered(
                    full.skip(i as int),
                    fview,
                ),
            decreases self.projects.len() - i,
        {
            proof {
                assert(i < full.len());
                assert(full.skip(i as int)[0] == full[i as int]);
                assert(full.skip(i as int).skip(1) =~= full.skip(i + 1));
            }
            let matches = tags.len() == 0 || self.projects[i].has_any_tag(tags);
            if matches {
                let ghost out_before = out@.map_values(|p: Project| p@);
                out.push(self.projects[i].clone());
                proof {
                    assert(out@.map_values(|p: Project| p@) =~= out_before.push(full[i as int]));
                    assert(out_before.push(full[i as int]) + sp_filtered(full.skip(i + 1), fview)
                        =~= out_before + (seq![full[i as int]] + sp_filtered(
                        full.skip(i + 1),
                        fview,
                    )));
                }
            }
            i += 1;
        }
        proof {
            assert(full.skip(i as int) =~= Seq::empty());
            assert(sp_filtered(full, fview) =~= out@.map_values(|p: Project| p@));
        }
        out
    }

    /// Locates the project by name and applies the given tag edits to it
    /// (additions, or removals); fails with `NotFound`, and changes
    /// nothing, when no project carries the name.
    pub fn update(&mut self, name: &str, tags: &Vec<String>, remove: bool) -> (r: Result<
        (),
        SpmError,
    >)
        ensures
            !sp_has_name(old(self)@, name@) ==> r == Err::<(), SpmError>(SpmError::NotFound)
                && final(self)@ == old(self)@,
            sp_has_name(old(self)@, name@) ==> {
                let i = sp_first_name_index(old(self)@, name@);
                let p = old(self)@[i];
                r == Ok::<(), SpmError>(()) && final(self)@ == old(self)@.update(
                    i,
                    ProjectView {
                        tags: sp_apply_tags(p.tags, tags@.map_values(|t: String| t@), remove),
                        ..p
                    },
                )
            },
    {
        let idx = match self.index_of_name(name) {
            None => {
                return Err(SpmError::NotFound);
            },
            Some(i) => i,
        };
        proof {
            lemma_find_name_first(self@, name@, idx as int);
        }
        let ghost eview = tags@.map_values(|t: String| t@);
        let ghost orig = self@[idx as int];
        let mut p = self.projects[idx].clone();
        let mut j: usize = 0;
        proof {
            assert(eview.skip(0) =~= eview);
        }
        while j < tags.len()
            invariant
                j <= tags.len(),
                eview == tags@.map_values(|t: String| t@),
                p@.name == orig.name,
                p@.path == orig.path,
                p@.is_bare_repo == orig.is_bare_repo,
                p@.added_at == orig.added_at,
                sp_apply_tags(orig.tags, eview, remove) == sp_apply_tags(
                    p@.tags,
                    eview.skip(j as int),
                    remove,
                ),
            decreases tags.len() - j,
        {
            proof {
                assert(eview.skip(j as int)[0] == eview[j as int]);
                assert(eview.skip(j as int).skip(1) =~= eview.skip(j + 1));
            }
            if remove {
                p.remove_tag(tags[j].as_str());
            } else {
                p.add_tag(tags[j].clone());
            }
            j += 1;
        }
        proof {
            assert(eview.skip(j as int) =~= Seq::<Seq<char>>::empty());
        }
        let ghost before = self@;
        self.projects.set(idx, p);
        proof {
            assert(self@ =~= before.update(
                idx as int,
                ProjectView { tags: sp_apply_tags(orig.tags, eview, remove), ..orig },
            ));
        }
        Ok(())
    }

    /// Where the registry document lives under the per-user
    /// configuration directory.
    pub fn path(config_dir: &str) -> (r: String)
        ensures
            r@ == config_dir@ + "/projects.json"@,
    {
        let mut s = config_dir.to_owned();
        s.append("/projects.json");
        s
    }

    /// Renders the registry as its persisted document.
    pub fn to_json(&self) -> (r: String)
        ensures
            r@ == registry_json(self@),
    {
        enc_registry(&self.projects)
    }

    /// Reads a registry back from a persisted document; a text that does
    /// not fit the schema, or that continues past the document, is
    /// rejected as `StorageCorrupt`.
    pub fn from_json(text: &str) -> (r: Result<Storage, SpmError>)
        ensures
            match sp_parse_registry(text@) {
                Some(pr) => {
                    if pr.1 == text@.len() {
                        (r matches Ok(st) && st@ == pr.0)
                    } else {
                        r == Err::<Storage, SpmError>(SpmError::StorageCorrupt)
                    }
                },
                None => r == Err::<Storage, SpmError>(SpmError::StorageCorrupt),
            },
    {
        let n = text.unicode_len();
        proof {
            assert(text@.skip(0) =~= text@);
        }
        match px_registry(text, 0) {
            Some((ps, j)) => {
                if j == n {
                    Ok(Storage { projects: ps })
                } else {
                    Err(SpmError::StorageCorrupt)
                }
            },
            None => Err(SpmError::StorageCorrupt),
        }
    }
}

} // verus!
