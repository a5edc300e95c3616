use vstd::prelude::*;
use crate::strutil::{push_char, str_eq};

verus! {

/// Mathematical model of one tracked project.
pub ghost struct ProjectView {
    pub name: Seq<char>,
    pub path: Seq<char>,
    pub tags: Seq<Seq<char>>,
    pub is_bare_repo: bool,
    pub added_at: Seq<char>,
}

/// One tracked project: a named, tagged filesystem path, with the
/// bare-repository flag computed at add-time and the creation timestamp.
pub struct Project {
    pub name: String,
    pub path: String,
    pub tags: Vec<String>,
    pub is_bare_repo: bool,
    pub added_at: String,
}

impl View for Project {
    type V = ProjectView;

    open spec fn view(&self) -> ProjectView {
        ProjectView {
            name: self.name@,
            path: self.path@,
            tags: self.tags@.map_values(|t: String| t@),
            is_bare_repo: self.is_bare_repo,
            added_at: self.added_at@,
        }
    }
}

/// The tag sequence holds no duplicate entries.
pub open spec fn tags_distinct(tags: Seq<Seq<char>>) -> bool {
    forall|i: int, j: int| 0 <= i < j < tags.len() ==> tags[i] != tags[j]
}

/// What adding one tag does to a tag sequence: a no-op when the tag is
/// already present, an append otherwise.
pub open spec fn sp_add_tag(tags: Seq<Seq<char>>, tag: Seq<char>) -> Seq<Seq<char>> {
    if tags.contains(tag) {
        tags
    } else {
        tags.push(tag)
    }
}

/// What removing one tag does to a tag sequence: every occurrence of the
/// exact string is dropped.
pub open spec fn sp_remove_tag(tags: Seq<Seq<char>>, tag: Seq<char>) -> Seq<Seq<char>>
    decreases tags.len(),
{
    if tags.len() == 0 {
        Seq::empty()
    } else if tags[0] == tag {
        sp_remove_tag(tags.skip(1), tag)
    } else {
        seq![tags[0]] + sp_remove_tag(tags.skip(1), tag)
    }
}

/// The project's tag set intersects the given tag list.
pub open spec fn sp_has_any_tag(ptags: Seq<Seq<char>>, filter: Seq<Seq<char>>) -> bool {
    exists|i: int| 0 <= i < filter.len() && ptags.contains(filter[i])
}

/// How many times `tag` occurs in `tags`.
pub open spec fn sp_tag_count(tags: Seq<Seq<char>>, tag: Seq<char>) -> nat
    decreases tags.len(),
{
    if tags.len() == 0 {
        0
    } else {
        (if tags[0] == tag {
            1nat
        } else {
            0nat
        }) + sp_tag_count(tags.skip(1), tag)
    }
}


/// The characters after the last path separator: the whole string when
/// there is no separator, empty when the path ends with one.
pub open spec fn sp_tail_segment(p: Seq<char>) -> Seq<char>
    decreases p.len(),
{
    if p.len() == 0 {
        Seq::empty()
    } else if p[p.len() - 1] == '/' {
        Seq::empty()
    } else {
        sp_tail_segment(p.take(p.len() - 1)).push(p[p.len() - 1])
    }
}

/// The name a project defaults to when none is given: the last path
/// segment, or `unknown` when the path has no usable one.
pub open spec fn sp_default_name(p: Seq<char>) -> Seq<char> {
    if sp_tail_segment(p).len() == 0 {
        "unknown"@
    } else {
        sp_tail_segment(p)
    }
}

proof fn lemma_tail_segment(p: Seq<char>, cut: int)
    requires
        0 <= cut <= p.len(),
        cut == 0 || p[cut - 1] == '/',
        forall|k: int| cut <= k < p.len() ==> p[k] != '/',
    ensures
        sp_tail_segment(p) == p.skip(cut),
    decreases p.len(),
{
    if cut == p.len() {
        if p.len() == 0 {
            assert(p.skip(cut) =~= Seq::<char>::empty());
        } else {
            assert(p[p.len() - 1] == '/');
            assert(p.skip(cut) =~= Seq::<char>::empty());
        }
    } else {
        assert(p[p.len() - 1] != '/');
        let q = p.take(p.len() - 1);
        assert(forall|k: int| cut <= k < q.len() ==> #[trigger] q[k] == p[k]);
        assert(cut == 0 || q[cut - 1] == '/');
        lemma_tail_segment(q, cut);
        assert(p.skip(cut) =~= q.skip(cut).push(p[p.len() - 1]));
    }
}

/// The default project name for a canonical path.
pub fn default_name_for_path(path: &str) -> (r: String)
    ensures
        r@ == sp_default_name(path@),
{
    let n = path.unicode_len();
    let mut cut: usize = 0;
    let mut j: usize = 0;
    while j < n
        invariant
            n == path@.len(),
            cut <= j <= n,
            cut == 0 || path@[cut - 1] == '/',
            forall|k: int| cut <= k < j ==> path@[k] != '/',
        decreases n - j,
    {
        if path.get_char(j) == '/' {
            cut = j + 1;
        }
        j += 1;
    }
    proof {
        lemma_tail_segment(path@, cut as int);
    }
    let seg = path.substring_char(cut, n);
    proof {
        assert(path@.subrange(cut as int, n as int) =~= path@.skip(cut as int));
    }
    if seg.unicode_len() == 0 {
        "unknown".to_owned()
    } else {
        seg.to_owned()
    }
}

/// The separator and bracket pieces of a listing line.
pub open spec fn sp_join_tags_rest(tags: Seq<Seq<char>>) -> Seq<char>
    decreases tags.len(),
{
    if tags.len() == 0 {
        Seq::empty()
    } else {
        seq![',', ' '] + tags[0] + sp_join_tags_rest(tags.skip(1))
    }
}

/// The project's tags joined with a comma and a space.
pub open spec fn sp_join_tags(tags: Seq<Seq<char>>) -> Seq<char> {
    if tags.len() == 0 {
        Seq::empty()
    } else {
        tags[0] + sp_join_tags_rest(tags.skip(1))
    }
}

/// How one project is rendered in a listing: the name, a bare marker
/// when the flag is set, the path, and the tags in brackets when there
/// are any.
pub open spec fn sp_project_line(p: ProjectView) -> Seq<char> {
    p.name + (if p.is_bare_repo {
        " (bare)"@
    } else {
        Seq::<char>::empty()
    }) + " - "@ + p.path + (if p.tags.len() == 0 {
        Seq::<char>::empty()
    } else {
        seq![' ', '['] + sp_join_tags(p.tags) + seq![']']
    })
}


proof fn lemma_join_rest_snoc(ts: Seq<Seq<char>>, t: Seq<char>)
    ensures
        sp_join_tags_rest(ts.push(t)) == sp_join_tags_rest(ts) + seq![',', ' '] + t,
    decreases ts.len(),
{
    let p = ts.push(t);
    if ts.len() == 0 {
        assert(p[0] == t);
        assert(p.skip(1) =~= Seq::<Seq<char>>::empty());
        assert(sp_join_tags_rest(Seq::<Seq<char>>::empty()) == Seq::<char>::empty());
        assert(sp_join_tags_rest(p) =~= sp_join_tags_rest(ts) + seq![',', ' '] + t);
    } else {
        assert(p[0] == ts[0]);
        assert(p.skip(1) =~= ts.skip(1).push(t));
        lemma_join_rest_snoc(ts.skip(1), t);
        assert(seq![',', ' '] + ts[0] + (sp_join_tags_rest(ts.skip(1)) + seq![',', ' '] + t) =~= (
        seq![',', ' '] + ts[0] + sp_join_tags_rest(ts.skip(1))) + seq![',', ' '] + t);
    }
}

proof fn lemma_join_snoc(ts: Seq<Seq<char>>, t: Seq<char>)
    ensures
        ts.len() == 0 ==> sp_join_tags(ts.push(t)) == t,
        ts.len() >= 1 ==> sp_join_tags(ts.push(t)) == sp_join_tags(ts) + seq![',', ' '] + t,
    decreases ts.len(),
{
    let p = ts.push(t);
    if ts.len() == 0 {
        assert(p[0] == t);
        assert(p.skip(1) =~= Seq::<Seq<char>>::empty());
        assert(sp_join_tags(p) =~= t);
    } else {
        assert(p[0] == ts[0]);
        assert(p.skip(1) =~= ts.skip(1).push(t));
        lemma_join_rest_snoc(ts.skip(1), t);
        assert(ts[0] + (sp_join_tags_rest(ts.skip(1)) + seq![',', ' '] + t) =~= (ts[0]
            + sp_join_tags_rest(ts.skip(1))) + seq![',', ' '] + t);
    }
}

impl Clone for Project {
    /// A clone carries the same name, path, tags, flag and timestamp.
    fn clone(&self) -> (r: Self)
        ensures
            r@ == self@,
    {
        let mut tags: Vec<String> = Vec::new();
        let mut i: usize = 0;
        while i < self.tags.len()
            invariant
                i <= self.tags.len(),
                tags@ == self.tags@.subrange(0, i as int),
            decreases self.tags.len() - i,
        {
            tags.push(self.tags[i].clone());
            proof {
                assert(tags@ =~= self.tags@.subrange(0, i + 1));
            }
            i += 1;
        }
        proof {
            assert(self.tags@.subrange(0, i as int) =~= self.tags@);
        }
        Project {
            name: self.name.clone(),
            path: self.path.clone(),
            tags,
            is_bare_repo: self.is_bare_repo,
            added_at: self.added_at.clone(),
        }
    }
}

impl Project {
    /// A fresh project with no tags; the creation timestamp is
    /// system-assigned.
    pub fn new(name: String, path: String, is_bare_repo: bool) -> (r: Project)
        ensures
            r@.name == name@,
            r@.path == path@,
            r@.tags == Seq::<Seq<char>>::empty(),
            r@.is_bare_repo == is_bare_repo,
    {
        let r = Project {
            name,
            path,
            tags: Vec::new(),
            is_bare_repo,
            added_at: crate::time::now_rfc3339(),
        };
        proof {
            assert(r@.tags =~= Seq::<Seq<char>>::empty());
        }
        r
    }

    /// Replaces the tag list wholesale.
    pub fn with_tags(self, tags: Vec<String>) -> (r: Project)
        ensures
            r@.name == self@.name,
            r@.path == self@.path,
            r@.is_bare_repo == self@.is_bare_repo,
            r@.added_at == self@.added_at,
            r@.tags == tags@.map_values(|t: String| t@),
    {
        Project { tags, ..self }
    }

    /// Exact string membership test on the project's tags.
    pub fn has_tag(&self, tag: &str) -> (r: bool)
        ensures
            r == self@.tags.contains(tag@),
    {
        let mut i: usize = 0;
        while i < self.tags.len()
            invariant
                i <= self.tags.len(),
                forall|j: int| 0 <= j < i ==> self@.tags[j] != tag@,
            decreases self.tags.len() - i,
        {
            if str_eq(self.tags[i].as_str(), tag) {
                proof {
                    assert(self@.tags[i as int] == tag@);
                }
                return true;
            }
            i += 1;
        }
        proof {
            assert(!self@.tags.contains(tag@));
        }
        false
    }

    /// Idempotent tag insertion: a duplicate is never created.
    pub fn add_tag(&mut self, tag: String)
        ensures
            final(self)@.name == old(self)@.name,
            final(self)@.path == old(self)@.path,
            final(self)@.is_bare_repo == old(self)@.is_bare_repo,
            final(self)@.added_at == old(self)@.added_at,
            final(self)@.tags == sp_add_tag(old(self)@.tags, tag@),
    {
        if !self.has_tag(tag.as_str()) {
            let ghost old_tags = self@.tags;
            self.tags.push(tag);
            proof {
                assert(final(self)@.tags =~= old_tags.push(tag@));
            }
        }
    }

    /// Removes every occurrence of the exact tag string; a no-op when the
    /// tag is absent.
    pub fn remove_tag(&mut self, tag: &str)
        ensures
            final(self)@.name == old(self)@.name,
            final(self)@.path == old(self)@.path,
            final(self)@.is_bare_repo == old(self)@.is_bare_repo,
            final(self)@.added_at == old(self)@.added_at,
            final(self)@.tags == sp_remove_tag(old(self)@.tags, tag@),
    {
        let ghost full = self@.tags;
        let mut kept: Vec<String> = Vec::new();
        let mut i: usize = 0;
        proof {
            assert(full.skip(0) =~= full);
            assert(kept@.map_values(|t: String| t@) =~= Seq::<Seq<char>>::empty());
            assert(Seq::<Seq<char>>::empty() + sp_remove_tag(full, tag@) =~= sp_remove_tag(
                full,
                tag@,
            ));
        }
        while i < self.tags.len()
            invariant
                *self == *old(self),
                full == self@.tags,
                i <= self.tags.len(),
                sp_remove_tag(full, tag@) == kept@.map_values(|t: String| t@) + sp_remove_tag(
                    full.skip(i as int),
                    tag@,
                ),
            decreases self.tags.len() - i,
        {
            proof {
                assert(i < full.len());
                assert(full.skip(i as int)[0] == full[i as int]);
                assert(full.skip(i as int).skip(1) =~= full.skip(i + 1));
            }
            if !str_eq(self.tags[i].as_str(), tag) {
                let ghost kept_before = kept@.map_values(|t: String| t@);
                kept.push(self.tags[i].clone());
                proof {
                    assert(kept@.map_values(|t: String| t@) =~= kept_before.push(full[i as int]));
                    assert(kept_before.push(full[i as int]) + sp_remove_tag(full.skip(i + 1), tag@)
                        =~= kept_before + (seq![full[i as int]] + sp_remove_tag(
                        full.skip(i + 1),
                        tag@,
                    )));
                }
            }
            i += 1;
        }
        proof {
            assert(full.skip(i as int) =~= Seq::empty());
            assert(sp_remove_tag(full, tag@) =~= kept@.map_values(|t: String| t@));
        }
        self.tags = kept;
    }

    /// The filter predicate behind tag-based listing: true when the
    /// project shares at least one tag with the given list.
    pub fn has_any_tag(&self, tags: &[String]) -> (r: bool)
        ensures
            r == sp_has_any_tag(self@.tags, tags@.map_values(|t: String| t@)),
    {
        let ghost fview = tags@.map_values(|t: String| t@);
        let mut i: usize = 0;
        while i < tags.len()
            invariant
                i <= tags.len(),
                fview == tags@.map_values(|t: String| t@),
                forall|j: int| 0 <= j < i ==> !self@.tags.contains(fview[j]),
            decreases tags.len() - i,
        {
            if self.has_tag(tags[i].as_str()) {
                proof {
                    assert(self@.tags.contains(fview[i as int]));
                }
                return true;
            }
            i += 1;
        }
        false
    }

    /// The listing line for this project.
    pub fn display_line(&self) -> (r: String)
        ensures
            r@ == sp_project_line(self@),
    {
        let ghost tview = self@.tags;
        let mut out = self.name.clone();
        if self.is_bare_repo {
            out.append(" (bare)");
        }
        out.append(" - ");
        out.append(self.path.as_str());
        let ghost head = out@;
        proof {
            assert(head =~= self@.name + (if self@.is_bare_repo {
                " (bare)"@
            } else {
                Seq::<char>::empty()
            }) + " - "@ + self@.path);
        }
        if self.tags.len() > 0 {
            push_char(&mut out, ' ');
            push_char(&mut out, '[');
            let ghost base = out@;
            proof {
                assert(base =~= head + seq![' ', '[']);
                assert(tview.take(0) =~= Seq::<Seq<char>>::empty());
                assert(sp_join_tags(tview.take(0)) =~= Seq::<char>::empty());
                assert(out@ =~= base + sp_join_tags(tview.take(0)));
            }
            let mut i: usize = 0;
            while i < self.tags.len()
                invariant
                    i <= self.tags.len(),
                    tview == self@.tags,
                    base == head + seq![' ', '['],
                    out@ == base + sp_join_tags(tview.take(i as int)),
                decreases self.tags.len() - i,
            {
                let ghost before = out@;
                if i > 0 {
                    push_char(&mut out, ',');
                    push_char(&mut out, ' ');
                }
                out.append(self.tags[i].as_str());
                proof {
                    assert(tview.take(i + 1) =~= tview.take(i as int).push(tview[i as int]));
                    lemma_join_snoc(tview.take(i as int), tview[i as int]);
                    if i > 0 {
                        assert(out@ =~= before + seq![',', ' '] + tview[i as int]);
                        assert((base + sp_join_tags(tview.take(i as int))) + seq![',', ' ']
                            + tview[i as int] =~= base + (sp_join_tags(tview.take(i as int))
                            + seq![',', ' '] + tview[i as int]));
                    } else {
                        assert(tview.take(0).len() == 0);
                        assert(out@ =~= base + tview[0]);
                    }
                }
                i += 1;
            }
            push_char(&mut out, ']');
            proof {
                assert(tview.take(self.tags.len() as int) =~= tview);
                assert(out@ =~= head + (seq![' ', '['] + sp_join_tags(tview) + seq![']']));
            }
        } else {
            proof {
                assert(tview.len() == 0);
                assert(out@ =~= head + Seq::<char>::empty());
            }
        }
        out
    }
}

/// Adding the same tag twice is the same as adding it once, and on a
/// duplicate-free tag set the tag then occurs exactly once.
pub proof fn lemma_add_tag_idempotent(tags: Seq<Seq<char>>, tag: Seq<char>)
    requires
        tags_distinct(tags),
    ensures
        sp_add_tag(sp_add_tag(tags, tag), tag) == sp_add_tag(tags, tag),
        sp_tag_count(sp_add_tag(tags, tag), tag) == 1,
{
    let once = sp_add_tag(tags, tag);
    assert(once.contains(tag)) by {
        if !tags.contains(tag) {
            assert(once[tags.len() as int] == tag);
        }
    }
    if tags.contains(tag) {
        let i = choose|i: int| 0 <= i < tags.len() && tags[i] == tag;
        lemma_tag_count_distinct(tags, tag, i);
    } else {
        lemma_tag_count_absent_push(tags, tag);
    }
}

/// On a duplicate-free sequence that holds `tag` at position `i`, the
/// count of `tag` is exactly one.
proof fn lemma_tag_count_distinct(tags: Seq<Seq<char>>, tag: Seq<char>, i: int)
    requires
        tags_distinct(tags),
        0 <= i < tags.len(),
        tags[i] == tag,
    ensures
        sp_tag_count(tags, tag) == 1,
    decreases tags.len(),
{
    if i == 0 {
        assert(forall|j: int|
            0 <= j < tags.skip(1).len() ==> #[trigger] tags.skip(1)[j] == tags[j + 1] && tags[j + 1]
                != tags[0]);
        lemma_tag_count_zero(tags.skip(1), tag);
    } else {
        assert(tags[0] != tags[i]);
        assert(tags_distinct(tags.skip(1))) by {
            assert(forall|a: int, b: int|
                0 <= a < b < tags.skip(1).len() ==> #[trigger] tags.skip(1)[a] == tags[a + 1]
                    && #[trigger] tags.skip(1)[b] == tags[b + 1] && tags[a + 1] != tags[b + 1]);
        }
        assert(tags.skip(1)[i - 1] == tags[i]);
        lemma_tag_count_distinct(tags.skip(1), tag, i - 1);
    }
}

/// A sequence in which every entry differs from `tag` counts `tag` zero
/// times.
proof fn lemma_tag_count_zero(tags: Seq<Seq<char>>, tag: Seq<char>)
    requires
        forall|j: int| 0 <= j < tags.len() ==> tags[j] != tag,
    ensures
        sp_tag_count(tags, tag) == 0,
    decreases tags.len(),
{
    if tags.len() > 0 {
        assert(forall|j: int|
            0 <= j < tags.skip(1).len() ==> #[trigger] tags.skip(1)[j] == tags[j + 1] && tags[j + 1]
                != tag);
        lemma_tag_count_zero(tags.skip(1), tag);
    }
}

/// Appending a tag that was absent makes its count exactly one.
proof fn lemma_tag_count_absent_push(tags: Seq<Seq<char>>, tag: Seq<char>)
    requires
        !tags.contains(tag),
    ensures
        sp_tag_count(tags.push(tag), tag) == 1,
    decreases tags.len(),
{
    let p = tags.push(tag);
    if tags.len() == 0 {
        assert(p.len() == 1 && p[0] == tag);
        assert(p.skip(1) =~= Seq::<Seq<char>>::empty());
        assert(sp_tag_count(p.skip(1), tag) == 0);
    } else {
        assert(p[0] == tags[0]);
        assert(tags[0] != tag) by {
            if tags[0] == tag {
                assert(tags.contains(tag));
            }
        }
        assert(!tags.skip(1).contains(tag)) by {
            if tags.skip(1).contains(tag) {
                let j = choose|j: int| 0 <= j < tags.skip(1).len() && tags.skip(1)[j] == tag;
                assert(tags[j + 1] == tag);
                assert(tags.contains(tag));
            }
        }
        lemma_tag_count_absent_push(tags.skip(1), tag);
        assert(p.skip(1) =~= tags.skip(1).push(tag));
        assert(sp_tag_count(p, tag) == sp_tag_count(p.skip(1), tag));
    }
}

} // verus!
