//! `GET /api/projects`: project cards and the search and toolchain filters.

use vstd::prelude::*;
use crate::index::{clone_opt, ProjectInfo};
use crate::text::{chars_of, contains, contains_chars, lowercase, lowercase_chars, str_eq};

verus! {

/// The query of a project list request.
#[derive(Debug)]
pub struct ProjectsQuery {
    /// A substring of the name or the path, case ignored.
    pub q: Option<String>,
    /// The exact toolchain.
    pub toolchain: Option<String>,
}

/// What the dashboard shows of a project.
#[derive(Debug)]
pub struct ProjectCard {
    pub name: String,
    pub path: String,
    pub python_version: Option<String>,
    pub toolchain: Option<String>,
    pub git_status: Option<String>,
    pub deps_count: Option<u64>,
    pub last_modified: Option<String>,
}

/// Whether `c` is the card of `p`.
pub open spec fn card_of(p: ProjectInfo, c: ProjectCard) -> bool {
    &&& c.name@ == p.name@
    &&& c.path@ == p.path@
    &&& c.python_version == p.python_version
    &&& c.toolchain == p.toolchain
    &&& c.git_status == p.git_status
    &&& c.deps_count == p.deps_count
    &&& c.last_modified == p.last_modified
}

impl ProjectCard {
    /// The card of a project.
    pub fn from(p: &ProjectInfo) -> (r: ProjectCard)
        ensures
            card_of(*p, r),
    {
        ProjectCard {
            name: p.name.clone(),
            path: p.path.clone(),
            python_version: clone_opt(&p.python_version),
            toolchain: clone_opt(&p.toolchain),
            git_status: clone_opt(&p.git_status),
            deps_count: p.deps_count,
            last_modified: clone_opt(&p.last_modified),
        }
    }
}

/// Whether `p` passes the search: no search, or the lowercased name or path
/// contains the lowercased search text.
pub open spec fn search_matches(p: ProjectInfo, q: Option<String>) -> bool {
    match q {
        None => true,
        Some(q) => contains(lowercase(p.name@), lowercase(q@)) || contains(lowercase(p.path@), lowercase(q@)),
    }
}

/// Whether `p` passes the toolchain filter: none given, or exactly `t`.
pub open spec fn toolchain_matches(p: ProjectInfo, t: Option<String>) -> bool {
    match t {
        None => true,
        Some(t) => match p.toolchain {
            Some(pt) => pt@ == t@,
            None => false,
        },
    }
}

/// Whether `p` passes both filters of `q`.
pub open spec fn query_matches(p: ProjectInfo, q: ProjectsQuery) -> bool {
    search_matches(p, q.q) && toolchain_matches(p, q.toolchain)
}

/// The projects of `ps` that pass the filters, in order.
pub open spec fn selected(ps: Seq<ProjectInfo>, q: ProjectsQuery) -> Seq<ProjectInfo>
    decreases ps.len(),
{
    if ps.len() == 0 {
        Seq::empty()
    } else if query_matches(ps.last(), q) {
        selected(ps.drop_last(), q).push(ps.last())
    } else {
        selected(ps.drop_last(), q)
    }
}

fn passes(p: &ProjectInfo, q: &ProjectsQuery) -> (r: bool)
    ensures
        r == query_matches(*p, *q),
{
    match &q.q {
        Some(text) => {
            let ql = lowercase_chars(chars_of(text.as_str()).as_slice());
            let nl = lowercase_chars(chars_of(p.name.as_str()).as_slice());
            let pl = lowercase_chars(chars_of(p.path.as_str()).as_slice());
            if !contains_chars(nl.as_slice(), ql.as_slice()) && !contains_chars(pl.as_slice(), ql.as_slice()) {
                return false;
            }
        },
        None => {},
    }
    match &q.toolchain {
        Some(t) => match &p.toolchain {
            Some(pt) => str_eq(pt.as_str(), t.as_str()),
            None => false,
        },
        None => true,
    }
}

/// The cards of the projects that pass the query's filters, in order.
pub fn filter_projects(projects: &Vec<ProjectInfo>, query: &ProjectsQuery) -> (r: Vec<ProjectCard>)
    ensures
        r@.len() == selected(projects@, *query).len(),
        forall|i: int| 0 <= i < r@.len() ==> card_of(selected(projects@, *query)[i], #[trigger] r@[i]),
{
    let mut r: Vec<ProjectCard> = Vec::new();
    let mut i: usize = 0;
    while i < projects.len()
        invariant
            i <= projects@.len(),
            r@.len() == selected(projects@.take(i as int), *query).len(),
            forall|k: int| 0 <= k < r@.len() ==> card_of(selected(projects@.take(i as int), *query)[k], #[trigger] r@[k]),
        decreases projects@.len() - i,
    {
        assert(projects@.take(i + 1).drop_last() =~= projects@.take(i as int));
        assert(projects@.take(i + 1).last() == projects@[i as int]);
        if passes(&projects[i], query) {
            r.push(ProjectCard::from(&projects[i]));
        }
        i += 1;
    }
    assert(projects@.take(projects@.len() as int) =~= projects@);
    r
}

/// Whether the lowercased name or path of `p` contains the lowercased `text`.
pub open spec fn name_or_path_has(p: ProjectInfo, text: Seq<char>) -> bool {
    contains(lowercase(p.name@), lowercase(text)) || contains(lowercase(p.path@), lowercase(text))
}

/// Whether `p` passes the toolchain filter `t`: no filter, or `p` has exactly
/// that toolchain.
pub open spec fn toolchain_passes(p: ProjectInfo, t: Option<String>) -> bool {
    t matches Some(t) ==> (p.toolchain matches Some(pt) && pt@ == t@)
}

proof fn lemma_selected_keeps(ps: Seq<ProjectInfo>, query: ProjectsQuery, i: int)
    requires
        0 <= i < ps.len(),
        query_matches(ps[i], query),
    ensures
        selected(ps, query).contains(ps[i]),
    decreases ps.len(),
{
    if i == ps.len() - 1 {
        assert(selected(ps, query).last() == ps[i]);
    } else {
        assert(ps.drop_last()[i] == ps[i]);
        lemma_selected_keeps(ps.drop_last(), query, i);
        let k = choose|k: int| 0 <= k < selected(ps.drop_last(), query).len()
            && selected(ps.drop_last(), query)[k] == ps[i];
        if query_matches(ps.last(), query) {
            assert(selected(ps, query)[k] == ps[i]);
        }
    }
}

/// A project whose name or path contains the search text, case ignored, is
/// listed whenever it passes the toolchain filter, whatever else it holds.
pub proof fn law_search_hit_listed(ps: Seq<ProjectInfo>, query: ProjectsQuery, text: String, i: int)
    requires
        0 <= i < ps.len(),
        query.q == Some(text),
        name_or_path_has(ps[i], text@),
        toolchain_passes(ps[i], query.toolchain),
    ensures
        selected(ps, query).contains(ps[i]),
{
    lemma_selected_keeps(ps, query, i);
}

/// With no toolchain filter, a search that every project's name or path
/// contains lists every project, in order.
pub proof fn law_search_hit_everywhere(ps: Seq<ProjectInfo>, query: ProjectsQuery, text: String)
    requires
        query.q == Some(text),
        query.toolchain is None,
        forall|i: int| 0 <= i < ps.len() ==> name_or_path_has(#[trigger] ps[i], text@),
    ensures
        selected(ps, query) == ps,
    decreases ps.len(),
{
    if ps.len() > 0 {
        assert forall|i: int| 0 <= i < ps.drop_last().len() implies name_or_path_has(
            #[trigger] ps.drop_last()[i],
            text@,
        ) by {
            assert(ps.drop_last()[i] == ps[i]);
        }
        law_search_hit_everywhere(ps.drop_last(), query, text);
        assert(name_or_path_has(ps[ps.len() - 1], text@));
        assert(ps.drop_last().push(ps.last()) =~= ps);
    } else {
        assert(selected(ps, query) =~= ps);
    }
}

proof fn lemma_selected_match(ps: Seq<ProjectInfo>, query: ProjectsQuery, k: int)
    requires
        0 <= k < selected(ps, query).len(),
    ensures
        query_matches(selected(ps, query)[k], query),
    decreases ps.len(),
{
    if ps.len() > 0 {
        if query_matches(ps.last(), query) && k == selected(ps, query).len() - 1 {
        } else {
            lemma_selected_match(ps.drop_last(), query, k);
        }
    }
}

/// A project is listed only if it passes both filters: the search text, if
/// any, occurs in its lowercased name or path, and its toolchain is the one
/// asked for, if any.
pub proof fn law_listed_projects_pass_filters(ps: Seq<ProjectInfo>, query: ProjectsQuery, p: ProjectInfo)
    requires
        selected(ps, query).contains(p),
    ensures
        query.q matches Some(text) ==> name_or_path_has(p, text@),
        toolchain_passes(p, query.toolchain),
{
    let k = choose|k: int| 0 <= k < selected(ps, query).len() && selected(ps, query)[k] == p;
    lemma_selected_match(ps, query, k);
}

} // verus!
