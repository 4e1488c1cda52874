//! The project index: its records, its errors, and the operations that
//! register, look up and remove projects by name.
//!
//! Reading and writing the index file is the caller's business; `JsonStore`
//! holds the file's path and the index as it was read, and its operations
//! say what the index becomes.

use vstd::prelude::*;
use crate::order::{compare_chars, in_order, lemma_seq_lt_total, lemma_seq_lt_trans, seq_le, seq_lt, sort_ranked, Ranked};
use crate::text::{cat, cat3, chars_eq, chars_of};

verus! {

/// The metadata of one tracked project.
#[derive(Debug)]
pub struct ProjectInfo {
    pub name: String,
    pub path: String,
    pub python_version: Option<String>,
    pub toolchain: Option<String>,
    pub git_remote: Option<String>,
    pub git_branch: Option<String>,
    pub git_status: Option<String>,
    pub deps_count: Option<u64>,
    pub created_at: Option<String>,
    pub last_modified: Option<String>,
    pub tags: Vec<String>,
    pub description: Option<String>,
}

/// The index file's contents: a format version and the tracked projects,
/// each under a key (the name it was registered with), at most one per key.
#[derive(Debug)]
pub struct IndexData {
    pub version: String,
    pub projects: Vec<(String, ProjectInfo)>,
}

/// Failures of index operations.
#[derive(Debug)]
pub enum IndexError {
    /// The index file could not be read or written (the I/O error's text).
    StoreError(String),
    /// No project of that name is in the index.
    ProjectNotFound(String),
    /// A project of that name is already in the index.
    AlreadyTracked(String),
    /// The index file is not valid JSON for an index (the error's text).
    SerializationError(String),
}

impl IndexError {
    /// The message shown for the error.
    pub fn to_string(&self) -> (r: String)
        ensures
            match self {
                IndexError::StoreError(e) => r@ == "存储错误: "@ + e@,
                IndexError::ProjectNotFound(n) => r@ == "项目 '"@ + n@ + "' 不在索引中"@,
                IndexError::AlreadyTracked(n) => r@ == "项目 '"@ + n@ + "' 已在索引中"@,
                IndexError::SerializationError(e) => r@ == "序列化错误: "@ + e@,
            },
    {
        match self {
            IndexError::StoreError(e) => cat("存储错误: ", e.as_str()),
            IndexError::ProjectNotFound(n) => cat3("项目 '", n.as_str(), "' 不在索引中"),
            IndexError::AlreadyTracked(n) => cat3("项目 '", n.as_str(), "' 已在索引中"),
            IndexError::SerializationError(e) => cat("序列化错误: ", e.as_str()),
        }
    }
}

/// A copy of an optional string.
pub fn clone_opt(o: &Option<String>) -> (r: Option<String>)
    ensures
        r == *o,
{
    match o {
        Some(s) => Some(s.clone()),
        None => None,
    }
}

/// A copy of a vector of strings.
pub fn clone_strings(v: &Vec<String>) -> (r: Vec<String>)
    ensures
        r@ == v@,
{
    let mut r: Vec<String> = Vec::new();
    let mut i: usize = 0;
    while i < v.len()
        invariant
            i <= v@.len(),
            r@ == v@.take(i as int),
        decreases v@.len() - i,
    {
        r.push(v[i].clone());
        assert(r@ =~= v@.take(i + 1));
        i += 1;
    }
    assert(v@.take(v@.len() as int) =~= v@);
    r
}

/// Whether two records hold the same values.
pub open spec fn same_info(a: ProjectInfo, b: ProjectInfo) -> bool {
    &&& a.name == b.name
    &&& a.path == b.path
    &&& a.python_version == b.python_version
    &&& a.toolchain == b.toolchain
    &&& a.git_remote == b.git_remote
    &&& a.git_branch == b.git_branch
    &&& a.git_status == b.git_status
    &&& a.deps_count == b.deps_count
    &&& a.created_at == b.created_at
    &&& a.last_modified == b.last_modified
    &&& a.tags@ == b.tags@
    &&& a.description == b.description
}

impl ProjectInfo {
    /// A copy of this record.
    pub fn duplicate(&self) -> (r: ProjectInfo)
        ensures
            same_info(r, *self),
    {
        ProjectInfo {
            name: self.name.clone(),
            path: self.path.clone(),
            python_version: clone_opt(&self.python_version),
            toolchain: clone_opt(&self.toolchain),
            git_remote: clone_opt(&self.git_remote),
            git_branch: clone_opt(&self.git_branch),
            git_status: clone_opt(&self.git_status),
            deps_count: self.deps_count,
            created_at: clone_opt(&self.created_at),
            last_modified: clone_opt(&self.last_modified),
            tags: clone_strings(&self.tags),
            description: clone_opt(&self.description),
        }
    }
}

impl Ranked for ProjectInfo {
    /// Names in lexicographic order.
    open spec fn precedes(&self, other: &Self) -> bool {
        seq_le(self.name@, other.name@)
    }

    fn precedes_exec(&self, other: &Self) -> (r: bool) {
        let a = chars_of(self.name.as_str());
        let b = chars_of(other.name.as_str());
        compare_chars(a.as_slice(), b.as_slice()) != 1
    }

    proof fn precedes_total(a: &Self, b: &Self) {
        lemma_seq_lt_total(a.name@, b.name@);
    }

    proof fn precedes_trans(a: &Self, b: &Self, c: &Self) {
        if seq_lt(a.name@, b.name@) && seq_lt(b.name@, c.name@) {
            lemma_seq_lt_trans(a.name@, b.name@, c.name@);
        }
    }
}

/// The projects ordered by name, as `list` shows them.
pub fn sort_by_name(projects: Vec<ProjectInfo>) -> (r: Vec<ProjectInfo>)
    ensures
        r@.to_multiset() == projects@.to_multiset(),
        in_order(r@),
{
    sort_ranked(projects)
}

/// The projects of a sequence of keyed records, by key (a later record of a
/// key replaces an earlier one).
pub open spec fn index_map(s: Seq<(String, ProjectInfo)>) -> Map<Seq<char>, ProjectInfo>
    decreases s.len(),
{
    if s.len() == 0 {
        Map::empty()
    } else {
        index_map(s.drop_last()).insert(s.last().0@, s.last().1)
    }
}

/// Whether no two records share a key.
pub open spec fn names_unique(s: Seq<(String, ProjectInfo)>) -> bool {
    forall|i: int, j: int| #![trigger s[i], s[j]] 0 <= i < j < s.len() ==> s[i].0@ != s[j].0@
}

proof fn lemma_index_map_facts(s: Seq<(String, ProjectInfo)>)
    requires
        names_unique(s),
    ensures
        forall|k: Seq<char>|
            #[trigger] index_map(s).contains_key(k) <==> exists|i: int| 0 <= i < s.len() && s[i].0@ == k,
        forall|i: int| 0 <= i < s.len() ==> #[trigger] index_map(s)[s[i].0@] == s[i].1,
        index_map(s).dom().finite(),
        index_map(s).dom().len() == s.len(),
    decreases s.len(),
{
    if s.len() > 0 {
        let t = s.drop_last();
        assert(names_unique(t)) by {
            assert forall|i: int, j: int| #![trigger t[i], t[j]] 0 <= i < j < t.len() implies t[i].0@ != t[j].0@ by {
                assert(t[i] == s[i] && t[j] == s[j]);
            }
        }
        lemma_index_map_facts(t);
        let x = s.last();
        assert forall|k: Seq<char>| #[trigger] index_map(s).contains_key(k) <==> exists|i: int| 0 <= i < s.len() && s[i].0@ == k by {
            if index_map(s).contains_key(k) && k != x.0@ {
                let i = choose|i: int| 0 <= i < t.len() && t[i].0@ == k;
                assert(s[i] == t[i]);
            }
            if exists|i: int| 0 <= i < s.len() && s[i].0@ == k {
                let i = choose|i: int| 0 <= i < s.len() && s[i].0@ == k;
                if i < t.len() {
                    assert(s[i] == t[i]);
                }
            }
        }
        assert forall|i: int| 0 <= i < s.len() implies #[trigger] index_map(s)[s[i].0@] == s[i].1 by {
            if i < t.len() {
                assert(s[i] == t[i]);
                assert(s[i].0@ != x.0@);
            }
        }
        assert(!index_map(t).contains_key(x.0@)) by {
            if index_map(t).contains_key(x.0@) {
                let i = choose|i: int| 0 <= i < t.len() && t[i].0@ == x.0@;
                assert(s[i] == t[i]);
            }
        }
    }
}

proof fn lemma_index_map_prepend(x: (String, ProjectInfo), p: Seq<(String, ProjectInfo)>)
    ensures
        index_map(seq![x] + p) == if index_map(p).contains_key(x.0@) {
            index_map(p)
        } else {
            index_map(p).insert(x.0@, x.1)
        },
    decreases p.len(),
{
    if p.len() == 0 {
        assert(seq![x] + p =~= seq![x]);
        assert(seq![x].drop_last() =~= Seq::<(String, ProjectInfo)>::empty());
        assert(index_map(seq![x]) == index_map(Seq::<(String, ProjectInfo)>::empty()).insert(x.0@, x.1));
    } else {
        let q = seq![x] + p;
        let p2 = p.drop_last();
        let l = p.last();
        assert(q.drop_last() =~= seq![x] + p2);
        assert(q.last() == l);
        lemma_index_map_prepend(x, p2);
        let m2 = index_map(p2);
        assert(index_map(q) == index_map(seq![x] + p2).insert(l.0@, l.1));
        assert(index_map(p) == m2.insert(l.0@, l.1));
        if x.0@ == l.0@ {
            if m2.contains_key(x.0@) {
                assert(m2.insert(l.0@, l.1) =~= m2.insert(l.0@, l.1));
            } else {
                assert(m2.insert(x.0@, x.1).insert(l.0@, l.1) =~= m2.insert(l.0@, l.1));
            }
        } else {
            if !m2.contains_key(x.0@) {
                assert(m2.insert(x.0@, x.1).insert(l.0@, l.1) =~= m2.insert(l.0@, l.1).insert(x.0@, x.1));
            }
        }
    }
}

impl IndexData {
    /// Whether the index is well formed: at most one record per name.
    pub open spec fn wf(&self) -> bool {
        names_unique(self.projects@)
    }

    /// The tracked projects by name.
    pub open spec fn view(&self) -> Map<Seq<char>, ProjectInfo> {
        index_map(self.projects@)
    }

    /// An empty index of format version `1.0`.
    pub fn empty() -> (r: IndexData)
        ensures
            r.wf(),
            r.version@ == "1.0"@,
            r.projects@.len() == 0,
            r.view() == Map::<Seq<char>, ProjectInfo>::empty(),
    {
        IndexData { version: String::from_str("1.0"), projects: Vec::new() }
    }

    /// The position of the record named `name`, if any.
    fn position_of(&self, name: &[char]) -> (r: Option<usize>)
        ensures
            match r {
                Some(i) => i < self.projects@.len() && self.projects@[i as int].0@ == name@,
                None => forall|i: int| 0 <= i < self.projects@.len() ==> #[trigger] self.projects@[i].0@ != name@,
            },
    {
        let mut i: usize = 0;
        while i < self.projects.len()
            invariant
                i <= self.projects@.len(),
                forall|j: int| 0 <= j < i ==> #[trigger] self.projects@[j].0@ != name@,
            decreases self.projects@.len() - i,
        {
            let n = chars_of(self.projects[i].0.as_str());
            if chars_eq(n.as_slice(), name) {
                return Some(i);
            }
            i += 1;
        }
        None
    }

    /// An index made of keyed records as they were read; of records under
    /// the same key the later one stays, as when a JSON object repeats a key.
    pub fn from_records(version: String, records: Vec<(String, ProjectInfo)>) -> (r: IndexData)
        ensures
            r.wf(),
            r.version == version,
            r.view() == index_map(records@),
    {
        let ghost all = records@;
        let mut out = IndexData { version, projects: Vec::new() };
        let mut records = records;
        assert(all.skip(all.len() as int) =~= Seq::<(String, ProjectInfo)>::empty());
        while records.len() > 0
            invariant
                out.wf(),
                out.version == version,
                records@ == all.take(records@.len() as int),
                records@.len() <= all.len(),
                index_map(out.projects@) == index_map(all.skip(records@.len() as int)),
            decreases records@.len(),
        {
            let ghost rest = all.skip(records@.len() as int);
            let x = records.pop().unwrap();
            let ghost j = records@.len() as int;
            assert(x == all[j]);
            assert(all.skip(j) =~= seq![x] + rest);
            assert(records@ =~= all.take(j));
            proof {
                lemma_index_map_prepend(x, rest);
                lemma_index_map_facts(out.projects@);
            }
            let key = chars_of(x.0.as_str());
            match out.position_of(key.as_slice()) {
                Some(p) => {},
                None => {
                    let ghost before = out.projects@;
                    out.projects.push(x);
                    proof {
                        assert(out.projects@.drop_last() =~= before);
                        assert forall|a: int, b: int| #![trigger out.projects@[a], out.projects@[b]] 0 <= a < b < out.projects@.len() implies out.projects@[a].0@ != out.projects@[b].0@ by {
                            assert(out.projects@[a] == before[a]);
                            if b < before.len() {
                                assert(out.projects@[b] == before[b]);
                            }
                        }
                    }
                },
            }
        }
        assert(all.skip(0) =~= all);
        out
    }

    /// Registers a project; a project of the same name must not be tracked yet.
    pub fn add_project(&mut self, info: ProjectInfo) -> (r: Result<(), IndexError>)
        requires
            old(self).wf(),
        ensures
            final(self).wf(),
            final(self).version == old(self).version,
            old(self).view().contains_key(info.name@) ==> r == Err::<(), IndexError>(
                IndexError::AlreadyTracked(info.name),
            ) && final(self).view() == old(self).view() && final(self).projects@ == old(
                self,
            ).projects@,
            !old(self).view().contains_key(info.name@) ==> r is Ok && final(self).view() == old(
                self,
            ).view().insert(info.name@, info) && final(self).projects@.len() == old(
                self,
            ).projects@.len() + 1,
    {
        proof {
            lemma_index_map_facts(self.projects@);
        }
        let key = chars_of(info.name.as_str());
        match self.position_of(key.as_slice()) {
            Some(i) => Err(IndexError::AlreadyTracked(info.name)),
            None => {
                let ghost before = self.projects@;
                let key = info.name.clone();
                self.projects.push((key, info));
                proof {
                    assert(self.projects@.drop_last() =~= before);
                    assert forall|a: int, b: int| #![trigger self.projects@[a], self.projects@[b]] 0 <= a < b < self.projects@.len() implies self.projects@[a].0@ != self.projects@[b].0@ by {
                        if b < before.len() {
                            assert(self.projects@[a] == before[a] && self.projects@[b] == before[b]);
                        } else {
                            assert(self.projects@[a] == before[a]);
                        }
                    }
                }
                Ok(())
            },
        }
    }

    /// Removes the project named `name`; it must be tracked.
    pub fn remove_project(&mut self, name: &str) -> (r: Result<(), IndexError>)
        requires
            old(self).wf(),
        ensures
            final(self).wf(),
            final(self).version == old(self).version,
            !old(self).view().contains_key(name@) ==> (r matches Err(IndexError::ProjectNotFound(
                n,
            )) && n@ == name@) && final(self).view() == old(self).view() && final(self).projects@
                == old(self).projects@,
            old(self).view().contains_key(name@) ==> r is Ok && final(self).view() == old(
                self,
            ).view().remove(name@),
    {
        proof {
            lemma_index_map_facts(self.projects@);
        }
        let key = chars_of(name);
        match self.position_of(key.as_slice()) {
            None => Err(IndexError::ProjectNotFound(String::from_str(name))),
            Some(i) => {
                let ghost before = self.projects@;
                self.projects.remove(i);
                proof {
                    let after = self.projects@;
                    assert(after =~= before.remove(i as int));
                    before.remove_ensures(i as int);
                    assert(names_unique(after)) by {
                        assert forall|a: int, b: int| #![trigger after[a], after[b]] 0 <= a < b < after.len() implies after[a].0@ != after[b].0@ by {
                            let a2 = if a < i { a } else { a + 1 };
                            let b2 = if b < i { b } else { b + 1 };
                            assert(after[a] == before[a2] && after[b] == before[b2]);
                        }
                    }
                    lemma_index_map_facts(after);
                    assert(index_map(after) =~= index_map(before).remove(name@)) by {
                        assert forall|k: Seq<char>| #[trigger] index_map(after).contains_key(k) <==> index_map(before).remove(name@).contains_key(k) by {
                            if index_map(after).contains_key(k) {
                                let a = choose|a: int| 0 <= a < after.len() && after[a].0@ == k;
                                let a2 = if a < i { a } else { a + 1 };
                                assert(after[a] == before[a2]);
                                assert(a2 != i);
                            }
                            if index_map(before).remove(name@).contains_key(k) {
                                let b = choose|b: int| 0 <= b < before.len() && before[b].0@ == k;
                                assert(b != i);
                                let b2 = if b < i { b } else { b - 1 };
                                assert(after[b2] == before[b]);
                            }
                        }
                        assert forall|k: Seq<char>| #[trigger] index_map(after).contains_key(k) implies index_map(after)[k] == index_map(before)[k] by {
                            let a = choose|a: int| 0 <= a < after.len() && after[a].0@ == k;
                            let a2 = if a < i { a } else { a + 1 };
                            assert(after[a] == before[a2]);
                        }
                    }
                }
                Ok(())
            },
        }
    }

    /// The record of the project named `name`.
    pub fn get_project(&self, name: &str) -> (r: Option<ProjectInfo>)
        requires
            self.wf(),
        ensures
            self.view().contains_key(name@) ==> (r matches Some(p) && same_info(p, self.view()[name@])),
            !self.view().contains_key(name@) ==> r is None,
    {
        proof {
            lemma_index_map_facts(self.projects@);
        }
        let key = chars_of(name);
        match self.position_of(key.as_slice()) {
            Some(i) => Some(self.projects[i].1.duplicate()),
            None => None,
        }
    }

    /// Every tracked project, each once.
    pub fn list_projects(&self) -> (r: Vec<ProjectInfo>)
        requires
            self.wf(),
        ensures
            r@.len() == self.projects@.len(),
            forall|i: int| 0 <= i < r@.len() ==> same_info(#[trigger] r@[i], self.projects@[i].1),
            r@.len() == self.view().dom().len(),
            forall|i: int| 0 <= i < r@.len() ==> #[trigger] self.view().contains_key(self.projects@[i].0@)
                && same_info(self.view()[self.projects@[i].0@], r@[i]),
            forall|k: Seq<char>| #[trigger] self.view().contains_key(k) ==> exists|i: int| 0 <= i < r@.len() && self.projects@[i].0@ == k && same_info(r@[i], self.view()[k]),
    {
        proof {
            lemma_index_map_facts(self.projects@);
        }
        let mut r: Vec<ProjectInfo> = Vec::new();
        let mut i: usize = 0;
        while i < self.projects.len()
            invariant
                i <= self.projects@.len(),
                r@.len() == i,
                forall|j: int| 0 <= j < i ==> same_info(#[trigger] r@[j], self.projects@[j].1),
            decreases self.projects@.len() - i,
        {
            r.push(self.projects[i].1.duplicate());
            i += 1;
        }
        proof {
            assert forall|k: Seq<char>| #[trigger] self.view().contains_key(k) implies exists|i: int| 0 <= i < r@.len() && self.projects@[i].0@ == k && same_info(r@[i], self.view()[k]) by {
                let i = choose|i: int| 0 <= i < self.projects@.len() && self.projects@[i].0@ == k;
                assert(same_info(r@[i], self.projects@[i].1));
            }
            assert forall|i: int| 0 <= i < r@.len() implies #[trigger] self.view().contains_key(self.projects@[i].0@)
                && same_info(self.view()[self.projects@[i].0@], r@[i]) by {
                assert(same_info(r@[i], self.projects@[i].1));
            }
        }
        r
    }
}

/// What reading the index file gave.
#[derive(Debug)]
pub enum StoreRead {
    /// There is no index file yet.
    Missing,
    /// Opening or inspecting the file failed (the error's text).
    Failed(String),
    /// The file is larger than `MAX_INDEX_BYTES`.
    TooLarge,
    /// The file is not a valid index (the parser's message).
    Invalid(String),
    /// The file's format version and its records, keyed by name.
    Parsed(String, Vec<(String, ProjectInfo)>),
}

/// The largest index file that is read (10 MiB); a larger one is taken to be
/// damaged.
pub const MAX_INDEX_BYTES: u64 = 10485760;

/// Whether an index file of `size` bytes is too large to be read.
pub fn too_large(size: u64) -> (r: bool)
    ensures
        r == (size > MAX_INDEX_BYTES),
{
    size > MAX_INDEX_BYTES
}

/// The index as read from its JSON file, with the file's path. Writing the
/// file after a change is the caller's business.
#[derive(Debug)]
pub struct JsonStore {
    path: String,
    cache: IndexData,
}

impl JsonStore {
    /// Whether the held index is well formed.
    pub open spec fn wf(&self) -> bool {
        self.index().wf()
    }

    /// The held index.
    pub closed spec fn index(&self) -> IndexData {
        self.cache
    }

    /// The path of the index file.
    pub closed spec fn file(&self) -> Seq<char> {
        self.path@
    }

    /// The tracked projects by name.
    pub open spec fn view(&self) -> Map<Seq<char>, ProjectInfo> {
        self.index().view()
    }

    /// The store for the index file at `path`, from what reading it gave: a
    /// missing file is an empty index; a file that could not be read, that
    /// is too large, or that is not a valid index is an error.
    pub fn load_or_create(path: String, read: StoreRead) -> (r: Result<JsonStore, IndexError>)
        ensures
            match read {
                StoreRead::Missing => (r matches Ok(st) && st.wf() && st.file() == path@ && st.index().version@
                    == "1.0"@ && st.view() == Map::<Seq<char>, ProjectInfo>::empty()),
                StoreRead::Failed(e) => (r matches Err(IndexError::StoreError(m)) && m@ == e@),
                StoreRead::TooLarge => (r matches Err(IndexError::StoreError(m)) && m@ == "索引文件过大，可能已损坏"@),
                StoreRead::Invalid(e) => (r matches Err(IndexError::SerializationError(m)) && m@ == e@),
                StoreRead::Parsed(v, recs) => (r matches Ok(st) && st.wf() && st.file() == path@
                    && st.index().version == v && st.view() == index_map(recs@)),
            },
    {
        match read {
            StoreRead::Missing => Ok(JsonStore { path, cache: IndexData::empty() }),
            StoreRead::Failed(e) => Err(IndexError::StoreError(e)),
            StoreRead::TooLarge => Err(IndexError::StoreError(String::from_str("索引文件过大，可能已损坏"))),
            StoreRead::Invalid(e) => Err(IndexError::SerializationError(e)),
            StoreRead::Parsed(v, recs) => Ok(JsonStore { path, cache: IndexData::from_records(v, recs) }),
        }
    }

    /// The path of the index file.
    pub fn path(&self) -> (r: &String)
        ensures
            r@ == self.file(),
    {
        &self.path
    }

    /// The held index, to be written to the file.
    pub fn data(&self) -> (r: &IndexData)
        ensures
            *r == self.index(),
    {
        &self.cache
    }
}

/// Whether `p` holds the values of some project of `m`.
pub open spec fn holds_in(m: Map<Seq<char>, ProjectInfo>, p: ProjectInfo) -> bool {
    exists|k: Seq<char>| #[trigger] m.contains_key(k) && same_info(m[k], p)
}

/// The operations of an index store: registering, removing, looking up and
/// listing projects, stated over the tracked projects by name.
pub trait IndexStore {
    /// Whether the store is well formed.
    spec fn well_formed(&self) -> bool;

    /// The tracked projects by name.
    spec fn projects(&self) -> Map<Seq<char>, ProjectInfo>;

    /// Registers a project; a project of the same name must not be tracked.
    fn add_project(&mut self, info: ProjectInfo) -> (r: Result<(), IndexError>)
        requires
            old(self).well_formed(),
        ensures
            final(self).well_formed(),
            old(self).projects().contains_key(info.name@) ==> r == Err::<(), IndexError>(
                IndexError::AlreadyTracked(info.name),
            ) && final(self).projects() == old(self).projects(),
            !old(self).projects().contains_key(info.name@) ==> r is Ok && final(self).projects() == old(
                self,
            ).projects().insert(info.name@, info),
    ;

    /// Removes the project named `name`; it must be tracked.
    fn remove_project(&mut self, name: &str) -> (r: Result<(), IndexError>)
        requires
            old(self).well_formed(),
        ensures
            final(self).well_formed(),
            !old(self).projects().contains_key(name@) ==> (r matches Err(IndexError::ProjectNotFound(
                n,
            )) && n@ == name@) && final(self).projects() == old(self).projects(),
            old(self).projects().contains_key(name@) ==> r is Ok && final(self).projects() == old(
                self,
            ).projects().remove(name@),
    ;

    /// The record of the project named `name`.
    fn get_project(&self, name: &str) -> (r: Option<ProjectInfo>)
        requires
            self.well_formed(),
        ensures
            self.projects().contains_key(name@) ==> (r matches Some(p) && same_info(p, self.projects()[name@])),
            !self.projects().contains_key(name@) ==> r is None,
    ;

    /// Every tracked project, each once.
    fn list_projects(&self) -> (r: Vec<ProjectInfo>)
        requires
            self.well_formed(),
        ensures
            r@.len() == self.projects().dom().len(),
            forall|k: Seq<char>| #[trigger] self.projects().contains_key(k) ==> exists|i: int|
                0 <= i < r@.len() && same_info(r@[i], self.projects()[k]),
            forall|i: int| 0 <= i < r@.len() ==> holds_in(self.projects(), #[trigger] r@[i]),
    ;
}

impl IndexStore for JsonStore {
    open spec fn well_formed(&self) -> bool {
        self.wf()
    }

    open spec fn projects(&self) -> Map<Seq<char>, ProjectInfo> {
        self.view()
    }

    fn add_project(&mut self, info: ProjectInfo) -> (r: Result<(), IndexError>)
        ensures
            final(self).index().version == old(self).index().version,
            final(self).file() == old(self).file(),
    {
        self.cache.add_project(info)
    }

    fn remove_project(&mut self, name: &str) -> (r: Result<(), IndexError>)
        ensures
            final(self).index().version == old(self).index().version,
            final(self).file() == old(self).file(),
    {
        self.cache.remove_project(name)
    }

    fn get_project(&self, name: &str) -> (r: Option<ProjectInfo>) {
        self.cache.get_project(name)
    }

    fn list_projects(&self) -> (r: Vec<ProjectInfo>) {
        let r = self.cache.list_projects();
        proof {
            assert(self.view() == self.cache.view());
            assert(self.projects() == self.cache.view());
            assert forall|k: Seq<char>| #[trigger] self.projects().contains_key(k) implies exists|i: int|
                0 <= i < r@.len() && same_info(r@[i], self.projects()[k]) by {
                assert(self.cache.view().contains_key(k));
            }
            assert forall|i: int| 0 <= i < r@.len() implies holds_in(self.projects(), #[trigger] r@[i]) by {
                let k = self.cache.projects@[i].0@;
                assert(self.cache.view().contains_key(self.cache.projects@[i].0@));
                assert(same_info(self.cache.view()[k], r@[i]));
                assert(self.projects().contains_key(k));
            }
        }
        r
    }
}

/// Registering a project that is not tracked yet makes it found under its
/// name with the values it was registered with, and leaves every other name
/// as it was; the index grows by one.
pub proof fn law_add_then_get(before: Map<Seq<char>, ProjectInfo>, info: ProjectInfo)
    requires
        before.dom().finite(),
        !before.contains_key(info.name@),
    ensures
        before.insert(info.name@, info).contains_key(info.name@),
        before.insert(info.name@, info)[info.name@] == info,
        forall|k: Seq<char>| k != info.name@ ==> (#[trigger] before.insert(info.name@, info).contains_key(k)
            == before.contains_key(k)),
        forall|k: Seq<char>| k != info.name@ && before.contains_key(k) ==> #[trigger] before.insert(
            info.name@,
            info,
        )[k] == before[k],
        before.insert(info.name@, info).dom().len() == before.dom().len() + 1,
{
}

/// Removing a project that was just registered gives back the index as it
/// was before.
pub proof fn law_add_then_remove(before: Map<Seq<char>, ProjectInfo>, info: ProjectInfo)
    requires
        !before.contains_key(info.name@),
    ensures
        before.insert(info.name@, info).remove(info.name@) == before,
{
    assert(before.insert(info.name@, info).remove(info.name@) =~= before);
}

/// After a removal the name is no longer tracked, and nothing else changed.
pub proof fn law_remove_then_absent(before: Map<Seq<char>, ProjectInfo>, name: Seq<char>)
    ensures
        !before.remove(name).contains_key(name),
        forall|k: Seq<char>| k != name ==> (#[trigger] before.remove(name).contains_key(k) == before.contains_key(k)),
{
}

/// An index read from records lists each of their names once, with the
/// values of the last record under that name.
pub proof fn law_records_last_wins(records: Seq<(String, ProjectInfo)>, i: int)
    requires
        0 <= i < records.len(),
        forall|j: int| i < j < records.len() ==> #[trigger] records[j].0@ != records[i].0@,
    ensures
        index_map(records).contains_key(records[i].0@),
        index_map(records)[records[i].0@] == records[i].1,
    decreases records.len(),
{
    if i < records.len() - 1 {
        let s = records.drop_last();
        assert forall|j: int| i < j < s.len() implies #[trigger] s[j].0@ != s[i].0@ by {
            assert(s[j] == records[j]);
        }
        law_records_last_wins(s, i);
        assert(records.last() == records[records.len() - 1]);
    }
}

} // verus!
