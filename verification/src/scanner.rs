//! The decisions of a directory scan for Python projects: which directories
//! are skipped, how deep the scan goes, what counts as a project, and the
//! order of the results (by path, component by component).
//!
//! Walking the file system is the caller's business.

use vstd::prelude::*;
use crate::detector::{confidence_of, detect, toolchain_of, version_of, Confidence, Detection, ProjectFiles};
use crate::i18n::loader::last_dot;
use crate::order::{
    compare_chars, in_order, lemma_seq_lt_irrefl, lemma_seq_lt_total, lemma_seq_lt_trans, seq_lt,
    sort_ranked, Ranked,
};
use crate::text::{chars_of, split, split_chars, str_eq, string_of, sub_chars, views};

verus! {

/// A project found by a scan.
#[derive(Debug)]
pub struct ScanResult {
    pub name: String,
    pub path: String,
    pub confidence: Confidence,
    pub python_version: Option<String>,
    pub toolchain: Option<String>,
}

/// The directory names a scan never enters.
pub open spec fn skipped_names() -> Seq<Seq<char>> {
    seq![".git"@, "node_modules"@, "target"@, "__pycache__"@, ".venv"@, "venv"@]
}

/// Whether a directory with this name (none for a root such as `/`) is
/// skipped.
pub fn should_skip(name: Option<&str>) -> (r: bool)
    ensures
        r == match name {
            Some(n) => skipped_names().contains(n@),
            None => false,
        },
{
    match name {
        None => false,
        Some(n) => {
            let r = str_eq(n, ".git") || str_eq(n, "node_modules") || str_eq(n, "target") || str_eq(
                n,
                "__pycache__",
            ) || str_eq(n, ".venv") || str_eq(n, "venv");
            proof {
                let s = skipped_names();
                if r {
                    if n@ == ".git"@ {
                        assert(s[0] == n@);
                    } else if n@ == "node_modules"@ {
                        assert(s[1] == n@);
                    } else if n@ == "target"@ {
                        assert(s[2] == n@);
                    } else if n@ == "__pycache__"@ {
                        assert(s[3] == n@);
                    } else if n@ == ".venv"@ {
                        assert(s[4] == n@);
                    } else {
                        assert(s[5] == n@);
                    }
                }
            }
            r
        },
    }
}

/// Whether a directory at depth `depth` (the root is 0) is within the limit;
/// no limit means any depth.
pub fn within_depth(depth: usize, max_depth: Option<usize>) -> (r: bool)
    ensures
        r == match max_depth {
            Some(m) => depth <= m,
            None => true,
        },
{
    match max_depth {
        Some(m) => depth <= m,
        None => true,
    }
}

/// The extension of a file name as `Path::extension` gives it: the part after
/// the last `.`, unless that `.` is the first character.
pub open spec fn extension_of(name: Seq<char>) -> Option<Seq<char>> {
    match last_dot(name) {
        Some(d) => if d > 0 {
            Some(name.skip(d + 1))
        } else {
            None
        },
        None => None,
    }
}

/// Whether a file name has the extension `py`.
pub fn is_py_file(name: &str) -> (r: bool)
    ensures
        r == (extension_of(name@) == Some("py"@)),
{
    let v = chars_of(name);
    let mut i: usize = v.len();
    assert(v@.take(v@.len() as int) =~= v@);
    while i > 0
        invariant
            i <= v@.len(),
            v@ == name@,
            last_dot(v@) == last_dot(v@.take(i as int)),
        decreases i,
    {
        assert(v@.take(i as int).drop_last() =~= v@.take(i - 1));
        assert(v@.take(i as int).last() == v@[i - 1]);
        if v[i - 1] == '.' {
            assert(last_dot(v@) == Some(i - 1));
            if i - 1 == 0 {
                return false;
            }
            let ext = sub_chars(v.as_slice(), i, v.len());
            assert(ext@ =~= v@.skip(i as int));
            let e = string_of(ext.as_slice());
            return str_eq(e.as_str(), "py");
        }
        i -= 1;
    }
    false
}

/// Whether a directory is a Python project: it holds a `pyproject.toml`, a
/// `setup.py` or a `.py` file.
pub fn is_python_project(files: &ProjectFiles, has_py_file: bool) -> (r: bool)
    ensures
        r == (files.pyproject_toml || files.setup_py || has_py_file),
{
    files.pyproject_toml || files.setup_py || has_py_file
}

/// The result for a project directory.
pub fn scan_result(name: String, path: String, d: Detection) -> (r: ScanResult)
    ensures
        r.name == name,
        r.path == path,
        r.confidence == d.confidence,
        r.python_version == d.python_version,
        r.toolchain == d.toolchain,
{
    ScanResult {
        name,
        path,
        confidence: d.confidence,
        python_version: d.python_version,
        toolchain: d.toolchain,
    }
}

/// The non-empty pieces of `s`, in order.
pub open spec fn nonempty(s: Seq<Seq<char>>) -> Seq<Seq<char>>
    decreases s.len(),
{
    if s.len() == 0 {
        Seq::empty()
    } else if s.last().len() > 0 {
        nonempty(s.drop_last()).push(s.last())
    } else {
        nonempty(s.drop_last())
    }
}

/// The components of a `/`-separated path (empty pieces dropped).
pub open spec fn path_parts(p: Seq<char>) -> Seq<Seq<char>> {
    nonempty(split(p, '/'))
}

/// Lexicographic order of component lists, each component by `seq_lt`.
pub open spec fn parts_lt(a: Seq<Seq<char>>, b: Seq<Seq<char>>) -> bool
    decreases a.len(),
{
    if a.len() == 0 {
        b.len() > 0
    } else if b.len() == 0 {
        false
    } else if a[0] != b[0] {
        seq_lt(a[0], b[0])
    } else {
        parts_lt(a.drop_first(), b.drop_first())
    }
}

proof fn lemma_parts_lt_trans(a: Seq<Seq<char>>, b: Seq<Seq<char>>, c: Seq<Seq<char>>)
    requires
        parts_lt(a, b),
        parts_lt(b, c),
    ensures
        parts_lt(a, c),
    decreases a.len(),
{
    if a.len() > 0 && b.len() > 0 && c.len() > 0 {
        if a[0] == b[0] && b[0] == c[0] {
            lemma_parts_lt_trans(a.drop_first(), b.drop_first(), c.drop_first());
        } else if a[0] != b[0] && b[0] != c[0] {
            lemma_seq_lt_trans(a[0], b[0], c[0]);
            if a[0] == c[0] {
                lemma_seq_lt_irrefl(a[0]);
            }
        }
    }
}

proof fn lemma_parts_lt_total(a: Seq<Seq<char>>, b: Seq<Seq<char>>)
    ensures
        a == b || parts_lt(a, b) || parts_lt(b, a),
    decreases a.len(),
{
    if a.len() > 0 && b.len() > 0 {
        if a[0] == b[0] {
            lemma_parts_lt_total(a.drop_first(), b.drop_first());
            if a.drop_first() == b.drop_first() {
                assert(a =~= seq![a[0]] + a.drop_first());
                assert(b =~= seq![b[0]] + b.drop_first());
            }
        } else {
            lemma_seq_lt_total(a[0], b[0]);
        }
    } else if a.len() == 0 && b.len() == 0 {
        assert(a =~= b);
    }
}

fn parts_of(p: &str) -> (r: Vec<Vec<char>>)
    ensures
        views(r@) == path_parts(p@),
{
    let c = chars_of(p);
    let pieces = split_chars(c.as_slice(), '/');
    let ghost pv = views(pieces@);
    let mut r: Vec<Vec<char>> = Vec::new();
    let mut i: usize = 0;
    while i < pieces.len()
        invariant
            i <= pieces@.len(),
            pv == views(pieces@),
            pv == split(p@, '/'),
            views(r@) == nonempty(pv.take(i as int)),
        decreases pieces@.len() - i,
    {
        assert(pv.take(i + 1).drop_last() =~= pv.take(i as int));
        assert(pv.take(i + 1).last() == pieces@[i as int]@);
        if pieces[i].len() > 0 {
            let ghost before = r@;
            let x = sub_chars(pieces[i].as_slice(), 0, pieces[i].len());
            assert(x@ =~= pieces@[i as int]@);
            r.push(x);
            assert(views(r@) =~= views(before).push(x@));
        }
        i += 1;
    }
    assert(pv.take(pv.len() as int) =~= pv);
    r
}

fn compare_parts(a: &Vec<Vec<char>>, b: &Vec<Vec<char>>) -> (r: i8)
    ensures
        r == -1 <==> parts_lt(views(a@), views(b@)),
        r == 0 <==> views(a@) == views(b@),
        r == 1 <==> parts_lt(views(b@), views(a@)),
        r == -1 || r == 0 || r == 1,
{
    let ghost av = views(a@);
    let ghost bv = views(b@);
    let mut i: usize = 0;
    assert(av.skip(0) =~= av);
    assert(bv.skip(0) =~= bv);
    while i < a.len() && i < b.len() && compare_chars(a[i].as_slice(), b[i].as_slice()) == 0
        invariant
            i <= a@.len(),
            i <= b@.len(),
            av == views(a@),
            bv == views(b@),
            av.take(i as int) == bv.take(i as int),
            parts_lt(av, bv) == parts_lt(av.skip(i as int), bv.skip(i as int)),
            parts_lt(bv, av) == parts_lt(bv.skip(i as int), av.skip(i as int)),
        decreases a@.len() - i,
    {
        assert(av.skip(i as int).drop_first() =~= av.skip(i + 1));
        assert(bv.skip(i as int).drop_first() =~= bv.skip(i + 1));
        assert(av.take(i + 1) =~= av.take(i as int).push(av[i as int]));
        assert(bv.take(i + 1) =~= bv.take(i as int).push(bv[i as int]));
        i += 1;
    }
    proof {
        lemma_parts_lt_total(av, bv);
        if parts_lt(av, bv) && parts_lt(bv, av) {
            lemma_parts_lt_trans(av, bv, av);
        }
        lemma_parts_lt_irrefl(av);
    }
    if i == a.len() && i == b.len() {
        assert(av =~= av.take(i as int));
        assert(bv =~= bv.take(i as int));
        0
    } else if i == a.len() {
        assert(av.skip(i as int).len() == 0);
        -1
    } else if i == b.len() {
        assert(bv.skip(i as int).len() == 0);
        1
    } else {
        let c = compare_chars(a[i].as_slice(), b[i].as_slice());
        assert(av.skip(i as int)[0] == av[i as int]);
        assert(bv.skip(i as int)[0] == bv[i as int]);
        c
    }
}

proof fn lemma_parts_lt_irrefl(a: Seq<Seq<char>>)
    ensures
        !parts_lt(a, a),
    decreases a.len(),
{
    if a.len() > 0 {
        lemma_parts_lt_irrefl(a.drop_first());
    }
}

impl Ranked for ScanResult {
    /// Paths in component order.
    open spec fn precedes(&self, other: &Self) -> bool {
        parts_lt(path_parts(self.path@), path_parts(other.path@)) || path_parts(self.path@)
            == path_parts(other.path@)
    }

    fn precedes_exec(&self, other: &Self) -> (r: bool) {
        let a = parts_of(self.path.as_str());
        let b = parts_of(other.path.as_str());
        compare_parts(&a, &b) != 1
    }

    proof fn precedes_total(a: &Self, b: &Self) {
        lemma_parts_lt_total(path_parts(a.path@), path_parts(b.path@));
    }

    proof fn precedes_trans(a: &Self, b: &Self, c: &Self) {
        let (x, y, z) = (path_parts(a.path@), path_parts(b.path@), path_parts(c.path@));
        if parts_lt(x, y) && parts_lt(y, z) {
            lemma_parts_lt_trans(x, y, z);
        }
    }
}

/// The results ordered by path, component by component.
pub fn sort_results(results: Vec<ScanResult>) -> (r: Vec<ScanResult>)
    ensures
        r@.to_multiset() == results@.to_multiset(),
        in_order(r@),
{
    sort_ranked(results)
}

/// A directory waiting to be looked at: its path, its name (none for a root
/// such as `/`) and its depth below the scanned directory.
#[derive(Debug)]
pub struct DirTask {
    pub path: String,
    pub name: Option<String>,
    pub depth: usize,
}

/// What a directory holds: its marker files, whether it holds a `.py` file,
/// the text of its `pyproject.toml` when it could be read, and its
/// subdirectories (path and name).
#[derive(Debug)]
pub struct DirFacts {
    pub files: ProjectFiles,
    pub has_py_file: bool,
    pub pyproject: Option<String>,
    pub subdirs: Vec<(String, Option<String>)>,
}

/// A scan in progress: the depth limit, the directories still to look at
/// (the last one next) and the projects found so far.
#[derive(Debug)]
pub struct ScanWalk {
    pub max_depth: Option<usize>,
    pub pending: Vec<DirTask>,
    pub results: Vec<ScanResult>,
}

/// Whether a directory is entered at all: within the depth limit and not
/// one of the skipped names.
pub open spec fn admitted(t: DirTask, max_depth: Option<usize>) -> bool {
    &&& match max_depth {
        Some(m) => t.depth <= m,
        None => true,
    }
    &&& match t.name {
        Some(n) => !skipped_names().contains(n@),
        None => true,
    }
}

/// Whether `r` is the result for the project directory `t` with facts `f`:
/// named after the directory (its path when it has no name), detected from
/// its marker files.
pub open spec fn result_of(t: DirTask, f: DirFacts, r: ScanResult) -> bool {
    &&& r.name@ == match t.name {
        Some(n) => n@,
        None => t.path@,
    }
    &&& r.path@ == t.path@
    &&& r.confidence == confidence_of(f.files)
    &&& match r.python_version {
        Some(v) => version_of(f.files, match f.pyproject {
            Some(c) => Some(c@),
            None => None,
        }) == Some(v@),
        None => version_of(f.files, match f.pyproject {
            Some(c) => Some(c@),
            None => None,
        }) is None,
    }
    &&& match r.toolchain {
        Some(tc) => toolchain_of(f.files) == Some(tc@),
        None => toolchain_of(f.files) is None,
    }
}

impl ScanWalk {
    /// A scan of the directory at `root` (named `name`), at most `max_depth`
    /// levels deep when a limit is given.
    pub fn new(root: String, name: Option<String>, max_depth: Option<usize>) -> (r: ScanWalk)
        ensures
            r.max_depth == max_depth,
            r.pending@.len() == 1,
            r.pending@[0].path == root && r.pending@[0].name == name && r.pending@[0].depth == 0,
            r.results@.len() == 0,
    {
        let mut pending: Vec<DirTask> = Vec::new();
        pending.push(DirTask { path: root, name, depth: 0 });
        ScanWalk { max_depth, pending, results: Vec::new() }
    }

    /// The next directory to look at: waiting directories are taken from the
    /// end, and those beyond the depth limit or with a skipped name are
    /// dropped; `None` when none is left.
    pub fn next_dir(&mut self) -> (r: Option<DirTask>)
        ensures
            final(self).max_depth == old(self).max_depth,
            final(self).results@ == old(self).results@,
            final(self).pending@ == old(self).pending@.take(final(self).pending@.len() as int),
            match r {
                Some(t) => {
                    &&& final(self).pending@.len() < old(self).pending@.len()
                    &&& t == old(self).pending@[final(self).pending@.len() as int]
                    &&& admitted(t, old(self).max_depth)
                    &&& forall|k: int| final(self).pending@.len() < k < old(self).pending@.len()
                        ==> !admitted(#[trigger] old(self).pending@[k], old(self).max_depth)
                },
                None => {
                    &&& final(self).pending@.len() == 0
                    &&& forall|k: int| 0 <= k < old(self).pending@.len()
                        ==> !admitted(#[trigger] old(self).pending@[k], old(self).max_depth)
                },
            },
    {
        while self.pending.len() > 0
            invariant
                self.max_depth == old(self).max_depth,
                self.results@ == old(self).results@,
                self.pending@.len() <= old(self).pending@.len(),
                self.pending@ == old(self).pending@.take(self.pending@.len() as int),
                forall|k: int| self.pending@.len() <= k < old(self).pending@.len()
                    ==> !admitted(#[trigger] old(self).pending@[k], old(self).max_depth),
            decreases self.pending@.len(),
        {
            let ghost before = self.pending@;
            let t = self.pending.pop().unwrap();
            assert(t == old(self).pending@[self.pending@.len() as int]);
            assert(self.pending@ =~= old(self).pending@.take(self.pending@.len() as int));
            let name = match &t.name {
                Some(n) => Some(n.as_str()),
                None => None,
            };
            if within_depth(t.depth, self.max_depth) && !should_skip(name) {
                return Some(t);
            }
        }
        None
    }

    /// Looks at a directory that `next_dir` gave: a Python project is
    /// recorded, and the search stops there; any other directory has its
    /// subdirectories queued one level deeper.
    pub fn visit(&mut self, task: DirTask, facts: DirFacts)
        requires
            (facts.files.pyproject_toml || facts.files.setup_py || facts.has_py_file) || task.depth
                < usize::MAX,
        ensures
            final(self).max_depth == old(self).max_depth,
            (facts.files.pyproject_toml || facts.files.setup_py || facts.has_py_file) ==> {
                &&& final(self).pending@ == old(self).pending@
                &&& final(self).results@.len() == old(self).results@.len() + 1
                &&& final(self).results@.take(old(self).results@.len() as int) == old(self).results@
                &&& result_of(task, facts, final(self).results@.last())
            },
            !(facts.files.pyproject_toml || facts.files.setup_py || facts.has_py_file) ==> {
                &&& final(self).results@ == old(self).results@
                &&& final(self).pending@.len() == old(self).pending@.len() + facts.subdirs@.len()
                &&& final(self).pending@.take(old(self).pending@.len() as int) == old(self).pending@
                &&& forall|k: int| 0 <= k < facts.subdirs@.len() ==> {
                    let q = #[trigger] final(self).pending@[old(self).pending@.len() + k];
                    q.path == facts.subdirs@[k].0 && q.name == facts.subdirs@[k].1 && q.depth == task.depth + 1
                }
            },
    {
        if is_python_project(&facts.files, facts.has_py_file) {
            let detection = detect(&facts.files, match &facts.pyproject {
                Some(c) => Some(c.as_str()),
                None => None,
            });
            let shown = match task.name {
                Some(n) => n,
                None => task.path.clone(),
            };
            let ghost before = self.results@;
            self.results.push(scan_result(shown, task.path, detection));
            assert(self.results@.take(before.len() as int) =~= before);
        } else {
            assert(task.depth < usize::MAX);
            let ghost before = self.pending@;
            let subdirs = facts.subdirs;
            let n = subdirs.len();
            let ghost sv = subdirs@;
            let mut subdirs = subdirs;
            let mut rev: Vec<(String, Option<String>)> = Vec::new();
            while subdirs.len() > 0
                invariant
                    rev@.len() + subdirs@.len() == sv.len(),
                    subdirs@ == sv.take(subdirs@.len() as int),
                    forall|k: int| 0 <= k < rev@.len() ==> #[trigger] rev@[k] == sv[sv.len() - 1 - k],
                decreases subdirs@.len(),
            {
                let x = subdirs.pop().unwrap();
                assert(x == sv[subdirs@.len() as int]);
                rev.push(x);
                assert(subdirs@ =~= sv.take(subdirs@.len() as int));
            }
            let mut i: usize = 0;
            while rev.len() > 0
                invariant
                    self.max_depth == old(self).max_depth,
                    self.results@ == old(self).results@,
                    i + rev@.len() == sv.len(),
                    sv.len() == n,
                    self.pending@.len() == before.len() + i,
                    self.pending@.take(before.len() as int) == before,
                    forall|k: int| 0 <= k < rev@.len() ==> #[trigger] rev@[k] == sv[sv.len() - 1 - k],
                    forall|k: int| 0 <= k < i ==> {
                        let q = #[trigger] self.pending@[before.len() + k];
                        q.path == sv[k].0 && q.name == sv[k].1 && q.depth == task.depth + 1
                    },
                    task.depth < usize::MAX,
                decreases rev@.len(),
            {
                let (path, name) = rev.pop().unwrap();
                let ghost old_pending = self.pending@;
                self.pending.push(DirTask { path, name, depth: task.depth + 1 });
                assert forall|k: int| 0 <= k < i + 1 implies {
                    let q = #[trigger] self.pending@[before.len() + k];
                    q.path == sv[k].0 && q.name == sv[k].1 && q.depth == task.depth + 1
                } by {
                    if k < i {
                        assert(self.pending@[before.len() + k] == old_pending[before.len() + k]);
                    }
                }
                assert(self.pending@.take(before.len() as int) =~= old_pending.take(before.len() as int));
                i += 1;
            }
        }
    }

    /// The projects found, ordered by path.
    pub fn finish(self) -> (r: Vec<ScanResult>)
        ensures
            r@.to_multiset() == self.results@.to_multiset(),
            in_order(r@),
    {
        sort_results(self.results)
    }
}

proof fn lemma_last_dot_in_tail(a: Seq<char>, b: Seq<char>)
    requires
        forall|i: int| 0 <= i < b.len() ==> #[trigger] b[i] != '.',
    ensures
        last_dot(a + b) == last_dot(a),
    decreases b.len(),
{
    if b.len() > 0 {
        assert((a + b).last() == b.last());
        assert((a + b).drop_last() =~= a + b.drop_last());
        assert forall|i: int| 0 <= i < b.drop_last().len() implies #[trigger] b.drop_last()[i] != '.' by {
            assert(b.drop_last()[i] == b[i]);
        }
        lemma_last_dot_in_tail(a, b.drop_last());
    } else {
        assert(a + b =~= a);
    }
}

/// A file name made of a non-empty stem, a `.` and a non-empty extension
/// without `.` has that extension; a name with no `.` but at its start has
/// none.
pub proof fn law_extension_after_last_dot(stem: Seq<char>, ext: Seq<char>)
    requires
        forall|i: int| 0 <= i < ext.len() ==> #[trigger] ext[i] != '.',
    ensures
        stem.len() > 0 && ext.len() > 0 ==> extension_of(stem + seq!['.'] + ext) == Some(ext),
        (stem.len() == 0 || stem == seq!['.']) ==> extension_of(stem + ext) is None,
{
    let a = stem + seq!['.'];
    lemma_last_dot_in_tail(a, ext);
    assert(last_dot(a) == Some(stem.len() as int));
    assert((stem + seq!['.'] + ext).skip(stem.len() + 1 as int) =~= ext);
    lemma_last_dot_in_tail(stem, ext);
    if stem.len() == 0 {
        assert(last_dot(stem) is None);
    } else if stem == seq!['.'] {
        assert(last_dot(stem) == Some(0int));
    }
}

} // verus!
