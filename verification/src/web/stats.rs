//! `GET /api/stats`: project counts by Python version and by toolchain, and
//! the projects active in the last seven days, most recent first.

use vstd::prelude::*;
use vstd::utf8::encode_utf8;
use crate::dates::{date_cut_ok, is_recent, recent};
use crate::index::{clone_opt, ProjectInfo};
use crate::order::{compare_chars, lemma_seq_lt_total, lemma_seq_lt_trans, seq_lt};
use crate::text::{chars_of, chars_eq, string_of};

verus! {

/// A recently active project as the dashboard lists it.
#[derive(Debug)]
pub struct ActiveProject {
    pub name: String,
    pub path: String,
    pub python_version: Option<String>,
    pub toolchain: Option<String>,
    pub last_modified: Option<String>,
}

/// The dashboard's statistics. Each count is listed once per distinct key.
#[derive(Debug)]
pub struct Stats {
    pub total: usize,
    pub by_python_version: Vec<(String, usize)>,
    pub by_toolchain: Vec<(String, usize)>,
    pub recent_active: Vec<ActiveProject>,
}

/// The number of occurrences of `k` in `s`.
pub open spec fn count_of(s: Seq<Seq<char>>, k: Seq<char>) -> nat
    decreases s.len(),
{
    if s.len() == 0 {
        0
    } else {
        count_of(s.drop_last(), k) + if s.last() == k {
            1nat
        } else {
            0nat
        }
    }
}

/// Whether `t` counts the keys of `s`: each key once, with its number of
/// occurrences, and every key of `s` present.
pub open spec fn is_tally(t: Seq<(String, usize)>, s: Seq<Seq<char>>) -> bool {
    &&& forall|j: int| 0 <= j < t.len() ==> #[trigger] t[j].1 == count_of(s, t[j].0@)
    &&& forall|a: int, b: int| #![trigger t[a], t[b]] 0 <= a < b < t.len() ==> t[a].0@ != t[b].0@
    &&& forall|i: int| 0 <= i < s.len() ==> exists|j: int| 0 <= j < t.len() && #[trigger] t[j].0@ == #[trigger] s[i]
    &&& forall|j: int| 0 <= j < t.len() ==> #[trigger] t[j].1 > 0
}

/// The Python version a project is counted under (`unknown` when not known).
pub open spec fn version_key(p: ProjectInfo) -> Seq<char> {
    match p.python_version {
        Some(v) => v@,
        None => "unknown"@,
    }
}

/// The toolchain a project is counted under (`unknown` when not known).
pub open spec fn toolchain_key(p: ProjectInfo) -> Seq<char> {
    match p.toolchain {
        Some(t) => t@,
        None => "unknown"@,
    }
}

/// The version keys of the projects, in order.
pub open spec fn version_keys(ps: Seq<ProjectInfo>) -> Seq<Seq<char>> {
    Seq::new(ps.len(), |i: int| version_key(ps[i]))
}

/// The toolchain keys of the projects, in order.
pub open spec fn toolchain_keys(ps: Seq<ProjectInfo>) -> Seq<Seq<char>> {
    Seq::new(ps.len(), |i: int| toolchain_key(ps[i]))
}

proof fn lemma_count_absent(s: Seq<Seq<char>>, k: Seq<char>)
    requires
        forall|i: int| 0 <= i < s.len() ==> s[i] != k,
    ensures
        count_of(s, k) == 0,
    decreases s.len(),
{
    if s.len() > 0 {
        lemma_count_absent(s.drop_last(), k);
    }
}

fn key_position(r: &Vec<(String, usize)>, k: &[char]) -> (p: Option<usize>)
    ensures
        match p {
            Some(j) => j < r@.len() && r@[j as int].0@ == k@,
            None => forall|m: int| 0 <= m < r@.len() ==> #[trigger] r@[m].0@ != k@,
        },
{
    let mut j: usize = 0;
    while j < r.len()
        invariant
            j <= r@.len(),
            forall|m: int| 0 <= m < j ==> #[trigger] r@[m].0@ != k@,
        decreases r@.len() - j,
    {
        let name = chars_of(r[j].0.as_str());
        if chars_eq(name.as_slice(), k) {
            return Some(j);
        }
        j += 1;
    }
    None
}

/// Counts the keys of `keys`, in the order they first occur.
fn tally(keys: &Vec<Vec<char>>) -> (r: Vec<(String, usize)>)
    ensures
        is_tally(r@, Seq::new(keys@.len(), |i: int| keys@[i]@)),
{
    let ghost s = Seq::new(keys@.len(), |i: int| keys@[i]@);
    let mut r: Vec<(String, usize)> = Vec::new();
    let mut i: usize = 0;
    while i < keys.len()
        invariant
            i <= keys@.len(),
            s == Seq::new(keys@.len(), |i: int| keys@[i]@),
            is_tally(r@, s.take(i as int)),
            forall|j: int| 0 <= j < r@.len() ==> #[trigger] r@[j].1 <= i,
        decreases keys@.len() - i,
    {
        let ghost before = r@;
        let ghost si = s.take(i as int);
        let ghost sn = s.take(i + 1);
        assert(sn.drop_last() =~= si);
        assert(sn.last() == keys@[i as int]@);
        let k = keys[i].as_slice();
        match key_position(&r, k) {
            Some(j) => {
                let name = r[j].0.clone();
                let c = r[j].1;
                r.set(j, (name, c + 1));
                proof {
                    assert forall|m: int| 0 <= m < r@.len() implies #[trigger] r@[m].1 == count_of(sn, r@[m].0@) by {
                        if m != j {
                            assert(r@[m] == before[m]);
                            assert(before[m].0@ != before[j as int].0@);
                        }
                    }
                    assert forall|a: int, b: int| #![trigger r@[a], r@[b]] 0 <= a < b < r@.len() implies r@[a].0@ != r@[b].0@ by {
                        assert(r@[a].0@ == before[a].0@ && r@[b].0@ == before[b].0@);
                    }
                    assert forall|x: int| 0 <= x < sn.len() implies exists|m: int| 0 <= m < r@.len() && #[trigger] r@[m].0@ == #[trigger] sn[x] by {
                        if x < si.len() {
                            assert(sn[x] == si[x]);
                            let m = choose|m: int| 0 <= m < before.len() && #[trigger] before[m].0@ == #[trigger] si[x];
                            assert(r@[m].0@ == before[m].0@);
                        } else {
                            assert(r@[j as int].0@ == sn[x]);
                        }
                    }
                    assert forall|m: int| 0 <= m < r@.len() implies #[trigger] r@[m].1 > 0 by {
                        if m != j {
                            assert(r@[m] == before[m]);
                        }
                    }
                }
            },
            None => {
                proof {
                    assert forall|x: int| 0 <= x < si.len() implies si[x] != k@ by {
                        let m = choose|m: int| 0 <= m < before.len() && #[trigger] before[m].0@ == #[trigger] si[x];
                    }
                    lemma_count_absent(si, k@);
                }
                r.push((string_of(k), 1));
                proof {
                    assert forall|m: int| 0 <= m < r@.len() implies #[trigger] r@[m].1 == count_of(sn, r@[m].0@) by {
                        if m < before.len() {
                            assert(r@[m] == before[m]);
                        }
                    }
                    assert forall|a: int, b: int| #![trigger r@[a], r@[b]] 0 <= a < b < r@.len() implies r@[a].0@ != r@[b].0@ by {
                        assert(r@[a] == before[a]);
                        if b < before.len() {
                            assert(r@[b] == before[b]);
                        }
                    }
                    assert forall|x: int| 0 <= x < sn.len() implies exists|m: int| 0 <= m < r@.len() && #[trigger] r@[m].0@ == #[trigger] sn[x] by {
                        if x < si.len() {
                            assert(sn[x] == si[x]);
                            let m = choose|m: int| 0 <= m < before.len() && #[trigger] before[m].0@ == #[trigger] si[x];
                            assert(r@[m] == before[m]);
                        } else {
                            assert(r@[before.len() as int].0@ == sn[x]);
                        }
                    }
                    assert forall|m: int| 0 <= m < r@.len() implies #[trigger] r@[m].1 > 0 by {
                        if m < before.len() {
                            assert(r@[m] == before[m]);
                        }
                    }
                }
            },
        }
        i += 1;
    }
    assert(s.take(keys@.len() as int) =~= s);
    r
}

/// The time stamp a project is ordered by (empty when it has none).
pub open spec fn stamp(p: ProjectInfo) -> Seq<char> {
    match p.last_modified {
        Some(t) => t@,
        None => Seq::empty(),
    }
}

/// Whether `p` was modified at most seven days before `now` (Unix seconds).
pub open spec fn active_recently(p: ProjectInfo, now: Seq<char>) -> bool {
    match p.last_modified {
        Some(t) => recent(encode_utf8(t@), encode_utf8(now), 7),
        None => false,
    }
}

/// Whether the project at position `a` is listed before the one at `b`: the
/// later time stamp first, and on equal stamps the earlier position first.
pub open spec fn listed_before(ps: Seq<ProjectInfo>, a: int, b: int) -> bool {
    seq_lt(stamp(ps[b]), stamp(ps[a])) || (stamp(ps[a]) == stamp(ps[b]) && a < b)
}

/// Whether `order` lists the positions of the recently active projects of
/// `ps`, each once, most recent first.
pub open spec fn recent_order(ps: Seq<ProjectInfo>, now: Seq<char>, order: Seq<int>) -> bool {
    &&& forall|k: int| 0 <= k < order.len() ==> 0 <= #[trigger] order[k] < ps.len() && active_recently(ps[order[k]], now)
    &&& forall|i: int| 0 <= i < ps.len() && #[trigger] active_recently(ps[i], now) ==> exists|k: int| 0 <= k < order.len() && order[k] == i
    &&& forall|a: int, b: int| #![trigger order[a], order[b]] 0 <= a < b < order.len() ==> listed_before(ps, order[a], order[b])
}

/// Whether `a` lists project `p`.
pub open spec fn active_of(p: ProjectInfo, a: ActiveProject) -> bool {
    &&& a.name@ == p.name@
    &&& a.path@ == p.path@
    &&& a.python_version == p.python_version
    &&& a.toolchain == p.toolchain
    &&& a.last_modified == p.last_modified
}

/// Whether every time stamp can be cut after its tenth byte, as the date
/// parser does (a cut inside a character would panic).
pub open spec fn stamps_cuttable(ps: Seq<ProjectInfo>) -> bool {
    forall|i: int| 0 <= i < ps.len() ==> match #[trigger] ps[i].last_modified {
        Some(t) => date_cut_ok(encode_utf8(t@)),
        None => true,
    }
}

fn key_chars(o: &Option<String>) -> (r: Vec<char>)
    ensures
        r@ == match *o {
            Some(v) => v@,
            None => "unknown"@,
        },
{
    match o {
        Some(v) => chars_of(v.as_str()),
        None => chars_of("unknown"),
    }
}

fn active_project(p: &ProjectInfo) -> (r: ActiveProject)
    ensures
        active_of(*p, r),
{
    ActiveProject {
        name: p.name.clone(),
        path: p.path.clone(),
        python_version: clone_opt(&p.python_version),
        toolchain: clone_opt(&p.toolchain),
        last_modified: clone_opt(&p.last_modified),
    }
}

/// The statistics of the tracked projects at the time `now` (Unix seconds).
#[verifier::spinoff_prover]
#[verifier::rlimit(40)]
pub fn compute_stats(projects: &Vec<ProjectInfo>, now: &str) -> (r: Stats)
    requires
        stamps_cuttable(projects@),
    ensures
        r.total == projects@.len(),
        is_tally(r.by_python_version@, version_keys(projects@)),
        is_tally(r.by_toolchain@, toolchain_keys(projects@)),
        exists|order: Seq<int>| #[trigger] recent_order(projects@, now@, order) && order.len() == r.recent_active@.len()
            && forall|k: int| 0 <= k < order.len() ==> active_of(projects@[order[k]], #[trigger] r.recent_active@[k]),
{
    let ghost ps = projects@;
    let mut vkeys: Vec<Vec<char>> = Vec::new();
    let mut tkeys: Vec<Vec<char>> = Vec::new();
    let mut out: Vec<ActiveProject> = Vec::new();
    let mut stamps: Vec<Vec<char>> = Vec::new();
    let ghost mut order: Seq<int> = Seq::empty();
    let mut i: usize = 0;
    while i < projects.len()
        invariant
            i <= ps.len(),
            ps == projects@,
            stamps_cuttable(ps),
            vkeys@.len() == i && tkeys@.len() == i,
            forall|j: int| 0 <= j < i ==> #[trigger] vkeys@[j]@ == version_key(ps[j]),
            forall|j: int| 0 <= j < i ==> #[trigger] tkeys@[j]@ == toolchain_key(ps[j]),
            out@.len() == order.len() && stamps@.len() == order.len(),
            forall|k: int| 0 <= k < order.len() ==> 0 <= #[trigger] order[k] < i && active_recently(ps[order[k]], now@)
                && stamps@[k]@ == stamp(ps[order[k]]) && active_of(ps[order[k]], out@[k]),
            forall|j: int| 0 <= j < i && #[trigger] active_recently(ps[j], now@) ==> exists|k: int| 0 <= k < order.len() && order[k] == j,
            forall|a: int, b: int| #![trigger order[a], order[b]] 0 <= a < b < order.len() ==> listed_before(ps, order[a], order[b]),
        decreases ps.len() - i,
    {
        let p = &projects[i];
        vkeys.push(key_chars(&p.python_version));
        tkeys.push(key_chars(&p.toolchain));
        let ghost old_order = order;
        match &p.last_modified {
            Some(ts) => {
                assert(date_cut_ok(encode_utf8(ts@))) by {
                    assert(match ps[i as int].last_modified {
                        Some(t) => date_cut_ok(encode_utf8(t@)),
                        None => true,
                    });
                }
                if is_recent(ts.as_str(), now, 7) {
                    let st = chars_of(ts.as_str());
                    let mut q: usize = 0;
                    while q < stamps.len() && compare_chars(stamps[q].as_slice(), st.as_slice()) != -1
                        invariant
                            q <= stamps@.len(),
                            forall|k: int| 0 <= k < q ==> !seq_lt(#[trigger] stamps@[k]@, st@),
                        decreases stamps@.len() - q,
                    {
                        q += 1;
                    }
                    let ghost old_stamps = stamps@;
                    let ghost old_out = out@;
                    out.insert(q, active_project(p));
                    stamps.insert(q, st);
                    proof {
                        order = old_order.insert(q as int, i as int);
                        assert(stamp(ps[i as int]) == st@);
                        assert forall|k: int| 0 <= k < order.len() implies 0 <= #[trigger] order[k] < i + 1 && active_recently(ps[order[k]], now@)
                            && stamps@[k]@ == stamp(ps[order[k]]) && active_of(ps[order[k]], out@[k]) by {
                            if k < q {
                                assert(order[k] == old_order[k] && stamps@[k] == old_stamps[k] && out@[k] == old_out[k]);
                            } else if k > q {
                                assert(order[k] == old_order[k - 1] && stamps@[k] == old_stamps[k - 1] && out@[k] == old_out[k - 1]);
                            }
                        }
                        assert forall|j: int| 0 <= j < i + 1 && #[trigger] active_recently(ps[j], now@) implies exists|k: int| 0 <= k < order.len() && order[k] == j by {
                            if j < i {
                                let k = choose|k: int| 0 <= k < old_order.len() && old_order[k] == j;
                                if k < q {
                                    assert(order[k] == j);
                                } else {
                                    assert(order[k + 1] == j);
                                }
                            } else {
                                assert(order[q as int] == j);
                            }
                        }
                        assert forall|a: int, b: int| #![trigger order[a], order[b]] 0 <= a < b < order.len() implies listed_before(ps, order[a], order[b]) by {
                            if a != q && b != q {
                                let a2 = if a < q { a } else { a - 1 };
                                let b2 = if b < q { b } else { b - 1 };
                                assert(order[a] == old_order[a2] && order[b] == old_order[b2]);
                            } else if a == q {
                                let b2 = b - 1;
                                assert(order[b] == old_order[b2]);
                                assert(seq_lt(old_stamps[q as int]@, st@));
                                if b2 > q {
                                    assert(listed_before(ps, old_order[q as int], old_order[b2]));
                                    if seq_lt(stamp(ps[old_order[b2]]), stamp(ps[old_order[q as int]])) {
                                        lemma_seq_lt_trans(stamp(ps[old_order[b2]]), stamp(ps[old_order[q as int]]), st@);
                                    }
                                }
                            } else {
                                assert(order[a] == old_order[a]);
                                assert(!seq_lt(old_stamps[a]@, st@));
                                lemma_seq_lt_total(old_stamps[a]@, st@);
                            }
                        }
                    }
                }
            },
            None => {},
        }
        i += 1;
    }
    let ghost vs = Seq::new(vkeys@.len(), |j: int| vkeys@[j]@);
    let ghost ts = Seq::new(tkeys@.len(), |j: int| tkeys@[j]@);
    assert(vs =~= version_keys(ps));
    assert(ts =~= toolchain_keys(ps));
    let by_python_version = tally(&vkeys);
    let by_toolchain = tally(&tkeys);
    assert(recent_order(ps, now@, order));
    Stats { total: projects.len(), by_python_version, by_toolchain, recent_active: out }
}

/// The sum of the counts of a tally.
pub open spec fn total_count(t: Seq<(String, usize)>) -> int
    decreases t.len(),
{
    if t.len() == 0 {
        0
    } else {
        total_count(t.drop_last()) + t.last().1
    }
}

/// The number of occurrences in `s` of each of `keys`, added up.
spec fn sum_counts(keys: Seq<Seq<char>>, s: Seq<Seq<char>>) -> int
    decreases keys.len(),
{
    if keys.len() == 0 {
        0
    } else {
        sum_counts(keys.drop_last(), s) + count_of(s, keys.last())
    }
}

/// How many of `keys` equal `x`.
spec fn occurrences(keys: Seq<Seq<char>>, x: Seq<char>) -> int
    decreases keys.len(),
{
    if keys.len() == 0 {
        0
    } else {
        occurrences(keys.drop_last(), x) + if keys.last() == x { 1int } else { 0int }
    }
}

proof fn lemma_sum_counts_push(keys: Seq<Seq<char>>, s: Seq<Seq<char>>, x: Seq<char>)
    ensures
        sum_counts(keys, s.push(x)) == sum_counts(keys, s) + occurrences(keys, x),
    decreases keys.len(),
{
    if keys.len() > 0 {
        lemma_sum_counts_push(keys.drop_last(), s, x);
        assert(s.push(x).drop_last() =~= s);
    }
}

proof fn lemma_occurrences_once(keys: Seq<Seq<char>>, x: Seq<char>)
    requires
        forall|a: int, b: int| 0 <= a < b < keys.len() ==> keys[a] != keys[b],
        keys.contains(x),
    ensures
        occurrences(keys, x) == 1,
    decreases keys.len(),
{
    let d = keys.drop_last();
    assert forall|a: int, b: int| 0 <= a < b < d.len() implies d[a] != d[b] by {
        assert(d[a] == keys[a] && d[b] == keys[b]);
    }
    if keys.last() == x {
        assert(!d.contains(x)) by {
            if d.contains(x) {
                let a = choose|a: int| 0 <= a < d.len() && d[a] == x;
                assert(keys[a] == x);
            }
        }
        lemma_occurrences_none(d, x);
    } else {
        let i = choose|i: int| 0 <= i < keys.len() && keys[i] == x;
        assert(d[i] == x);
        lemma_occurrences_once(d, x);
    }
}

proof fn lemma_occurrences_none(keys: Seq<Seq<char>>, x: Seq<char>)
    requires
        !keys.contains(x),
    ensures
        occurrences(keys, x) == 0,
    decreases keys.len(),
{
    if keys.len() > 0 {
        let d = keys.drop_last();
        assert(!d.contains(x)) by {
            if d.contains(x) {
                let a = choose|a: int| 0 <= a < d.len() && d[a] == x;
                assert(keys[a] == x);
            }
        }
        assert(keys[keys.len() - 1] == keys.last());
        lemma_occurrences_none(d, x);
    }
}

proof fn lemma_sum_counts_empty(keys: Seq<Seq<char>>)
    ensures
        sum_counts(keys, Seq::empty()) == 0,
    decreases keys.len(),
{
    if keys.len() > 0 {
        lemma_sum_counts_empty(keys.drop_last());
    }
}

proof fn lemma_sum_counts_total(keys: Seq<Seq<char>>, s: Seq<Seq<char>>)
    requires
        forall|a: int, b: int| 0 <= a < b < keys.len() ==> keys[a] != keys[b],
        forall|i: int| 0 <= i < s.len() ==> keys.contains(#[trigger] s[i]),
    ensures
        sum_counts(keys, s) == s.len(),
    decreases s.len(),
{
    if s.len() == 0 {
        lemma_sum_counts_empty(keys);
        assert(s =~= Seq::<Seq<char>>::empty());
    } else {
        let d = s.drop_last();
        assert forall|i: int| 0 <= i < d.len() implies keys.contains(#[trigger] d[i]) by {
            assert(d[i] == s[i]);
        }
        lemma_sum_counts_total(keys, d);
        lemma_sum_counts_push(keys, d, s.last());
        assert(d.push(s.last()) =~= s);
        assert(keys.contains(s[s.len() - 1]));
        lemma_occurrences_once(keys, s.last());
    }
}

proof fn lemma_total_is_sum(t: Seq<(String, usize)>, s: Seq<Seq<char>>)
    requires
        forall|j: int| 0 <= j < t.len() ==> #[trigger] t[j].1 == count_of(s, t[j].0@),
    ensures
        total_count(t) == sum_counts(Seq::new(t.len(), |j: int| t[j].0@), s),
    decreases t.len(),
{
    let keys = Seq::new(t.len(), |j: int| t[j].0@);
    if t.len() > 0 {
        let d = t.drop_last();
        assert forall|j: int| 0 <= j < d.len() implies #[trigger] d[j].1 == count_of(s, d[j].0@) by {
            assert(d[j] == t[j]);
        }
        lemma_total_is_sum(d, s);
        assert(keys.drop_last() =~= Seq::new(d.len(), |j: int| d[j].0@));
        assert(t.last() == t[t.len() - 1]);
    }
}

/// The counts of a tally add up to the number of keys counted: on the
/// dashboard the projects by Python version, and by toolchain, add up to
/// the total.
pub proof fn law_tally_adds_up(t: Seq<(String, usize)>, s: Seq<Seq<char>>)
    requires
        is_tally(t, s),
    ensures
        total_count(t) == s.len(),
{
    let keys = Seq::new(t.len(), |j: int| t[j].0@);
    lemma_total_is_sum(t, s);
    assert forall|a: int, b: int| 0 <= a < b < keys.len() implies keys[a] != keys[b] by {
        assert(t[a].0@ != t[b].0@);
    }
    assert forall|i: int| 0 <= i < s.len() implies keys.contains(#[trigger] s[i]) by {
        let j = choose|j: int| 0 <= j < t.len() && #[trigger] t[j].0@ == #[trigger] s[i];
        assert(keys[j] == s[i]);
    }
    lemma_sum_counts_total(keys, s);
}

} // verus!
