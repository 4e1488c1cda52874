//! The agent skill file: its text, the agents it is copied for, and the
//! decisions of installing it.

use vstd::prelude::*;
use crate::index::{clone_opt, ProjectInfo};
use crate::order::{compare_chars, lemma_seq_lt_total, lemma_seq_lt_trans, seq_lt};
use crate::text::{chars_of, starts_with, starts_with_chars, str_eq, string_of, sub_chars, trim, trim_chars};

verus! {

/// The text of the skill file.
pub const SKILL_MD: &'static str = "# PyForge Agent Skill

PyForge is a Python project management CLI tool built in Rust.

## Capabilities

- **Project Tracking**: Register, list, scan, and manage Python projects
- **Scaffolding**: Create new projects with templates (fastapi, cli, lib)
- **Dependency Analysis**: Check outdated deps, cross-project aggregation
- **Web Dashboard**: Local management UI with stats and search
- **i18n**: Multi-language support (zh, en, + community packs)

## Commands

- `track <PATH>` - Register a project
- `untrack <NAME>` - Remove project from index
- `list` - List all tracked projects
- `scan <DIR>` - Scan directory for Python projects
- `info <NAME>` - Show project details
- `new <NAME>` - Create new project (wraps uv init)
- `mkpkg <PKG>...` - Create sub-packages
- `status` - Show project status overview
- `outdated [NAME]` - Check dependency updates
- `web` - Start web dashboard (port 7742)
- `init-agent` - Install agent skill files
- `agent-info` - Output agent environment info

## JSON Output

All commands support `--json` flag for machine-readable output.
Human-readable output goes to stderr, JSON to stdout.

## Environment Variables

- `PYFORGE_LANG` - Language (zh/en)
- `PYFORGE_INDEX_PATH` - Custom index file path
- `PYFORGE_TEMPLATE_DIR` - Custom template directory
- `PYFORGE_UV_MOCK` - Mock uv responses (testing)
";

/// An agent that reads skill files: its name, and where its file goes
/// (a directory under the home directory and a file name).
#[derive(Debug)]
pub struct AgentTarget {
    pub name: &'static str,
    pub dir: &'static str,
    pub filename: &'static str,
}

/// Whether `t` is the target named `name` with directory `dir`.
pub open spec fn target_is(t: AgentTarget, name: Seq<char>, dir: Seq<char>) -> bool {
    t.name@ == name && t.dir@ == dir && t.filename@ == "pyforge.md"@
}

/// The agents the skill file is installed for.
pub fn known_targets() -> (r: Vec<AgentTarget>)
    ensures
        r@.len() == 2,
        target_is(r@[0], "Codex CLI"@, ".codex/skills"@),
        target_is(r@[1], "Windsurf"@, ".windsurf/skills"@),
{
    let mut r: Vec<AgentTarget> = Vec::new();
    r.push(AgentTarget { name: "Codex CLI", dir: ".codex/skills", filename: "pyforge.md" });
    r.push(AgentTarget { name: "Windsurf", dir: ".windsurf/skills", filename: "pyforge.md" });
    r
}

/// What installing for one target did.
#[derive(Debug)]
pub enum CopyResult {
    /// The file was written at this path.
    Written(String),
    /// The file was there already with the same text.
    Skipped,
}

/// Whether the skill file must be written, given the text already at the
/// destination (`None` when there is no file): only an identical file is
/// left alone.
pub fn copy_needed(existing: Option<&str>) -> (r: bool)
    ensures
        r == match existing {
            Some(t) => t@ != SKILL_MD@,
            None => true,
        },
{
    match existing {
        Some(t) => !str_eq(t, SKILL_MD),
        None => true,
    }
}

/// Whether an answer to `[Y/n]` accepts: empty after trimming, or `y` in
/// either case.
pub open spec fn accepts(answer: Seq<char>) -> bool {
    let t = trim(answer);
    t.len() == 0 || t == "y"@ || t == "Y"@
}

/// Whether the answer to the install prompt accepts.
pub fn confirmed(answer: &str) -> (r: bool)
    ensures
        r == accepts(answer@),
{
    let c = chars_of(answer);
    let t = trim_chars(c.as_slice());
    proof {
        reveal_strlit("y");
        reveal_strlit("Y");
        assert("y"@ =~= seq!['y']);
        assert("Y"@ =~= seq!['Y']);
        if t@.len() == 1 {
            assert(t@ =~= seq![t@[0]]);
        }
    }
    t.len() == 0 || (t.len() == 1 && (t[0] == 'y' || t[0] == 'Y'))
}

/// A recently modified project as `agent-info` lists it.
#[derive(Debug)]
pub struct RecentProject {
    pub name: String,
    pub path: String,
    pub last_modified: Option<String>,
}

/// The time stamp of a project, if it has one.
pub open spec fn opt_stamp(p: ProjectInfo) -> Option<Seq<char>> {
    match p.last_modified {
        Some(t) => Some(t@),
        None => None,
    }
}

/// The order of `Option<String>`: no value first, then the values in
/// lexicographic order.
pub open spec fn opt_lt(a: Option<Seq<char>>, b: Option<Seq<char>>) -> bool {
    match (a, b) {
        (None, Some(_)) => true,
        (Some(x), Some(y)) => seq_lt(x, y),
        _ => false,
    }
}

/// Whether the project at position `a` comes before the one at `b`: the
/// later time stamp first (a project without one last), and on equal
/// stamps the earlier position first.
pub open spec fn newer_first(ps: Seq<ProjectInfo>, a: int, b: int) -> bool {
    opt_lt(opt_stamp(ps[b]), opt_stamp(ps[a])) || (opt_stamp(ps[a]) == opt_stamp(ps[b]) && a < b)
}

/// Whether `order` lists every position of `ps` once, newest first.
pub open spec fn newest_order(ps: Seq<ProjectInfo>, order: Seq<int>) -> bool {
    &&& order.len() == ps.len()
    &&& forall|k: int| 0 <= k < order.len() ==> 0 <= #[trigger] order[k] < ps.len()
    &&& forall|a: int, b: int| #![trigger order[a], order[b]] 0 <= a < b < order.len() ==> newer_first(ps, order[a], order[b])
}

/// Whether `r` lists project `p`.
pub open spec fn recent_of(p: ProjectInfo, r: RecentProject) -> bool {
    r.name@ == p.name@ && r.path@ == p.path@ && r.last_modified == p.last_modified
}

proof fn lemma_opt_lt_trans(a: Option<Seq<char>>, b: Option<Seq<char>>, c: Option<Seq<char>>)
    requires
        opt_lt(a, b),
        opt_lt(b, c),
    ensures
        opt_lt(a, c),
{
    if a is Some {
        lemma_seq_lt_trans(a->0, b->0, c->0);
    }
}

proof fn lemma_opt_lt_total(a: Option<Seq<char>>, b: Option<Seq<char>>)
    ensures
        a == b || opt_lt(a, b) || opt_lt(b, a),
{
    if a is Some && b is Some {
        lemma_seq_lt_total(a->0, b->0);
    }
}

fn opt_stamp_lt(a: &Option<String>, b: &Option<String>) -> (r: bool)
    ensures
        r == opt_lt(
            match *a {
                Some(t) => Some(t@),
                None => None,
            },
            match *b {
                Some(t) => Some(t@),
                None => None,
            },
        ),
{
    match (a, b) {
        (None, Some(_)) => true,
        (Some(x), Some(y)) => {
            let xc = chars_of(x.as_str());
            let yc = chars_of(y.as_str());
            compare_chars(xc.as_slice(), yc.as_slice()) == -1
        },
        _ => false,
    }
}

/// The five most recently modified projects, newest first (projects
/// without a time stamp last, equal stamps in the given order).
pub fn recent_projects(projects: &Vec<ProjectInfo>) -> (r: Vec<RecentProject>)
    ensures
        exists|order: Seq<int>| #[trigger] newest_order(projects@, order)
            && r@.len() == if order.len() < 5 { order.len() } else { 5 }
            && forall|k: int| 0 <= k < r@.len() ==> recent_of(projects@[order[k]], #[trigger] r@[k]),
{
    let ghost ps = projects@;
    let mut out: Vec<RecentProject> = Vec::new();
    let mut stamps: Vec<Option<String>> = Vec::new();
    let ghost mut order: Seq<int> = Seq::empty();
    let mut i: usize = 0;
    while i < projects.len()
        invariant
            i <= ps.len(),
            ps == projects@,
            out@.len() == order.len() && stamps@.len() == order.len() && order.len() == i,
            forall|k: int| 0 <= k < order.len() ==> 0 <= #[trigger] order[k] < i
                && stamps@[k] == ps[order[k]].last_modified && recent_of(ps[order[k]], out@[k]),
            forall|a: int, b: int| #![trigger order[a], order[b]] 0 <= a < b < order.len() ==> newer_first(ps, order[a], order[b]),
        decreases ps.len() - i,
    {
        let p = &projects[i];
        let mut q: usize = 0;
        while q < stamps.len() && !opt_stamp_lt(&stamps[q], &p.last_modified)
            invariant
                q <= stamps@.len(),
                forall|k: int| 0 <= k < q ==> !opt_lt(
                    match #[trigger] stamps@[k] {
                        Some(t) => Some(t@),
                        None => None,
                    },
                    opt_stamp(ps[i as int]),
                ),
                p == ps[i as int],
            decreases stamps@.len() - q,
        {
            q += 1;
        }
        let ghost old_order = order;
        let ghost old_stamps = stamps@;
        let ghost old_out = out@;
        out.insert(q, RecentProject { name: p.name.clone(), path: p.path.clone(), last_modified: clone_opt(&p.last_modified) });
        stamps.insert(q, clone_opt(&p.last_modified));
        proof {
            order = old_order.insert(q as int, i as int);
            assert forall|k: int| 0 <= k < order.len() implies 0 <= #[trigger] order[k] < i + 1
                && stamps@[k] == ps[order[k]].last_modified && recent_of(ps[order[k]], out@[k]) by {
                if k < q {
                    assert(order[k] == old_order[k] && stamps@[k] == old_stamps[k] && out@[k] == old_out[k]);
                } else if k > q {
                    assert(order[k] == old_order[k - 1] && stamps@[k] == old_stamps[k - 1] && out@[k] == old_out[k - 1]);
                }
            }
            assert forall|a: int, b: int| #![trigger order[a], order[b]] 0 <= a < b < order.len() implies newer_first(ps, order[a], order[b]) by {
                if a != q && b != q {
                    let a2 = if a < q { a } else { a - 1 };
                    let b2 = if b < q { b } else { b - 1 };
                    assert(order[a] == old_order[a2] && order[b] == old_order[b2]);
                } else if a == q {
                    let b2 = b - 1;
                    assert(order[b] == old_order[b2]);
                    assert(opt_lt(opt_stamp(ps[old_order[q as int]]), opt_stamp(ps[i as int])));
                    if b2 > q {
                        assert(newer_first(ps, old_order[q as int], old_order[b2]));
                        if opt_lt(opt_stamp(ps[old_order[b2]]), opt_stamp(ps[old_order[q as int]])) {
                            lemma_opt_lt_trans(opt_stamp(ps[old_order[b2]]), opt_stamp(ps[old_order[q as int]]), opt_stamp(ps[i as int]));
                        }
                    }
                } else {
                    assert(order[a] == old_order[a]);
                    assert(!opt_lt(opt_stamp(ps[old_order[a]]), opt_stamp(ps[i as int])));
                    lemma_opt_lt_total(opt_stamp(ps[old_order[a]]), opt_stamp(ps[i as int]));
                }
            }
        }
        i += 1;
    }
    let ghost full = out@;
    if out.len() > 5 {
        out.truncate(5);
    }
    proof {
        assert(newest_order(ps, order)) by {
            assert forall|k: int| 0 <= k < order.len() implies 0 <= #[trigger] order[k] < ps.len() by {}
        }
        assert forall|k: int| 0 <= k < out@.len() implies recent_of(ps[order[k]], #[trigger] out@[k]) by {
            assert(out@[k] == full[k]);
        }
    }
    out
}

/// What `agent-info` shows of `uv`: its version, `unknown` when it gave
/// none, `not installed` when it is missing.
pub fn uv_status_text(installed: bool, version: &Option<String>) -> (r: String)
    ensures
        r@ == if !installed {
            "not installed"@
        } else {
            match *version {
                Some(v) => v@,
                None => "unknown"@,
            }
        },
{
    if !installed {
        String::from_str("not installed")
    } else {
        match version {
            Some(v) => v.clone(),
            None => String::from_str("unknown"),
        }
    }
}

/// The Python version that `python3 --version` printed: the text trimmed,
/// without a leading `Python `.
pub open spec fn python_version_text(stdout: Seq<char>) -> Seq<char> {
    let t = trim(stdout);
    if starts_with(t, "Python "@) {
        t.skip(7)
    } else {
        t
    }
}

/// The Python version in the output of `python3 --version`.
pub fn parse_python_version(stdout: &str) -> (r: String)
    ensures
        r@ == python_version_text(stdout@),
{
    let c = chars_of(stdout);
    let t = trim_chars(c.as_slice());
    let prefix = chars_of("Python ");
    proof {
        reveal_strlit("Python ");
    }
    if starts_with_chars(t.as_slice(), prefix.as_slice()) {
        let rest = sub_chars(t.as_slice(), 7, t.len());
        assert(rest@ =~= t@.skip(7));
        string_of(rest.as_slice())
    } else {
        string_of(t.as_slice())
    }
}

} // verus!
