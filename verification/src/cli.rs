//! The command line's arguments and the checks and small decisions of the
//! commands: names that are refused, package paths, the status of a project.

use vstd::prelude::*;
use crate::uv::UvError;
use crate::text::{
    cat, cat3, chars_of, contains, contains_chars, has_char, has_char_exec, split, split_chars, str_eq,
    string_of, views,
};

verus! {

/// `goto NAME`.
#[derive(Debug)]
pub struct GotoArgs {
    pub name: String,
}

/// `i18n list` and `i18n install LANG`.
#[derive(Debug)]
pub struct I18nArgs {
    pub command: I18nCommand,
}

/// The subcommands of `i18n`.
#[derive(Debug)]
pub enum I18nCommand {
    List,
    Install(InstallArgs),
}

/// `i18n install LANG`.
#[derive(Debug)]
pub struct InstallArgs {
    pub lang: String,
}

/// `info NAME`.
#[derive(Debug)]
pub struct InfoArgs {
    pub name: String,
}

/// `init-agent [--yes]`.
#[derive(Debug)]
pub struct InitAgentArgs {
    pub yes: bool,
}

/// `mkpkg PKG... [--base DIR] [--dry-run]`.
#[derive(Debug)]
pub struct MkpkgArgs {
    pub packages: Vec<String>,
    pub base: Option<String>,
    pub dry_run: bool,
}

/// `new NAME [--template T] [--no-track]`.
#[derive(Debug)]
pub struct NewArgs {
    pub name: String,
    pub template: Option<String>,
    pub no_track: bool,
}

/// `outdated [NAME]`.
#[derive(Debug)]
pub struct OutdatedArgs {
    pub name: Option<String>,
}

/// `scan DIR [--depth N] [--auto-track]`.
#[derive(Debug)]
pub struct ScanArgs {
    pub directory: String,
    pub depth: Option<usize>,
    pub auto_track: bool,
}

/// `status`.
#[derive(Debug)]
pub struct StatusArgs {}

/// `track PATH [--name N]`.
#[derive(Debug)]
pub struct TrackArgs {
    pub path: String,
    pub name: Option<String>,
}

/// `untrack NAME`.
#[derive(Debug)]
pub struct UntrackArgs {
    pub name: String,
}

/// `web [--port P] [--no-open]`.
#[derive(Debug)]
pub struct WebArgs {
    pub port: u16,
    pub no_open: bool,
}

/// Whether a character may stand in a language code.
pub open spec fn lang_char_ok(c: char) -> bool {
    ('a' <= c && c <= 'z') || ('A' <= c && c <= 'Z') || ('0' <= c && c <= '9') || c == '-' || c == '_'
}

/// Whether a language code is acceptable: non-empty, ASCII letters, digits,
/// `-` and `_` only (so no `.`, `/`, `\`, `:`, `?` or `#`).
pub open spec fn lang_code_ok(lang: Seq<char>) -> bool {
    lang.len() > 0 && forall|i: int| 0 <= i < lang.len() ==> #[trigger] lang_char_ok(lang[i])
}

/// Checks a language code before it is used in a file name or a URL.
pub fn validate_lang_code(lang: &str) -> (r: Result<(), &'static str>)
    ensures
        lang_code_ok(lang@) ==> r is Ok,
        !lang_code_ok(lang@) ==> (r matches Err(m) && m@ == "invalid language code"@),
{
    let v = chars_of(lang);
    if v.len() == 0 {
        return Err("invalid language code");
    }
    let mut i: usize = 0;
    while i < v.len()
        invariant
            i <= v@.len(),
            v@ == lang@,
            forall|j: int| 0 <= j < i ==> #[trigger] lang_char_ok(v@[j]),
        decreases v@.len() - i,
    {
        let c = v[i];
        let ok = ('a' <= c && c <= 'z') || ('A' <= c && c <= 'Z') || ('0' <= c && c <= '9') || c == '-'
            || c == '_';
        if !ok {
            assert(!lang_char_ok(lang@[i as int]));
            return Err("invalid language code");
        }
        i += 1;
    }
    Ok(())
}

/// Whether a dotted component of a package name is acceptable.
pub open spec fn component_ok(c: Seq<char>) -> bool {
    c.len() > 0 && c != ".."@ && !has_char(c, '/') && !has_char(c, '\\')
}

/// Whether every dotted component of `pkg` is acceptable.
pub open spec fn package_name_ok(pkg: Seq<char>) -> bool {
    forall|i: int| 0 <= i < split(pkg, '.').len() ==> #[trigger] component_ok(split(pkg, '.')[i])
}

/// Checks a dotted package name such as `a.b.c`.
pub fn validate_package_name(pkg: &str) -> (r: Result<(), String>)
    ensures
        package_name_ok(pkg@) ==> r is Ok,
        !package_name_ok(pkg@) ==> (r matches Err(m) && m@ == "invalid package name: "@ + pkg@),
{
    let v = chars_of(pkg);
    let parts = split_chars(v.as_slice(), '.');
    let dots = chars_of("..");
    let mut i: usize = 0;
    while i < parts.len()
        invariant
            i <= parts@.len(),
            views(parts@) == split(pkg@, '.'),
            dots@ == ".."@,
            forall|j: int| 0 <= j < i ==> #[trigger] component_ok(split(pkg@, '.')[j]),
        decreases parts@.len() - i,
    {
        let c = parts[i].as_slice();
        assert(c@ == split(pkg@, '.')[i as int]);
        let is_dots = c.len() == 2 && c[0] == '.' && c[1] == '.';
        proof {
            reveal_strlit("..");
            if c@.len() == 2 {
                assert(".."@ =~= seq!['.', '.']);
                if c@ == ".."@ {
                    assert(c@[0] == '.' && c@[1] == '.');
                }
                if is_dots {
                    assert(c@ =~= ".."@);
                }
            }
        }
        if c.len() == 0 || is_dots || has_char_exec(c, '/') || has_char_exec(c, '\\') {
            assert(!component_ok(split(pkg@, '.')[i as int]));
            return Err(cat("invalid package name: ", pkg));
        }
        i += 1;
    }
    Ok(())
}

/// Whether a project name for `new` is acceptable: non-empty, without `..`,
/// `/`, `\` or `:`.
pub open spec fn new_name_ok(name: Seq<char>) -> bool {
    name.len() > 0 && !contains(name, ".."@) && !has_char(name, '/') && !has_char(name, '\\')
        && !has_char(name, ':')
}

/// Checks the name given to `new` before a directory is made of it.
pub fn validate_project_name(name: &str) -> (r: Result<(), &'static str>)
    ensures
        new_name_ok(name@) ==> r is Ok,
        !new_name_ok(name@) ==> (r matches Err(m) && m@ == "invalid project name"@),
{
    let v = chars_of(name);
    let dots = chars_of("..");
    if v.len() == 0 || contains_chars(v.as_slice(), dots.as_slice()) || has_char_exec(v.as_slice(), '/')
        || has_char_exec(v.as_slice(), '\\') || has_char_exec(v.as_slice(), ':') {
        return Err("invalid project name");
    }
    Ok(())
}

/// `s` with every `from` replaced by `to`.
pub open spec fn map_char(s: Seq<char>, from: char, to: char) -> Seq<char> {
    Seq::new(s.len(), |i: int| if s[i] == from { to } else { s[i] })
}

/// The relative directory of a dotted package name: its dots become the
/// path separator `sep`.
pub fn package_dir(pkg: &str, sep: char) -> (r: String)
    ensures
        r@ == map_char(pkg@, '.', sep),
{
    let v = chars_of(pkg);
    let mut out: Vec<char> = Vec::new();
    let mut i: usize = 0;
    while i < v.len()
        invariant
            i <= v@.len(),
            v@ == pkg@,
            out@ == map_char(v@.take(i as int), '.', sep),
        decreases v@.len() - i,
    {
        let c = if v[i] == '.' {
            sep
        } else {
            v[i]
        };
        out.push(c);
        assert(out@ =~= map_char(v@.take(i + 1), '.', sep));
        i += 1;
    }
    assert(v@.take(v@.len() as int) =~= v@);
    string_of(out.as_slice())
}

/// The name a tracked project gets: the one given, else the directory's
/// name, else `unknown`.
pub fn track_name(given: Option<String>, dir_name: Option<String>) -> (r: String)
    ensures
        r@ == match given {
            Some(g) => g@,
            None => match dir_name {
                Some(d) => d@,
                None => "unknown"@,
            },
        },
{
    match given {
        Some(g) => g,
        None => match dir_name {
            Some(d) => d,
            None => String::from_str("unknown"),
        },
    }
}

/// The git state of a directory: `no_git` when no repository opens there,
/// else `clean` or `dirty` by the number of changed tracked files.
pub fn git_state(opened: bool, changed: usize) -> (r: &'static str)
    ensures
        r@ == (if !opened {
            "no_git"@
        } else if changed == 0 {
            "clean"@
        } else {
            "dirty"@
        }),
{
    if !opened {
        "no_git"
    } else if changed == 0 {
        "clean"
    } else {
        "dirty"
    }
}

/// The status of a tracked project: `missing` when its directory is gone,
/// `dirty` when its git state is, `ok` otherwise.
pub fn project_status(exists: bool, git_status: &str) -> (r: &'static str)
    ensures
        r@ == (if !exists {
            "missing"@
        } else if git_status@ == "dirty"@ {
            "dirty"@
        } else {
            "ok"@
        }),
{
    if !exists {
        "missing"
    } else if str_eq(git_status, "dirty") {
        "dirty"
    } else {
        "ok"
    }
}

/// The mark shown for a status in the text listing.
pub fn status_icon(status: &str) -> (r: &'static str)
    ensures
        r@ == (if status@ == "dirty"@ {
            "[dirty]"@
        } else if status@ == "missing"@ {
            "[missing]"@
        } else {
            "[ok]"@
        }),
{
    if str_eq(status, "dirty") {
        "[dirty]"
    } else if str_eq(status, "missing") {
        "[missing]"
    } else {
        "[ok]"
    }
}

/// The community repository of language packs, when `PYFORGE_I18N_REPO`
/// does not name another.
pub const DEFAULT_REPO_URL: &'static str = "https://raw.githubusercontent.com/pyforge/i18n-packs/main";

/// The repository of language packs: `PYFORGE_I18N_REPO` when set.
pub fn repo_url(env_repo: Option<String>) -> (r: String)
    ensures
        r@ == match env_repo {
            Some(u) => u@,
            None => DEFAULT_REPO_URL@,
        },
{
    match env_repo {
        Some(u) => u,
        None => String::from_str(DEFAULT_REPO_URL),
    }
}

/// The address of the pack for `lang` in the repository at `repo`.
pub fn lang_pack_url(repo: &str, lang: &str) -> (r: String)
    ensures
        r@ == repo@ + "/"@ + lang@ + ".json"@,
{
    let a = cat3(repo, "/", lang);
    cat(a.as_str(), ".json")
}

/// The exit code of `outdated` when `uv` failed: 1 when it is not
/// installed, 2 for any other failure.
pub fn uv_exit_code(e: &UvError) -> (r: i32)
    ensures
        r == if e is NotInstalled { 1i32 } else { 2i32 },
{
    match e {
        UvError::NotInstalled => 1,
        _ => 2,
    }
}

/// The exit code of `new` when `uv init` failed: 1 when `uv` is missing or
/// refused the project, 2 for any other failure.
pub fn init_exit_code(e: &UvError) -> (r: i32)
    ensures
        r == if e is NotInstalled || e is InitFailed { 1i32 } else { 2i32 },
{
    match e {
        UvError::NotInstalled => 1,
        UvError::InitFailed(_) => 1,
        _ => 2,
    }
}

/// Path pieces joined by the separator `sep`.
pub open spec fn join_parts(parts: Seq<Seq<char>>, sep: char) -> Seq<char>
    decreases parts.len(),
{
    if parts.len() == 0 {
        Seq::empty()
    } else if parts.len() == 1 {
        parts[0]
    } else {
        join_parts(parts.drop_last(), sep) + seq![sep] + parts.last()
    }
}

/// The directories above a package's own, relative to the base: for
/// `a/b/c` these are `a` and `a/b`; each gets an `__init__.py`.
pub fn intermediate_dirs(rel: &str, sep: char) -> (r: Vec<String>)
    ensures
        r@.len() == if split(rel@, sep).len() > 0 { split(rel@, sep).len() - 1 } else { 0 },
        forall|i: int| 0 <= i < r@.len() ==> #[trigger] r@[i]@ == join_parts(split(rel@, sep).take(i + 1), sep),
{
    let v = chars_of(rel);
    let parts = split_chars(v.as_slice(), sep);
    let ghost pv = views(parts@);
    let mut r: Vec<String> = Vec::new();
    if parts.len() == 0 {
        return r;
    }
    let mut acc: Vec<char> = Vec::new();
    let mut i: usize = 0;
    while i + 1 < parts.len()
        invariant
            pv == views(parts@),
            pv == split(rel@, sep),
            parts@.len() > 0,
            i + 1 <= parts@.len(),
            r@.len() == i,
            i > 0 ==> acc@ == join_parts(pv.take(i as int), sep),
            i == 0 ==> acc@.len() == 0,
            forall|k: int| 0 <= k < i ==> #[trigger] r@[k]@ == join_parts(pv.take(k + 1), sep),
        decreases parts@.len() - i,
    {
        let ghost old_acc = acc@;
        if i > 0 {
            acc.push(sep);
        }
        let piece = parts[i].as_slice();
        let mut j: usize = 0;
        let ghost base = acc@;
        while j < piece.len()
            invariant
                j <= piece@.len(),
                acc@ == base + piece@.take(j as int),
            decreases piece@.len() - j,
        {
            acc.push(piece[j]);
            assert(piece@.take(j + 1) =~= piece@.take(j as int).push(piece@[j as int]));
            j += 1;
        }
        assert(piece@.take(piece@.len() as int) =~= piece@);
        assert(piece@ == pv[i as int]);
        proof {
            let t = pv.take(i + 1);
            assert(t.last() == pv[i as int]);
            assert(t.drop_last() =~= pv.take(i as int));
            if i == 0 {
                assert(t =~= seq![pv[0]]);
                assert(acc@ =~= pv[0]);
            } else {
                assert(acc@ =~= join_parts(pv.take(i as int), sep) + seq![sep] + pv[i as int]);
            }
        }
        r.push(string_of(acc.as_slice()));
        i += 1;
    }
    r
}

/// The text of the `pyproject.toml` that the `uv` stand-in writes for a new
/// project.
pub fn mock_pyproject(name: &str) -> (r: String)
    ensures
        r@ == "[project]\nname = \""@ + name@ + "\"\nversion = \"0.1.0\"\n"@,
{
    cat3("[project]\nname = \"", name, "\"\nversion = \"0.1.0\"\n")
}

/// A character of a Python identifier in ASCII: a letter, a digit or `_`.
pub open spec fn identifier_char(c: char) -> bool {
    ('a' <= c && c <= 'z') || ('A' <= c && c <= 'Z') || ('0' <= c && c <= '9') || c == '_'
}

/// Every dotted name whose components are non-empty runs of letters, digits
/// and underscores (such as `myapp.my_utils`) is accepted.
pub proof fn law_identifier_components_accepted(pkg: Seq<char>)
    requires
        forall|i: int| 0 <= i < split(pkg, '.').len() ==> (#[trigger] split(pkg, '.')[i]).len() > 0,
        forall|i: int, j: int|
            0 <= i < split(pkg, '.').len() && 0 <= j < split(pkg, '.')[i].len() ==> identifier_char(
                #[trigger] split(pkg, '.')[i][j],
            ),
    ensures
        package_name_ok(pkg),
{
    reveal_strlit("..");
    assert forall|i: int| 0 <= i < split(pkg, '.').len() implies #[trigger] component_ok(split(pkg, '.')[i]) by {
        let c = split(pkg, '.')[i];
        assert(identifier_char(c[0]));
        assert(c != ".."@) by {
            assert(".."@[0] == '.');
        }
        assert(!has_char(c, '/')) by {
            if has_char(c, '/') {
                let j = choose|j: int| 0 <= j < c.len() && c[j] == '/';
                assert(identifier_char(split(pkg, '.')[i][j]));
            }
        }
        assert(!has_char(c, '\\')) by {
            if has_char(c, '\\') {
                let j = choose|j: int| 0 <= j < c.len() && c[j] == '\\';
                assert(identifier_char(split(pkg, '.')[i][j]));
            }
        }
    }
}

/// A dotted name is refused only for an empty component, a component `..`,
/// or a component holding `/` or `\`.
pub proof fn law_refused_only_for_unsafe_components(pkg: Seq<char>)
    requires
        !package_name_ok(pkg),
    ensures
        exists|i: int|
            0 <= i < split(pkg, '.').len() && {
                let c = #[trigger] split(pkg, '.')[i];
                c.len() == 0 || c == ".."@ || has_char(c, '/') || has_char(c, '\\')
            },
{
}

/// A dotted name with an empty component, a component `..`, or a component
/// holding `/` or `\` is refused.
pub proof fn law_unsafe_component_refused(pkg: Seq<char>, i: int)
    requires
        0 <= i < split(pkg, '.').len(),
        ({
            let c = split(pkg, '.')[i];
            c.len() == 0 || c == ".."@ || has_char(c, '/') || has_char(c, '\\')
        }),
    ensures
        !package_name_ok(pkg),
{
    assert(!component_ok(split(pkg, '.')[i]));
}

} // verus!
