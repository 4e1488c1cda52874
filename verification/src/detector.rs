//! Recognising a Python project from the marker files in its directory:
//! how sure the guess is, the Python version it asks for, its toolchain.

use vstd::prelude::*;
use crate::text::{
    chars_of, lines, lines_of, starts_with, starts_with_chars, string_of, sub_chars, trim,
    trim_chars, trim_end, trim_start, views,
};

verus! {

/// How sure a detection is.
#[derive(Debug, Clone, Copy, PartialEq, Eq, Structural)]
pub enum Confidence {
    /// A `pyproject.toml` is present.
    High,
    /// A `setup.py` is present.
    Medium,
    /// Only `.py` files.
    Low,
}

/// What was detected of a project.
#[derive(Debug)]
pub struct Detection {
    pub confidence: Confidence,
    pub python_version: Option<String>,
    pub toolchain: Option<String>,
}

/// Which marker files a directory holds.
#[derive(Debug, Clone, Copy)]
pub struct ProjectFiles {
    pub pyproject_toml: bool,
    pub setup_py: bool,
    pub setup_cfg: bool,
    pub uv_lock: bool,
    pub poetry_lock: bool,
}

/// The position of the first `c` in `s`.
pub open spec fn first_of(s: Seq<char>, c: char) -> Option<int>
    decreases s.len(),
{
    if s.len() == 0 {
        None
    } else if s[0] == c {
        Some(0)
    } else {
        match first_of(s.drop_first(), c) {
            Some(i) => Some(i + 1),
            None => None,
        }
    }
}

/// `s` without leading `c`s.
pub open spec fn strip_lead(s: Seq<char>, c: char) -> Seq<char>
    decreases s.len(),
{
    if s.len() > 0 && s[0] == c {
        strip_lead(s.drop_first(), c)
    } else {
        s
    }
}

/// `s` without trailing `c`s.
pub open spec fn strip_trail(s: Seq<char>, c: char) -> Seq<char>
    decreases s.len(),
{
    if s.len() > 0 && s.last() == c {
        strip_trail(s.drop_last(), c)
    } else {
        s
    }
}

/// `str::trim_matches` with one character.
pub open spec fn trim_matches(s: Seq<char>, c: char) -> Seq<char> {
    strip_trail(strip_lead(s, c), c)
}

/// The value a line gives to `requires-python`, if it gives one: the text
/// after its first `=`, trimmed, without surrounding quotes, non-empty.
pub open spec fn requires_value(line: Seq<char>) -> Option<Seq<char>> {
    let t = trim(line);
    if !starts_with(t, "requires-python"@) {
        None
    } else {
        match first_of(t, '=') {
            Some(pos) => {
                let v = trim_matches(trim_matches(trim(t.skip(pos + 1)), '"'), '\'');
                if v.len() > 0 {
                    Some(v)
                } else {
                    None
                }
            },
            None => None,
        }
    }
}

/// The first value that a line of `ls` gives to `requires-python`.
pub open spec fn first_requires(ls: Seq<Seq<char>>) -> Option<Seq<char>>
    decreases ls.len(),
{
    if ls.len() == 0 {
        None
    } else {
        match requires_value(ls[0]) {
            Some(v) => Some(v),
            None => first_requires(ls.drop_first()),
        }
    }
}

/// The `requires-python` of a `pyproject.toml`'s text.
pub open spec fn python_requires(content: Seq<char>) -> Option<Seq<char>> {
    first_requires(lines(content))
}

fn first_of_exec(s: &[char], c: char) -> (r: Option<usize>)
    ensures
        match r {
            Some(i) => first_of(s@, c) == Some(i as int) && i < s@.len(),
            None => first_of(s@, c) is None,
        },
{
    let mut i: usize = 0;
    assert(s@.skip(0) =~= s@);
    while i < s.len()
        invariant
            i <= s@.len(),
            forall|k: int| 0 <= k < i ==> s@[k] != c,
            first_of(s@, c) == match first_of(s@.skip(i as int), c) {
                Some(k) => Some(k + i),
                None => None,
            },
        decreases s@.len() - i,
    {
        assert(s@.skip(i as int).drop_first() =~= s@.skip(i + 1));
        assert(s@.skip(i as int)[0] == s@[i as int]);
        if s[i] == c {
            return Some(i);
        }
        i += 1;
    }
    None
}

fn strip_lead_exec(s: &[char], c: char) -> (r: Vec<char>)
    ensures
        r@ == strip_lead(s@, c),
{
    let mut i: usize = 0;
    assert(s@.skip(0) =~= s@);
    while i < s.len() && s[i] == c
        invariant
            i <= s@.len(),
            strip_lead(s@, c) == strip_lead(s@.skip(i as int), c),
        decreases s@.len() - i,
    {
        assert(s@.skip(i as int).drop_first() =~= s@.skip(i + 1));
        i += 1;
    }
    let r = sub_chars(s, i, s.len());
    assert(r@ =~= s@.skip(i as int));
    r
}

fn strip_trail_exec(s: &[char], c: char) -> (r: Vec<char>)
    ensures
        r@ == strip_trail(s@, c),
{
    let mut j: usize = s.len();
    assert(s@.take(s@.len() as int) =~= s@);
    while j > 0 && s[j - 1] == c
        invariant
            j <= s@.len(),
            strip_trail(s@, c) == strip_trail(s@.take(j as int), c),
        decreases j,
    {
        assert(s@.take(j as int).drop_last() =~= s@.take(j - 1));
        j -= 1;
    }
    let r = sub_chars(s, 0, j);
    assert(r@ =~= s@.take(j as int));
    r
}

fn trim_matches_exec(s: &[char], c: char) -> (r: Vec<char>)
    ensures
        r@ == trim_matches(s@, c),
{
    let a = strip_lead_exec(s, c);
    strip_trail_exec(a.as_slice(), c)
}

fn requires_value_exec(line: &[char]) -> (r: Option<Vec<char>>)
    ensures
        match r {
            Some(v) => requires_value(line@) == Some(v@),
            None => requires_value(line@) is None,
        },
{
    let t = trim_chars(line);
    let key = chars_of("requires-python");
    if !starts_with_chars(t.as_slice(), key.as_slice()) {
        return None;
    }
    let found = first_of_exec(t.as_slice(), '=');
    match found {
        Some(pos) => {
            let n = t.len();
            assert(pos < n);
            let rest = sub_chars(t.as_slice(), pos + 1, n);
            assert(rest@ =~= t@.skip(pos + 1));
            let a = trim_chars(rest.as_slice());
            let b = trim_matches_exec(a.as_slice(), '"');
            let v = trim_matches_exec(b.as_slice(), '\'');
            if v.len() > 0 {
                Some(v)
            } else {
                None
            }
        },
        None => None,
    }
}

/// The `requires-python` value of a `pyproject.toml`: the first line that
/// starts with `requires-python` and gives a non-empty value after `=`.
pub fn parse_python_requires(content: &str) -> (r: Option<String>)
    ensures
        match r {
            Some(v) => python_requires(content@) == Some(v@),
            None => python_requires(content@) is None,
        },
{
    let c = chars_of(content);
    let ls = lines_of(c.as_slice());
    let ghost lv = views(ls@);
    let mut i: usize = 0;
    assert(lv.skip(0) =~= lv);
    while i < ls.len()
        invariant
            i <= ls@.len(),
            lv == views(ls@),
            lv == lines(content@),
            first_requires(lv) == first_requires(lv.skip(i as int)),
        decreases ls@.len() - i,
    {
        assert(lv.skip(i as int).drop_first() =~= lv.skip(i + 1));
        assert(lv.skip(i as int)[0] == ls@[i as int]@);
        match requires_value_exec(ls[i].as_slice()) {
            Some(v) => {
                return Some(string_of(v.as_slice()));
            },
            None => {},
        }
        i += 1;
    }
    None
}

/// The toolchain that a directory's marker files show: `uv.lock`, then
/// `poetry.lock`, then a bare `pyproject.toml`, then `setup.py` or `setup.cfg`.
pub open spec fn toolchain_of(f: ProjectFiles) -> Option<Seq<char>> {
    if f.uv_lock {
        Some("uv"@)
    } else if f.poetry_lock {
        Some("poetry"@)
    } else if f.pyproject_toml {
        Some("unknown"@)
    } else if f.setup_py || f.setup_cfg {
        Some("setuptools"@)
    } else {
        None
    }
}

/// The toolchain of a project, from its marker files.
pub fn detect_toolchain(files: &ProjectFiles) -> (r: Option<String>)
    ensures
        match r {
            Some(t) => toolchain_of(*files) == Some(t@),
            None => toolchain_of(*files) is None,
        },
{
    if files.uv_lock {
        Some(String::from_str("uv"))
    } else if files.poetry_lock {
        Some(String::from_str("poetry"))
    } else if files.pyproject_toml {
        Some(String::from_str("unknown"))
    } else if files.setup_py || files.setup_cfg {
        Some(String::from_str("setuptools"))
    } else {
        None
    }
}

/// The confidence that the marker files give.
pub open spec fn confidence_of(f: ProjectFiles) -> Confidence {
    if f.pyproject_toml {
        Confidence::High
    } else if f.setup_py {
        Confidence::Medium
    } else {
        Confidence::Low
    }
}

/// The Python version detected: read from `pyproject.toml` (its text when it
/// could be read) only when there is one.
pub open spec fn version_of(f: ProjectFiles, pyproject: Option<Seq<char>>) -> Option<Seq<char>> {
    if f.pyproject_toml {
        match pyproject {
            Some(c) => python_requires(c),
            None => None,
        }
    } else {
        None
    }
}

/// Detects a project from its marker files and the text of its
/// `pyproject.toml` (`None` when it could not be read).
pub fn detect(files: &ProjectFiles, pyproject: Option<&str>) -> (r: Detection)
    ensures
        r.confidence == confidence_of(*files),
        match r.python_version {
            Some(v) => version_of(*files, match pyproject {
                Some(c) => Some(c@),
                None => None,
            }) == Some(v@),
            None => version_of(*files, match pyproject {
                Some(c) => Some(c@),
                None => None,
            }) is None,
        },
        match r.toolchain {
            Some(t) => toolchain_of(*files) == Some(t@),
            None => toolchain_of(*files) is None,
        },
{
    let confidence = if files.pyproject_toml {
        Confidence::High
    } else if files.setup_py {
        Confidence::Medium
    } else {
        Confidence::Low
    };
    let python_version = if files.pyproject_toml {
        match pyproject {
            Some(c) => parse_python_requires(c),
            None => None,
        }
    } else {
        None
    };
    let toolchain = detect_toolchain(files);
    Detection { confidence, python_version, toolchain }
}

proof fn lemma_first_of_after(a: Seq<char>, b: Seq<char>, c: char)
    requires
        forall|i: int| 0 <= i < a.len() ==> #[trigger] a[i] != c,
        b.len() > 0,
        b[0] == c,
    ensures
        first_of(a + b, c) == Some(a.len() as int),
    decreases a.len(),
{
    if a.len() > 0 {
        assert((a + b)[0] == a[0]);
        assert((a + b).drop_first() =~= a.drop_first() + b);
        assert forall|i: int| 0 <= i < a.drop_first().len() implies #[trigger] a.drop_first()[i] != c by {
            assert(a.drop_first()[i] == a[i + 1]);
        }
        lemma_first_of_after(a.drop_first(), b, c);
    } else {
        assert(a + b =~= b);
    }
}

proof fn lemma_first_requires_after(pre: Seq<Seq<char>>, rest: Seq<Seq<char>>)
    requires
        forall|i: int| 0 <= i < pre.len() ==> !starts_with(trim(#[trigger] pre[i]), "requires-python"@),
    ensures
        first_requires(pre + rest) == first_requires(rest),
    decreases pre.len(),
{
    if pre.len() > 0 {
        assert((pre + rest)[0] == pre[0]);
        assert(requires_value(pre[0]) is None);
        assert((pre + rest).drop_first() =~= pre.drop_first() + rest);
        assert forall|i: int| 0 <= i < pre.drop_first().len() implies !starts_with(
            trim(#[trigger] pre.drop_first()[i]),
            "requires-python"@,
        ) by {
            assert(pre.drop_first()[i] == pre[i + 1]);
        }
        lemma_first_requires_after(pre.drop_first(), rest);
    } else {
        assert(pre + rest =~= rest);
    }
}

/// The line `requires-python = "<version>"` of a `pyproject.toml` gives the
/// version between the quotes, wherever the line stands, as long as no line
/// before it sets `requires-python`. The version is non-empty and neither
/// starts nor ends with a quote of either kind.
pub proof fn law_requires_python_read(content: Seq<char>, pre: Seq<Seq<char>>, version: Seq<char>, post: Seq<Seq<char>>)
    requires
        lines(content) == pre + seq!["requires-python = \""@ + version + "\""@] + post,
        forall|i: int| 0 <= i < pre.len() ==> !starts_with(trim(#[trigger] pre[i]), "requires-python"@),
        version.len() > 0,
        version[0] != '"' && version[0] != '\'',
        version.last() != '"' && version.last() != '\'',
    ensures
        python_requires(content) == Some(version),
{
    reveal_strlit("requires-python = \"");
    reveal_strlit("requires-python");
    reveal_strlit("\"");
    let key = "requires-python = \""@;
    let line = key + version + "\""@;
    assert(lines(content) =~= pre + (seq![line] + post));
    lemma_first_requires_after(pre, seq![line] + post);
    assert((seq![line] + post)[0] == line);
    assert(line[0] == 'r');
    assert(line.last() == '"');
    assert(trim_start(line) == line);
    assert(trim_end(line) == line);
    assert(trim(line) == line);
    assert(line.take(15) =~= "requires-python"@);
    assert(starts_with(line, "requires-python"@));
    let head = key.take(16);
    assert(line =~= head + (key.skip(16) + version + "\""@));
    assert forall|i: int| 0 <= i < head.len() implies #[trigger] head[i] != '=' by {
        assert(head[i] == key[i]);
    }
    lemma_first_of_after(head, key.skip(16) + version + "\""@, '=');
    assert(first_of(line, '=') == Some(16int));
    let after = line.skip(17);
    let quoted = seq!['"'] + version + seq!['"'];
    assert(after =~= seq![' '] + quoted);
    assert(after.drop_first() =~= quoted);
    assert(trim_start(after) == trim_start(quoted));
    assert(trim_start(quoted) == quoted);
    assert(trim_end(quoted) == quoted);
    assert(trim(after) == quoted);
    assert(quoted.drop_first() =~= version + seq!['"']);
    assert(strip_lead(version + seq!['"'], '"') == version + seq!['"']) by {
        assert((version + seq!['"'])[0] == version[0]);
    }
    assert(strip_lead(quoted, '"') == version + seq!['"']);
    assert((version + seq!['"']).drop_last() =~= version);
    assert(strip_trail(version, '"') == version);
    assert(strip_trail(version + seq!['"'], '"') == version);
    assert(trim_matches(quoted, '"') == version);
    assert(strip_lead(version, '\'') == version);
    assert(strip_trail(version, '\'') == version);
    assert(requires_value(line) == Some(version));
}

} // verus!
