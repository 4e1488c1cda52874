//! Reading what the `uv` tool prints.
//!
//! Running `uv` is the caller's business; this module turns its output (or the
//! test stand-in configured by `PYFORGE_UV_MOCK`) into values.

use vstd::prelude::*;
use crate::text::{
    chars_of, extend_chars, lines, lines_of, starts_with, starts_with_chars, string_of, trim,
    trim_chars, views, words, words_of, split, split_chars, str_eq, cat,
};

verus! {

/// An outdated dependency: its name, the installed and the latest version.
#[derive(Debug)]
pub struct OutdatedDep {
    pub name: String,
    pub current: String,
    pub latest: String,
}

impl View for OutdatedDep {
    type V = (Seq<char>, Seq<char>, Seq<char>);

    open spec fn view(&self) -> (Seq<char>, Seq<char>, Seq<char>) {
        (self.name@, self.current@, self.latest@)
    }
}

/// Whether `uv` is installed, and its version.
#[derive(Debug)]
pub struct UvVersion {
    pub installed: bool,
    pub version: Option<String>,
}

/// Failures of the `uv` bridge.
#[derive(Debug)]
pub enum UvError {
    NotInstalled,
    InitFailed(String),
    ParseError(String),
    Io(String),
}

impl UvError {
    /// The error of a failed attempt to run `uv`: a missing program means
    /// that `uv` is not installed.
    pub fn from_io(not_found: bool, message: String) -> (r: UvError)
        ensures
            not_found ==> r is NotInstalled,
            !not_found ==> r == UvError::Io(message),
    {
        if not_found {
            UvError::NotInstalled
        } else {
            UvError::Io(message)
        }
    }

    /// The message shown for the error.
    pub fn to_string(&self) -> (r: String)
        ensures
            match self {
                UvError::NotInstalled => r@ == "uv 未安装"@,
                UvError::InitFailed(m) => r@ == "uv init 失败: "@ + m@,
                UvError::ParseError(m) => r@ == "uv 输出解析失败: "@ + m@,
                UvError::Io(e) => r@ == "uv 执行错误: "@ + e@,
            },
    {
        match self {
            UvError::NotInstalled => String::from_str("uv 未安装"),
            UvError::InitFailed(m) => cat("uv init 失败: ", m.as_str()),
            UvError::ParseError(m) => cat("uv 输出解析失败: ", m.as_str()),
            UvError::Io(e) => cat("uv 执行错误: ", e.as_str()),
        }
    }
}

/// The stand-in answer of `uv init` under `PYFORGE_UV_MOCK`: `success`
/// (`Ok`: the caller writes a minimal project), `missing`, `fail`; other
/// values ask for the real tool.
pub fn init_mock(mock: &str) -> (r: Option<Result<(), UvError>>)
    ensures
        mock@ == "success"@ ==> r == Some(Ok::<(), UvError>(())),
        mock@ == "missing"@ ==> (r matches Some(Err(UvError::NotInstalled))),
        mock@ == "fail"@ ==> (r matches Some(Err(UvError::InitFailed(m))) && m@ == "mock failure"@),
        mock@ != "success"@ && mock@ != "missing"@ && mock@ != "fail"@ ==> r is None,
{
    proof {
        reveal_strlit("success");
        reveal_strlit("missing");
        reveal_strlit("fail");
        assert("success"@[0] != "missing"@[0]);
        assert("success"@[0] != "fail"@[0]);
        assert("missing"@[0] != "fail"@[0]);
    }
    if str_eq(mock, "success") {
        Some(Ok(()))
    } else if str_eq(mock, "missing") {
        Some(Err(UvError::NotInstalled))
    } else if str_eq(mock, "fail") {
        Some(Err(UvError::InitFailed(String::from_str("mock failure"))))
    } else {
        None
    }
}

/// The views of a sequence of dependencies.
pub open spec fn dep_views(v: Seq<OutdatedDep>) -> Seq<(Seq<char>, Seq<char>, Seq<char>)> {
    v.map_values(|d: OutdatedDep| d@)
}

/// A line that precedes the data rows: blank, the `Package` header, or a rule.
pub open spec fn is_preamble(line: Seq<char>) -> bool {
    let t = trim(line);
    ||| t.len() == 0
    ||| starts_with(t, "Package"@)
    ||| t[0] == '-'
    ||| t[0] == '='
}

/// The lines from the first one that is not preamble on.
pub open spec fn skip_preamble(ls: Seq<Seq<char>>) -> Seq<Seq<char>>
    decreases ls.len(),
{
    if ls.len() > 0 && is_preamble(ls[0]) {
        skip_preamble(ls.drop_first())
    } else {
        ls
    }
}

/// The data rows: blank lines are ignored; every other line must hold at
/// least three whitespace-separated fields (name, current, latest), else the
/// trimmed line is reported.
pub open spec fn parse_rows(ls: Seq<Seq<char>>) -> Result<
    Seq<(Seq<char>, Seq<char>, Seq<char>)>,
    Seq<char>,
>
    decreases ls.len(),
{
    if ls.len() == 0 {
        Ok(seq![])
    } else {
        let t = trim(ls[0]);
        let w = words(t);
        if t.len() == 0 {
            parse_rows(ls.drop_first())
        } else if w.len() < 3 {
            Err(t)
        } else {
            match parse_rows(ls.drop_first()) {
                Ok(rest) => Ok(seq![(w[0], w[1], w[2])] + rest),
                Err(e) => Err(e),
            }
        }
    }
}

/// The table printed by `uv outdated`, read as dependencies, or the offending
/// line.
pub open spec fn outdated_table(out: Seq<char>) -> Result<
    Seq<(Seq<char>, Seq<char>, Seq<char>)>,
    Seq<char>,
> {
    parse_rows(skip_preamble(lines(out)))
}

/// The message for a line that is not a dependency row.
pub open spec fn bad_line_message(t: Seq<char>) -> Seq<char> {
    "无法解析行: "@ + t
}

/// What `parse_outdated_output` returns for `out`, stated as a relation.
pub open spec fn parses_as(out: Seq<char>, r: Result<Vec<OutdatedDep>, UvError>) -> bool {
    match outdated_table(out) {
        Ok(rows) => r matches Ok(v) && dep_views(v@) == rows,
        Err(t) => r matches Err(UvError::ParseError(m)) && m@ == bad_line_message(t),
    }
}

proof fn lemma_skip_preamble_step(ls: Seq<Seq<char>>, i: int)
    requires
        0 <= i < ls.len(),
        is_preamble(ls[i]),
        skip_preamble(ls) == skip_preamble(ls.skip(i)),
    ensures
        skip_preamble(ls) == skip_preamble(ls.skip(i + 1)),
{
    assert(ls.skip(i).drop_first() =~= ls.skip(i + 1));
}

/// Whether a line is preamble.
fn is_preamble_exec(line: &[char], package: &[char]) -> (r: bool)
    requires
        package@ == "Package"@,
    ensures
        r == is_preamble(line@),
{
    let t = trim_chars(line);
    t.len() == 0 || starts_with_chars(t.as_slice(), package) || t[0] == '-' || t[0] == '='
}

/// Parses the table that `uv outdated` prints:
///
/// ```text
/// Package       Current  Latest
/// fastapi       0.100.0  0.109.0
/// ```
///
/// Empty output, or a header alone, means every dependency is up to date.
pub fn parse_outdated_output(output: &str) -> (r: Result<Vec<OutdatedDep>, UvError>)
    ensures
        parses_as(output@, r),
{
    let text = chars_of(output);
    let ls = lines_of(text.as_slice());
    let package = chars_of("Package");
    let ghost lv = views(ls@);
    let mut i: usize = 0;
    assert(lv.skip(0) =~= lv);
    while i < ls.len() && is_preamble_exec(ls[i].as_slice(), package.as_slice())
        invariant
            i <= ls@.len(),
            lv == views(ls@),
            lv == lines(output@),
            package@ == "Package"@,
            skip_preamble(lv) == skip_preamble(lv.skip(i as int)),
        decreases ls@.len() - i,
    {
        proof {
            lemma_skip_preamble_step(lv, i as int);
        }
        i += 1;
    }
    let ghost data = lv.skip(i as int);
    assert(skip_preamble(lv) == data);
    let mut deps: Vec<OutdatedDep> = Vec::new();
    let mut j: usize = i;
    assert(data.skip(0) =~= data);
    while j < ls.len()
        invariant
            i <= j <= ls@.len(),
            lv == views(ls@),
            data == lv.skip(i as int),
            outdated_table(output@) == (match parse_rows(lv.skip(j as int)) {
                Ok(rest) => Ok(dep_views(deps@) + rest),
                Err(e) => Err(e),
            }),
        decreases ls@.len() - j,
    {
        let ghost rest = lv.skip(j as int);
        assert(rest.drop_first() =~= lv.skip(j + 1));
        assert(rest[0] == ls@[j as int]@);
        let t = trim_chars(ls[j].as_slice());
        if t.len() > 0 {
            let w = words_of(t.as_slice());
            if w.len() < 3 {
                let mut msg = chars_of("无法解析行: ");
                let ghost prefix = msg@;
                extend_chars(&mut msg, t.as_slice());
                return Err(UvError::ParseError(string_of(msg.as_slice())));
            }
            let ghost old_deps = deps@;
            let d = OutdatedDep {
                name: string_of(w[0].as_slice()),
                current: string_of(w[1].as_slice()),
                latest: string_of(w[2].as_slice()),
            };
            assert(d@ == (views(w@)[0], views(w@)[1], views(w@)[2]));
            deps.push(d);
            assert(dep_views(deps@) =~= dep_views(old_deps) + seq![d@]);
            proof {
                match parse_rows(rest.drop_first()) {
                    Ok(r2) => {
                        assert(dep_views(deps@) + r2 =~= dep_views(old_deps) + (seq![d@] + r2));
                    },
                    Err(e) => {},
                }
            }
        }
        j += 1;
    }
    assert(lv.skip(j as int) =~= Seq::<Seq<char>>::empty());
    assert(dep_views(deps@) =~= dep_views(deps@) + Seq::<(Seq<char>, Seq<char>, Seq<char>)>::empty());
    Ok(deps)
}

/// The version that `uv --version` reports: the trimmed output without a
/// leading `uv `, up to the first whitespace; the whole trimmed output when
/// nothing is left.
pub open spec fn uv_version_text(out: Seq<char>) -> Seq<char> {
    let t = trim(out);
    let rest = if starts_with(t, "uv "@) {
        t.skip("uv "@.len() as int)
    } else {
        t
    };
    let w = words(rest);
    if w.len() > 0 {
        w[0]
    } else {
        t
    }
}

/// Reads the version out of what `uv --version` printed, e.g.
/// `uv 0.6.0 (abc1234 2025-01-01)` gives `0.6.0`.
pub fn parse_uv_version(stdout: &str) -> (r: String)
    ensures
        r@ == uv_version_text(stdout@),
{
    let raw = chars_of(stdout);
    let t = trim_chars(raw.as_slice());
    let prefix = chars_of("uv ");
    let rest = if starts_with_chars(t.as_slice(), prefix.as_slice()) {
        crate::text::sub_chars(t.as_slice(), prefix.len(), t.len())
    } else {
        crate::text::copy_chars(t.as_slice())
    };
    assert(rest@ == (if starts_with(t@, "uv "@) {
        t@.skip("uv "@.len() as int)
    } else {
        t@
    }));
    let w = words_of(rest.as_slice());
    if w.len() > 0 {
        assert(views(w@)[0] == w@[0]@);
        string_of(w[0].as_slice())
    } else {
        string_of(t.as_slice())
    }
}

/// The state of `uv` from the outcome of `uv --version`: installed when the
/// command succeeded, with the version it printed.
pub fn uv_version_from_output(succeeded: bool, stdout: &str) -> (r: UvVersion)
    ensures
        r.installed == succeeded,
        succeeded ==> (r.version matches Some(v) && v@ == uv_version_text(stdout@)),
        !succeeded ==> r.version is None,
{
    if succeeded {
        UvVersion { installed: true, version: Some(parse_uv_version(stdout)) }
    } else {
        UvVersion { installed: false, version: None }
    }
}

/// The stand-in answer of `uv --version` under `PYFORGE_UV_MOCK`: `success`
/// claims version `0.6.0 (mock)`, `missing` claims no `uv`; other values ask
/// for the real tool.
pub fn uv_version_mock(mock: &str) -> (r: Option<UvVersion>)
    ensures
        mock@ == "success"@ ==> (r matches Some(u) && u.installed && (u.version matches Some(v)
            && v@ == "0.6.0 (mock)"@)),
        mock@ == "missing"@ ==> (r matches Some(u) && !u.installed && (u.version is None)),
        mock@ != "success"@ && mock@ != "missing"@ ==> r is None,
{
    proof {
        reveal_strlit("success");
        reveal_strlit("missing");
        assert("success"@[0] != "missing"@[0]);
    }
    if str_eq(mock, "success") {
        Some(UvVersion { installed: true, version: Some(String::from_str("0.6.0 (mock)")) })
    } else if str_eq(mock, "missing") {
        Some(UvVersion { installed: false, version: None })
    } else {
        None
    }
}

/// The entries of a stand-in `outdated` list `name:current:latest,...`:
/// every entry must have exactly three fields, else it is reported.
pub open spec fn mock_entries(es: Seq<Seq<char>>) -> Result<
    Seq<(Seq<char>, Seq<char>, Seq<char>)>,
    Seq<char>,
>
    decreases es.len(),
{
    if es.len() == 0 {
        Ok(seq![])
    } else {
        let p = split(es[0], ':');
        if p.len() != 3 {
            Err(es[0])
        } else {
            match mock_entries(es.drop_first()) {
                Ok(rest) => Ok(seq![(p[0], p[1], p[2])] + rest),
                Err(e) => Err(e),
            }
        }
    }
}

/// What the stand-in list `csv` stands for: empty means nothing outdated.
pub open spec fn mock_list(csv: Seq<char>) -> Result<Seq<(Seq<char>, Seq<char>, Seq<char>)>, Seq<char>> {
    if csv.len() == 0 {
        Ok(seq![])
    } else {
        mock_entries(split(csv, ','))
    }
}

/// Reads a stand-in list `name:current:latest,...`.
pub fn parse_mock_outdated(csv: &[char]) -> (r: Result<Vec<OutdatedDep>, UvError>)
    ensures
        match mock_list(csv@) {
            Ok(rows) => r matches Ok(v) && dep_views(v@) == rows,
            Err(e) => r matches Err(UvError::ParseError(m)) && m@ == "invalid mock data: "@ + e,
        },
{
    if csv.len() == 0 {
        let v: Vec<OutdatedDep> = Vec::new();
        assert(dep_views(v@) =~= Seq::<(Seq<char>, Seq<char>, Seq<char>)>::empty());
        return Ok(v);
    }
    let es = split_chars(csv, ',');
    let ghost ev = views(es@);
    let mut deps: Vec<OutdatedDep> = Vec::new();
    let mut j: usize = 0;
    assert(ev.skip(0) =~= ev);
    while j < es.len()
        invariant
            j <= es@.len(),
            ev == views(es@),
            csv@.len() > 0,
            mock_list(csv@) == mock_entries(ev),
            mock_entries(ev) == (match mock_entries(ev.skip(j as int)) {
                Ok(rest) => Ok(dep_views(deps@) + rest),
                Err(e) => Err(e),
            }),
        decreases es@.len() - j,
    {
        let ghost rest = ev.skip(j as int);
        assert(rest.drop_first() =~= ev.skip(j + 1));
        assert(rest[0] == es@[j as int]@);
        let p = split_chars(es[j].as_slice(), ':');
        if p.len() != 3 {
            let mut msg = chars_of("invalid mock data: ");
            extend_chars(&mut msg, es[j].as_slice());
            return Err(UvError::ParseError(string_of(msg.as_slice())));
        }
        let ghost old_deps = deps@;
        let d = OutdatedDep {
            name: string_of(p[0].as_slice()),
            current: string_of(p[1].as_slice()),
            latest: string_of(p[2].as_slice()),
        };
        assert(d@ == (views(p@)[0], views(p@)[1], views(p@)[2]));
        deps.push(d);
        assert(dep_views(deps@) =~= dep_views(old_deps) + seq![d@]);
        proof {
            match mock_entries(rest.drop_first()) {
                Ok(r2) => {
                    assert(dep_views(deps@) + r2 =~= dep_views(old_deps) + (seq![d@] + r2));
                },
                Err(e) => {},
            }
        }
        j += 1;
    }
    assert(ev.skip(j as int) =~= Seq::<Seq<char>>::empty());
    assert(dep_views(deps@) =~= dep_views(deps@) + Seq::<(Seq<char>, Seq<char>, Seq<char>)>::empty());
    Ok(deps)
}

/// The stand-in answer of `uv outdated` under `PYFORGE_UV_MOCK`:
/// `outdated_clean` (nothing outdated), `outdated_parse_error`, `missing`, or
/// `outdated:<list>`; other values ask for the real tool.
pub fn outdated_mock(mock: &str) -> (r: Option<Result<Vec<OutdatedDep>, UvError>>)
    ensures
        mock@ == "outdated_clean"@ ==> (r matches Some(Ok(v)) && v@.len() == 0),
        mock@ == "outdated_parse_error"@ ==> (r matches Some(Err(UvError::ParseError(m))) && m@
            == "mock parse failure"@),
        mock@ == "missing"@ ==> r matches Some(Err(UvError::NotInstalled)),
        mock@ != "outdated_clean"@ && mock@ != "outdated_parse_error"@ && mock@ != "missing"@ ==> (
        if starts_with(mock@, "outdated:"@) {
            r matches Some(res) && match mock_list(mock@.skip("outdated:"@.len() as int)) {
                Ok(rows) => res matches Ok(v) && dep_views(v@) == rows,
                Err(e) => res matches Err(UvError::ParseError(m)) && m@ == "invalid mock data: "@
                    + e,
            }
        } else {
            r is None
        }),
{
    proof {
        reveal_strlit("outdated_clean");
        reveal_strlit("outdated_parse_error");
        reveal_strlit("missing");
    }
    if str_eq(mock, "outdated_clean") {
        return Some(Ok(Vec::new()));
    }
    if str_eq(mock, "outdated_parse_error") {
        return Some(Err(UvError::ParseError(String::from_str("mock parse failure"))));
    }
    if str_eq(mock, "missing") {
        return Some(Err(UvError::NotInstalled));
    }
    let m = chars_of(mock);
    let prefix = chars_of("outdated:");
    if starts_with_chars(m.as_slice(), prefix.as_slice()) {
        let csv = crate::text::sub_chars(m.as_slice(), prefix.len(), m.len());
        assert(csv@ =~= mock@.skip("outdated:"@.len() as int));
        Some(parse_mock_outdated(csv.as_slice()))
    } else {
        None
    }
}

/// A line before the table's rows: blank once trimmed, the column header
/// (`Package ...`), or a rule of dashes or equal signs.
pub open spec fn header_or_rule(line: Seq<char>) -> bool {
    let t = trim(line);
    t.len() == 0 || starts_with(t, "Package"@) || t[0] == '-' || t[0] == '='
}

/// A table row: non-blank, with at least three fields.
pub open spec fn table_row(line: Seq<char>) -> bool {
    trim(line).len() > 0 && words(trim(line)).len() >= 3
}

/// The (name, current, latest) fields of a table row.
pub open spec fn row_fields(line: Seq<char>) -> (Seq<char>, Seq<char>, Seq<char>) {
    let w = words(trim(line));
    (w[0], w[1], w[2])
}

proof fn lemma_skip_header_lines(pre: Seq<Seq<char>>, rows: Seq<Seq<char>>)
    requires
        forall|i: int| 0 <= i < pre.len() ==> header_or_rule(#[trigger] pre[i]),
    ensures
        skip_preamble(pre + rows) == skip_preamble(rows),
    decreases pre.len(),
{
    if pre.len() > 0 {
        assert(is_preamble(pre[0]));
        assert((pre + rows).drop_first() =~= pre.drop_first() + rows);
        assert forall|i: int| 0 <= i < pre.drop_first().len() implies header_or_rule(
            #[trigger] pre.drop_first()[i],
        ) by {
            assert(pre.drop_first()[i] == pre[i + 1]);
        }
        lemma_skip_header_lines(pre.drop_first(), rows);
    } else {
        assert(pre + rows =~= rows);
    }
}

proof fn lemma_rows_parse(rows: Seq<Seq<char>>)
    requires
        forall|i: int| 0 <= i < rows.len() ==> table_row(#[trigger] rows[i]),
    ensures
        parse_rows(rows) == Ok::<Seq<(Seq<char>, Seq<char>, Seq<char>)>, Seq<char>>(
            rows.map_values(|l: Seq<char>| row_fields(l)),
        ),
    decreases rows.len(),
{
    if rows.len() > 0 {
        let rest = rows.drop_first();
        assert forall|i: int| 0 <= i < rest.len() implies table_row(#[trigger] rest[i]) by {
            assert(rest[i] == rows[i + 1]);
        }
        assert(table_row(rows[0]));
        lemma_rows_parse(rest);
        assert(seq![row_fields(rows[0])] + rest.map_values(|l: Seq<char>| row_fields(l))
            =~= rows.map_values(|l: Seq<char>| row_fields(l)));
    } else {
        assert(rows.map_values(|l: Seq<char>| row_fields(l)) =~= Seq::<(Seq<char>, Seq<char>, Seq<char>)>::empty());
    }
}

/// The header and the rule lines above the table are never read as
/// dependencies: for an output whose lines are header or rule lines followed
/// by rows of at least three fields (the first row not itself a header or a
/// rule), the result holds one dependency per row, in order, made of the
/// row's first three fields.
pub proof fn law_header_and_rule_skipped(
    out: Seq<char>,
    pre: Seq<Seq<char>>,
    rows: Seq<Seq<char>>,
    r: Result<Vec<OutdatedDep>, UvError>,
)
    requires
        lines(out) == pre + rows,
        forall|i: int| 0 <= i < pre.len() ==> header_or_rule(#[trigger] pre[i]),
        forall|i: int| 0 <= i < rows.len() ==> table_row(#[trigger] rows[i]),
        rows.len() > 0 ==> !header_or_rule(rows[0]),
        parses_as(out, r),
    ensures
        r is Ok,
        r matches Ok(v) ==> v@.len() == rows.len() && forall|i: int|
            0 <= i < rows.len() ==> (#[trigger] v@[i])@ == row_fields(rows[i]),
{
    lemma_skip_header_lines(pre, rows);
    if rows.len() > 0 {
        assert(!is_preamble(rows[0]));
    }
    assert(skip_preamble(rows) == rows);
    lemma_rows_parse(rows);
    let m = rows.map_values(|l: Seq<char>| row_fields(l));
    assert(outdated_table(out) == Ok::<Seq<(Seq<char>, Seq<char>, Seq<char>)>, Seq<char>>(m));
    if let Ok(v) = r {
        assert(dep_views(v@) == m);
        assert(dep_views(v@).len() == v@.len());
        assert(m.len() == rows.len());
        assert forall|i: int| 0 <= i < rows.len() implies (#[trigger] v@[i])@ == row_fields(rows[i]) by {
            assert(dep_views(v@)[i] == v@[i]@);
            assert(m[i] == row_fields(rows[i]));
        }
    }
}

} // verus!
