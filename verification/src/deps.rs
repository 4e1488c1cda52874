//! Dependencies of Python projects: names read from `pyproject.toml` (PEP 621
//! and Poetry layouts) and their aggregation across projects.

use vstd::prelude::*;
use crate::text::{
    chars_of, contains, contains_chars, copy_chars, has_char, has_char_exec, lowercase,
    lowercase_chars, replace_all, replace_chars, string_of, sub_chars, trim, trim_chars, views,
    string_views, strings_of, is_ws, trim_start, trim_end,
};
use crate::order::{
    compare_chars, insert_sorted_unique, seq_le, seq_lt, sort_ranked, sorted_unique,
    strictly_sorted, Ranked,
};

verus! {

/// A TOML value as far as dependency lists need it: strings, arrays, tables
/// (with their entries in the order the parsed table gives them, which for
/// `toml::Value` is sorted by key) and everything else.
#[derive(Debug)]
pub enum TomlValue {
    Str(String),
    Array(Vec<TomlValue>),
    Table(Vec<(String, TomlValue)>),
    Other,
}

/// The characters that end a package name in a requirement.
pub open spec fn is_spec_start(c: char) -> bool {
    c == '>' || c == '<' || c == '=' || c == '!' || c == '~' || c == '['
}

/// Index of the first character of `s` that ends a package name, or
/// `s.len()`.
pub open spec fn first_spec_start(s: Seq<char>) -> nat
    decreases s.len(),
{
    if s.len() == 0 {
        0
    } else if is_spec_start(s[0]) {
        0
    } else {
        1 + first_spec_start(s.drop_first())
    }
}

/// Index of the first `c` in `s`, or `s.len()`.
pub open spec fn first_char(s: Seq<char>, c: char) -> nat
    decreases s.len(),
{
    if s.len() == 0 {
        0
    } else if s[0] == c {
        0
    } else {
        1 + first_char(s.drop_first(), c)
    }
}

/// The normalised package name of a requirement string: `None` for blank
/// lines, comments, options, and URL or git requirements; otherwise the part
/// before any environment marker (`;`) and any version specifier, trimmed,
/// lower-cased, with `_` replaced by `-`.
pub open spec fn dep_name(spec: Seq<char>) -> Option<Seq<char>> {
    let s = trim(spec);
    if s.len() == 0 || s[0] == '#' || s[0] == '-' {
        None
    } else if contains(s, "://"@) || contains(s, "git+"@) {
        None
    } else {
        let s2 = if has_char(s, ';') {
            trim(s.take(first_char(s, ';') as int))
        } else {
            s
        };
        let name = trim(s2.take(first_spec_start(s2) as int));
        if name.len() == 0 {
            None
        } else {
            Some(replace_all(lowercase(name), seq!['_'], seq!['-']))
        }
    }
}

/// The index of the first character of `s` that ends a package name (or
/// `s.len()`).
fn find_spec_start(s: &[char]) -> (r: usize)
    ensures
        r == first_spec_start(s@),
        r <= s@.len(),
{
    let mut i: usize = 0;
    assert(s@.skip(0) =~= s@);
    while i < s.len()
        invariant
            i <= s@.len(),
            first_spec_start(s@) == i + first_spec_start(s@.skip(i as int)),
        decreases s@.len() - i,
    {
        let c = s[i];
        if c == '>' || c == '<' || c == '=' || c == '!' || c == '~' || c == '[' {
            assert(s@.skip(i as int)[0] == c);
            return i;
        }
        assert(s@.skip(i as int).drop_first() =~= s@.skip(i + 1));
        i += 1;
    }
    i
}

/// The index of the first `c` in `s` (or `s.len()`).
fn find_char(s: &[char], c: char) -> (r: usize)
    ensures
        r == first_char(s@, c),
        r <= s@.len(),
{
    let mut i: usize = 0;
    assert(s@.skip(0) =~= s@);
    while i < s.len()
        invariant
            i <= s@.len(),
            first_char(s@, c) == i + first_char(s@.skip(i as int), c),
        decreases s@.len() - i,
    {
        if s[i] == c {
            assert(s@.skip(i as int)[0] == c);
            return i;
        }
        assert(s@.skip(i as int).drop_first() =~= s@.skip(i + 1));
        i += 1;
    }
    i
}

/// Extracts the package name of a requirement, e.g. `requests>=2.28` gives
/// `requests` and `Django~=4.2` gives `django`.
pub fn extract_dep_name(spec: &str) -> (r: Option<String>)
    ensures
        match dep_name(spec@) {
            Some(n) => r matches Some(x) && x@ == n,
            None => r is None,
        },
        r matches Some(x) ==> x@.len() > 0 && !has_char(x@, '_'),
{
    let raw = chars_of(spec);
    let s = trim_chars(raw.as_slice());
    if s.len() == 0 || s[0] == '#' || s[0] == '-' {
        return None;
    }
    let sep = chars_of("://");
    let git = chars_of("git+");
    if contains_chars(s.as_slice(), sep.as_slice()) || contains_chars(s.as_slice(), git.as_slice()) {
        return None;
    }
    let s2 = if has_char_exec(s.as_slice(), ';') {
        let idx = find_char(s.as_slice(), ';');
        let head = sub_chars(s.as_slice(), 0, idx);
        assert(head@ =~= s@.take(idx as int));
        trim_chars(head.as_slice())
    } else {
        copy_chars(s.as_slice())
    };
    let end = find_spec_start(s2.as_slice());
    let head = sub_chars(s2.as_slice(), 0, end);
    assert(head@ =~= s2@.take(end as int));
    let name = trim_chars(head.as_slice());
    if name.len() == 0 {
        return None;
    }
    let lower = lowercase_chars(name.as_slice());
    let under = vec!['_'];
    let dash = vec!['-'];
    assert(under@ =~= seq!['_']);
    assert(dash@ =~= seq!['-']);
    let out = replace_chars(lower.as_slice(), under.as_slice(), dash.as_slice());
    proof {
        crate::text::lemma_replace_char(lower@, '_', '-');
    }
    Some(string_of(out.as_slice()))
}

/// The entry `key` of a table value (`None` for other values or a missing
/// key; the first entry wins).
pub open spec fn toml_get(v: TomlValue, key: Seq<char>) -> Option<TomlValue> {
    match v {
        TomlValue::Table(es) => table_get(es@, key),
        _ => None,
    }
}

/// The value of the first entry named `key`.
pub open spec fn table_get(es: Seq<(String, TomlValue)>, key: Seq<char>) -> Option<TomlValue>
    decreases es.len(),
{
    if es.len() == 0 {
        None
    } else if es[0].0@ == key {
        Some(es[0].1)
    } else {
        table_get(es.drop_first(), key)
    }
}

/// The package names of the requirement strings in an array (other items
/// and unreadable requirements are passed over).
pub open spec fn array_names(items: Seq<TomlValue>) -> Seq<Seq<char>>
    decreases items.len(),
{
    if items.len() == 0 {
        seq![]
    } else {
        (match items[0] {
            TomlValue::Str(s) => match dep_name(s@) {
                Some(n) => seq![n],
                None => seq![],
            },
            _ => seq![],
        }) + array_names(items.drop_first())
    }
}

/// The names in a value if it is an array.
pub open spec fn value_names(v: Option<TomlValue>) -> Seq<Seq<char>> {
    match v {
        Some(TomlValue::Array(a)) => array_names(a@),
        _ => seq![],
    }
}

/// The names in every array of a table of groups (optional dependencies).
pub open spec fn group_names(es: Seq<(String, TomlValue)>) -> Seq<Seq<char>>
    decreases es.len(),
{
    if es.len() == 0 {
        seq![]
    } else {
        value_names(Some(es[0].1)) + group_names(es.drop_first())
    }
}

/// The keys of a table, except `python`.
pub open spec fn keys_except_python(es: Seq<(String, TomlValue)>) -> Seq<Seq<char>>
    decreases es.len(),
{
    if es.len() == 0 {
        seq![]
    } else {
        (if es[0].0@ == "python"@ {
            seq![]
        } else {
            seq![es[0].0@]
        }) + keys_except_python(es.drop_first())
    }
}

/// The keys of a table.
pub open spec fn keys(es: Seq<(String, TomlValue)>) -> Seq<Seq<char>>
    decreases es.len(),
{
    if es.len() == 0 {
        seq![]
    } else {
        seq![es[0].0@] + keys(es.drop_first())
    }
}

/// Poetry extras: each group is an array of requirements or a table whose
/// keys are names.
pub open spec fn extras_names(es: Seq<(String, TomlValue)>) -> Seq<Seq<char>>
    decreases es.len(),
{
    if es.len() == 0 {
        seq![]
    } else {
        (match es[0].1 {
            TomlValue::Array(a) => array_names(a@),
            TomlValue::Table(t) => keys(t@),
            _ => seq![],
        }) + extras_names(es.drop_first())
    }
}

/// Every dependency name a `pyproject.toml` document lists, in document
/// order, repeats included.
pub open spec fn doc_dep_names(doc: TomlValue) -> Seq<Seq<char>> {
    let pep621 = match toml_get(doc, "project"@) {
        Some(p) => value_names(toml_get(p, "dependencies"@)) + match toml_get(
            p,
            "optional-dependencies"@,
        ) {
            Some(TomlValue::Table(g)) => group_names(g@),
            _ => seq![],
        },
        None => seq![],
    };
    let poetry = match toml_get(doc, "tool"@) {
        Some(t) => match toml_get(t, "poetry"@) {
            Some(po) => (match toml_get(po, "dependencies"@) {
                Some(TomlValue::Table(d)) => keys_except_python(d@),
                _ => seq![],
            }) + match toml_get(po, "extras"@) {
                Some(TomlValue::Table(x)) => extras_names(x@),
                _ => seq![],
            },
            None => seq![],
        },
        None => seq![],
    };
    pep621 + poetry
}

/// The outside type of parsed TOML values.
#[verifier::external_type_specification]
#[verifier::external_body]
pub struct ExTomlValue(toml::Value);

/// What the `toml` crate makes of a document: the document's root table with
/// its strings, arrays and tables kept and other values reduced to `Other`,
/// or `None` when the text is not valid TOML.
pub uninterp spec fn toml_document(content: Seq<char>) -> Option<TomlValue>;

/// Parses a TOML document with `toml::Value`'s `FromStr` (`toml::from_str`).
/// The contract only names the result: the TOML grammar is not restated here.
#[verifier::external_body]
fn parse_toml(content: &str) -> (r: Option<TomlValue>)
    ensures
        r == toml_document(content@),
{
    content.parse::<toml::Value>().ok().map(toml_value_from)
}

/// Moves a parsed `toml::Value` into the library's `TomlValue`, variant by
/// variant (strings, arrays and tables recursively; other values as `Other`).
/// Used only by `parse_toml`, whose contract covers the result.
#[verifier::external_body]
fn toml_value_from(v: toml::Value) -> TomlValue {
    match v {
        toml::Value::String(s) => TomlValue::Str(s),
        toml::Value::Array(a) => TomlValue::Array(a.into_iter().map(toml_value_from).collect()),
        toml::Value::Table(t) => TomlValue::Table(
            t.into_iter().map(|(k, x)| (k, toml_value_from(x))).collect(),
        ),
        _ => TomlValue::Other,
    }
}

/// The entry `key` of a table value.
fn toml_get_exec<'a>(v: &'a TomlValue, key: &[char]) -> (r: Option<&'a TomlValue>)
    ensures
        match toml_get(*v, key@) {
            Some(x) => r matches Some(y) && *y == x,
            None => r is None,
        },
{
    match v {
        TomlValue::Table(es) => {
            let mut i: usize = 0;
            assert(es@.skip(0) =~= es@);
            assert(toml_get(*v, key@) == table_get(es@, key@));
            while i < es.len()
                invariant
                    i <= es@.len(),
                    toml_get(*v, key@) == table_get(es@, key@),
                    table_get(es@, key@) == table_get(es@.skip(i as int), key@),
                decreases es@.len() - i,
            {
                let name = chars_of(es[i].0.as_str());
                assert(es@.skip(i as int)[0] == es@[i as int]);
                if crate::text::chars_eq(name.as_slice(), key) {
                    assert(table_get(es@.skip(i as int), key@) == Some(es@[i as int].1));
                    return Some(&es[i].1);
                }
                assert(es@.skip(i as int).drop_first() =~= es@.skip(i + 1));
                i += 1;
            }
            assert(es@.skip(i as int) =~= Seq::<(String, TomlValue)>::empty());
            None
        },
        _ => None,
    }
}

/// Appends the names of the requirements in an array.
fn push_array_names(out: &mut Vec<Vec<char>>, items: &Vec<TomlValue>)
    ensures
        views(final(out)@) == views(old(out)@) + array_names(items@),
{
    let mut i: usize = 0;
    assert(items@.skip(0) =~= items@);
    while i < items.len()
        invariant
            i <= items@.len(),
            views(old(out)@) + array_names(items@) == views(out@) + array_names(items@.skip(i as int)),
        decreases items@.len() - i,
    {
        let ghost rest = items@.skip(i as int);
        assert(rest.drop_first() =~= items@.skip(i + 1));
        assert(rest[0] == items@[i as int]);
        let ghost before = views(out@);
        match &items[i] {
            TomlValue::Str(s) => {
                match extract_dep_name(s.as_str()) {
                    Some(n) => {
                        let nv = chars_of(n.as_str());
                        out.push(nv);
                        assert(views(out@) =~= before + seq![nv@]);
                    },
                    None => {},
                }
            },
            _ => {},
        }
        assert(views(out@) + array_names(items@.skip(i + 1)) =~= before + array_names(rest));
        i += 1;
    }
    assert(items@.skip(i as int) =~= Seq::<TomlValue>::empty());
    assert(views(out@) =~= views(out@) + Seq::<Seq<char>>::empty());
}

/// Appends the names in `v` if it is an array.
fn push_value_names(out: &mut Vec<Vec<char>>, v: Option<&TomlValue>)
    ensures
        views(final(out)@) == views(old(out)@) + value_names(match v {
            Some(x) => Some(*x),
            None => None,
        }),
{
    match v {
        Some(TomlValue::Array(a)) => push_array_names(out, a),
        _ => {
            assert(views(out@) =~= views(out@) + Seq::<Seq<char>>::empty());
        },
    }
}

/// Appends the names in every group of a table of groups.
fn push_group_names(out: &mut Vec<Vec<char>>, es: &Vec<(String, TomlValue)>)
    ensures
        views(final(out)@) == views(old(out)@) + group_names(es@),
{
    let mut i: usize = 0;
    assert(es@.skip(0) =~= es@);
    while i < es.len()
        invariant
            i <= es@.len(),
            views(old(out)@) + group_names(es@) == views(out@) + group_names(es@.skip(i as int)),
        decreases es@.len() - i,
    {
        let ghost rest = es@.skip(i as int);
        assert(rest.drop_first() =~= es@.skip(i + 1));
        assert(rest[0] == es@[i as int]);
        let ghost before = views(out@);
        push_value_names(out, Some(&es[i].1));
        assert(views(out@) + group_names(es@.skip(i + 1)) =~= before + group_names(rest));
        i += 1;
    }
    assert(es@.skip(i as int) =~= Seq::<(String, TomlValue)>::empty());
    assert(views(out@) =~= views(out@) + Seq::<Seq<char>>::empty());
}

/// Appends the keys of a table, with or without `python`.
fn push_keys(out: &mut Vec<Vec<char>>, es: &Vec<(String, TomlValue)>, skip_python: bool)
    ensures
        views(final(out)@) == views(old(out)@) + if skip_python {
            keys_except_python(es@)
        } else {
            keys(es@)
        },
{
    let python = chars_of("python");
    let mut i: usize = 0;
    assert(es@.skip(0) =~= es@);
    while i < es.len()
        invariant
            i <= es@.len(),
            python@ == "python"@,
            views(old(out)@) + (if skip_python {
                keys_except_python(es@)
            } else {
                keys(es@)
            }) == views(out@) + (if skip_python {
                keys_except_python(es@.skip(i as int))
            } else {
                keys(es@.skip(i as int))
            }),
        decreases es@.len() - i,
    {
        let ghost rest = es@.skip(i as int);
        assert(rest.drop_first() =~= es@.skip(i + 1));
        assert(rest[0] == es@[i as int]);
        let ghost before = views(out@);
        let k = chars_of(es[i].0.as_str());
        if !(skip_python && crate::text::chars_eq(k.as_slice(), python.as_slice())) {
            out.push(k);
            assert(views(out@) =~= before + seq![k@]);
        }
        assert(views(out@) + (if skip_python {
            keys_except_python(es@.skip(i + 1))
        } else {
            keys(es@.skip(i + 1))
        }) =~= before + (if skip_python {
            keys_except_python(rest)
        } else {
            keys(rest)
        }));
        i += 1;
    }
    assert(es@.skip(i as int) =~= Seq::<(String, TomlValue)>::empty());
    assert(views(out@) =~= views(out@) + Seq::<Seq<char>>::empty());
}

/// Appends the names in Poetry's extras.
fn push_extras_names(out: &mut Vec<Vec<char>>, es: &Vec<(String, TomlValue)>)
    ensures
        views(final(out)@) == views(old(out)@) + extras_names(es@),
{
    let mut i: usize = 0;
    assert(es@.skip(0) =~= es@);
    while i < es.len()
        invariant
            i <= es@.len(),
            views(old(out)@) + extras_names(es@) == views(out@) + extras_names(es@.skip(i as int)),
        decreases es@.len() - i,
    {
        let ghost rest = es@.skip(i as int);
        assert(rest.drop_first() =~= es@.skip(i + 1));
        assert(rest[0] == es@[i as int]);
        let ghost before = views(out@);
        match &es[i].1 {
            TomlValue::Array(a) => push_array_names(out, a),
            TomlValue::Table(t) => push_keys(out, t, false),
            _ => {
                assert(views(out@) =~= before + Seq::<Seq<char>>::empty());
            },
        }
        assert(views(out@) + extras_names(es@.skip(i + 1)) =~= before + extras_names(rest));
        i += 1;
    }
    assert(es@.skip(i as int) =~= Seq::<(String, TomlValue)>::empty());
    assert(views(out@) =~= views(out@) + Seq::<Seq<char>>::empty());
}

/// The dependency names a parsed `pyproject.toml` lists (PEP 621
/// `dependencies` and `optional-dependencies`; Poetry `dependencies` except
/// `python`, and `extras`), sorted, each once.
pub fn project_deps(doc: &TomlValue) -> (r: Vec<String>)
    ensures
        strictly_sorted(string_views(r@)),
        string_views(r@).to_set() == doc_dep_names(*doc).to_set(),
{
    let mut out: Vec<Vec<char>> = Vec::new();
    let project = chars_of("project");
    let dependencies = chars_of("dependencies");
    let optional = chars_of("optional-dependencies");
    let tool = chars_of("tool");
    let poetry = chars_of("poetry");
    let extras = chars_of("extras");
    match toml_get_exec(doc, project.as_slice()) {
        Some(p) => {
            push_value_names(&mut out, toml_get_exec(p, dependencies.as_slice()));
            match toml_get_exec(p, optional.as_slice()) {
                Some(TomlValue::Table(g)) => push_group_names(&mut out, g),
                _ => {},
            }
        },
        None => {},
    }
    let ghost first = views(out@);
    match toml_get_exec(doc, tool.as_slice()) {
        Some(t) => match toml_get_exec(t, poetry.as_slice()) {
            Some(po) => {
                match toml_get_exec(po, dependencies.as_slice()) {
                    Some(TomlValue::Table(d)) => push_keys(&mut out, d, true),
                    _ => {},
                }
                match toml_get_exec(po, extras.as_slice()) {
                    Some(TomlValue::Table(x)) => push_extras_names(&mut out, x),
                    _ => {},
                }
            },
            None => {},
        },
        None => {},
    }
    assert(views(out@) =~= doc_dep_names(*doc));
    let sorted = sorted_unique(out);
    strings_of(sorted)
}

/// The dependency names listed in the text of a `pyproject.toml`: none when
/// the text is not valid TOML.
pub fn parse_project_deps(content: &str) -> (r: Vec<String>)
    ensures
        match toml_document(content@) {
            Some(doc) => strictly_sorted(string_views(r@)) && string_views(r@).to_set()
                == doc_dep_names(doc).to_set(),
            None => r@.len() == 0,
        },
{
    match parse_toml(content) {
        Some(doc) => project_deps(&doc),
        None => Vec::new(),
    }
}

/// How many projects use a dependency, and which (sorted, each once).
#[derive(Debug)]
pub struct DepInfo {
    pub count: usize,
    pub projects: Vec<String>,
}

/// Every dependency in use, with its users, most used first (ties by name);
/// `error` says why the index could not be read.
#[derive(Debug)]
pub struct DependenciesResponse {
    pub dependencies: Vec<(String, DepInfo)>,
    pub error: Option<String>,
}

/// The views of `(project name, dependency names)` pairs.
pub open spec fn project_views(ps: Seq<(String, Vec<String>)>) -> Seq<(Seq<char>, Seq<Seq<char>>)> {
    ps.map_values(|x: (String, Vec<String>)| (x.0@, string_views(x.1@)))
}

/// Whether project `p` lists dependency `d`.
pub open spec fn used_by(ps: Seq<(Seq<char>, Seq<Seq<char>>)>, d: Seq<char>, p: Seq<char>) -> bool {
    exists|i: int| 0 <= i < ps.len() && ps[i].0 == p && (#[trigger] ps[i].1).contains(d)
}

/// The projects that list dependency `d`.
pub open spec fn users(ps: Seq<(Seq<char>, Seq<Seq<char>>)>, d: Seq<char>) -> Set<Seq<char>> {
    Set::new(|p: Seq<char>| used_by(ps, d, p))
}

/// Whether `r` is the aggregation of the dependency lists `ps`: one entry per
/// dependency in use, naming its users sorted and once each with their
/// number, most used first and equally used ones by name.
pub open spec fn aggregates(ps: Seq<(Seq<char>, Seq<Seq<char>>)>, r: Seq<(String, DepInfo)>) -> bool {
    &&& forall|k: int|
        0 <= k < r.len() ==> {
            &&& strictly_sorted(string_views((#[trigger] r[k]).1.projects@))
            &&& r[k].1.count == r[k].1.projects@.len()
            &&& r[k].1.count > 0
            &&& string_views(r[k].1.projects@).to_set() == users(ps, r[k].0@)
        }
    &&& forall|k: int, l: int| #![trigger r[k], r[l]] 0 <= k < l < r.len() ==> r[k].0@ != r[l].0@
    &&& forall|d: Seq<char>, p: Seq<char>|
        #[trigger] used_by(ps, d, p) ==> exists|k: int| 0 <= k < r.len() && (#[trigger] r[k]).0@ == d
    &&& forall|k: int, l: int|
        #![trigger r[k], r[l]]
        0 <= k < l < r.len() ==> r[k].1.count > r[l].1.count || (r[k].1.count == r[l].1.count
            && seq_lt(r[k].0@, r[l].0@))
}

/// A dependency with its users while they are gathered.
struct DepRow {
    name: Vec<char>,
    users: Vec<Vec<char>>,
}

impl Ranked for DepRow {
    closed spec fn precedes(&self, other: &Self) -> bool {
        self.users@.len() > other.users@.len() || (self.users@.len() == other.users@.len()
            && seq_le(self.name@, other.name@))
    }

    fn precedes_exec(&self, other: &Self) -> (r: bool) {
        if self.users.len() != other.users.len() {
            self.users.len() > other.users.len()
        } else {
            compare_chars(self.name.as_slice(), other.name.as_slice()) != 1
        }
    }

    proof fn precedes_total(a: &Self, b: &Self) {
        crate::order::lemma_seq_lt_total(a.name@, b.name@);
    }

    proof fn precedes_trans(a: &Self, b: &Self, c: &Self) {
        if seq_lt(a.name@, b.name@) && seq_lt(b.name@, c.name@) {
            crate::order::lemma_seq_lt_trans(a.name@, b.name@, c.name@);
        }
    }
}

/// Whether project `p` lists `d` among the first `i` projects, or among the
/// first `j` dependencies of project `i`.
spec fn seen(ps: Seq<(Seq<char>, Seq<Seq<char>>)>, i: int, j: int, d: Seq<char>, p: Seq<char>) -> bool {
    used_by(ps.take(i), d, p) || (0 <= i < ps.len() && p == ps[i].0 && ps[i].1.take(j).contains(d))
}

proof fn lemma_seen_step(ps: Seq<(Seq<char>, Seq<Seq<char>>)>, i: int, j: int)
    requires
        0 <= i < ps.len(),
        0 <= j < ps[i].1.len(),
    ensures
        forall|d: Seq<char>, p: Seq<char>|
            #[trigger] seen(ps, i, j + 1, d, p) == (seen(ps, i, j, d, p) || (d == ps[i].1[j] && p
                == ps[i].0)),
{
    let x = ps[i].1[j];
    let t1 = ps[i].1.take(j + 1);
    let t0 = ps[i].1.take(j);
    assert(t1 =~= t0.push(x));
    assert forall|d: Seq<char>| t1.contains(d) == (t0.contains(d) || d == x) by {
        if t1.contains(d) {
            let k = choose|k: int| 0 <= k < t1.len() && t1[k] == d;
            if k < j {
                assert(t0[k] == d);
            }
        }
        if t0.contains(d) {
            let k = choose|k: int| 0 <= k < t0.len() && t0[k] == d;
            assert(t1[k] == d);
        }
        if d == x {
            assert(t1[j] == d);
        }
    }
}

proof fn lemma_seen_next(ps: Seq<(Seq<char>, Seq<Seq<char>>)>, i: int)
    requires
        0 <= i < ps.len(),
    ensures
        forall|d: Seq<char>, p: Seq<char>|
            #[trigger] seen(ps, i + 1, 0, d, p) == seen(ps, i, ps[i].1.len() as int, d, p),
{
    assert(ps[i].1.take(ps[i].1.len() as int) =~= ps[i].1);
    assert forall|d: Seq<char>, p: Seq<char>| #[trigger] seen(ps, i + 1, 0, d, p) == seen(
        ps,
        i,
        ps[i].1.len() as int,
        d,
        p,
    ) by {
        let t = ps.take(i + 1);
        if used_by(t, d, p) {
            let k = choose|k: int| 0 <= k < t.len() && t[k].0 == p && (#[trigger] t[k].1).contains(d);
            if k < i {
                assert(ps.take(i)[k] == t[k]);
            }
        }
        if used_by(ps.take(i), d, p) {
            let k = choose|k: int| 0 <= k < i && ps.take(i)[k].0 == p && (#[trigger] ps.take(i)[k].1).contains(d);
            assert(t[k] == ps.take(i)[k]);
        }
        if p == ps[i].0 && ps[i].1.contains(d) {
            assert(t[i] == ps[i]);
        }
        if i + 1 < ps.len() {
            assert(ps[i + 1].1.take(0) =~= Seq::<Seq<char>>::empty());
        }
    }
}

/// The users of every dependency in `projects`, with their number; most used
/// dependencies first, equally used ones by name. Each project's dependency
/// list may hold repeats.
pub fn aggregate_dependencies(projects: &Vec<(String, Vec<String>)>) -> (r: Vec<(String, DepInfo)>)
    ensures
        aggregates(project_views(projects@), r@),
{
    let ghost ps = project_views(projects@);
    let mut names: Vec<Vec<char>> = Vec::new();
    let mut lists: Vec<Vec<Vec<char>>> = Vec::new();
    let mut i: usize = 0;
    assert(ps.take(0) =~= Seq::<(Seq<char>, Seq<Seq<char>>)>::empty());
    while i < projects.len()
        invariant
            i <= projects@.len(),
            ps == project_views(projects@),
            names@.len() == lists@.len(),
            forall|k: int|
                0 <= k < lists@.len() ==> {
                    &&& strictly_sorted(views((#[trigger] lists@[k])@))
                    &&& lists@[k]@.len() > 0
                    &&& views(lists@[k]@).to_set() == Set::new(
                        |p: Seq<char>| seen(ps, i as int, 0, names@[k]@, p),
                    )
                },
            forall|k: int, l: int| #![trigger names@[k], names@[l]] 0 <= k < l < names@.len() ==> names@[k]@ != names@[l]@,
            forall|d: Seq<char>, p: Seq<char>|
                #[trigger] seen(ps, i as int, 0, d, p) ==> exists|k: int| 0 <= k < names@.len() && (#[trigger] names@[k])@ == d,
        decreases projects@.len() - i,
    {
        let pname = chars_of(projects[i].0.as_str());
        let deps = &projects[i].1;
        assert(ps[i as int] == (projects@[i as int].0@, string_views(projects@[i as int].1@)));
        let mut j: usize = 0;
        assert forall|d: Seq<char>, p: Seq<char>| #[trigger] seen(ps, i as int, 0, d, p) == seen(ps, i as int, 0, d, p) by {}
        while j < deps.len()
            invariant
                i < projects@.len(),
                j <= deps@.len(),
                ps == project_views(projects@),
                *deps == projects@[i as int].1,
                pname@ == ps[i as int].0,
                ps[i as int].1 == string_views(deps@),
                names@.len() == lists@.len(),
                forall|k: int|
                    0 <= k < lists@.len() ==> {
                        &&& strictly_sorted(views((#[trigger] lists@[k])@))
                        &&& lists@[k]@.len() > 0
                        &&& views(lists@[k]@).to_set() == Set::new(
                            |p: Seq<char>| seen(ps, i as int, j as int, names@[k]@, p),
                        )
                    },
                forall|k: int, l: int| #![trigger names@[k], names@[l]] 0 <= k < l < names@.len() ==> names@[k]@ != names@[l]@,
                forall|d: Seq<char>, p: Seq<char>|
                    #[trigger] seen(ps, i as int, j as int, d, p) ==> exists|k: int| 0 <= k < names@.len() && (#[trigger] names@[k])@ == d,
            decreases deps@.len() - j,
        {
            proof {
                lemma_seen_step(ps, i as int, j as int);
            }
            let d = chars_of(deps[j].as_str());
            assert(d@ == ps[i as int].1[j as int]);
            let mut k: usize = 0;
            while k < names.len() && compare_chars(names[k].as_slice(), d.as_slice()) != 0
                invariant
                    k <= names@.len(),
                    forall|m: int| 0 <= m < k ==> (#[trigger] names@[m])@ != d@,
                decreases names@.len() - k,
            {
                k += 1;
            }
            let ghost old_names = names@;
            let ghost old_lists = lists@;
            if k < names.len() {
                let ghost pv = pname@;
                let mut entry = lists.remove(k);
                let ghost old_entry = entry@;
                assert(old_entry == old_lists[k as int]@);
                insert_sorted_unique(&mut entry, copy_chars(pname.as_slice()));
                let ghost new_entry = entry;
                lists.insert(k, entry);
                proof {
                    assert(lists@ =~= old_lists.update(k as int, new_entry));
                    assert(names@ == old_names);
                    assert forall|m: int| 0 <= m < lists@.len() implies {
                        &&& strictly_sorted(views((#[trigger] lists@[m])@))
                        &&& lists@[m]@.len() > 0
                        &&& views(lists@[m]@).to_set() == Set::new(
                            |p: Seq<char>| seen(ps, i as int, j + 1, names@[m]@, p),
                        )
                    } by {
                        assert(names@[k as int]@ == d@);
                        if m != k {
                            assert(lists@[m] == old_lists[m]);
                            if m < k {
                                assert(names@[m]@ != names@[k as int]@);
                            } else {
                                assert(names@[k as int]@ != names@[m]@);
                            }
                            assert(Set::new(|p: Seq<char>| seen(ps, i as int, j + 1, names@[m]@, p)) =~= Set::new(
                                |p: Seq<char>| seen(ps, i as int, j as int, names@[m]@, p),
                            ));
                        } else {
                            assert(lists@[m] == new_entry);
                            assert(names@[m]@ == d@);
                            assert(Set::new(|p: Seq<char>| seen(ps, i as int, j + 1, names@[m]@, p)) =~= Set::new(
                                |p: Seq<char>| seen(ps, i as int, j as int, names@[m]@, p),
                            ).insert(pv));
                            assert(views(new_entry@).to_set().contains(pv));
                            assert(views(new_entry@).contains(pv));
                        }
                    }
                }
            } else {
                let ghost dv = d@;
                let ghost pv = pname@;
                assert(forall|m: int| 0 <= m < old_names.len() ==> (#[trigger] old_names[m])@ != dv);
                let mut entry: Vec<Vec<char>> = Vec::new();
                entry.push(copy_chars(pname.as_slice()));
                names.push(d);
                lists.push(entry);
                proof {
                    assert forall|m: int| 0 <= m < lists@.len() implies {
                        &&& strictly_sorted(views((#[trigger] lists@[m])@))
                        &&& lists@[m]@.len() > 0
                        &&& views(lists@[m]@).to_set() == Set::new(
                            |p: Seq<char>| seen(ps, i as int, j + 1, names@[m]@, p),
                        )
                    } by {
                        if m < old_lists.len() {
                            assert(lists@[m] == old_lists[m]);
                            assert(names@[m] == old_names[m]);
                            assert(Set::new(|p: Seq<char>| seen(ps, i as int, j + 1, names@[m]@, p)) =~= Set::new(
                                |p: Seq<char>| seen(ps, i as int, j as int, names@[m]@, p),
                            ));
                        } else {
                            assert(names@[m]@ == dv);
                            assert(views(lists@[m]@) =~= seq![pv]);
                            assert forall|p: Seq<char>| seen(ps, i as int, j as int, dv, p) implies false by {
                                let w = choose|w: int| 0 <= w < old_names.len() && (#[trigger] old_names[w])@ == dv;
                            }
                            assert(seq![pv].to_set() =~= Set::<Seq<char>>::empty().insert(pv)) by {
                                assert forall|q: Seq<char>| seq![pv].contains(q) <==> q == pv by {
                                    if q == pv {
                                        assert(seq![pv][0] == q);
                                    }
                                }
                            }
                            assert(Set::new(|p: Seq<char>| seen(ps, i as int, j + 1, names@[m]@, p)) =~= Set::<Seq<char>>::empty().insert(pv));
                            assert(strictly_sorted(views(lists@[m]@)));
                        }
                    }
                    assert forall|a: int, b: int| #![trigger names@[a], names@[b]] 0 <= a < b < names@.len() implies names@[a]@ != names@[b]@ by {
                        if b == names@.len() - 1 {
                            assert(names@[a] == old_names[a]);
                        } else {
                            assert(names@[a] == old_names[a]);
                            assert(names@[b] == old_names[b]);
                        }
                    }
                }
            }
            proof {
                assert forall|dd: Seq<char>, p: Seq<char>| #[trigger] seen(ps, i as int, j + 1, dd, p) implies exists|m: int| 0 <= m < names@.len() && (#[trigger] names@[m])@ == dd by {
                    if seen(ps, i as int, j as int, dd, p) {
                        let w = choose|w: int| 0 <= w < old_names.len() && (#[trigger] old_names[w])@ == dd;
                        assert(names@[w] == old_names[w]);
                    } else {
                        assert(dd == d@);
                        if k < old_names.len() {
                            assert(names@[k as int]@ == dd);
                        } else {
                            assert(names@[names@.len() - 1]@ == dd);
                        }
                    }
                }
            }
            j += 1;
        }
        proof {
            lemma_seen_next(ps, i as int);
            assert forall|k: int| #![trigger lists@[k]] 0 <= k < lists@.len() implies Set::new(|p: Seq<char>| seen(ps, i + 1, 0, names@[k]@, p)) == Set::new(|p: Seq<char>| seen(ps, i as int, j as int, names@[k]@, p)) by {
                assert(Set::new(|p: Seq<char>| seen(ps, i + 1, 0, names@[k]@, p)) =~= Set::new(|p: Seq<char>| seen(ps, i as int, j as int, names@[k]@, p)));
            }
        }
        i += 1;
    }
    proof {
        assert(ps.take(ps.len() as int) =~= ps);
    }
    let ghost nv = names@;
    let ghost lv = lists@;
    let mut rows: Vec<DepRow> = Vec::new();
    while lists.len() > 0
        invariant
            names@.len() == lists@.len(),
            names@.len() + rows@.len() == nv.len(),
            lv.len() == nv.len(),
            names@ == nv.take(names@.len() as int),
            lists@ == lv.take(lists@.len() as int),
            forall|k: int| #![trigger rows@[k]] 0 <= k < rows@.len() ==> rows@[k].name == nv[names@.len() + k]
                && rows@[k].users == lv[names@.len() + k],
        decreases lists@.len(),
    {
        let ghost old_names2 = names@;
        let ghost old_lists2 = lists@;
        let ghost old_rows = rows@;
        let n = names.pop().unwrap();
        let l = lists.pop().unwrap();
        assert(n == nv[names@.len() as int]);
        assert(l == lv[names@.len() as int]);
        let row = DepRow { name: n, users: l };
        rows.insert(0, row);
        assert(rows@ =~= seq![row] + old_rows);
        assert(names@ =~= nv.take(names@.len() as int));
        assert(lists@ =~= lv.take(lists@.len() as int));
    }
    proof {
        assert forall|a: int, b: int| 0 <= a < rows@.len() && 0 <= b < rows@.len() && a != b implies rows@[a] != rows@[b] by {
            if a < b {
                assert(nv[a]@ != nv[b]@);
            } else {
                assert(nv[b]@ != nv[a]@);
            }
        }
        assert(rows@.no_duplicates());
        rows@.lemma_multiset_has_no_duplicates();
    }
    let ghost rv = rows@;
    let sorted = sort_ranked(rows);
    proof {
        broadcast use vstd::seq_lib::group_to_multiset_ensures;
        sorted@.lemma_multiset_has_no_duplicates_conv();
    }
    let mut out: Vec<(String, DepInfo)> = Vec::new();
    let mut t: usize = 0;
    while t < sorted.len()
        invariant
            t <= sorted@.len(),
            out@.len() == t,
            forall|a: int| #![trigger out@[a]] 0 <= a < t ==> out@[a].0@ == sorted@[a].name@
                && out@[a].1.count == sorted@[a].users@.len() && string_views(out@[a].1.projects@)
                == views(sorted@[a].users@),
        decreases sorted@.len() - t,
    {
        let row = &sorted[t];
        let name = string_of(row.name.as_slice());
        let users = strings_of(clone_rows(&row.users));
        let info = DepInfo { count: row.users.len(), projects: users };
        out.push((name, info));
        t += 1;
    }
    proof {
        broadcast use vstd::seq_lib::group_to_multiset_ensures;
        assert forall|a: int| #![trigger sorted@[a]] 0 <= a < sorted@.len() implies exists|k: int| 0 <= k < rv.len() && #[trigger] rv[k] == sorted@[a] by {
            assert(sorted@.to_multiset().count(sorted@[a]) > 0);
            assert(rv.contains(sorted@[a]));
        }
        assert forall|k: int| 0 <= k < out@.len() implies {
            &&& strictly_sorted(string_views((#[trigger] out@[k]).1.projects@))
            &&& out@[k].1.count == out@[k].1.projects@.len()
            &&& out@[k].1.count > 0
            &&& string_views(out@[k].1.projects@).to_set() == users(ps, out@[k].0@)
        } by {
            let w = choose|w: int| 0 <= w < rv.len() && #[trigger] rv[w] == sorted@[k];
            assert(rv[w].name == nv[w] && rv[w].users == lv[w]);
            assert(string_views(out@[k].1.projects@).len() == out@[k].1.projects@.len());
            assert(Set::new(|p: Seq<char>| seen(ps, ps.len() as int, 0, nv[w]@, p)) =~= users(ps, nv[w]@));
        }
        assert forall|a: int, b: int| #![trigger out@[a], out@[b]] 0 <= a < b < out@.len() implies out@[a].0@ != out@[b].0@ by {
            let wa = choose|w: int| 0 <= w < rv.len() && #[trigger] rv[w] == sorted@[a];
            let wb = choose|w: int| 0 <= w < rv.len() && #[trigger] rv[w] == sorted@[b];
            assert(sorted@[a] != sorted@[b]);
            if wa < wb {
                assert(nv[wa]@ != nv[wb]@);
            } else if wb < wa {
                assert(nv[wb]@ != nv[wa]@);
            }
        }
        assert forall|d: Seq<char>, p: Seq<char>| #[trigger] used_by(ps, d, p) implies exists|k: int| 0 <= k < out@.len() && (#[trigger] out@[k]).0@ == d by {
            assert(seen(ps, ps.len() as int, 0, d, p));
            let w = choose|w: int| 0 <= w < nv.len() && (#[trigger] nv[w])@ == d;
            assert(rv[w].name == nv[w]);
            assert(rv.to_multiset().count(rv[w]) > 0);
            assert(sorted@.contains(rv[w]));
            let k = choose|k: int| 0 <= k < sorted@.len() && sorted@[k] == rv[w];
            assert(out@[k].0@ == d);
        }
        assert forall|a: int, b: int| #![trigger out@[a], out@[b]] 0 <= a < b < out@.len() implies out@[a].1.count > out@[b].1.count || (out@[a].1.count == out@[b].1.count
            && seq_lt(out@[a].0@, out@[b].0@)) by {
            assert(sorted@[a].precedes(&sorted@[b]));
            assert(out@[a].0@ != out@[b].0@);
        }
    }
    out
}

/// A copy of a vector of character vectors.
fn clone_rows(v: &Vec<Vec<char>>) -> (r: Vec<Vec<char>>)
    ensures
        views(r@) == views(v@),
{
    let mut r: Vec<Vec<char>> = Vec::new();
    let mut i: usize = 0;
    while i < v.len()
        invariant
            i <= v@.len(),
            views(r@) == views(v@).take(i as int),
        decreases v@.len() - i,
    {
        let ghost before = r@;
        let c = copy_chars(v[i].as_slice());
        r.push(c);
        assert(r@ == before.push(c));
        assert(views(before.push(c)) =~= views(before).push(c@));
        assert(views(v@).take(i + 1) =~= views(v@).take(i as int).push(views(v@)[i as int]));
        assert(views(r@) =~= views(v@).take(i + 1));
        i += 1;
    }
    assert(views(v@).take(v@.len() as int) =~= views(v@));
    r
}

/// The comparison operators of PEP 508 version specifiers.
pub open spec fn is_comparison_op(op: Seq<char>) -> bool {
    ||| op == "<"@
    ||| op == "<="@
    ||| op == ">"@
    ||| op == ">="@
    ||| op == "=="@
    ||| op == "!="@
    ||| op == "~="@
}

/// Whether `c` may stand in a package name: not one of `>`, `<`, `=`, `!`,
/// `~`, `[`, nor the marker separator `;`.
pub open spec fn plain_name_char(c: char) -> bool {
    c != '>' && c != '<' && c != '=' && c != '!' && c != '~' && c != '[' && c != ';'
}

proof fn lemma_first_spec_start_after(a: Seq<char>, b: Seq<char>)
    requires
        forall|i: int| 0 <= i < a.len() ==> plain_name_char(#[trigger] a[i]),
        b.len() > 0,
        b[0] == '>' || b[0] == '<' || b[0] == '=' || b[0] == '!' || b[0] == '~' || b[0] == '[',
    ensures
        first_spec_start(a + b) == a.len(),
    decreases a.len(),
{
    if a.len() > 0 {
        assert((a + b)[0] == a[0]);
        assert((a + b).drop_first() =~= a.drop_first() + b);
        assert forall|i: int| 0 <= i < a.drop_first().len() implies plain_name_char(
            #[trigger] a.drop_first()[i],
        ) by {
            assert(a.drop_first()[i] == a[i + 1]);
        }
        lemma_first_spec_start_after(a.drop_first(), b);
    } else {
        assert(a + b =~= b);
    }
}

/// A requirement made of a name, a comparison operator (or the `[` that opens
/// a list of extras) and a version gives the normalised name alone: the name
/// ends where the operator begins. The
/// name here is free of specifier characters and of `;`, does not start with
/// `#` or `-`, and has no whitespace at its ends; the version holds no `;`
/// and does not end in whitespace; and the requirement is no URL or git
/// requirement.
pub proof fn law_name_ends_at_operator(name: Seq<char>, op: Seq<char>, version: Seq<char>)
    requires
        name.len() > 0,
        forall|i: int| 0 <= i < name.len() ==> plain_name_char(#[trigger] name[i]),
        name[0] != '#' && name[0] != '-',
        !is_ws(name[0]) && !is_ws(name.last()),
        is_comparison_op(op) || op == "["@,
        !has_char(version, ';'),
        version.len() > 0 ==> !is_ws(version.last()),
        !contains(name + op + version, "://"@),
        !contains(name + op + version, "git+"@),
    ensures
        dep_name(name + op + version) == Some(replace_all(lowercase(name), seq!['_'], seq!['-'])),
{
    reveal_strlit("<");
    reveal_strlit("<=");
    reveal_strlit(">");
    reveal_strlit(">=");
    reveal_strlit("==");
    reveal_strlit("!=");
    reveal_strlit("~=");
    reveal_strlit("[");
    let s = name + op + version;
    assert(op.len() > 0 && !is_ws(op.last()) && !has_char(op, ';'));
    assert(op[0] == '>' || op[0] == '<' || op[0] == '=' || op[0] == '!' || op[0] == '~' || op[0] == '[');
    assert(s[0] == name[0]);
    assert(!is_ws(s.last())) by {
        if version.len() > 0 {
            assert(s.last() == version.last());
        } else {
            assert(s.last() == op.last());
        }
    }
    assert(trim_start(s) == s);
    assert(trim_end(s) == s);
    assert(trim(s) == s);
    assert(!has_char(s, ';')) by {
        if has_char(s, ';') {
            let j = choose|j: int| 0 <= j < s.len() && s[j] == ';';
            if j < name.len() {
                assert(s[j] == name[j]);
            } else if j < name.len() + op.len() {
                assert(s[j] == op[j - name.len()]);
            } else {
                assert(s[j] == version[j - name.len() - op.len()]);
            }
        }
    }
    assert(s =~= name + (op + version));
    lemma_first_spec_start_after(name, op + version);
    assert(s.take(name.len() as int) =~= name);
    assert(trim_start(name) == name);
    assert(trim_end(name) == name);
}

/// Among Poetry's dependencies the `python` entry (the interpreter's
/// version) is never listed, and every other key is.
pub proof fn law_poetry_python_entry_skipped(es: Seq<(String, TomlValue)>)
    ensures
        !keys_except_python(es).contains("python"@),
        forall|i: int| 0 <= i < es.len() && (#[trigger] es[i]).0@ != "python"@ ==> keys_except_python(es).contains(es[i].0@),
    decreases es.len(),
{
    if es.len() > 0 {
        let rest = es.drop_first();
        law_poetry_python_entry_skipped(rest);
        let head: Seq<Seq<char>> = if es[0].0@ == "python"@ { seq![] } else { seq![es[0].0@] };
        assert(keys_except_python(es) == head + keys_except_python(rest));
        assert(!head.contains("python"@));
        assert(!keys_except_python(es).contains("python"@)) by {
            if keys_except_python(es).contains("python"@) {
                let j = choose|j: int| 0 <= j < keys_except_python(es).len() && keys_except_python(es)[j] == "python"@;
                if j < head.len() {
                    assert(head[j] == "python"@);
                } else {
                    assert(keys_except_python(rest)[j - head.len()] == "python"@);
                }
            }
        }
        assert forall|i: int| 0 <= i < es.len() && (#[trigger] es[i]).0@ != "python"@ implies keys_except_python(es).contains(es[i].0@) by {
            if i == 0 {
                assert(keys_except_python(es)[0] == es[0].0@);
            } else {
                assert(rest[i - 1] == es[i]);
                let j = choose|j: int| 0 <= j < keys_except_python(rest).len() && keys_except_python(rest)[j] == es[i].0@;
                assert(keys_except_python(es)[j + head.len()] == es[i].0@);
            }
        }
    }
}

} // verus!
