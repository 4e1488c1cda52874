//! External language packs: their records, the checks a pack must pass, and
//! the lookup of a message in a loaded pack.
//!
//! Finding and reading the pack files is the caller's business; the functions
//! here take the file's name and text and the parsed pack.

use vstd::prelude::*;
use crate::i18n::{find_pair, find_value, pair_views};
use crate::text::{chars_of, str_eq, string_of, sub_chars};
use crate::index::clone_strings;
use crate::index::clone_opt;

verus! {

/// The metadata of an external language pack.
#[derive(Debug)]
pub struct LangMeta {
    pub language: String,
    pub contributors: Vec<String>,
    pub version: Option<String>,
}

/// An external language pack: its metadata and its message templates, each
/// under its key (a key occurs at most once).
#[derive(Debug)]
pub struct LangPack {
    pub meta: LangMeta,
    pub strings: Vec<(String, String)>,
}

/// What `i18n list` shows of a language.
#[derive(Debug)]
pub struct LangInfo {
    pub code: String,
    pub language: String,
    pub contributors: Vec<String>,
    pub version: Option<String>,
    pub key_count: usize,
    /// `"builtin"` or `"external"`.
    pub source: String,
}

/// The built-in languages: code and display name.
pub fn builtin_langs() -> (r: Vec<(&'static str, &'static str)>)
    ensures
        r@.len() == 2,
        r@[0].0@ == "zh"@ && r@[0].1@ == "简体中文"@,
        r@[1].0@ == "en"@ && r@[1].1@ == "English"@,
{
    let mut r: Vec<(&'static str, &'static str)> = Vec::new();
    r.push(("zh", "简体中文"));
    r.push(("en", "English"));
    r
}

/// The message of `key` in the first pack of `langs` whose code is `code`.
pub open spec fn ext_lookup(langs: Seq<(String, LangPack)>, code: Seq<char>, key: Seq<char>) -> Option<Seq<char>>
    decreases langs.len(),
{
    if langs.len() == 0 {
        None
    } else if langs[0].0@ == code {
        find_value(pair_views(langs[0].1.strings@), key)
    } else {
        ext_lookup(langs.drop_first(), code, key)
    }
}

/// Whether some pack of `langs` has the code `code`.
pub open spec fn has_code(langs: Seq<(String, LangPack)>, code: Seq<char>) -> bool {
    exists|i: int| 0 <= i < langs.len() && #[trigger] langs[i].0@ == code
}

/// Looks up `key` in the first pack whose code is `code`.
pub fn lookup_external(langs: &[(String, LangPack)], code: &str, key: &str) -> (r: Option<String>)
    ensures
        match r {
            Some(s) => ext_lookup(langs@, code@, key@) == Some(s@),
            None => ext_lookup(langs@, code@, key@) is None,
        },
{
    let mut i: usize = 0;
    assert(langs@.skip(0) =~= langs@);
    while i < langs.len()
        invariant
            i <= langs@.len(),
            ext_lookup(langs@, code@, key@) == ext_lookup(langs@.skip(i as int), code@, key@),
        decreases langs@.len() - i,
    {
        assert(langs@.skip(i as int).drop_first() =~= langs@.skip(i + 1));
        assert(langs@.skip(i as int)[0] == langs@[i as int]);
        if str_eq(langs[i].0.as_str(), code) {
            return find_pair(&langs[i].1.strings, key);
        }
        i += 1;
    }
    None
}

/// Whether some pack of `langs` has the code `code`.
pub fn has_code_exec(langs: &[(String, LangPack)], code: &str) -> (r: bool)
    ensures
        r == has_code(langs@, code@),
{
    let mut i: usize = 0;
    while i < langs.len()
        invariant
            i <= langs@.len(),
            forall|j: int| 0 <= j < i ==> #[trigger] langs@[j].0@ != code@,
        decreases langs@.len() - i,
    {
        if str_eq(langs[i].0.as_str(), code) {
            return true;
        }
        i += 1;
    }
    false
}

/// The error of a pack that fails the schema check, if any: the language
/// name must be non-empty, then the messages must be non-empty.
pub open spec fn pack_problem(p: LangPack) -> Option<Seq<char>> {
    if p.meta.language@.len() == 0 {
        Some("meta.language 不能为空"@)
    } else if p.strings@.len() == 0 {
        Some("strings 不能为空"@)
    } else {
        None
    }
}

/// Checks a parsed pack against the schema: it is handed back when valid.
pub fn check_lang_pack(pack: LangPack) -> (r: Result<LangPack, String>)
    ensures
        match pack_problem(pack) {
            Some(e) => r matches Err(m) && m@ == e,
            None => r == Ok::<LangPack, String>(pack),
        },
{
    if pack.meta.language.as_str().is_empty() {
        return Err(String::from_str("meta.language 不能为空"));
    }
    if pack.strings.len() == 0 {
        return Err(String::from_str("strings 不能为空"));
    }
    Ok(pack)
}

/// The byte order mark that some editors put at the start of a file.
pub open spec fn bom() -> char {
    '\u{FEFF}'
}

/// `content` without a leading byte order mark.
pub open spec fn without_bom(content: Seq<char>) -> Seq<char> {
    if content.len() > 0 && content[0] == bom() {
        content.drop_first()
    } else {
        content
    }
}

/// The text of a pack file with a leading byte order mark removed.
pub fn strip_bom(content: &str) -> (r: String)
    ensures
        r@ == without_bom(content@),
{
    let v = chars_of(content);
    if v.len() > 0 && v[0] == '\u{FEFF}' {
        let rest = sub_chars(v.as_slice(), 1, v.len());
        assert(rest@ =~= v@.drop_first());
        string_of(rest.as_slice())
    } else {
        String::from_str(content)
    }
}

/// The position of the last `.` of `name`, if any.
pub open spec fn last_dot(name: Seq<char>) -> Option<int>
    decreases name.len(),
{
    if name.len() == 0 {
        None
    } else if name.last() == '.' {
        Some(name.len() - 1)
    } else {
        last_dot(name.drop_last())
    }
}

/// The language code of a pack file named `name`: the part before the
/// extension, when the extension is `json` (as `Path::extension` and
/// `Path::file_stem` split a file name; a name whose only `.` comes first has
/// no extension).
pub open spec fn json_code(name: Seq<char>) -> Option<Seq<char>> {
    match last_dot(name) {
        Some(d) => if d > 0 && name.skip(d + 1) == "json"@ {
            Some(name.take(d))
        } else {
            None
        },
        None => None,
    }
}

/// The language code of a pack file named `name`, if it is a `.json` file.
pub fn json_stem(name: &str) -> (r: Option<String>)
    ensures
        match r {
            Some(c) => json_code(name@) == Some(c@),
            None => json_code(name@) is None,
        },
{
    let v = chars_of(name);
    let mut i: usize = v.len();
    assert(v@.take(v@.len() as int) =~= v@);
    while i > 0
        invariant
            i <= v@.len(),
            v@ == name@,
            last_dot(v@) == last_dot(v@.take(i as int)),
        decreases i,
    {
        assert(v@.take(i as int).drop_last() =~= v@.take(i - 1));
        assert(v@.take(i as int).last() == v@[i - 1]);
        if v[i - 1] == '.' {
            assert(last_dot(v@) == Some(i - 1));
            if i - 1 == 0 {
                return None;
            }
            let ext = sub_chars(v.as_slice(), i, v.len());
            assert(ext@ =~= v@.skip(i as int));
            let ext_s = string_of(ext.as_slice());
            if str_eq(ext_s.as_str(), "json") {
                let stem = sub_chars(v.as_slice(), 0, i - 1);
                assert(stem@ =~= v@.take(i - 1));
                return Some(string_of(stem.as_slice()));
            }
            return None;
        }
        i -= 1;
    }
    None
}

/// What `i18n list` shows of one loaded pack.
pub open spec fn info_of(code: String, pack: LangPack, info: LangInfo) -> bool {
    &&& info.code@ == code@
    &&& info.language@ == pack.meta.language@
    &&& info.contributors@ == pack.meta.contributors@
    &&& info.version == pack.meta.version
    &&& info.key_count == pack.strings@.len()
    &&& info.source@ == "external"@
}

/// The list entry of one loaded pack.
pub fn lang_info(code: &String, pack: &LangPack) -> (r: LangInfo)
    ensures
        info_of(*code, *pack, r),
{
    LangInfo {
        code: code.clone(),
        language: pack.meta.language.clone(),
        contributors: clone_strings(&pack.meta.contributors),
        version: clone_opt(&pack.meta.version),
        key_count: pack.strings.len(),
        source: String::from_str("external"),
    }
}

} // verus!
