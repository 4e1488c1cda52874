//! User-visible messages: the built-in catalogues, external language packs,
//! the choice of language and the filling of a template's placeholders.
//!
//! Lookup falls back from an external pack to the built-in Chinese text and
//! from there to the key itself.

pub mod en;
pub mod zh;
pub mod loader;

use vstd::prelude::*;
use crate::text::{occurs_at, 
    chars_of, contains, contains_chars, decimal, lowercase, push_decimal, replace_all, replace_chars,
    str_eq, string_of, to_lowercase,
};
use crate::i18n::loader::{ext_lookup, has_code, has_code_exec, info_of, lang_info, lookup_external, LangInfo, LangPack};

verus! {

/// The key and template of each entry of a built-in catalogue.
pub open spec fn entry_views(v: Seq<(&str, &str)>) -> Seq<(Seq<char>, Seq<char>)> {
    Seq::new(v.len(), |i: int| (v[i].0@, v[i].1@))
}

/// The key and template of each message of a pack.
pub open spec fn pair_views(v: Seq<(String, String)>) -> Seq<(Seq<char>, Seq<char>)> {
    Seq::new(v.len(), |i: int| (v[i].0@, v[i].1@))
}

/// The template of the first entry of `t` under `key`.
pub open spec fn find_value(t: Seq<(Seq<char>, Seq<char>)>, key: Seq<char>) -> Option<Seq<char>>
    decreases t.len(),
{
    if t.len() == 0 {
        None
    } else if t[0].0 == key {
        Some(t[0].1)
    } else {
        find_value(t.drop_first(), key)
    }
}

/// The template of `key` in a built-in catalogue.
pub(crate) fn find_entry(v: &Vec<(&'static str, &'static str)>, key: &str) -> (r: Option<String>)
    ensures
        match r {
            Some(s) => find_value(entry_views(v@), key@) == Some(s@),
            None => find_value(entry_views(v@), key@) is None,
        },
{
    let ghost t = entry_views(v@);
    let mut i: usize = 0;
    assert(t.skip(0) =~= t);
    while i < v.len()
        invariant
            i <= v@.len(),
            t == entry_views(v@),
            find_value(t, key@) == find_value(t.skip(i as int), key@),
        decreases v@.len() - i,
    {
        assert(t.skip(i as int).drop_first() =~= t.skip(i + 1));
        assert(t.skip(i as int)[0] == t[i as int]);
        if str_eq(v[i].0, key) {
            return Some(String::from_str(v[i].1));
        }
        i += 1;
    }
    None
}

/// The template of `key` among the messages of a pack.
pub(crate) fn find_pair(v: &Vec<(String, String)>, key: &str) -> (r: Option<String>)
    ensures
        match r {
            Some(s) => find_value(pair_views(v@), key@) == Some(s@),
            None => find_value(pair_views(v@), key@) is None,
        },
{
    let ghost t = pair_views(v@);
    let mut i: usize = 0;
    assert(t.skip(0) =~= t);
    while i < v.len()
        invariant
            i <= v@.len(),
            t == pair_views(v@),
            find_value(t, key@) == find_value(t.skip(i as int), key@),
        decreases v@.len() - i,
    {
        assert(t.skip(i as int).drop_first() =~= t.skip(i + 1));
        assert(t.skip(i as int)[0] == t[i as int]);
        if str_eq(v[i].0.as_str(), key) {
            return Some(v[i].1.clone());
        }
        i += 1;
    }
    None
}

/// The language state: which catalogue answers (0 Chinese, 1 English,
/// 2 an external pack), the code last chosen, and the loaded packs.
#[derive(Debug)]
pub struct I18n {
    pub lang: u8,
    pub lang_code: String,
    pub external: Vec<(String, LangPack)>,
}

impl I18n {
    /// Chinese, no code chosen yet, no pack loaded.
    pub fn new() -> (r: I18n)
        ensures
            r.lang == 0,
            r.lang_code@.len() == 0,
            r.external@.len() == 0,
    {
        I18n { lang: 0, lang_code: String::new(), external: Vec::new() }
    }
}

/// The catalogue chosen by the lowercased code `lower`.
pub open spec fn lang_of(lower: Seq<char>, langs: Seq<(String, LangPack)>) -> u8 {
    if lower == "en"@ || lower == "en-us"@ || lower == "en_us"@ {
        1
    } else if lower == "zh"@ || lower == "zh-cn"@ || lower == "zh_cn"@ {
        0
    } else if has_code(langs, lower) {
        2
    } else {
        0
    }
}

/// Chooses the language named by `lang` (case is ignored); an unknown code
/// chooses Chinese, and the code is kept in lower case.
pub fn set_lang(st: &mut I18n, lang: &str)
    ensures
        final(st).lang == lang_of(lowercase(lang@), old(st).external@),
        final(st).lang_code@ == lowercase(lang@),
        final(st).external@ == old(st).external@,
{
    let lower = to_lowercase(lang);
    let l = lower.as_str();
    let v: u8 = if str_eq(l, "en") || str_eq(l, "en-us") || str_eq(l, "en_us") {
        1
    } else if str_eq(l, "zh") || str_eq(l, "zh-cn") || str_eq(l, "zh_cn") {
        0
    } else if has_code_exec(st.external.as_slice(), l) {
        2
    } else {
        0
    };
    st.lang = v;
    st.lang_code = lower;
}

/// The catalogue in use (0 Chinese, 1 English, 2 external).
pub fn current_lang(st: &I18n) -> (r: u8)
    ensures
        r == st.lang,
{
    st.lang
}

/// The language code last chosen.
pub fn current_lang_code(st: &I18n) -> (r: String)
    ensures
        r@ == st.lang_code@,
{
    st.lang_code.clone()
}

/// Replaces the loaded packs.
pub fn init_external(st: &mut I18n, langs: Vec<(String, LangPack)>)
    ensures
        final(st).external@ == langs@,
        final(st).lang == old(st).lang,
        final(st).lang_code@ == old(st).lang_code@,
{
    st.external = langs;
}

/// The list entries of the loaded packs, in order.
pub fn list_external_langs(st: &I18n) -> (r: Vec<LangInfo>)
    ensures
        r@.len() == st.external@.len(),
        forall|i: int| 0 <= i < r@.len() ==> info_of(st.external@[i].0, st.external@[i].1, #[trigger] r@[i]),
{
    let mut r: Vec<LangInfo> = Vec::new();
    let mut i: usize = 0;
    while i < st.external.len()
        invariant
            i <= st.external@.len(),
            r@.len() == i,
            forall|j: int| 0 <= j < i ==> info_of(st.external@[j].0, st.external@[j].1, #[trigger] r@[j]),
        decreases st.external@.len() - i,
    {
        r.push(lang_info(&st.external[i].0, &st.external[i].1));
        i += 1;
    }
    r
}

/// The template of `key` for the chosen language: an external pack first,
/// then the built-in Chinese text; English or Chinese otherwise; the key
/// itself when the catalogue has no entry.
pub open spec fn template_of(st: I18n, key: Seq<char>) -> Seq<char> {
    if st.lang == 2 {
        match ext_lookup(st.external@, st.lang_code@, key) {
            Some(v) => v,
            None => match find_value(zh::table(), key) {
                Some(v) => v,
                None => key,
            },
        }
    } else if st.lang == 1 {
        match find_value(en::table(), key) {
            Some(v) => v,
            None => key,
        }
    } else {
        match find_value(zh::table(), key) {
            Some(v) => v,
            None => key,
        }
    }
}

/// The template of `key` for the chosen language, with its fallbacks.
pub fn lookup(st: &I18n, key: &str) -> (r: String)
    ensures
        r@ == template_of(*st, key@),
{
    if st.lang == 2 {
        match lookup_external(st.external.as_slice(), st.lang_code.as_str(), key) {
            Some(v) => return v,
            None => {},
        }
        return match zh::get(key) {
            Some(v) => v,
            None => String::from_str(key),
        };
    }
    let found = if st.lang == 1 {
        en::get(key)
    } else {
        zh::get(key)
    };
    match found {
        Some(v) => v,
        None => String::from_str(key),
    }
}

/// The placeholder of the `i`-th argument: `{i}`.
pub open spec fn placeholder(i: nat) -> Seq<char> {
    seq!['{'] + decimal(i) + seq!['}']
}

/// `t` with the placeholders of the first `n` arguments replaced, in order.
pub open spec fn fill_args(t: Seq<char>, args: Seq<Seq<char>>, n: nat) -> Seq<char>
    decreases n,
{
    if n == 0 || n > args.len() {
        t
    } else {
        replace_all(fill_args(t, args, (n - 1) as nat), placeholder((n - 1) as nat), args[n - 1])
    }
}

/// `t` with the placeholders `{from}`, `{from + 1}`, ... removed while they
/// occur, at most `k` of them.
pub open spec fn strip_missing(t: Seq<char>, from: nat, k: nat) -> Seq<char>
    decreases k,
{
    if k == 0 || !contains(t, placeholder(from)) {
        t
    } else {
        strip_missing(replace_all(t, placeholder(from), Seq::empty()), from + 1, (k - 1) as nat)
    }
}

/// The message for `key` with arguments `args`: the key itself when the
/// template is the key; else the template with `{0}`, `{1}`, ... replaced by
/// the arguments and up to ten unmatched placeholders after them removed.
pub open spec fn message(template: Seq<char>, key: Seq<char>, args: Seq<Seq<char>>) -> Seq<char> {
    if template == key {
        key
    } else {
        strip_missing(fill_args(template, args, args.len()), args.len(), 10)
    }
}

/// The views of a slice of strings.
pub open spec fn arg_views(args: Seq<String>) -> Seq<Seq<char>> {
    Seq::new(args.len(), |i: int| args[i]@)
}

fn placeholder_chars(i: u64) -> (r: Vec<char>)
    ensures
        r@ == placeholder(i as nat),
{
    let mut r: Vec<char> = Vec::new();
    r.push('{');
    push_decimal(&mut r, i);
    r.push('}');
    assert(r@ =~= placeholder(i as nat));
    r
}

/// The message for `key` in the chosen language, with its arguments in place.
pub fn msg(st: &I18n, key: &str, args: &[String]) -> (r: String)
    requires
        args@.len() + 10 <= usize::MAX,
    ensures
        r@ == message(template_of(*st, key@), key@, arg_views(args@)),
{
    let template = lookup(st, key);
    if str_eq(template.as_str(), key) {
        return String::from_str(key);
    }
    let ghost a = arg_views(args@);
    let mut result = chars_of(template.as_str());
    let mut i: usize = 0;
    while i < args.len()
        invariant
            i <= args@.len(),
            a == arg_views(args@),
            result@ == fill_args(template@, a, i as nat),
        decreases args@.len() - i,
    {
        let p = placeholder_chars(i as u64);
        let v = chars_of(args[i].as_str());
        result = replace_chars(result.as_slice(), p.as_slice(), v.as_slice());
        i += 1;
    }
    let n = args.len();
    let empty: Vec<char> = Vec::new();
    let mut j: usize = n;
    let ghost full = result@;
    while j < n + 10
        invariant
            n <= j <= n + 10,
            n + 10 <= usize::MAX,
            empty@.len() == 0,
            strip_missing(full, n as nat, 10) == strip_missing(result@, j as nat, (n + 10 - j) as nat),
        ensures
            strip_missing(full, n as nat, 10) == result@,
        decreases n + 10 - j,
    {
        let p = placeholder_chars(j as u64);
        if contains_chars(result.as_slice(), p.as_slice()) {
            result = replace_chars(result.as_slice(), p.as_slice(), empty.as_slice());
            assert(empty@ =~= Seq::<char>::empty());
        } else {
            break;
        }
        j += 1;
    }
    string_of(result.as_slice())
}

/// The view of an optional string.
pub open spec fn opt_str(o: Option<String>) -> Option<Seq<char>> {
    match o {
        Some(s) => Some(s@),
        None => None,
    }
}

/// The effective language code: `--lang` when it is `en`, `zh` or the code of
/// a loaded pack; `zh` for any other non-empty `--lang`; without `--lang`,
/// `PYFORGE_LANG` (`en` in any case, or a pack's code in lower case), else `zh`.
pub open spec fn effective_lang(cli: Seq<char>, env: Option<Seq<char>>, langs: Seq<(String, LangPack)>) -> Seq<char> {
    if cli == "en"@ {
        "en"@
    } else if cli == "zh"@ {
        "zh"@
    } else if cli.len() > 0 {
        if has_code(langs, cli) {
            cli
        } else {
            "zh"@
        }
    } else {
        match env {
            Some(v) => if lowercase(v) == "en"@ {
                "en"@
            } else if v.len() > 0 {
                if has_code(langs, lowercase(v)) {
                    lowercase(v)
                } else {
                    "zh"@
                }
            } else {
                "zh"@
            },
            None => "zh"@,
        }
    }
}

/// Chooses the language at start-up from `--lang` (`cli_lang`, empty when not
/// given) and the value of `PYFORGE_LANG` (`None` when unset).
pub fn init_lang(st: &mut I18n, cli_lang: &str, env_lang: Option<String>)
    ensures
        final(st).lang == lang_of(
            lowercase(effective_lang(cli_lang@, opt_str(env_lang), old(st).external@)),
            old(st).external@,
        ),
        final(st).lang_code@ == lowercase(effective_lang(cli_lang@, opt_str(env_lang), old(st).external@)),
        final(st).external@ == old(st).external@,
{
    let effective: String = if str_eq(cli_lang, "en") {
        String::from_str("en")
    } else if str_eq(cli_lang, "zh") {
        String::from_str("zh")
    } else if !cli_lang.is_empty() {
        if has_code_exec(st.external.as_slice(), cli_lang) {
            String::from_str(cli_lang)
        } else {
            String::from_str("zh")
        }
    } else {
        match env_lang {
            Some(v) => {
                let lower = to_lowercase(v.as_str());
                if str_eq(lower.as_str(), "en") {
                    String::from_str("en")
                } else if !v.as_str().is_empty() {
                    if has_code_exec(st.external.as_slice(), lower.as_str()) {
                        lower
                    } else {
                        String::from_str("zh")
                    }
                } else {
                    String::from_str("zh")
                }
            },
            None => String::from_str("zh"),
        }
    };
    set_lang(st, effective.as_str());
}

/// A key that no catalogue has comes back as the message itself, whatever
/// the arguments.
pub proof fn law_missing_key_echoed(st: I18n, key: Seq<char>, args: Seq<Seq<char>>)
    requires
        find_value(zh::table(), key) is None,
        find_value(en::table(), key) is None,
        ext_lookup(st.external@, st.lang_code@, key) is None,
    ensures
        message(template_of(st, key), key, args) == key,
{
}

/// A key missing from the chosen external pack is answered from the
/// built-in Chinese catalogue, as if Chinese were chosen.
pub proof fn law_external_falls_back_to_chinese(st: I18n, key: Seq<char>)
    requires
        st.lang == 2,
        ext_lookup(st.external@, st.lang_code@, key) is None,
    ensures
        template_of(st, key) == template_of(I18n { lang: 0, lang_code: st.lang_code, external: st.external }, key),
{
}

/// A template without placeholders, given no arguments, is the message
/// as it stands.
pub proof fn law_plain_template_unchanged(template: Seq<char>, key: Seq<char>)
    requires
        template != key,
        !contains(template, placeholder(0)),
    ensures
        message(template, key, Seq::empty()) == template,
{
}

/// `--lang en` or `--lang zh` wins over `PYFORGE_LANG`, whatever it holds.
pub proof fn law_cli_lang_overrides_env(env: Option<Seq<char>>, langs: Seq<(String, LangPack)>)
    ensures
        effective_lang("en"@, env, langs) == "en"@,
        effective_lang("zh"@, env, langs) == "zh"@,
{
}

/// With neither `--lang` nor `PYFORGE_LANG` the language is Chinese.
pub proof fn law_default_is_chinese(langs: Seq<(String, LangPack)>)
    ensures
        effective_lang(Seq::empty(), None, langs) == "zh"@,
{
    reveal_strlit("en");
    reveal_strlit("zh");
    assert("en"@.len() == 2);
    assert("zh"@.len() == 2);
}

proof fn lemma_replace_after_prefix(b: Seq<char>, s2: Seq<char>, p: Seq<char>, r: Seq<char>)
    requires
        p.len() > 0,
        forall|i: int| 0 <= i < b.len() ==> !#[trigger] occurs_at(b + s2, p, i),
    ensures
        replace_all(b + s2, p, r) == b + replace_all(s2, p, r),
    decreases b.len(),
{
    if b.len() > 0 {
        let s = b + s2;
        let t = b.drop_first();
        assert(s.drop_first() =~= t + s2);
        assert forall|i: int| 0 <= i < t.len() implies !#[trigger] occurs_at(t + s2, p, i) by {
            if occurs_at(t + s2, p, i) {
                assert((t + s2).subrange(i, i + p.len()) =~= s.subrange(i + 1, i + 1 + p.len()));
                assert(occurs_at(s, p, i + 1));
            }
        }
        lemma_replace_after_prefix(t, s2, p, r);
        if s.len() >= p.len() {
            if s.take(p.len() as int) == p {
                assert(s.subrange(0, p.len() as int) =~= s.take(p.len() as int));
                assert(occurs_at(s, p, 0));
            }
        }
        assert(b =~= seq![b[0]] + t);
        assert(s[0] == b[0]);
    }
}

proof fn lemma_replace_absent_text(s: Seq<char>, p: Seq<char>, r: Seq<char>)
    requires
        p.len() > 0,
        !contains(s, p),
    ensures
        replace_all(s, p, r) == s,
{
    assert forall|i: int| 0 <= i < s.len() implies !#[trigger] occurs_at(s + Seq::<char>::empty(), p, i) by {
        assert(s + Seq::<char>::empty() =~= s);
    }
    lemma_replace_after_prefix(s, Seq::empty(), p, r);
    assert(s + Seq::<char>::empty() =~= s);
}

/// An argument fills its placeholder: with one argument, a template that
/// holds `{0}` once (and no `{1}` once filled) reads with the argument in
/// its place.
pub proof fn law_single_argument(before: Seq<char>, after: Seq<char>, key: Seq<char>, arg: Seq<char>)
    requires
        before + placeholder(0) + after != key,
        !contains(before, placeholder(0)),
        !contains(after, placeholder(0)),
        !contains(before + arg + after, placeholder(1)),
    ensures
        message(before + placeholder(0) + after, key, seq![arg]) == before + arg + after,
{
    let p = placeholder(0);
    assert(p =~= seq!['{', '0', '}']) by {
        assert(decimal(0) =~= seq!['0']);
    }
    let t = before + p + after;
    assert(t =~= before + (p + after));
    assert forall|i: int| 0 <= i < before.len() implies !#[trigger] occurs_at(before + (p + after), p, i) by {
        let s = before + (p + after);
        if occurs_at(s, p, i) {
            if i + 3 <= before.len() {
                assert(s.subrange(i, i + 3) =~= before.subrange(i, i + 3));
                assert(occurs_at(before, p, i));
            } else {
                let j = before.len() - i;
                assert(s[before.len() as int] == '{');
                assert(s.subrange(i, i + 3)[j] == s[before.len() as int]);
                assert(p[j] != '{');
            }
        }
    }
    lemma_replace_after_prefix(before, p + after, p, arg);
    let s2 = p + after;
    assert(s2.take(3) =~= p);
    assert(s2.skip(3) =~= after);
    lemma_replace_absent_text(after, p, arg);
    assert(replace_all(s2, p, arg) == arg + after);
    assert(fill_args(t, seq![arg], 1) == replace_all(fill_args(t, seq![arg], 0), placeholder(0), seq![arg][0]));
    assert(fill_args(t, seq![arg], 0) == t);
    assert(before + (arg + after) =~= before + arg + after);
}

proof fn lemma_same_keys_same_answers(t1: Seq<(Seq<char>, Seq<char>)>, t2: Seq<(Seq<char>, Seq<char>)>, key: Seq<char>)
    requires
        t1.len() == t2.len(),
        forall|i: int| 0 <= i < t1.len() ==> #[trigger] t1[i].0 == t2[i].0,
    ensures
        (find_value(t1, key) is Some) == (find_value(t2, key) is Some),
    decreases t1.len(),
{
    if t1.len() > 0 {
        assert(t1[0].0 == t2[0].0);
        let (d1, d2) = (t1.drop_first(), t2.drop_first());
        assert forall|i: int| 0 <= i < d1.len() implies #[trigger] d1[i].0 == d2[i].0 by {
            assert(d1[i] == t1[i + 1] && d2[i] == t2[i + 1]);
        }
        lemma_same_keys_same_answers(d1, d2, key);
    }
}

proof fn lemma_table_keys_match(i: int)
    requires
        0 <= i < 36,
    ensures
        en::table()[i].0 == zh::table()[i].0,
{
    if i == 0 {
        assert(en::table()[0].0 == zh::table()[0].0);
    } else if i == 1 {
        assert(en::table()[1].0 == zh::table()[1].0);
    } else if i == 2 {
        assert(en::table()[2].0 == zh::table()[2].0);
    } else if i == 3 {
        assert(en::table()[3].0 == zh::table()[3].0);
    } else if i == 4 {
        assert(en::table()[4].0 == zh::table()[4].0);
    } else if i == 5 {
        assert(en::table()[5].0 == zh::table()[5].0);
    } else if i == 6 {
        assert(en::table()[6].0 == zh::table()[6].0);
    } else if i == 7 {
        assert(en::table()[7].0 == zh::table()[7].0);
    } else if i == 8 {
        assert(en::table()[8].0 == zh::table()[8].0);
    } else if i == 9 {
        assert(en::table()[9].0 == zh::table()[9].0);
    } else if i == 10 {
        assert(en::table()[10].0 == zh::table()[10].0);
    } else if i == 11 {
        assert(en::table()[11].0 == zh::table()[11].0);
    } else if i == 12 {
        assert(en::table()[12].0 == zh::table()[12].0);
    } else if i == 13 {
        assert(en::table()[13].0 == zh::table()[13].0);
    } else if i == 14 {
        assert(en::table()[14].0 == zh::table()[14].0);
    } else if i == 15 {
        assert(en::table()[15].0 == zh::table()[15].0);
    } else if i == 16 {
        assert(en::table()[16].0 == zh::table()[16].0);
    } else if i == 17 {
        assert(en::table()[17].0 == zh::table()[17].0);
    } else if i == 18 {
        assert(en::table()[18].0 == zh::table()[18].0);
    } else if i == 19 {
        assert(en::table()[19].0 == zh::table()[19].0);
    } else if i == 20 {
        assert(en::table()[20].0 == zh::table()[20].0);
    } else if i == 21 {
        assert(en::table()[21].0 == zh::table()[21].0);
    } else if i == 22 {
        assert(en::table()[22].0 == zh::table()[22].0);
    } else if i == 23 {
        assert(en::table()[23].0 == zh::table()[23].0);
    } else if i == 24 {
        assert(en::table()[24].0 == zh::table()[24].0);
    } else if i == 25 {
        assert(en::table()[25].0 == zh::table()[25].0);
    } else if i == 26 {
        assert(en::table()[26].0 == zh::table()[26].0);
    } else if i == 27 {
        assert(en::table()[27].0 == zh::table()[27].0);
    } else if i == 28 {
        assert(en::table()[28].0 == zh::table()[28].0);
    } else if i == 29 {
        assert(en::table()[29].0 == zh::table()[29].0);
    } else if i == 30 {
        assert(en::table()[30].0 == zh::table()[30].0);
    } else if i == 31 {
        assert(en::table()[31].0 == zh::table()[31].0);
    } else if i == 32 {
        assert(en::table()[32].0 == zh::table()[32].0);
    } else if i == 33 {
        assert(en::table()[33].0 == zh::table()[33].0);
    } else if i == 34 {
        assert(en::table()[34].0 == zh::table()[34].0);
    } else if i == 35 {
        assert(en::table()[35].0 == zh::table()[35].0);
    }
    }

/// The English and the Chinese catalogues answer the same keys.
pub proof fn law_catalogues_share_keys(key: Seq<char>)
    ensures
    (find_value(en::table(), key) is Some) == (find_value(zh::table(), key) is Some),
{
    assert(en::table().len() == 36 && zh::table().len() == 36);
    assert forall|i: int| 0 <= i < en::table().len() implies #[trigger] en::table()[i].0 == zh::table()[i].0 by {
    lemma_table_keys_match(i);
    }
    lemma_same_keys_same_answers(en::table(), zh::table(), key);
}

proof fn lemma_holes_plain_prefix(t: Seq<char>, k: int)
    requires
        0 <= k <= t.len(),
        forall|j: int| 0 <= j < k ==> t[j] != '{',
    ensures
        holes(t) == holes(t.skip(k)),
    decreases k,
{
    if k > 0 {
        let d = t.drop_first();
        assert forall|j: int| 0 <= j < k - 1 implies d[j] != '{' by {
            assert(d[j] == t[j + 1]);
        }
        lemma_holes_plain_prefix(d, k - 1);
        assert(d.skip(k - 1) =~= t.skip(k));
        assert(t[0] != '{');
    } else {
        assert(t.skip(0) =~= t);
    }
}

/// The one-digit placeholders `{d}` of a template, in order.
pub open spec fn holes(t: Seq<char>) -> Seq<char>
    decreases t.len(),
{
    if t.len() < 3 {
        seq![]
    } else if t[0] == '{' && '0' <= t[1] && t[1] <= '9' && t[2] == '}' {
        seq![t[1]] + holes(t.drop_first())
    } else {
        holes(t.drop_first())
    }
}

proof fn lemma_holes_0()
    ensures
        holes(en::table()[0].1) == holes(zh::table()[0].1),
{
    assert(en::table()[0].1 == "Hello"@);
    assert(zh::table()[0].1 == "你好"@);
    assert(holes("Hello"@) == Seq::<char>::empty()) by {
        reveal_strlit("Hello");
        reveal_with_fuel(holes, 7);
    }
    assert(holes("你好"@) == Seq::<char>::empty()) by {
        reveal_strlit("你好");
        reveal_with_fuel(holes, 4);
    }
}

proof fn lemma_holes_1()
    ensures
        holes(en::table()[1].1) == holes(zh::table()[1].1),
{
    assert(en::table()[1].1 == "Project registered: {0}"@);
    assert(zh::table()[1].1 == "已注册项目: {0}"@);
    assert(holes("Project registered: {0}"@) == seq!['0']) by {
        reveal_strlit("Project registered: {0}");
        reveal_with_fuel(holes, 25);
    }
    assert(holes("已注册项目: {0}"@) == seq!['0']) by {
        reveal_strlit("已注册项目: {0}");
        reveal_with_fuel(holes, 12);
    }
}

proof fn lemma_holes_2()
    ensures
        holes(en::table()[2].1) == holes(zh::table()[2].1),
{
    assert(en::table()[2].1 == "Project already tracked: {0}"@);
    assert(zh::table()[2].1 == "项目已在索引中: {0}"@);
    assert(holes("Project already tracked: {0}"@) == seq!['0']) by {
        reveal_strlit("Project already tracked: {0}");
        reveal_with_fuel(holes, 30);
    }
    assert(holes("项目已在索引中: {0}"@) == seq!['0']) by {
        reveal_strlit("项目已在索引中: {0}");
        reveal_with_fuel(holes, 14);
    }
}

proof fn lemma_holes_3()
    ensures
        holes(en::table()[3].1) == holes(zh::table()[3].1),
{
    assert(en::table()[3].1 == "Path not found: {0}"@);
    assert(zh::table()[3].1 == "路径不存在: {0}"@);
    assert(holes("Path not found: {0}"@) == seq!['0']) by {
        reveal_strlit("Path not found: {0}");
        reveal_with_fuel(holes, 21);
    }
    assert(holes("路径不存在: {0}"@) == seq!['0']) by {
        reveal_strlit("路径不存在: {0}");
        reveal_with_fuel(holes, 12);
    }
}

proof fn lemma_holes_4()
    ensures
        holes(en::table()[4].1) == holes(zh::table()[4].1),
{
    assert(en::table()[4].1 == "No tracked projects"@);
    assert(zh::table()[4].1 == "暂无已跟踪的项目"@);
    assert(holes("No tracked projects"@) == Seq::<char>::empty()) by {
        reveal_strlit("No tracked projects");
        reveal_with_fuel(holes, 21);
    }
    assert(holes("暂无已跟踪的项目"@) == Seq::<char>::empty()) by {
        reveal_strlit("暂无已跟踪的项目");
        reveal_with_fuel(holes, 10);
    }
}

proof fn lemma_holes_5()
    ensures
        holes(en::table()[5].1) == holes(zh::table()[5].1),
{
    assert(en::table()[5].1 == "{0}  {1}"@);
    assert(zh::table()[5].1 == "{0}  {1}"@);
    assert(holes("{0}  {1}"@) == seq!['0', '1']) by {
        reveal_strlit("{0}  {1}");
        reveal_with_fuel(holes, 10);
    }
    assert(holes("{0}  {1}"@) == seq!['0', '1']) by {
        reveal_strlit("{0}  {1}");
        reveal_with_fuel(holes, 10);
    }
}

proof fn lemma_holes_6()
    ensures
        holes(en::table()[6].1) == holes(zh::table()[6].1),
{
    assert(en::table()[6].1 == "Found {0} Python projects"@);
    assert(zh::table()[6].1 == "发现 {0} 个 Python 项目"@);
    assert(holes("Found {0} Python projects"@) == seq!['0']) by {
        reveal_strlit("Found {0} Python projects");
        reveal_with_fuel(holes, 27);
    }
    assert(holes("发现 {0} 个 Python 项目"@) == seq!['0']) by {
        reveal_strlit("发现 {0} 个 Python 项目");
        reveal_with_fuel(holes, 20);
    }
}

proof fn lemma_holes_7()
    ensures
        holes(en::table()[7].1) == holes(zh::table()[7].1),
{
    assert(en::table()[7].1 == "Scanning {0} directories..."@);
    assert(zh::table()[7].1 == "正在扫描 {0} 个目录..."@);
    assert(holes("Scanning {0} directories..."@) == seq!['0']) by {
        reveal_strlit("Scanning {0} directories...");
        reveal_with_fuel(holes, 29);
    }
    assert(holes("正在扫描 {0} 个目录..."@) == seq!['0']) by {
        reveal_strlit("正在扫描 {0} 个目录...");
        reveal_with_fuel(holes, 17);
    }
}

proof fn lemma_holes_8()
    ensures
        holes(en::table()[8].1) == holes(zh::table()[8].1),
{
    assert(en::table()[8].1 == "No Python projects found"@);
    assert(zh::table()[8].1 == "未发现 Python 项目"@);
    assert(holes("No Python projects found"@) == Seq::<char>::empty()) by {
        reveal_strlit("No Python projects found");
        reveal_with_fuel(holes, 26);
    }
    assert(holes("未发现 Python 项目"@) == Seq::<char>::empty()) by {
        reveal_strlit("未发现 Python 项目");
        reveal_with_fuel(holes, 15);
    }
}

proof fn lemma_holes_9()
    ensures
        holes(en::table()[9].1) == holes(zh::table()[9].1),
{
    assert(en::table()[9].1 == "Project created: {0}"@);
    assert(zh::table()[9].1 == "项目已创建: {0}"@);
    assert(holes("Project created: {0}"@) == seq!['0']) by {
        reveal_strlit("Project created: {0}");
        reveal_with_fuel(holes, 22);
    }
    assert(holes("项目已创建: {0}"@) == seq!['0']) by {
        reveal_strlit("项目已创建: {0}");
        reveal_with_fuel(holes, 12);
    }
}

proof fn lemma_holes_10()
    ensures
        holes(en::table()[10].1) == holes(zh::table()[10].1),
{
    assert(en::table()[10].1 == "Directory already exists: {0}"@);
    assert(zh::table()[10].1 == "目录已存在: {0}"@);
    assert(holes("Directory already exists: {0}"@) == seq!['0']) by {
        reveal_strlit("Directory already exists: {0}");
        reveal_with_fuel(holes, 31);
    }
    assert(holes("目录已存在: {0}"@) == seq!['0']) by {
        reveal_strlit("目录已存在: {0}");
        reveal_with_fuel(holes, 12);
    }
}

proof fn lemma_holes_11()
    ensures
        holes(en::table()[11].1) == holes(zh::table()[11].1),
{
    assert(en::table()[11].1 == "uv not found. Install: https://docs.astral.sh/uv/"@);
    assert(zh::table()[11].1 == "未找到 uv，请先安装: https://docs.astral.sh/uv/"@);
    assert(holes("uv not found. Install: https://docs.astral.sh/uv/"@) == Seq::<char>::empty()) by {
        reveal_strlit("uv not found. Install: https://docs.astral.sh/uv/");
        reveal_with_fuel(holes, 51);
    }
    assert(holes("未找到 uv，请先安装: https://docs.astral.sh/uv/"@) == Seq::<char>::empty()) by {
        reveal_strlit("未找到 uv，请先安装: https://docs.astral.sh/uv/");
        reveal_with_fuel(holes, 41);
    }
}

proof fn lemma_holes_12()
    ensures
        holes(en::table()[12].1) == holes(zh::table()[12].1),
{
    assert(en::table()[12].1 == "Subpackage created: {0}"@);
    assert(zh::table()[12].1 == "已创建子包: {0}"@);
    assert(holes("Subpackage created: {0}"@) == seq!['0']) by {
        reveal_strlit("Subpackage created: {0}");
        reveal_with_fuel(holes, 25);
    }
    assert(holes("已创建子包: {0}"@) == seq!['0']) by {
        reveal_strlit("已创建子包: {0}");
        reveal_with_fuel(holes, 12);
    }
}

proof fn lemma_holes_13()
    ensures
        holes(en::table()[13].1) == holes(zh::table()[13].1),
{
    assert(en::table()[13].1 == "Skipped (exists): {0}"@);
    assert(zh::table()[13].1 == "已跳过（存在）: {0}"@);
    assert(holes("Skipped (exists): {0}"@) == seq!['0']) by {
        reveal_strlit("Skipped (exists): {0}");
        reveal_with_fuel(holes, 23);
    }
    assert(holes("已跳过（存在）: {0}"@) == seq!['0']) by {
        reveal_strlit("已跳过（存在）: {0}");
        reveal_with_fuel(holes, 14);
    }
}

proof fn lemma_holes_14()
    ensures
        holes(en::table()[14].1) == holes(zh::table()[14].1),
{
    assert(en::table()[14].1 == "Specify at least one package name"@);
    assert(zh::table()[14].1 == "请指定至少一个包名"@);
    assert(holes("Specify at least one package name"@) == Seq::<char>::empty()) by {
        reveal_strlit("Specify at least one package name");
        reveal_with_fuel(holes, 35);
    }
    assert(holes("请指定至少一个包名"@) == Seq::<char>::empty()) by {
        reveal_strlit("请指定至少一个包名");
        reveal_with_fuel(holes, 11);
    }
}

proof fn lemma_holes_15()
    ensures
        holes(en::table()[15].1) == holes(zh::table()[15].1),
{
    assert(en::table()[15].1 == "[dry-run] Would create: {0}"@);
    assert(zh::table()[15].1 == "[dry-run] 将创建: {0}"@);
    assert(holes("[dry-run] Would create: {0}"@) == seq!['0']) by {
        reveal_strlit("[dry-run] Would create: {0}");
        reveal_with_fuel(holes, 29);
    }
    assert(holes("[dry-run] 将创建: {0}"@) == seq!['0']) by {
        reveal_strlit("[dry-run] 将创建: {0}");
        reveal_with_fuel(holes, 20);
    }
}

proof fn lemma_holes_16()
    ensures
        holes(en::table()[16].1) == holes(zh::table()[16].1),
{
    assert(en::table()[16].1 == "Project not in index: {0}"@);
    assert(zh::table()[16].1 == "项目不在索引中: {0}"@);
    assert(holes("Project not in index: {0}"@) == seq!['0']) by {
        reveal_strlit("Project not in index: {0}");
        reveal_with_fuel(holes, 27);
    }
    assert(holes("项目不在索引中: {0}"@) == seq!['0']) by {
        reveal_strlit("项目不在索引中: {0}");
        reveal_with_fuel(holes, 14);
    }
}

proof fn lemma_holes_17()
    ensures
        holes(en::table()[17].1) == holes(zh::table()[17].1),
{
    assert(en::table()[17].1 == "Removed from index: {0}"@);
    assert(zh::table()[17].1 == "已从索引移除: {0}"@);
    assert(holes("Removed from index: {0}"@) == seq!['0']) by {
        reveal_strlit("Removed from index: {0}");
        reveal_with_fuel(holes, 25);
    }
    assert(holes("已从索引移除: {0}"@) == seq!['0']) by {
        reveal_strlit("已从索引移除: {0}");
        reveal_with_fuel(holes, 13);
    }
}

proof fn lemma_holes_18()
    ensures
        holes(en::table()[18].1) == holes(zh::table()[18].1),
{
    assert(en::table()[18].1 == "Project not in index: {0}"@);
    assert(zh::table()[18].1 == "项目不在索引中: {0}"@);
    assert(holes("Project not in index: {0}"@) == seq!['0']) by {
        reveal_strlit("Project not in index: {0}");
        reveal_with_fuel(holes, 27);
    }
    assert(holes("项目不在索引中: {0}"@) == seq!['0']) by {
        reveal_strlit("项目不在索引中: {0}");
        reveal_with_fuel(holes, 14);
    }
}

proof fn lemma_holes_19()
    ensures
        holes(en::table()[19].1) == holes(zh::table()[19].1),
{
    assert(en::table()[19].1 == "No tracked projects"@);
    assert(zh::table()[19].1 == "暂无已跟踪的项目"@);
    assert(holes("No tracked projects"@) == Seq::<char>::empty()) by {
        reveal_strlit("No tracked projects");
        reveal_with_fuel(holes, 21);
    }
    assert(holes("暂无已跟踪的项目"@) == Seq::<char>::empty()) by {
        reveal_strlit("暂无已跟踪的项目");
        reveal_with_fuel(holes, 10);
    }
}

proof fn lemma_holes_20()
    ensures
        holes(en::table()[20].1) == holes(zh::table()[20].1),
{
    assert(en::table()[20].1 == "All dependencies up to date"@);
    assert(zh::table()[20].1 == "所有依赖为最新"@);
    assert(holes("All dependencies up to date"@) == Seq::<char>::empty()) by {
        reveal_strlit("All dependencies up to date");
        reveal_with_fuel(holes, 29);
    }
    assert(holes("所有依赖为最新"@) == Seq::<char>::empty()) by {
        reveal_strlit("所有依赖为最新");
        reveal_with_fuel(holes, 9);
    }
}

proof fn lemma_holes_21()
    ensures
        holes(en::table()[21].1) == holes(zh::table()[21].1),
{
    assert(en::table()[21].1 == "uv not found. Install uv first."@);
    assert(zh::table()[21].1 == "未找到 uv，请先安装"@);
    assert(holes("uv not found. Install uv first."@) == Seq::<char>::empty()) by {
        reveal_strlit("uv not found. Install uv first.");
        reveal_with_fuel(holes, 33);
    }
    assert(holes("未找到 uv，请先安装"@) == Seq::<char>::empty()) by {
        reveal_strlit("未找到 uv，请先安装");
        reveal_with_fuel(holes, 13);
    }
}

proof fn lemma_holes_22()
    ensures
        holes(en::table()[22].1) == holes(zh::table()[22].1),
{
    assert(en::table()[22].1 == "Failed to parse dependency information"@);
    assert(zh::table()[22].1 == "无法解析依赖信息"@);
    assert(holes("Failed to parse dependency information"@) == Seq::<char>::empty()) by {
        reveal_strlit("Failed to parse dependency information");
        reveal_with_fuel(holes, 40);
    }
    assert(holes("无法解析依赖信息"@) == Seq::<char>::empty()) by {
        reveal_strlit("无法解析依赖信息");
        reveal_with_fuel(holes, 10);
    }
}

proof fn lemma_holes_23()
    ensures
        holes(en::table()[23].1) == holes(zh::table()[23].1),
{
    assert(en::table()[23].1 == "  {0}: {1} -> {2}"@);
    assert(zh::table()[23].1 == "  {0}: {1} -> {2}"@);
    assert(holes("  {0}: {1} -> {2}"@) == seq!['0', '1', '2']) by {
        reveal_strlit("  {0}: {1} -> {2}");
        reveal_with_fuel(holes, 19);
    }
    assert(holes("  {0}: {1} -> {2}"@) == seq!['0', '1', '2']) by {
        reveal_strlit("  {0}: {1} -> {2}");
        reveal_with_fuel(holes, 19);
    }
}

proof fn lemma_holes_24()
    ensures
        holes(en::table()[24].1) == holes(zh::table()[24].1),
{
    assert(en::table()[24].1 == "SKILL.md written: {0}"@);
    assert(zh::table()[24].1 == "SKILL.md 已写入: {0}"@);
    assert(holes("SKILL.md written: {0}"@) == seq!['0']) by {
        reveal_strlit("SKILL.md written: {0}");
        reveal_with_fuel(holes, 23);
    }
    assert(holes("SKILL.md 已写入: {0}"@) == seq!['0']) by {
        reveal_strlit("SKILL.md 已写入: {0}");
        reveal_with_fuel(holes, 19);
    }
}

proof fn lemma_holes_25()
    ensures
        holes(en::table()[25].1) == holes(zh::table()[25].1),
{
    assert(en::table()[25].1 == "Unknown template: {0}. Available templates: {1}"@);
    assert(zh::table()[25].1 == "未知模板: {0}。可用模板: {1}"@);
    assert(holes("Unknown template: {0}. Available templates: {1}"@) == seq!['0', '1']) by {
        reveal_strlit("Unknown template: {0}. Available templates: {1}");
        reveal_with_fuel(holes, 49);
    }
    assert(holes("未知模板: {0}。可用模板: {1}"@) == seq!['0', '1']) by {
        reveal_strlit("未知模板: {0}。可用模板: {1}");
        reveal_with_fuel(holes, 21);
    }
}

#[verifier::spinoff_prover]
#[verifier::rlimit(100)]
proof fn lemma_holes_26()
    ensures
        holes(en::table()[26].1) == holes(zh::table()[26].1),
{
    assert(en::table()[26].1 == "Custom template '{0}' shadows a built-in template, using built-in"@);
    assert(zh::table()[26].1 == "自定义模板 '{0}' 与内置模板同名，使用内置模板"@);
    let e = "Custom template '{0}' shadows a built-in template, using built-in"@;
    assert(holes(e) == seq!['0']) by {
        reveal_strlit("Custom template '{0}' shadows a built-in template, using built-in");
        assert(e.len() == 65);
        assert forall|j: int| 0 <= j < 17 implies e[j] != '{' by {
            if j == 0 { assert(e[0] != '{'); } else if j == 1 { assert(e[1] != '{'); } else if j == 2 { assert(e[2] != '{'); } else if j == 3 { assert(e[3] != '{'); } else if j == 4 { assert(e[4] != '{'); } else if j == 5 { assert(e[5] != '{'); } else if j == 6 { assert(e[6] != '{'); } else if j == 7 { assert(e[7] != '{'); } else if j == 8 { assert(e[8] != '{'); } else if j == 9 { assert(e[9] != '{'); } else if j == 10 { assert(e[10] != '{'); } else if j == 11 { assert(e[11] != '{'); } else if j == 12 { assert(e[12] != '{'); } else if j == 13 { assert(e[13] != '{'); } else if j == 14 { assert(e[14] != '{'); } else if j == 15 { assert(e[15] != '{'); } else if j == 16 { assert(e[16] != '{'); }
        }
        lemma_holes_plain_prefix(e, 17);
        let t = e.skip(17);
        assert(t[0] == '{' && t[1] == '0' && t[2] == '}');
        assert(t.drop_first() =~= e.skip(18));
        let u = e.skip(18);
        assert forall|j: int| 0 <= j < 47 implies u[j] != '{' by {
            assert(u[j] == e[j + 18]);
            if j == 0 { assert(e[18] != '{'); } else if j == 1 { assert(e[19] != '{'); } else if j == 2 { assert(e[20] != '{'); } else if j == 3 { assert(e[21] != '{'); } else if j == 4 { assert(e[22] != '{'); } else if j == 5 { assert(e[23] != '{'); } else if j == 6 { assert(e[24] != '{'); } else if j == 7 { assert(e[25] != '{'); } else if j == 8 { assert(e[26] != '{'); } else if j == 9 { assert(e[27] != '{'); } else if j == 10 { assert(e[28] != '{'); } else if j == 11 { assert(e[29] != '{'); } else if j == 12 { assert(e[30] != '{'); } else if j == 13 { assert(e[31] != '{'); } else if j == 14 { assert(e[32] != '{'); } else if j == 15 { assert(e[33] != '{'); } else if j == 16 { assert(e[34] != '{'); } else if j == 17 { assert(e[35] != '{'); } else if j == 18 { assert(e[36] != '{'); } else if j == 19 { assert(e[37] != '{'); } else if j == 20 { assert(e[38] != '{'); } else if j == 21 { assert(e[39] != '{'); } else if j == 22 { assert(e[40] != '{'); } else if j == 23 { assert(e[41] != '{'); } else if j == 24 { assert(e[42] != '{'); } else if j == 25 { assert(e[43] != '{'); } else if j == 26 { assert(e[44] != '{'); } else if j == 27 { assert(e[45] != '{'); } else if j == 28 { assert(e[46] != '{'); } else if j == 29 { assert(e[47] != '{'); } else if j == 30 { assert(e[48] != '{'); } else if j == 31 { assert(e[49] != '{'); } else if j == 32 { assert(e[50] != '{'); } else if j == 33 { assert(e[51] != '{'); } else if j == 34 { assert(e[52] != '{'); } else if j == 35 { assert(e[53] != '{'); } else if j == 36 { assert(e[54] != '{'); } else if j == 37 { assert(e[55] != '{'); } else if j == 38 { assert(e[56] != '{'); } else if j == 39 { assert(e[57] != '{'); } else if j == 40 { assert(e[58] != '{'); } else if j == 41 { assert(e[59] != '{'); } else if j == 42 { assert(e[60] != '{'); } else if j == 43 { assert(e[61] != '{'); } else if j == 44 { assert(e[62] != '{'); } else if j == 45 { assert(e[63] != '{'); } else if j == 46 { assert(e[64] != '{'); }
        }
        lemma_holes_plain_prefix(u, 47);
        assert(u.skip(47).len() == 0);
    }
    assert(holes("自定义模板 '{0}' 与内置模板同名，使用内置模板"@) == seq!['0']) by {
        reveal_strlit("自定义模板 '{0}' 与内置模板同名，使用内置模板");
        reveal_with_fuel(holes, 28);
    }
}

proof fn lemma_holes_27()
    ensures
        holes(en::table()[27].1) == holes(zh::table()[27].1),
{
    assert(en::table()[27].1 == "Available languages:"@);
    assert(zh::table()[27].1 == "可用语言:"@);
    assert(holes("Available languages:"@) == Seq::<char>::empty()) by {
        reveal_strlit("Available languages:");
        reveal_with_fuel(holes, 22);
    }
    assert(holes("可用语言:"@) == Seq::<char>::empty()) by {
        reveal_strlit("可用语言:");
        reveal_with_fuel(holes, 7);
    }
}

proof fn lemma_holes_28()
    ensures
        holes(en::table()[28].1) == holes(zh::table()[28].1),
{
    assert(en::table()[28].1 == "builtin"@);
    assert(zh::table()[28].1 == "内置"@);
    assert(holes("builtin"@) == Seq::<char>::empty()) by {
        reveal_strlit("builtin");
        reveal_with_fuel(holes, 9);
    }
    assert(holes("内置"@) == Seq::<char>::empty()) by {
        reveal_strlit("内置");
        reveal_with_fuel(holes, 4);
    }
}

proof fn lemma_holes_29()
    ensures
        holes(en::table()[29].1) == holes(zh::table()[29].1),
{
    assert(en::table()[29].1 == "installed"@);
    assert(zh::table()[29].1 == "已安装"@);
    assert(holes("installed"@) == Seq::<char>::empty()) by {
        reveal_strlit("installed");
        reveal_with_fuel(holes, 11);
    }
    assert(holes("已安装"@) == Seq::<char>::empty()) by {
        reveal_strlit("已安装");
        reveal_with_fuel(holes, 5);
    }
}

proof fn lemma_holes_30()
    ensures
        holes(en::table()[30].1) == holes(zh::table()[30].1),
{
    assert(en::table()[30].1 == "No external language packs installed"@);
    assert(zh::table()[30].1 == "无已安装的外部语言包"@);
    assert(holes("No external language packs installed"@) == Seq::<char>::empty()) by {
        reveal_strlit("No external language packs installed");
        reveal_with_fuel(holes, 38);
    }
    assert(holes("无已安装的外部语言包"@) == Seq::<char>::empty()) by {
        reveal_strlit("无已安装的外部语言包");
        reveal_with_fuel(holes, 12);
    }
}

proof fn lemma_holes_31()
    ensures
        holes(en::table()[31].1) == holes(zh::table()[31].1),
{
    assert(en::table()[31].1 == "Language pack installed: {0}"@);
    assert(zh::table()[31].1 == "语言包已安装: {0}"@);
    assert(holes("Language pack installed: {0}"@) == seq!['0']) by {
        reveal_strlit("Language pack installed: {0}");
        reveal_with_fuel(holes, 30);
    }
    assert(holes("语言包已安装: {0}"@) == seq!['0']) by {
        reveal_strlit("语言包已安装: {0}");
        reveal_with_fuel(holes, 13);
    }
}

proof fn lemma_holes_32()
    ensures
        holes(en::table()[32].1) == holes(zh::table()[32].1),
{
    assert(en::table()[32].1 == "Language pack already exists: {0}"@);
    assert(zh::table()[32].1 == "语言包已存在: {0}"@);
    assert(holes("Language pack already exists: {0}"@) == seq!['0']) by {
        reveal_strlit("Language pack already exists: {0}");
        reveal_with_fuel(holes, 35);
    }
    assert(holes("语言包已存在: {0}"@) == seq!['0']) by {
        reveal_strlit("语言包已存在: {0}");
        reveal_with_fuel(holes, 13);
    }
}

proof fn lemma_holes_33()
    ensures
        holes(en::table()[33].1) == holes(zh::table()[33].1),
{
    assert(en::table()[33].1 == "Installation failed: {0}"@);
    assert(zh::table()[33].1 == "安装失败: {0}"@);
    assert(holes("Installation failed: {0}"@) == seq!['0']) by {
        reveal_strlit("Installation failed: {0}");
        reveal_with_fuel(holes, 26);
    }
    assert(holes("安装失败: {0}"@) == seq!['0']) by {
        reveal_strlit("安装失败: {0}");
        reveal_with_fuel(holes, 11);
    }
}

proof fn lemma_holes_34()
    ensures
        holes(en::table()[34].1) == holes(zh::table()[34].1),
{
    assert(en::table()[34].1 == "Invalid language pack format, not installed"@);
    assert(zh::table()[34].1 == "语言包格式无效，未安装"@);
    assert(holes("Invalid language pack format, not installed"@) == Seq::<char>::empty()) by {
        reveal_strlit("Invalid language pack format, not installed");
        reveal_with_fuel(holes, 45);
    }
    assert(holes("语言包格式无效，未安装"@) == Seq::<char>::empty()) by {
        reveal_strlit("语言包格式无效，未安装");
        reveal_with_fuel(holes, 13);
    }
}

proof fn lemma_holes_35()
    ensures
        holes(en::table()[35].1) == holes(zh::table()[35].1),
{
    assert(en::table()[35].1 == "Command '{0}' not yet implemented"@);
    assert(zh::table()[35].1 == "'{0}' 命令尚未实现"@);
    assert(holes("Command '{0}' not yet implemented"@) == seq!['0']) by {
        reveal_strlit("Command '{0}' not yet implemented");
        reveal_with_fuel(holes, 35);
    }
    assert(holes("'{0}' 命令尚未实现"@) == seq!['0']) by {
        reveal_strlit("'{0}' 命令尚未实现");
        reveal_with_fuel(holes, 14);
    }
}

/// Matching English and Chinese templates hold the same placeholders, in
/// the same order.
pub proof fn law_catalogues_share_placeholders()
    ensures
        forall|i: int| 0 <= i < en::table().len() ==> #[trigger] holes(en::table()[i].1) == holes(zh::table()[i].1),
        en::table().len() == zh::table().len(),
{
    assert(en::table().len() == 36 && zh::table().len() == 36);
    assert forall|i: int| 0 <= i < en::table().len() implies #[trigger] holes(en::table()[i].1) == holes(zh::table()[i].1) by {
        if i == 0 {
            lemma_holes_0();
        } else if i == 1 {
            lemma_holes_1();
        } else if i == 2 {
            lemma_holes_2();
        } else if i == 3 {
            lemma_holes_3();
        } else if i == 4 {
            lemma_holes_4();
        } else if i == 5 {
            lemma_holes_5();
        } else if i == 6 {
            lemma_holes_6();
        } else if i == 7 {
            lemma_holes_7();
        } else if i == 8 {
            lemma_holes_8();
        } else if i == 9 {
            lemma_holes_9();
        } else if i == 10 {
            lemma_holes_10();
        } else if i == 11 {
            lemma_holes_11();
        } else if i == 12 {
            lemma_holes_12();
        } else if i == 13 {
            lemma_holes_13();
        } else if i == 14 {
            lemma_holes_14();
        } else if i == 15 {
            lemma_holes_15();
        } else if i == 16 {
            lemma_holes_16();
        } else if i == 17 {
            lemma_holes_17();
        } else if i == 18 {
            lemma_holes_18();
        } else if i == 19 {
            lemma_holes_19();
        } else if i == 20 {
            lemma_holes_20();
        } else if i == 21 {
            lemma_holes_21();
        } else if i == 22 {
            lemma_holes_22();
        } else if i == 23 {
            lemma_holes_23();
        } else if i == 24 {
            lemma_holes_24();
        } else if i == 25 {
            lemma_holes_25();
        } else if i == 26 {
            lemma_holes_26();
        } else if i == 27 {
            lemma_holes_27();
        } else if i == 28 {
            lemma_holes_28();
        } else if i == 29 {
            lemma_holes_29();
        } else if i == 30 {
            lemma_holes_30();
        } else if i == 31 {
            lemma_holes_31();
        } else if i == 32 {
            lemma_holes_32();
        } else if i == 33 {
            lemma_holes_33();
        } else if i == 34 {
            lemma_holes_34();
        } else if i == 35 {
            lemma_holes_35();
        }
    }
}

proof fn lemma_paired_holes(t1: Seq<(Seq<char>, Seq<char>)>, t2: Seq<(Seq<char>, Seq<char>)>, key: Seq<char>)
    requires
        t1.len() == t2.len(),
        forall|i: int| 0 <= i < t1.len() ==> #[trigger] t1[i].0 == t2[i].0,
        forall|i: int| 0 <= i < t1.len() ==> #[trigger] holes(t1[i].1) == holes(t2[i].1),
    ensures
        match (find_value(t1, key), find_value(t2, key)) {
            (Some(a), Some(b)) => holes(a) == holes(b),
            _ => true,
        },
    decreases t1.len(),
{
    if t1.len() > 0 {
        assert(t1[0].0 == t2[0].0);
        assert(holes(t1[0].1) == holes(t2[0].1));
        let (d1, d2) = (t1.drop_first(), t2.drop_first());
        assert forall|i: int| 0 <= i < d1.len() implies #[trigger] d1[i].0 == d2[i].0 by {
            assert(d1[i] == t1[i + 1] && d2[i] == t2[i + 1]);
        }
        assert forall|i: int| 0 <= i < d1.len() implies #[trigger] holes(d1[i].1) == holes(d2[i].1) by {
            assert(d1[i] == t1[i + 1] && d2[i] == t2[i + 1]);
        }
        lemma_paired_holes(d1, d2, key);
    }
}

/// For every key, the English and the Chinese templates (when there are
/// any; the catalogues answer the same keys) hold the same placeholders in
/// the same order.
pub proof fn law_templates_share_placeholders(key: Seq<char>)
    ensures
        (find_value(en::table(), key) is Some) == (find_value(zh::table(), key) is Some),
        match (find_value(en::table(), key), find_value(zh::table(), key)) {
            (Some(a), Some(b)) => holes(a) == holes(b),
            _ => true,
        },
{
    law_catalogues_share_keys(key);
    law_catalogues_share_placeholders();
    assert forall|i: int| 0 <= i < en::table().len() implies #[trigger] en::table()[i].0 == zh::table()[i].0 by {
        lemma_table_keys_match(i);
    }
    lemma_paired_holes(en::table(), zh::table(), key);
}

} // verus!
