use pyforge::i18n::loader::{
    builtin_langs, check_lang_pack, json_stem, lookup_external, strip_bom, LangMeta, LangPack,
};
use pyforge::i18n::{
    current_lang, current_lang_code, en, init_external, init_lang, list_external_langs, lookup, msg,
    set_lang, zh, I18n,
};

fn t(st: &I18n, key: &str, args: &[&str]) -> String {
    let owned: Vec<String> = args.iter().map(|a| a.to_string()).collect();
    msg(st, key, &owned)
}

fn ja_pack(strings: Vec<(String, String)>) -> LangPack {
    LangPack {
        meta: LangMeta { language: "日本語".into(), contributors: vec![], version: None },
        strings,
    }
}

#[test]
fn lookup_external_finds_key() {
    let pack = ja_pack(vec![("test.hello".into(), "こんにちは".into())]);
    let langs = vec![("ja".to_string(), pack)];
    assert_eq!(lookup_external(&langs, "ja", "test.hello"), Some("こんにちは".into()));
    assert_eq!(lookup_external(&langs, "ja", "missing"), None);
    assert_eq!(lookup_external(&langs, "ko", "test.hello"), None);
}

#[test]
fn lang_defaults_to_zh() {
    let mut st = I18n::new();
    set_lang(&mut st, "zh");
    assert_eq!(t(&st, "test.hello", &[]), "你好");
}

#[test]
fn lang_switch_to_en() {
    let mut st = I18n::new();
    set_lang(&mut st, "en");
    assert_eq!(t(&st, "test.hello", &[]), "Hello");
}

#[test]
fn missing_key_returns_key() {
    let mut st = I18n::new();
    set_lang(&mut st, "zh");
    assert_eq!(t(&st, "nonexistent.key", &[]), "nonexistent.key");
}

#[test]
fn macro_with_args() {
    let mut st = I18n::new();
    set_lang(&mut st, "zh");
    assert_eq!(t(&st, "track.success", &["my-api"]), "已注册项目: my-api");
    set_lang(&mut st, "en");
    assert_eq!(t(&st, "track.success", &["my-api"]), "Project registered: my-api");
}

#[test]
fn external_lang_lookup() {
    let mut st = I18n::new();
    let pack = ja_pack(vec![("test.hello".into(), "こんにちは".into())]);
    init_external(&mut st, vec![("ja".into(), pack)]);
    set_lang(&mut st, "ja");
    assert_eq!(t(&st, "test.hello", &[]), "こんにちは");
}

#[test]
fn external_lang_fallback_to_zh() {
    let mut st = I18n::new();
    init_external(&mut st, vec![("ja".into(), ja_pack(vec![]))]);
    set_lang(&mut st, "ja");
    assert_eq!(t(&st, "test.hello", &[]), "你好");
    init_external(&mut st, vec![]);
    set_lang(&mut st, "zh");
    assert_eq!(t(&st, "test.hello", &[]), "你好");
}

#[test]
fn set_lang_ignores_case_and_variants() {
    let mut st = I18n::new();
    set_lang(&mut st, "EN-US");
    assert_eq!(current_lang(&st), 1);
    assert_eq!(current_lang_code(&st), "en-us");
    set_lang(&mut st, "zh_CN");
    assert_eq!(current_lang(&st), 0);
    set_lang(&mut st, "fr");
    assert_eq!(current_lang(&st), 0);
    assert_eq!(current_lang_code(&st), "fr");
}

#[test]
fn unknown_external_code_falls_back_to_chinese() {
    let mut st = I18n::new();
    init_external(&mut st, vec![("ja".into(), ja_pack(vec![("k".into(), "v".into())]))]);
    set_lang(&mut st, "JA");
    assert_eq!(current_lang(&st), 2);
    set_lang(&mut st, "ko");
    assert_eq!(current_lang(&st), 0);
}

#[test]
fn msg_fills_several_arguments() {
    let mut st = I18n::new();
    set_lang(&mut st, "en");
    assert_eq!(t(&st, "outdated.item", &["fastapi", "0.1", "0.2"]), "  fastapi: 0.1 -> 0.2");
    assert_eq!(t(&st, "list.item", &["a", "b"]), "a  b");
}

#[test]
fn msg_removes_missing_placeholders() {
    let mut st = I18n::new();
    set_lang(&mut st, "en");
    assert_eq!(t(&st, "outdated.item", &["fastapi"]), "  fastapi:  -> ");
    assert_eq!(t(&st, "track.success", &[]), "Project registered: ");
}

#[test]
fn lookup_follows_the_fallback_chain() {
    let mut st = I18n::new();
    init_external(&mut st, vec![("ja".into(), ja_pack(vec![("list.empty".into(), "なし".into())]))]);
    set_lang(&mut st, "ja");
    assert_eq!(lookup(&st, "list.empty"), "なし");
    assert_eq!(lookup(&st, "scan.no_match"), "未发现 Python 项目");
    assert_eq!(lookup(&st, "no.such.key"), "no.such.key");
}

#[test]
fn catalogues_answer_their_keys() {
    assert_eq!(en::get("test.hello"), Some("Hello".to_string()));
    assert_eq!(zh::get("test.hello"), Some("你好".to_string()));
    assert_eq!(en::get("nope"), None);
    assert_eq!(
        en::get("template.custom_shadowed"),
        Some("Custom template '{0}' shadows a built-in template, using built-in".to_string())
    );
}

#[test]
fn init_lang_prefers_cli_then_env() {
    let mut st = I18n::new();
    init_lang(&mut st, "en", Some("zh".into()));
    assert_eq!(current_lang(&st), 1);
    init_lang(&mut st, "", Some("EN".into()));
    assert_eq!(current_lang(&st), 1);
    init_lang(&mut st, "zh", Some("en".into()));
    assert_eq!(current_lang(&st), 0);
    init_lang(&mut st, "xx", Some("en".into()));
    assert_eq!(current_lang(&st), 0);
    assert_eq!(current_lang_code(&st), "zh");
    init_lang(&mut st, "", None);
    assert_eq!(current_lang_code(&st), "zh");
}

#[test]
fn init_lang_accepts_loaded_pack_codes() {
    let mut st = I18n::new();
    init_external(&mut st, vec![("ja".into(), ja_pack(vec![("k".into(), "v".into())]))]);
    init_lang(&mut st, "ja", None);
    assert_eq!(current_lang(&st), 2);
    init_lang(&mut st, "", Some("JA".into()));
    assert_eq!(current_lang(&st), 2);
    assert_eq!(current_lang_code(&st), "ja");
}

#[test]
fn list_external_langs_describes_packs() {
    let mut st = I18n::new();
    let pack = LangPack {
        meta: LangMeta {
            language: "日本語".into(),
            contributors: vec!["test".into()],
            version: Some("1.0".into()),
        },
        strings: vec![("a".into(), "b".into()), ("c".into(), "d".into())],
    };
    init_external(&mut st, vec![("ja".into(), pack)]);
    let infos = list_external_langs(&st);
    assert_eq!(infos.len(), 1);
    assert_eq!(infos[0].code, "ja");
    assert_eq!(infos[0].language, "日本語");
    assert_eq!(infos[0].contributors, vec!["test".to_string()]);
    assert_eq!(infos[0].version, Some("1.0".to_string()));
    assert_eq!(infos[0].key_count, 2);
    assert_eq!(infos[0].source, "external");
}

#[test]
fn pack_schema_is_checked() {
    let empty_lang = LangPack {
        meta: LangMeta { language: "".into(), contributors: vec![], version: None },
        strings: vec![("key".into(), "val".into())],
    };
    let err = check_lang_pack(empty_lang).unwrap_err();
    assert!(err.contains("meta.language"));
    let no_strings = LangPack {
        meta: LangMeta { language: "Test".into(), contributors: vec![], version: None },
        strings: vec![],
    };
    let err = check_lang_pack(no_strings).unwrap_err();
    assert!(err.contains("strings"));
    let ok = ja_pack(vec![("test.hello".into(), "こんにちは".into())]);
    assert!(check_lang_pack(ok).is_ok());
}

#[test]
fn bom_is_stripped() {
    assert_eq!(strip_bom("\u{FEFF}{\"a\":1}"), "{\"a\":1}");
    assert_eq!(strip_bom("{}"), "{}");
    assert_eq!(strip_bom(""), "");
}

#[test]
fn pack_file_names_give_codes() {
    assert_eq!(json_stem("ja.json"), Some("ja".to_string()));
    assert_eq!(json_stem("pt.br.json"), Some("pt.br".to_string()));
    assert_eq!(json_stem("readme.txt"), None);
    assert_eq!(json_stem(".json"), None);
    assert_eq!(json_stem("json"), None);
}

#[test]
fn builtin_languages_are_listed() {
    let b = builtin_langs();
    assert_eq!(b, vec![("zh", "简体中文"), ("en", "English")]);
}

#[test]
fn unimplemented_prints_chinese() {
    let mut st = I18n::new();
    init_lang(&mut st, "", None);
    assert!(t(&st, "info.not_found", &["nonexistent"]).contains("项目不在索引中"));
}

#[test]
fn lang_en_switches_to_english() {
    let mut st = I18n::new();
    init_lang(&mut st, "en", None);
    assert!(t(&st, "info.not_found", &["nonexistent"]).contains("Project not in index"));
}

#[test]
fn env_lang_en_switches_to_english() {
    let mut st = I18n::new();
    init_lang(&mut st, "", Some("en".to_string()));
    assert!(t(&st, "info.not_found", &["nonexistent"]).contains("Project not in index"));
}

#[test]
fn cli_lang_overrides_env() {
    let mut st = I18n::new();
    init_lang(&mut st, "zh", Some("en".to_string()));
    assert!(t(&st, "info.not_found", &["nonexistent"]).contains("项目不在索引中"));
}

#[test]
fn catalogues_share_keys_and_placeholders() {
    let keys = [
        "test.hello", "track.success", "track.already", "track.path_not_found", "list.empty", "list.item",
        "scan.found", "scan.progress", "scan.no_match", "new.success", "new.dir_exists", "new.uv_missing",
        "mkpkg.created", "mkpkg.skipped", "mkpkg.no_name", "mkpkg.dry_run", "info.not_found",
        "untrack.success", "untrack.not_found", "status.empty", "outdated.all_up_to_date",
        "outdated.uv_missing", "outdated.parse_error", "outdated.item", "agent.skill_written",
        "template.unknown", "template.custom_shadowed", "i18n.list.header", "i18n.list.builtin",
        "i18n.list.external", "i18n.list.none", "i18n.install.success", "i18n.install.already",
        "i18n.install.fail", "i18n.install.invalid", "cli.not_implemented",
    ];
    for k in keys {
        let e = en::get(k).unwrap();
        let z = zh::get(k).unwrap();
        for n in 0..10 {
            let p = format!("{{{}}}", n);
            assert_eq!(e.contains(&p), z.contains(&p), "{} {}", k, p);
        }
    }
    assert_eq!(en::get("absent"), None);
    assert_eq!(zh::get("absent"), None);
}
