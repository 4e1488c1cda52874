//! The built-in Chinese messages.

use vstd::prelude::*;
use crate::i18n::{entry_views, find_entry, find_value};

verus! {

/// The Chinese message templates, each under its key.
pub open spec fn table() -> Seq<(Seq<char>, Seq<char>)> {
    seq![
        ("test.hello"@, "你好"@),
        ("track.success"@, "已注册项目: {0}"@),
        ("track.already"@, "项目已在索引中: {0}"@),
        ("track.path_not_found"@, "路径不存在: {0}"@),
        ("list.empty"@, "暂无已跟踪的项目"@),
        ("list.item"@, "{0}  {1}"@),
        ("scan.found"@, "发现 {0} 个 Python 项目"@),
        ("scan.progress"@, "正在扫描 {0} 个目录..."@),
        ("scan.no_match"@, "未发现 Python 项目"@),
        ("new.success"@, "项目已创建: {0}"@),
        ("new.dir_exists"@, "目录已存在: {0}"@),
        ("new.uv_missing"@, "未找到 uv，请先安装: https://docs.astral.sh/uv/"@),
        ("mkpkg.created"@, "已创建子包: {0}"@),
        ("mkpkg.skipped"@, "已跳过（存在）: {0}"@),
        ("mkpkg.no_name"@, "请指定至少一个包名"@),
        ("mkpkg.dry_run"@, "[dry-run] 将创建: {0}"@),
        ("info.not_found"@, "项目不在索引中: {0}"@),
        ("untrack.success"@, "已从索引移除: {0}"@),
        ("untrack.not_found"@, "项目不在索引中: {0}"@),
        ("status.empty"@, "暂无已跟踪的项目"@),
        ("outdated.all_up_to_date"@, "所有依赖为最新"@),
        ("outdated.uv_missing"@, "未找到 uv，请先安装"@),
        ("outdated.parse_error"@, "无法解析依赖信息"@),
        ("outdated.item"@, "  {0}: {1} -> {2}"@),
        ("agent.skill_written"@, "SKILL.md 已写入: {0}"@),
        ("template.unknown"@, "未知模板: {0}。可用模板: {1}"@),
        ("template.custom_shadowed"@, "自定义模板 '{0}' 与内置模板同名，使用内置模板"@),
        ("i18n.list.header"@, "可用语言:"@),
        ("i18n.list.builtin"@, "内置"@),
        ("i18n.list.external"@, "已安装"@),
        ("i18n.list.none"@, "无已安装的外部语言包"@),
        ("i18n.install.success"@, "语言包已安装: {0}"@),
        ("i18n.install.already"@, "语言包已存在: {0}"@),
        ("i18n.install.fail"@, "安装失败: {0}"@),
        ("i18n.install.invalid"@, "语言包格式无效，未安装"@),
        ("cli.not_implemented"@, "'{0}' 命令尚未实现"@),
    ]
}

fn entries() -> (v: Vec<(&'static str, &'static str)>)
    ensures
        entry_views(v@) == table(),
{
    let mut v: Vec<(&'static str, &'static str)> = Vec::new();
    v.push(("test.hello", "你好"));
    v.push(("track.success", "已注册项目: {0}"));
    v.push(("track.already", "项目已在索引中: {0}"));
    v.push(("track.path_not_found", "路径不存在: {0}"));
    v.push(("list.empty", "暂无已跟踪的项目"));
    v.push(("list.item", "{0}  {1}"));
    v.push(("scan.found", "发现 {0} 个 Python 项目"));
    v.push(("scan.progress", "正在扫描 {0} 个目录..."));
    v.push(("scan.no_match", "未发现 Python 项目"));
    v.push(("new.success", "项目已创建: {0}"));
    v.push(("new.dir_exists", "目录已存在: {0}"));
    v.push(("new.uv_missing", "未找到 uv，请先安装: https://docs.astral.sh/uv/"));
    v.push(("mkpkg.created", "已创建子包: {0}"));
    v.push(("mkpkg.skipped", "已跳过（存在）: {0}"));
    v.push(("mkpkg.no_name", "请指定至少一个包名"));
    v.push(("mkpkg.dry_run", "[dry-run] 将创建: {0}"));
    v.push(("info.not_found", "项目不在索引中: {0}"));
    v.push(("untrack.success", "已从索引移除: {0}"));
    v.push(("untrack.not_found", "项目不在索引中: {0}"));
    v.push(("status.empty", "暂无已跟踪的项目"));
    v.push(("outdated.all_up_to_date", "所有依赖为最新"));
    v.push(("outdated.uv_missing", "未找到 uv，请先安装"));
    v.push(("outdated.parse_error", "无法解析依赖信息"));
    v.push(("outdated.item", "  {0}: {1} -> {2}"));
    v.push(("agent.skill_written", "SKILL.md 已写入: {0}"));
    v.push(("template.unknown", "未知模板: {0}。可用模板: {1}"));
    v.push(("template.custom_shadowed", "自定义模板 '{0}' 与内置模板同名，使用内置模板"));
    v.push(("i18n.list.header", "可用语言:"));
    v.push(("i18n.list.builtin", "内置"));
    v.push(("i18n.list.external", "已安装"));
    v.push(("i18n.list.none", "无已安装的外部语言包"));
    v.push(("i18n.install.success", "语言包已安装: {0}"));
    v.push(("i18n.install.already", "语言包已存在: {0}"));
    v.push(("i18n.install.fail", "安装失败: {0}"));
    v.push(("i18n.install.invalid", "语言包格式无效，未安装"));
    v.push(("cli.not_implemented", "'{0}' 命令尚未实现"));
    assert(entry_views(v@) =~= table());
    v
}

/// The Chinese template of `key`, if the catalogue has one.
pub fn get(key: &str) -> (r: Option<String>)
    ensures
        match r {
            Some(s) => find_value(table(), key@) == Some(s@),
            None => find_value(table(), key@) is None,
        },
{
    let v = entries();
    find_entry(&v, key)
}

} // verus!
