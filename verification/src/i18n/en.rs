//! The built-in English messages.

use vstd::prelude::*;
use crate::i18n::{entry_views, find_entry, find_value};

verus! {

/// The English message templates, each under its key.
pub open spec fn table() -> Seq<(Seq<char>, Seq<char>)> {
    seq![
        ("test.hello"@, "Hello"@),
        ("track.success"@, "Project registered: {0}"@),
        ("track.already"@, "Project already tracked: {0}"@),
        ("track.path_not_found"@, "Path not found: {0}"@),
        ("list.empty"@, "No tracked projects"@),
        ("list.item"@, "{0}  {1}"@),
        ("scan.found"@, "Found {0} Python projects"@),
        ("scan.progress"@, "Scanning {0} directories..."@),
        ("scan.no_match"@, "No Python projects found"@),
        ("new.success"@, "Project created: {0}"@),
        ("new.dir_exists"@, "Directory already exists: {0}"@),
        ("new.uv_missing"@, "uv not found. Install: https://docs.astral.sh/uv/"@),
        ("mkpkg.created"@, "Subpackage created: {0}"@),
        ("mkpkg.skipped"@, "Skipped (exists): {0}"@),
        ("mkpkg.no_name"@, "Specify at least one package name"@),
        ("mkpkg.dry_run"@, "[dry-run] Would create: {0}"@),
        ("info.not_found"@, "Project not in index: {0}"@),
        ("untrack.success"@, "Removed from index: {0}"@),
        ("untrack.not_found"@, "Project not in index: {0}"@),
        ("status.empty"@, "No tracked projects"@),
        ("outdated.all_up_to_date"@, "All dependencies up to date"@),
        ("outdated.uv_missing"@, "uv not found. Install uv first."@),
        ("outdated.parse_error"@, "Failed to parse dependency information"@),
        ("outdated.item"@, "  {0}: {1} -> {2}"@),
        ("agent.skill_written"@, "SKILL.md written: {0}"@),
        ("template.unknown"@, "Unknown template: {0}. Available templates: {1}"@),
        ("template.custom_shadowed"@, "Custom template '{0}' shadows a built-in template, using built-in"@),
        ("i18n.list.header"@, "Available languages:"@),
        ("i18n.list.builtin"@, "builtin"@),
        ("i18n.list.external"@, "installed"@),
        ("i18n.list.none"@, "No external language packs installed"@),
        ("i18n.install.success"@, "Language pack installed: {0}"@),
        ("i18n.install.already"@, "Language pack already exists: {0}"@),
        ("i18n.install.fail"@, "Installation failed: {0}"@),
        ("i18n.install.invalid"@, "Invalid language pack format, not installed"@),
        ("cli.not_implemented"@, "Command '{0}' not yet implemented"@),
    ]
}

fn entries() -> (v: Vec<(&'static str, &'static str)>)
    ensures
        entry_views(v@) == table(),
{
    let mut v: Vec<(&'static str, &'static str)> = Vec::new();
    v.push(("test.hello", "Hello"));
    v.push(("track.success", "Project registered: {0}"));
    v.push(("track.already", "Project already tracked: {0}"));
    v.push(("track.path_not_found", "Path not found: {0}"));
    v.push(("list.empty", "No tracked projects"));
    v.push(("list.item", "{0}  {1}"));
    v.push(("scan.found", "Found {0} Python projects"));
    v.push(("scan.progress", "Scanning {0} directories..."));
    v.push(("scan.no_match", "No Python projects found"));
    v.push(("new.success", "Project created: {0}"));
    v.push(("new.dir_exists", "Directory already exists: {0}"));
    v.push(("new.uv_missing", "uv not found. Install: https://docs.astral.sh/uv/"));
    v.push(("mkpkg.created", "Subpackage created: {0}"));
    v.push(("mkpkg.skipped", "Skipped (exists): {0}"));
    v.push(("mkpkg.no_name", "Specify at least one package name"));
    v.push(("mkpkg.dry_run", "[dry-run] Would create: {0}"));
    v.push(("info.not_found", "Project not in index: {0}"));
    v.push(("untrack.success", "Removed from index: {0}"));
    v.push(("untrack.not_found", "Project not in index: {0}"));
    v.push(("status.empty", "No tracked projects"));
    v.push(("outdated.all_up_to_date", "All dependencies up to date"));
    v.push(("outdated.uv_missing", "uv not found. Install uv first."));
    v.push(("outdated.parse_error", "Failed to parse dependency information"));
    v.push(("outdated.item", "  {0}: {1} -> {2}"));
    v.push(("agent.skill_written", "SKILL.md written: {0}"));
    v.push(("template.unknown", "Unknown template: {0}. Available templates: {1}"));
    v.push(("template.custom_shadowed", "Custom template '{0}' shadows a built-in template, using built-in"));
    v.push(("i18n.list.header", "Available languages:"));
    v.push(("i18n.list.builtin", "builtin"));
    v.push(("i18n.list.external", "installed"));
    v.push(("i18n.list.none", "No external language packs installed"));
    v.push(("i18n.install.success", "Language pack installed: {0}"));
    v.push(("i18n.install.already", "Language pack already exists: {0}"));
    v.push(("i18n.install.fail", "Installation failed: {0}"));
    v.push(("i18n.install.invalid", "Invalid language pack format, not installed"));
    v.push(("cli.not_implemented", "Command '{0}' not yet implemented"));
    assert(entry_views(v@) =~= table());
    v
}

/// The English template of `key`, if the catalogue has one.
pub fn get(key: &str) -> (r: Option<String>)
    ensures
        match r {
            Some(s) => find_value(table(), key@) == Some(s@),
            None => find_value(table(), key@) is None,
        },
{
    let v = entries();
    find_entry(&v, key)
}

} // verus!
