//! Project templates: the built-in ones, the choice between a built-in and a
//! custom template, and the substitution of the project's name.
//!
//! Writing the files is the caller's business.

use vstd::prelude::*;
use crate::text::{
    cat, cat3, chars_of, contains, has_char, occurs_at, replace_all, replace_chars, str_eq, string_of,
    string_views,
};

verus! {

/// Failures of rendering a template.
#[derive(Debug)]
pub enum TemplateError {
    /// No built-in or custom template has this name.
    UnknownTemplate(String),
    /// Reading or writing a file failed (the I/O error's text).
    Io(String),
}

impl TemplateError {
    /// The message shown for the error.
    pub fn to_string(&self) -> (r: String)
        ensures
            match self {
                TemplateError::UnknownTemplate(t) => r@ == "未知模板: "@ + t@ + "。可用模板: fastapi, cli, lib"@,
                TemplateError::Io(e) => r@ == "模板渲染失败: "@ + e@,
            },
    {
        match self {
            TemplateError::UnknownTemplate(t) => cat3("未知模板: ", t.as_str(), "。可用模板: fastapi, cli, lib"),
            TemplateError::Io(e) => cat("模板渲染失败: ", e.as_str()),
        }
    }
}

/// The names of the built-in templates, in order.
pub fn builtin_templates() -> (r: Vec<&'static str>)
    ensures
        r@.len() == 3,
        r@[0]@ == "fastapi"@ && r@[1]@ == "cli"@ && r@[2]@ == "lib"@,
{
    let mut r: Vec<&'static str> = Vec::new();
    r.push("fastapi");
    r.push("cli");
    r.push("lib");
    r
}

/// The files of a built-in template, as paths relative to the project.
pub open spec fn builtin_files(template: Seq<char>) -> Option<Seq<Seq<char>>> {
    if template == "fastapi"@ {
        Some(seq!["app/main.py"@, "app/routers/__init__.py"@, "app/models/__init__.py"@, "tests/__init__.py"@])
    } else if template == "cli"@ {
        Some(seq!["src/main.py"@])
    } else if template == "lib"@ {
        Some(seq!["src/__init__.py"@, "src/{{name}}.py"@])
    } else {
        None
    }
}

/// The placeholder of the project's name in a template.
pub open spec fn name_var() -> Seq<char> {
    "{{name}}"@
}

/// `input` with every `{{name}}` replaced by the project's name.
pub fn apply_vars(input: &str, project_name: &str) -> (r: String)
    ensures
        r@ == replace_all(input@, name_var(), project_name@),
{
    let s = chars_of(input);
    let p = chars_of("{{name}}");
    let n = chars_of(project_name);
    let out = replace_chars(s.as_slice(), p.as_slice(), n.as_slice());
    string_of(out.as_slice())
}

/// How a template is rendered.
#[derive(Debug)]
pub enum RenderPlan {
    /// A built-in template: the files to write, their paths with the
    /// project's name in place, and whether a custom template of the same
    /// name is hidden by it (which is worth a warning).
    Builtin { files: Vec<String>, shadows_custom: bool },
    /// A custom template: its directory, if it exists, is copied with the
    /// project's name in place in every file name and text.
    Custom,
    /// No template of that name exists.
    Unknown(TemplateError),
}

/// What `render` gives for `template` and `project_name`: a built-in
/// template's files with the name in place (and whether a custom template is
/// hidden), else the custom template if its directory exists, else the
/// unknown-template error.
pub open spec fn renders_as(template: Seq<char>, project_name: Seq<char>, custom_exists: bool, r: RenderPlan) -> bool {
    match builtin_files(template) {
        Some(fs) => (r matches RenderPlan::Builtin { files, shadows_custom } && shadows_custom
            == custom_exists && files@.len() == fs.len() && forall|i: int| 0 <= i < fs.len()
            ==> #[trigger] files@[i]@ == replace_all(fs[i], name_var(), project_name)),
        None => if custom_exists {
            r is Custom
        } else {
            (r matches RenderPlan::Unknown(TemplateError::UnknownTemplate(t)) && t@ == template)
        },
    }
}

/// The plan for rendering `template` for `project_name`; `custom_exists`
/// tells whether the custom template directory of that name exists.
pub fn render(template: &str, project_name: &str, custom_exists: bool) -> (r: RenderPlan)
    ensures
        renders_as(template@, project_name@, custom_exists, r),
{
    let mut rels: Vec<&'static str> = Vec::new();
    if str_eq(template, "fastapi") {
        rels.push("app/main.py");
        rels.push("app/routers/__init__.py");
        rels.push("app/models/__init__.py");
        rels.push("tests/__init__.py");
    } else if str_eq(template, "cli") {
        rels.push("src/main.py");
    } else if str_eq(template, "lib") {
        rels.push("src/__init__.py");
        rels.push("src/{{name}}.py");
    } else if custom_exists {
        return RenderPlan::Custom;
    } else {
        return RenderPlan::Unknown(TemplateError::UnknownTemplate(String::from_str(template)));
    }
    let ghost fs = builtin_files(template@).unwrap();
    assert(rels@.len() == fs.len() && forall|i: int| 0 <= i < fs.len() ==> #[trigger] rels@[i]@ == fs[i]);
    let mut files: Vec<String> = Vec::new();
    let mut i: usize = 0;
    while i < rels.len()
        invariant
            i <= rels@.len(),
            rels@.len() == fs.len(),
            forall|k: int| 0 <= k < fs.len() ==> #[trigger] rels@[k]@ == fs[k],
            files@.len() == i,
            forall|k: int| 0 <= k < i ==> #[trigger] files@[k]@ == replace_all(fs[k], name_var(), project_name@),
        decreases rels@.len() - i,
    {
        files.push(apply_vars(rels[i], project_name));
        i += 1;
    }
    RenderPlan::Builtin { files, shadows_custom: custom_exists }
}

proof fn lemma_replace_absent(s: Seq<char>, p: Seq<char>, r: Seq<char>)
    requires
        p.len() > 0,
        !contains(s, p),
    ensures
        replace_all(s, p, r) == s,
    decreases s.len(),
{
    if s.len() >= p.len() {
        if s.take(p.len() as int) == p {
            assert(s.subrange(0, p.len() as int) =~= s.take(p.len() as int));
            assert(occurs_at(s, p, 0));
        }
        let t = s.drop_first();
        assert forall|i: int| !occurs_at(t, p, i) by {
            if occurs_at(t, p, i) {
                assert(t.subrange(i, i + p.len()) =~= s.subrange(i + 1, i + 1 + p.len()));
                assert(occurs_at(s, p, i + 1));
            }
        }
        lemma_replace_absent(t, p, r);
        assert(seq![s[0]] + t =~= s);
    }
}

/// Only `{{name}}` is replaced: a text without it is rendered as it stands.
pub proof fn law_text_without_placeholder_unchanged(input: Seq<char>, project_name: Seq<char>)
    requires
        !contains(input, name_var()),
    ensures
        replace_all(input, name_var(), project_name) == input,
{
    reveal_strlit("{{name}}");
    lemma_replace_absent(input, name_var(), project_name);
}

proof fn lemma_no_brace_unchanged(s: Seq<char>, r: Seq<char>)
    requires
        !has_char(s, '{'),
    ensures
        replace_all(s, name_var(), r) == s,
{
    reveal_strlit("{{name}}");
    assert forall|i: int| !occurs_at(s, name_var(), i) by {
        if occurs_at(s, name_var(), i) {
            assert(s.subrange(i, i + name_var().len())[0] == s[i]);
        }
    }
    lemma_replace_absent(s, name_var(), r);
}

proof fn lemma_replace_after_plain(a: Seq<char>, t: Seq<char>, r: Seq<char>)
    requires
        !has_char(a, '{'),
    ensures
        replace_all(a + t, name_var(), r) == a + replace_all(t, name_var(), r),
    decreases a.len(),
{
    reveal_strlit("{{name}}");
    if a.len() > 0 {
        let s = a + t;
        if s.len() >= name_var().len() {
            assert(s.take(name_var().len() as int)[0] == a[0]);
        }
        assert(s.drop_first() =~= a.drop_first() + t);
        assert(!has_char(a.drop_first(), '{')) by {
            if has_char(a.drop_first(), '{') {
                let j = choose|j: int| 0 <= j < a.drop_first().len() && a.drop_first()[j] == '{';
                assert(a[j + 1] == '{');
            }
        }
        lemma_replace_after_plain(a.drop_first(), t, r);
        assert(seq![a[0]] + (a.drop_first() + replace_all(t, name_var(), r)) =~= a + replace_all(t, name_var(), r));
    } else {
        assert(a + t =~= t);
    }
}

/// The files that a rendered plan lists, if it is a built-in plan.
pub open spec fn plan_files(r: RenderPlan) -> Option<Seq<Seq<char>>> {
    match r {
        RenderPlan::Builtin { files, .. } => Some(string_views(files@)),
        _ => None,
    }
}

proof fn lemma_plan_files(template: Seq<char>, project_name: Seq<char>, custom_exists: bool, r: RenderPlan, want: Seq<Seq<char>>)
    requires
        renders_as(template, project_name, custom_exists, r),
        builtin_files(template) matches Some(fs) && fs.len() == want.len() && forall|i: int|
            0 <= i < fs.len() ==> replace_all(#[trigger] fs[i], name_var(), project_name) == want[i],
    ensures
        plan_files(r) == Some(want),
{
    if let RenderPlan::Builtin { files, .. } = r {
        assert(string_views(files@) =~= want);
    }
}

/// The built-in templates write these files, with the project's name in
/// place: `fastapi` the application module `app/main.py`, the `app/routers`
/// and `app/models` packages and the `tests` package; `cli` the entry point
/// `src/main.py`; `lib` the package's `src/__init__.py` and a module named
/// after the project.
pub proof fn law_builtin_template_files(project_name: Seq<char>, custom_exists: bool, r: RenderPlan, template: Seq<char>)
    requires
        renders_as(template, project_name, custom_exists, r),
    ensures
        template == "fastapi"@ ==> plan_files(r) == Some(
            seq!["app/main.py"@, "app/routers/__init__.py"@, "app/models/__init__.py"@, "tests/__init__.py"@],
        ),
        template == "cli"@ ==> plan_files(r) == Some(seq!["src/main.py"@]),
        template == "lib"@ ==> plan_files(r) == Some(seq!["src/__init__.py"@, "src/"@ + project_name + ".py"@]),
{
    reveal_strlit("fastapi");
    reveal_strlit("cli");
    reveal_strlit("lib");
    reveal_strlit("app/main.py");
    reveal_strlit("app/routers/__init__.py");
    reveal_strlit("app/models/__init__.py");
    reveal_strlit("tests/__init__.py");
    reveal_strlit("src/main.py");
    reveal_strlit("src/__init__.py");
    reveal_strlit("src/{{name}}.py");
    reveal_strlit("src/");
    reveal_strlit(".py");
    reveal_strlit("{{name}}");
    let n = project_name;
    assert("fastapi"@ != "cli"@ && "fastapi"@ != "lib"@) by {
        assert("fastapi"@.len() != "cli"@.len() && "fastapi"@.len() != "lib"@.len());
    }
    assert("cli"@ != "lib"@) by {
        assert("cli"@[0] != "lib"@[0]);
    }
    if template == "fastapi"@ {
        lemma_no_brace_unchanged("app/main.py"@, n);
        lemma_no_brace_unchanged("app/routers/__init__.py"@, n);
        lemma_no_brace_unchanged("app/models/__init__.py"@, n);
        lemma_no_brace_unchanged("tests/__init__.py"@, n);
        lemma_plan_files(template, n, custom_exists, r,
            seq!["app/main.py"@, "app/routers/__init__.py"@, "app/models/__init__.py"@, "tests/__init__.py"@]);
    } else if template == "cli"@ {
        assert(template != "fastapi"@);
        lemma_no_brace_unchanged("src/main.py"@, n);
        lemma_plan_files(template, n, custom_exists, r, seq!["src/main.py"@]);
    } else if template == "lib"@ {
        assert(template != "fastapi"@ && template != "cli"@);
        lemma_no_brace_unchanged("src/__init__.py"@, n);
        lemma_no_brace_unchanged(".py"@, n);
        assert("src/{{name}}.py"@ =~= "src/"@ + (name_var() + ".py"@));
        lemma_replace_after_plain("src/"@, name_var() + ".py"@, n);
        assert((name_var() + ".py"@).take(name_var().len() as int) =~= name_var());
        assert((name_var() + ".py"@).skip(name_var().len() as int) =~= ".py"@);
        assert(replace_all(name_var() + ".py"@, name_var(), n) == n + ".py"@);
        assert(("src/"@ + (n + ".py"@)) =~= "src/"@ + n + ".py"@);
        lemma_plan_files(template, n, custom_exists, r, seq!["src/__init__.py"@, "src/"@ + n + ".py"@]);
    }
}

} // verus!
