//! The actions that open a project directory, a terminal or an editor.
//!
//! Only the three actions below can be asked for; running the matching
//! program is the caller's business.

use vstd::prelude::*;
use crate::text::str_eq;

verus! {

/// What to open a project directory with.
#[derive(Debug, Clone, Copy, PartialEq, Eq, Structural)]
pub enum OpenAction {
    /// The file manager.
    Dir,
    /// A terminal whose working directory is the project's.
    Terminal,
    /// VS Code.
    VsCode,
}

/// The action named `s`, if it is one of `dir`, `terminal`, `vscode`.
pub open spec fn action_named(s: Seq<char>) -> Option<OpenAction> {
    if s == "dir"@ {
        Some(OpenAction::Dir)
    } else if s == "terminal"@ {
        Some(OpenAction::Terminal)
    } else if s == "vscode"@ {
        Some(OpenAction::VsCode)
    } else {
        None
    }
}

impl OpenAction {
    /// The action named `s`; any other name is refused.
    pub fn from_str(s: &str) -> (r: Option<OpenAction>)
        ensures
            r == action_named(s@),
    {
        if str_eq(s, "dir") {
            Some(OpenAction::Dir)
        } else if str_eq(s, "terminal") {
            Some(OpenAction::Terminal)
        } else if str_eq(s, "vscode") {
            Some(OpenAction::VsCode)
        } else {
            None
        }
    }
}

/// The message of a failed attempt to open a project: the path is not valid
/// text.
pub fn bad_path_message() -> (r: String)
    ensures
        r@ == "项目路径包含无效字符"@,
{
    String::from_str("项目路径包含无效字符")
}

} // verus!
