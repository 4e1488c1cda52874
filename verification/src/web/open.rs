//! `POST /api/open`: the checks on a request, the lookup of its project and
//! the replies, by HTTP status.

use vstd::prelude::*;
use vstd::utf8::encode_utf8;
use crate::index::{IndexStore, JsonStore, ProjectInfo, same_info};
use crate::system::{action_named, OpenAction};
use crate::text::{cat, cat3, chars_of};

verus! {

/// The body of an open request.
#[derive(Debug)]
pub struct OpenRequest {
    /// `dir`, `terminal` or `vscode`.
    pub action: String,
    /// The name of a tracked project.
    pub project: String,
}

/// The reply to a request that succeeded.
#[derive(Debug)]
pub struct OpenResponse {
    pub success: bool,
    pub message: String,
}

/// The reply to a request that failed.
#[derive(Debug)]
pub struct ErrorResponse {
    pub success: bool,
    pub error: String,
}

/// A failed request: the HTTP status and the reply.
#[derive(Debug)]
pub struct OpenFailure {
    pub status: u16,
    pub body: ErrorResponse,
}

/// Whether `c` is a letter or a digit (`char::is_alphanumeric`: Unicode
/// `Alphabetic` or `Numeric`).
pub uninterp spec fn alphanumeric(c: char) -> bool;

/// Whether `c` is an ASCII letter or digit.
pub open spec fn ascii_alnum(c: char) -> bool {
    ('a' <= c && c <= 'z') || ('A' <= c && c <= 'Z') || ('0' <= c && c <= '9')
}

/// `char::is_alphanumeric`. Among ASCII characters it holds of the letters
/// and digits alone; of other characters only that the Unicode tables decide
/// is claimed.
#[verifier::external_body]
fn is_alphanumeric(c: char) -> (r: bool)
    ensures
        r == alphanumeric(c),
        (c as u32) < 128 ==> (r == ascii_alnum(c)),
{
    c.is_alphanumeric()
}

/// Whether a character may stand in a project name: a letter or a digit
/// (among ASCII characters, `a`-`z`, `A`-`Z`, `0`-`9`), `_`, `-` or `.`.
pub open spec fn name_char_ok(c: char) -> bool {
    (if (c as u32) < 128 {
        ascii_alnum(c)
    } else {
        alphanumeric(c)
    }) || c == '_' || c == '-' || c == '.'
}

/// Whether `name` is an acceptable project name: non-empty, at most 256 bytes
/// of UTF-8, made of letters, digits, `_`, `-` and `.`.
pub open spec fn valid_project_name(name: Seq<char>) -> bool {
    &&& name.len() > 0
    &&& encode_utf8(name).len() <= 256
    &&& forall|i: int| 0 <= i < name.len() ==> #[trigger] name_char_ok(name[i])
}

/// Checks a project name against injection: letters, digits, `_`, `-`, `.`
/// only, 1 to 256 bytes.
pub fn is_valid_project_name(name: &str) -> (r: bool)
    ensures
        r == valid_project_name(name@),
{
    let bytes = name.as_bytes();
    if name.is_empty() || bytes.len() > 256 {
        return false;
    }
    let v = chars_of(name);
    let mut i: usize = 0;
    while i < v.len()
        invariant
            i <= v@.len(),
            v@ == name@,
            forall|j: int| 0 <= j < i ==> #[trigger] name_char_ok(v@[j]),
        decreases v@.len() - i,
    {
        let c = v[i];
        if !(is_alphanumeric(c) || c == '_' || c == '-' || c == '.') {
            assert(!name_char_ok(name@[i as int]));
            return false;
        }
        i += 1;
    }
    true
}

/// The reply to a refused request.
pub open spec fn refused(f: OpenFailure, status: u16, error: Seq<char>) -> bool {
    f.status == status && !f.body.success && f.body.error@ == error
}

/// The message for an action outside the allowed list.
pub open spec fn bad_action_message(action: Seq<char>) -> Seq<char> {
    "不支持的操作: '"@ + action + "'。允许的值: dir, terminal, vscode"@
}

/// The first checks on a request: the action must be allowed (else 400 and
/// the list of allowed values), then the project name valid (else 400).
pub fn check_open_request(req: &OpenRequest) -> (r: Result<OpenAction, OpenFailure>)
    ensures
        action_named(req.action@) is None ==> (r matches Err(f) && refused(
            f,
            400,
            bad_action_message(req.action@),
        )),
        action_named(req.action@) is Some && !valid_project_name(req.project@) ==> (r matches Err(f)
            && refused(f, 400, "项目名称包含非法字符"@)),
        action_named(req.action@) is Some && valid_project_name(req.project@) ==> r == Ok::<
            OpenAction,
            OpenFailure,
        >(action_named(req.action@).unwrap()),
{
    let action = match OpenAction::from_str(req.action.as_str()) {
        Some(a) => a,
        None => {
            let msg = cat3("不支持的操作: '", req.action.as_str(), "'。允许的值: dir, terminal, vscode");
            return Err(OpenFailure { status: 400, body: ErrorResponse { success: false, error: msg } });
        },
    };
    if !is_valid_project_name(req.project.as_str()) {
        return Err(
            OpenFailure {
                status: 400,
                body: ErrorResponse { success: false, error: String::from_str("项目名称包含非法字符") },
            },
        );
    }
    Ok(action)
}

/// The tracked project a request names; 404 when it is not tracked.
pub fn find_open_target(store: &JsonStore, req: &OpenRequest) -> (r: Result<ProjectInfo, OpenFailure>)
    requires
        store.wf(),
    ensures
        store.view().contains_key(req.project@) ==> (r matches Ok(p) && same_info(
            p,
            store.view()[req.project@],
        )),
        !store.view().contains_key(req.project@) ==> (r matches Err(f) && refused(
            f,
            404,
            "项目不存在: "@ + req.project@,
        )),
{
    match store.get_project(req.project.as_str()) {
        Some(p) => Ok(p),
        None => {
            let msg = cat("项目不存在: ", req.project.as_str());
            Err(OpenFailure { status: 404, body: ErrorResponse { success: false, error: msg } })
        },
    }
}

/// The reply when the index cannot be loaded (500).
pub fn load_failure(error: &str) -> (r: OpenFailure)
    ensures
        refused(r, 500, "加载索引失败: "@ + error@),
{
    OpenFailure { status: 500, body: ErrorResponse { success: false, error: cat("加载索引失败: ", error) } }
}

/// The reply when the project's directory does not exist (404).
pub fn missing_dir_failure(path: &str) -> (r: OpenFailure)
    ensures
        refused(r, 404, "项目目录不存在: "@ + path@),
{
    OpenFailure { status: 404, body: ErrorResponse { success: false, error: cat("项目目录不存在: ", path) } }
}

/// The reply when opening failed (500), with the opener's message.
pub fn open_failure(error: String) -> (r: OpenFailure)
    ensures
        refused(r, 500, error@),
{
    OpenFailure { status: 500, body: ErrorResponse { success: false, error } }
}

/// The reply when the project was opened.
pub fn opened(req: &OpenRequest, path: &str) -> (r: OpenResponse)
    ensures
        r.success,
        r.message@ == "已打开 "@ + req.action@ + ": "@ + path@,
{
    OpenResponse { success: true, message: cat3(cat("已打开 ", req.action.as_str()).as_str(), ": ", path) }
}

} // verus!
