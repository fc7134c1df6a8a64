//! The tools that come with the agent, and the requests that calls to them make.
use crate::json::{self, argument_text, json_member, read_flag, read_string};
use crate::openai::{self, ToolDef, ToolDefView};
use crate::text::{self, copy_str, str_eq};
use crate::tool::{self, ToolDecl, ToolDeclView};
use vstd::prelude::*;

verus! {

/// What the model reads of `bash`.
pub const BASH_DESCRIPTION: &'static str = "执行一条 shell 命令并返回其输出。\n\n# 参数\n- `command`：要执行的 shell 命令字符串。\n\n# 返回\n- 成功：结构化 JSON 字符串 `{\"exit_code\":N,\"stdout\":\"...\",\"stderr\":\"...\"}`。\n- 失败：命令执行错误（超时、启动失败等）。";

/// What the model reads of `file_read`.
pub const FILE_READ_DESCRIPTION: &'static str = "读取文件内容并返回。\n\n# 参数\n- `path`：文件路径（相对或绝对，须位于当前工作目录内）。\n\n# 返回\n- 成功：文件内容文本。\n- 失败：路径越界、文件不存在或读取错误。";

/// What the model reads of `file_write`.
pub const FILE_WRITE_DESCRIPTION: &'static str = "写入内容到文件。\n\n# 参数\n- `path`：文件路径（相对或绝对，须位于当前工作目录内）。\n- `content`：要写入的文件内容。\n\n# 返回\n- 成功：确认写入的字节数。\n- 失败：路径越界或写入错误。";

/// What the model reads of `edit`.
pub const EDIT_DESCRIPTION: &'static str = "精确替换文件中的文本片段。\n\n用 `old_string` → `new_string` 做精确替换，避免整文件重写。\n`old_string` 须与文件内容逐字节一致（含缩进）；默认要求唯一匹配，\n出现多次时须提供更多上下文或设 `replace_all=true`。\n\n# 参数\n- `path`：文件路径（相对或绝对，须位于当前工作目录内）。\n- `old_string`：要被替换的原文。\n- `new_string`：替换后的新文本。\n- `replace_all`：是否替换全部出现（默认 `false`，仅替换唯一一处）。\n\n# 返回\n- 成功：替换次数确认。\n- 失败：路径越界、文件不存在、`old_string` 未找到或出现多次。";

/// What the model reads of `http_get`.
pub const HTTP_GET_DESCRIPTION: &'static str = "发送 HTTP GET 请求并返回响应 body。\n\n# 参数\n- `url`：要请求的 URL（须为 http/https，且目标为公网地址）。\n\n# 返回\n- 成功：响应 body 文本（3xx 重定向响应原样返回，不自动跟随）。\n- 失败：URL 协议非法、目标为私有/保留地址（SSRF）、请求超时或网络错误。";

/// What the model reads of `skill`.
pub const SKILL_DESCRIPTION: &'static str = "加载指定工程技能的完整内容。\n\n# 参数\n- `name`：技能名称（如 `\"test-driven-development\"`、`\"spec-driven-development\"`）。\n\n# 返回\n- 成功：技能完整内容（SKILL.md 全文 + 辅助文件，以 `---` 分隔）。\n- 失败：未知技能名（错误信息含全部可用技能列表）。";

/// The tool that runs a shell command.
pub open spec fn bash_tool() -> ToolDeclView {
    ToolDeclView {
        struct_name: "BashTool"@,
        name: "bash"@,
        description: BASH_DESCRIPTION@,
        params: seq![("command"@, "String"@)],
    }
}

/// The tool that reads a file.
pub open spec fn file_read_tool() -> ToolDeclView {
    ToolDeclView {
        struct_name: "FileReadTool"@,
        name: "file_read"@,
        description: FILE_READ_DESCRIPTION@,
        params: seq![("path"@, "String"@)],
    }
}

/// The tool that writes a file.
pub open spec fn file_write_tool() -> ToolDeclView {
    ToolDeclView {
        struct_name: "FileWriteTool"@,
        name: "file_write"@,
        description: FILE_WRITE_DESCRIPTION@,
        params: seq![("path"@, "String"@), ("content"@, "String"@)],
    }
}

/// The tool that replaces a piece of a file.
pub open spec fn edit_tool() -> ToolDeclView {
    ToolDeclView {
        struct_name: "EditTool"@,
        name: "edit"@,
        description: EDIT_DESCRIPTION@,
        params: seq![("path"@, "String"@), ("old_string"@, "String"@), ("new_string"@, "String"@), ("replace_all"@, "Option < bool >"@)],
    }
}

/// The tool that fetches a page.
pub open spec fn http_get_tool() -> ToolDeclView {
    ToolDeclView {
        struct_name: "HttpGetTool"@,
        name: "http_get"@,
        description: HTTP_GET_DESCRIPTION@,
        params: seq![("url"@, "String"@)],
    }
}

/// The tool that loads a skill.
pub open spec fn skill_tool() -> ToolDeclView {
    ToolDeclView {
        struct_name: "SkillTool"@,
        name: "skill"@,
        description: SKILL_DESCRIPTION@,
        params: seq![("name"@, "String"@)],
    }
}

/// The tools, in their order.
pub open spec fn builtin_tools() -> Seq<ToolDeclView> {
    seq![
        bash_tool(),
        file_read_tool(),
        file_write_tool(),
        edit_tool(),
        http_get_tool(),
        skill_tool(),
    ]
}

/// A parameter that is a text.
fn text_param(name: &str) -> (r: (String, String))
    ensures
        r.0@ == name@,
        r.1@ == "String"@,
{
    (copy_str(name), copy_str("String"))
}

/// The tool that runs a shell command.
fn bash_decl() -> (r: ToolDecl)
    ensures
        r@ == bash_tool(),
{
    let mut params: Vec<(String, String)> = Vec::new();
    params.push(text_param("command"));
    assert(tool::pairs_view(params@) =~= bash_tool().params);
    ToolDecl {
        struct_name: copy_str("BashTool"),
        name: copy_str("bash"),
        description: copy_str(BASH_DESCRIPTION),
        params,
    }
}

/// The tool that reads a file.
fn file_read_decl() -> (r: ToolDecl)
    ensures
        r@ == file_read_tool(),
{
    let mut params: Vec<(String, String)> = Vec::new();
    params.push(text_param("path"));
    assert(tool::pairs_view(params@) =~= file_read_tool().params);
    ToolDecl {
        struct_name: copy_str("FileReadTool"),
        name: copy_str("file_read"),
        description: copy_str(FILE_READ_DESCRIPTION),
        params,
    }
}

/// The tool that writes a file.
fn file_write_decl() -> (r: ToolDecl)
    ensures
        r@ == file_write_tool(),
{
    let mut params: Vec<(String, String)> = Vec::new();
    params.push(text_param("path"));
    params.push(text_param("content"));
    assert(tool::pairs_view(params@) =~= file_write_tool().params);
    ToolDecl {
        struct_name: copy_str("FileWriteTool"),
        name: copy_str("file_write"),
        description: copy_str(FILE_WRITE_DESCRIPTION),
        params,
    }
}

/// The tool that replaces a piece of a file.
fn edit_decl() -> (r: ToolDecl)
    ensures
        r@ == edit_tool(),
{
    let mut params: Vec<(String, String)> = Vec::new();
    params.push(text_param("path"));
    params.push(text_param("old_string"));
    params.push(text_param("new_string"));
    params.push((copy_str("replace_all"), copy_str("Option < bool >")));
    assert(tool::pairs_view(params@) =~= edit_tool().params);
    ToolDecl {
        struct_name: copy_str("EditTool"),
        name: copy_str("edit"),
        description: copy_str(EDIT_DESCRIPTION),
        params,
    }
}

/// The tool that fetches a page.
fn http_get_decl() -> (r: ToolDecl)
    ensures
        r@ == http_get_tool(),
{
    let mut params: Vec<(String, String)> = Vec::new();
    params.push(text_param("url"));
    assert(tool::pairs_view(params@) =~= http_get_tool().params);
    ToolDecl {
        struct_name: copy_str("HttpGetTool"),
        name: copy_str("http_get"),
        description: copy_str(HTTP_GET_DESCRIPTION),
        params,
    }
}

/// The tool that loads a skill.
fn skill_decl() -> (r: ToolDecl)
    ensures
        r@ == skill_tool(),
{
    let mut params: Vec<(String, String)> = Vec::new();
    params.push(text_param("name"));
    assert(tool::pairs_view(params@) =~= skill_tool().params);
    ToolDecl {
        struct_name: copy_str("SkillTool"),
        name: copy_str("skill"),
        description: copy_str(SKILL_DESCRIPTION),
        params,
    }
}

/// The declarations of the tools, in their order.
pub fn builtin_decls() -> (r: Vec<ToolDecl>)
    ensures
        decls_view(r@) == builtin_tools(),
{
    let mut v: Vec<ToolDecl> = Vec::new();
    v.push(bash_decl());
    v.push(file_read_decl());
    v.push(file_write_decl());
    v.push(edit_decl());
    v.push(http_get_decl());
    v.push(skill_decl());
    assert(decls_view(v@) =~= builtin_tools());
    v
}

/// What a list of declarations says.
pub open spec fn decls_view(v: Seq<ToolDecl>) -> Seq<ToolDeclView> {
    v.map_values(|d: ToolDecl| d@)
}

/// `schemars`' root schema of `String`, as JSON with its keys in order.
#[verifier::external_body]
fn string_schema() -> (r: String)
    ensures
        r@ == text_schema(),
{
    let schema = schemars::SchemaGenerator::default().into_root_schema_for::<String>();
    serde_json::to_value(schema).unwrap_or_default().to_string()
}

/// The schema of a text.
pub open spec fn text_schema() -> Seq<char> {
    "{\"$schema\":\"http://json-schema.org/draft-07/schema#\",\"title\":\"String\",\"type\":\"string\"}"@
}

/// `schemars`' root schema of `Option<bool>`, as JSON with its keys in order.
#[verifier::external_body]
fn optional_bool_schema() -> (r: String)
    ensures
        r@ == flag_schema(),
{
    let schema = schemars::SchemaGenerator::default()
        .into_root_schema_for::<Option<bool>>();
    serde_json::to_value(schema).unwrap_or_default().to_string()
}

/// The schema of a truth value that may be missing.
pub open spec fn flag_schema() -> Seq<char> {
    "{\"$schema\":\"http://json-schema.org/draft-07/schema#\",\"title\":\"Nullable_Boolean\",\"type\":[\"boolean\",\"null\"]}"@
}

/// The schema of a parameter of one of the two types that the tools use.
pub open spec fn schema_of(ty: Seq<char>) -> Seq<char> {
    if ty == "String"@ {
        text_schema()
    } else {
        flag_schema()
    }
}

/// The schemas of the parameters of a tool.
pub open spec fn schemas_of(d: ToolDeclView) -> Seq<Seq<char>> {
    d.params.map_values(|p: (Seq<char>, Seq<char>)| schema_of(p.1))
}

/// The schemas of the parameters of a tool.
fn param_schemas(d: &ToolDecl) -> (r: Vec<String>)
    ensures
        text::views(r@) == schemas_of(d@),
        r@.len() == d@.params.len(),
{
    let mut r: Vec<String> = Vec::new();
    let mut i: usize = 0;
    while i < d.params.len()
        invariant
            i <= d.params@.len(),
            r@.len() == i,
            forall|k: int| 0 <= k < i ==> (#[trigger] r@[k])@ == schema_of(d.params@[k].1@),
        decreases d.params@.len() - i,
    {
        if str_eq(&d.params[i].1, "String") {
            r.push(string_schema());
        } else {
            r.push(optional_bool_schema());
        }
        i += 1;
    }
    assert(text::views(r@) =~= schemas_of(d@));
    r
}

/// What the model gets to know of a tool.
pub open spec fn definition_of(d: ToolDeclView) -> ToolDefView {
    ToolDefView {
        name: d.name,
        description: d.description,
        parameters: tool::object_schema(
            tool::props_of(d.params, schemas_of(d)),
            tool::names_of(d.params),
        ),
    }
}

/// What the model gets to know of the tools, in the order bash, file_read,
/// file_write, edit, http_get, skill.
pub fn build_tools() -> (r: Vec<ToolDef>)
    ensures
        openai::tool_defs_view(r@) == builtin_tools().map_values(
            |d: ToolDeclView| definition_of(d),
        ),
{
    let decls = builtin_decls();
    let mut defs: Vec<ToolDef> = Vec::new();
    let mut i: usize = 0;
    while i < decls.len()
        invariant
            i <= decls@.len(),
            decls_view(decls@) == builtin_tools(),
            defs@.len() == i,
            forall|k: int|
                0 <= k < i ==> (#[trigger] defs@[k])@ == definition_of(builtin_tools()[k]),
        decreases decls@.len() - i,
    {
        assert(decls_view(decls@)[i as int] == decls@[i as int]@);
        let schemas = param_schemas(&decls[i]);
        defs.push(decls[i].definition(&schemas));
        i += 1;
    }
    assert(openai::tool_defs_view(defs@) =~= builtin_tools().map_values(
        |d: ToolDeclView| definition_of(d),
    ));
    defs
}

/// The value of a parameter.
#[derive(Debug)]
pub enum ParamValue {
    /// A text.
    Text(String),
    /// A truth value, which may be missing.
    Flag(Option<bool>),
}

/// What the value of a parameter says.
#[verifier::ext_equal]
pub enum ParamValueView {
    Text(Seq<char>),
    Flag(Option<bool>),
}

impl View for ParamValue {
    type V = ParamValueView;

    open spec fn view(&self) -> ParamValueView {
        match *self {
            ParamValue::Text(s) => ParamValueView::Text(s@),
            ParamValue::Flag(b) => ParamValueView::Flag(b),
        }
    }
}

/// The value that an argument has, given its JSON text and the type of the
/// parameter.
pub open spec fn value_of(ty: Seq<char>, text: Seq<char>) -> Result<ParamValueView, Seq<char>> {
    if ty == "String"@ {
        match json::string_value(text) {
            Ok(s) => Ok(ParamValueView::Text(s)),
            Err(e) => Err(e),
        }
    } else {
        match json::flag_value(text) {
            Ok(b) => Ok(ParamValueView::Flag(b)),
            Err(e) => Err(e),
        }
    }
}

/// What the arguments of a call hold for each parameter of a tool.
pub open spec fn found_values(
    params: Seq<(Seq<char>, Seq<char>)>,
    args: Seq<char>,
) -> Seq<Result<ParamValueView, Seq<char>>> {
    params.map_values(
        |p: (Seq<char>, Seq<char>)| value_of(p.1, json::or_null(json::member(args, p.0))),
    )
}

/// What the arguments of a call hold for each parameter of a tool.
fn find_values(d: &ToolDecl, args: &str) -> (r: Vec<Result<ParamValue, String>>)
    ensures
        tool::readings_view(r@) == found_values(d@.params, args@),
        r@.len() == d@.params.len(),
{
    let mut r: Vec<Result<ParamValue, String>> = Vec::new();
    let mut i: usize = 0;
    while i < d.params.len()
        invariant
            i <= d.params@.len(),
            r@.len() == i,
            forall|k: int|
                0 <= k < i ==> #[trigger] tool::readings_view(r@)[k] == value_of(
                    d.params@[k].1@,
                    json::or_null(json::member(args@, d.params@[k].0@)),
                ),
        decreases d.params@.len() - i,
    {
        let t = argument_text(json_member(args, &d.params[i].0));
        let ghost before = r@;
        let found: Result<ParamValue, String> = if str_eq(&d.params[i].1, "String") {
            match read_string(&t) {
                Ok(s) => Ok(ParamValue::Text(s)),
                Err(e) => Err(e),
            }
        } else {
            match read_flag(&t) {
                Ok(b) => Ok(ParamValue::Flag(b)),
                Err(e) => Err(e),
            }
        };
        r.push(found);
        assert forall|k: int| 0 <= k < i + 1 implies #[trigger] tool::readings_view(r@)[k]
            == value_of(
            d.params@[k].1@,
            json::or_null(json::member(args@, d.params@[k].0@)),
        ) by {
            if k < i {
                assert(r@[k] == before[k]);
                assert(tool::readings_view(r@)[k] == tool::readings_view(before)[k]);
            }
        }
        i += 1;
    }
    assert(tool::readings_view(r@) =~= found_values(d@.params, args@));
    r
}

/// What a call asks of a tool.
#[derive(Debug)]
pub enum ToolRequest {
    /// To run a command.
    Bash { command: String },
    /// To read a file.
    FileRead { path: String },
    /// To write a file.
    FileWrite { path: String, content: String },
    /// To replace a piece of a file.
    Edit { path: String, old_string: String, new_string: String, replace_all: bool },
    /// To fetch a page.
    HttpGet { url: String },
    /// To load a skill.
    Skill { name: String },
}

/// What a request says.
#[verifier::ext_equal]
pub enum ToolRequestView {
    Bash { command: Seq<char> },
    FileRead { path: Seq<char> },
    FileWrite { path: Seq<char>, content: Seq<char> },
    Edit { path: Seq<char>, old_string: Seq<char>, new_string: Seq<char>, replace_all: bool },
    HttpGet { url: Seq<char> },
    Skill { name: Seq<char> },
}

impl View for ToolRequest {
    type V = ToolRequestView;

    open spec fn view(&self) -> ToolRequestView {
        match *self {
            ToolRequest::Bash { command } => ToolRequestView::Bash { command: command@ },
            ToolRequest::FileRead { path } => ToolRequestView::FileRead { path: path@ },
            ToolRequest::FileWrite { path, content } => ToolRequestView::FileWrite {
                path: path@,
                content: content@,
            },
            ToolRequest::Edit { path, old_string, new_string, replace_all } => {
                ToolRequestView::Edit {
                    path: path@,
                    old_string: old_string@,
                    new_string: new_string@,
                    replace_all,
                }
            },
            ToolRequest::HttpGet { url } => ToolRequestView::HttpGet { url: url@ },
            ToolRequest::Skill { name } => ToolRequestView::Skill { name: name@ },
        }
    }
}

/// The text at a place of a list of values.
pub open spec fn text_at(values: Seq<ParamValueView>, i: int) -> Seq<char> {
    match values[i] {
        ParamValueView::Text(s) => s,
        ParamValueView::Flag(_) => Seq::empty(),
    }
}

/// The truth value at a place of a list of values, which is false where none is
/// given.
pub open spec fn flag_at(values: Seq<ParamValueView>, i: int) -> bool {
    values[i] == ParamValueView::Flag(Some(true))
}

/// The request that the values of the parameters of a tool make.
pub open spec fn request_of(name: Seq<char>, values: Seq<ParamValueView>) -> Option<
    ToolRequestView,
> {
    if name == "bash"@ && values.len() == 1 {
        Some(ToolRequestView::Bash { command: text_at(values, 0) })
    } else if name == "file_read"@ && values.len() == 1 {
        Some(ToolRequestView::FileRead { path: text_at(values, 0) })
    } else if name == "file_write"@ && values.len() == 2 {
        Some(ToolRequestView::FileWrite { path: text_at(values, 0), content: text_at(values, 1) })
    } else if name == "edit"@ && values.len() == 4 {
        Some(
            ToolRequestView::Edit {
                path: text_at(values, 0),
                old_string: text_at(values, 1),
                new_string: text_at(values, 2),
                replace_all: flag_at(values, 3),
            },
        )
    } else if name == "http_get"@ && values.len() == 1 {
        Some(ToolRequestView::HttpGet { url: text_at(values, 0) })
    } else if name == "skill"@ && values.len() == 1 {
        Some(ToolRequestView::Skill { name: text_at(values, 0) })
    } else {
        None
    }
}

/// The text at a place of a list of values.
fn text_value(values: &[ParamValue], i: usize) -> (r: String)
    requires
        i < values@.len(),
    ensures
        r@ == text_at(tool::values_view(values@), i as int),
{
    assert(tool::values_view(values@)[i as int] == values@[i as int]@);
    match &values[i] {
        ParamValue::Text(s) => copy_str(s),
        ParamValue::Flag(_) => {
            let none = String::new();
            assert(none@ =~= Seq::empty());
            none
        },
    }
}

/// The truth value at a place of a list of values.
fn flag_value(values: &[ParamValue], i: usize) -> (r: bool)
    requires
        i < values@.len(),
    ensures
        r == flag_at(tool::values_view(values@), i as int),
{
    assert(tool::values_view(values@)[i as int] == values@[i as int]@);
    match &values[i] {
        ParamValue::Flag(Some(b)) => *b,
        _ => false,
    }
}

/// The request that the values of the parameters of a tool make; nothing where
/// the tool is unknown or the values are not as many as its parameters.
pub fn request_from(name: &str, values: &[ParamValue]) -> (r: Option<ToolRequest>)
    ensures
        request_of(name@, tool::values_view(values@)) == match r {
            Some(q) => Some(q@),
            None => None,
        },
{
    if str_eq(name, "bash") && values.len() == 1 {
        Some(ToolRequest::Bash { command: text_value(values, 0) })
    } else if str_eq(name, "file_read") && values.len() == 1 {
        Some(ToolRequest::FileRead { path: text_value(values, 0) })
    } else if str_eq(name, "file_write") && values.len() == 2 {
        Some(
            ToolRequest::FileWrite {
                path: text_value(values, 0),
                content: text_value(values, 1),
            },
        )
    } else if str_eq(name, "edit") && values.len() == 4 {
        Some(
            ToolRequest::Edit {
                path: text_value(values, 0),
                old_string: text_value(values, 1),
                new_string: text_value(values, 2),
                replace_all: flag_value(values, 3),
            },
        )
    } else if str_eq(name, "http_get") && values.len() == 1 {
        Some(ToolRequest::HttpGet { url: text_value(values, 0) })
    } else if str_eq(name, "skill") && values.len() == 1 {
        Some(ToolRequest::Skill { name: text_value(values, 0) })
    } else {
        None
    }
}

/// The place of a tool among the tools, by its name.
pub open spec fn tool_index(name: Seq<char>) -> int {
    if name == "bash"@ {
        0
    } else if name == "file_read"@ {
        1
    } else if name == "file_write"@ {
        2
    } else if name == "edit"@ {
        3
    } else if name == "http_get"@ {
        4
    } else if name == "skill"@ {
        5
    } else {
        -1
    }
}

/// What a call to a tool asks for: nothing where there is no such tool, and an
/// error where a parameter cannot be read from the arguments.
pub open spec fn requested(name: Seq<char>, args: Seq<char>) -> Option<
    Result<ToolRequestView, Seq<char>>,
> {
    let i = tool_index(name);
    if i < 0 {
        None
    } else {
        let params = builtin_tools()[i].params;
        match tool::decoded(name, params, found_values(params, args)) {
            Err(e) => Some(Err(e)),
            Ok(v) => Some(Ok(request_of(name, v).unwrap())),
        }
    }
}

/// What a call to a tool asks for: nothing where there is no such tool, and an
/// error where a parameter cannot be read from the arguments.
pub fn tool_request(name: &str, args: &str) -> (r: Option<Result<ToolRequest, String>>)
    ensures
        match r {
            None => requested(name@, args@) is None,
            Some(Ok(q)) => requested(name@, args@) == Some(
                Ok::<ToolRequestView, Seq<char>>(q@),
            ),
            Some(Err(e)) => requested(name@, args@) == Some(
                Err::<ToolRequestView, Seq<char>>(e@),
            ),
        },
{
    let decl: ToolDecl = if str_eq(name, "bash") {
        bash_decl()
    } else if str_eq(name, "file_read") {
        file_read_decl()
    } else if str_eq(name, "file_write") {
        file_write_decl()
    } else if str_eq(name, "edit") {
        edit_decl()
    } else if str_eq(name, "http_get") {
        http_get_decl()
    } else if str_eq(name, "skill") {
        skill_decl()
    } else {
        return None;
    };
    let found = find_values(&decl, args);
    proof {
        lemma_decoded_length(name@, decl@.params, found_values(decl@.params, args@));
    }
    match decl.decode(found) {
        Ok(values) => match request_from(name, &values) {
            Some(q) => Some(Ok(q)),
            None => None,
        },
        Err(e) => Some(Err(e)),
    }
}

/// As many values are read as there are parameters.
proof fn lemma_decoded_length(
    name: Seq<char>,
    params: Seq<(Seq<char>, Seq<char>)>,
    found: Seq<Result<ParamValueView, Seq<char>>>,
)
    ensures
        tool::decoded(name, params, found) matches Ok(v) ==> v.len() == params.len(),
    decreases params.len(),
{
    if params.len() > 0 {
        lemma_decoded_length(name, params.drop_last(), found.drop_last());
    }
}

/// The text that the arguments of a call hold under a key, if they hold one.
pub open spec fn text_argument(args: Seq<char>, key: Seq<char>) -> Option<Seq<char>> {
    match json::member(args, key) {
        Some(t) => match json::string_value(t) {
            Ok(s) => Some(s),
            Err(_) => None,
        },
        None => None,
    }
}

/// A call asks its tool for what its arguments say: each tool reads its
/// parameters under their own names, and hands them on as they are.
pub proof fn law_calls_ask_for_what_they_say(args: Seq<char>, a: Seq<char>, b: Seq<char>)
    ensures
        text_argument(args, "command"@) == Some(a) ==> requested("bash"@, args) == Some(
            Ok::<ToolRequestView, Seq<char>>(ToolRequestView::Bash { command: a }),
        ),
        text_argument(args, "path"@) == Some(a) ==> requested("file_read"@, args) == Some(
            Ok::<ToolRequestView, Seq<char>>(ToolRequestView::FileRead { path: a }),
        ),
        text_argument(args, "path"@) == Some(a) && text_argument(args, "content"@) == Some(b)
            ==> requested("file_write"@, args) == Some(
            Ok::<ToolRequestView, Seq<char>>(ToolRequestView::FileWrite { path: a, content: b }),
        ),
        text_argument(args, "url"@) == Some(a) ==> requested("http_get"@, args) == Some(
            Ok::<ToolRequestView, Seq<char>>(ToolRequestView::HttpGet { url: a }),
        ),
        text_argument(args, "name"@) == Some(a) ==> requested("skill"@, args) == Some(
            Ok::<ToolRequestView, Seq<char>>(ToolRequestView::Skill { name: a }),
        ),
{
    lemma_names_differ();
    reveal_with_fuel(tool::decoded, 3);
    let s = "String"@;
    let p1 = seq![("command"@, s)];
    let f1 = found_values(p1, args);
    assert(p1.drop_last() =~= Seq::empty());
    let p2 = seq![("path"@, s)];
    let f2 = found_values(p2, args);
    assert(p2.drop_last() =~= Seq::empty());
    let p3 = seq![("path"@, s), ("content"@, s)];
    let f3 = found_values(p3, args);
    assert(p3.drop_last() =~= p2);
    assert(f3.drop_last() =~= f2);
    let p4 = seq![("url"@, s)];
    assert(p4.drop_last() =~= Seq::empty());
    let p5 = seq![("name"@, s)];
    assert(p5.drop_last() =~= Seq::empty());
}

/// An edit asks for the replacement that its arguments say; all occurrences are
/// meant where they say so, and only there.
pub proof fn law_edits_ask_for_what_they_say(
    args: Seq<char>,
    path: Seq<char>,
    old: Seq<char>,
    new: Seq<char>,
    flag: Option<bool>,
)
    requires
        text_argument(args, "path"@) == Some(path),
        text_argument(args, "old_string"@) == Some(old),
        text_argument(args, "new_string"@) == Some(new),
        json::flag_value(
            match json::member(args, "replace_all"@) {
                Some(t) => t,
                None => "null"@,
            },
        ) == Ok::<Option<bool>, Seq<char>>(flag),
    ensures
        requested("edit"@, args) == Some(
            Ok::<ToolRequestView, Seq<char>>(
                ToolRequestView::Edit {
                    path,
                    old_string: old,
                    new_string: new,
                    replace_all: flag == Some(true),
                },
            ),
        ),
{
    lemma_names_differ();
    reveal_with_fuel(tool::decoded, 5);
    let s = "String"@;
    let p = seq![
        ("path"@, s),
        ("old_string"@, s),
        ("new_string"@, s),
        ("replace_all"@, "Option < bool >"@),
    ];
    let f = found_values(p, args);
    let v3 = seq![
        ParamValueView::Text(path),
        ParamValueView::Text(old),
        ParamValueView::Text(new),
    ];
    let p3 = p.drop_last();
    let p2 = p3.drop_last();
    let p1 = p2.drop_last();
    let f3 = f.drop_last();
    let f2 = f3.drop_last();
    let f1 = f2.drop_last();
    assert(f[0] == Ok::<ParamValueView, Seq<char>>(ParamValueView::Text(path)));
    assert(f[1] == Ok::<ParamValueView, Seq<char>>(ParamValueView::Text(old)));
    assert(f[2] == Ok::<ParamValueView, Seq<char>>(ParamValueView::Text(new)));
    assert(f[3] == Ok::<ParamValueView, Seq<char>>(ParamValueView::Flag(flag)));
    assert(p1.last() == p[0] && p2.last() == p[1] && p3.last() == p[2]);
    assert(f1.last() == f[0] && f2.last() == f[1] && f3.last() == f[2]);
    let none = Seq::<ParamValueView>::empty();
    assert(tool::decoded("edit"@, p1.drop_last(), f1.drop_last()) == Ok::<
        Seq<ParamValueView>,
        Seq<char>,
    >(none));
    assert(tool::decoded("edit"@, p1, f1) == Ok::<Seq<ParamValueView>, Seq<char>>(
        none.push(ParamValueView::Text(path)),
    ));
    let v = none.push(ParamValueView::Text(path)).push(ParamValueView::Text(old)).push(
        ParamValueView::Text(new),
    ).push(ParamValueView::Flag(flag));
    assert(tool::decoded("edit"@, p, f) == Ok::<Seq<ParamValueView>, Seq<char>>(v));
    assert(builtin_tools()[3].params =~= p);
}

/// The names of the tools, and the two types of their parameters, are told apart.
proof fn lemma_names_differ()
    ensures
        "bash"@ != "file_read"@ && "bash"@ != "file_write"@ && "bash"@ != "edit"@,
        "bash"@ != "http_get"@ && "bash"@ != "skill"@,
        "file_read"@ != "file_write"@ && "file_read"@ != "edit"@,
        "file_read"@ != "http_get"@ && "file_read"@ != "skill"@,
        "file_write"@ != "edit"@ && "file_write"@ != "http_get"@ && "file_write"@ != "skill"@,
        "edit"@ != "http_get"@ && "edit"@ != "skill"@ && "http_get"@ != "skill"@,
        "String"@ != "Option < bool >"@,
{
    reveal_strlit("bash");
    reveal_strlit("file_read");
    reveal_strlit("file_write");
    reveal_strlit("edit");
    reveal_strlit("http_get");
    reveal_strlit("skill");
    reveal_strlit("String");
    reveal_strlit("Option < bool >");
    assert("bash"@.len() == 4 && "file_read"@.len() == 9 && "file_write"@.len() == 10);
    assert("edit"@.len() == 4 && "http_get"@.len() == 8 && "skill"@.len() == 5);
    assert("bash"@[0] != "edit"@[0]);
    assert("String"@.len() != "Option < bool >"@.len());
}

/// A call that lacks a text that its tool needs, or holds none there, is refused,
/// with the name of the tool and of the parameter; a call of another tool is none.
pub proof fn law_calls_without_their_arguments_are_refused(
    args: Seq<char>,
    name: Seq<char>,
)
    ensures
        (json::string_value(
            match json::member(args, "command"@) {
                Some(t) => t,
                None => "null"@,
            },
        ) matches Err(e)) ==> (requested("bash"@, args) matches Some(Err(m)) && text::holds(
            m,
            "bash"@,
        ) && text::holds(m, "command"@)),
        (json::string_value(
            match json::member(args, "path"@) {
                Some(t) => t,
                None => "null"@,
            },
        ) matches Err(e)) ==> (requested("file_read"@, args) matches Some(Err(m)) && text::holds(
            m,
            "path"@,
        )),
        requested(name, args) is Some <==> {
            ||| name == "bash"@ || name == "file_read"@ || name == "file_write"@
            ||| name == "edit"@ || name == "http_get"@ || name == "skill"@
        },
{
    lemma_names_differ();
    reveal_with_fuel(tool::decoded, 2);
    let s = "String"@;
    let p1 = seq![("command"@, s)];
    assert(p1.drop_last() =~= Seq::empty());
    let p2 = seq![("path"@, s)];
    assert(p2.drop_last() =~= Seq::empty());
    let f1 = found_values(p1, args);
    let f2 = found_values(p2, args);
    if let Err(e) = json::string_value(json::or_null(json::member(args, "command"@))) {
        let m = tool::decode_error("bash"@, "command"@, e);
        let a = "tool '"@;
        let b = "': failed to deserialize parameter '"@;
        let c = "': "@;
        assert(m =~= a + "bash"@ + (b + "command"@ + c + e));
        assert(m =~= (a + "bash"@ + b) + "command"@ + (c + e));
        assert(f1.last() == f1[0]);
    }
    if let Err(e) = json::string_value(json::or_null(json::member(args, "path"@))) {
        let m = tool::decode_error("file_read"@, "path"@, e);
        let a = "tool '"@;
        let b = "': failed to deserialize parameter '"@;
        let c = "': "@;
        assert(m =~= (a + "file_read"@ + b) + "path"@ + (c + e));
        assert(f2.last() == f2[0]);
    }
}

/// Each tool is found under the name that it is offered under, and nothing under
/// another name.
pub proof fn law_tools_are_found_by_their_names(i: int, name: Seq<char>, args: Seq<char>)
    requires
        0 <= i < builtin_tools().len(),
    ensures
        tool_index(builtin_tools()[i].name) == i,
        definition_of(builtin_tools()[i]).name == builtin_tools()[i].name,
        requested(name, args) is Some <==> exists|k: int|
            0 <= k < builtin_tools().len() && (#[trigger] builtin_tools()[k]).name == name,
        builtin_tools().map_values(|d: ToolDeclView| d.name) == seq![
            "bash"@,
            "file_read"@,
            "file_write"@,
            "edit"@,
            "http_get"@,
            "skill"@,
        ],
{
    reveal_strlit("bash");
    reveal_strlit("file_read");
    reveal_strlit("file_write");
    reveal_strlit("edit");
    reveal_strlit("http_get");
    reveal_strlit("skill");
    assert("bash"@.len() == 4 && "file_read"@.len() == 9 && "file_write"@.len() == 10);
    assert("edit"@.len() == 4 && "http_get"@.len() == 8 && "skill"@.len() == 5);
    assert("bash"@[0] != "edit"@[0]);
    let names = builtin_tools().map_values(|d: ToolDeclView| d.name);
    assert(names =~= seq![
        "bash"@,
        "file_read"@,
        "file_write"@,
        "edit"@,
        "http_get"@,
        "skill"@,
    ]);
    let tools = builtin_tools();
    assert(tools[0].name == "bash"@);
    assert(tools[1].name == "file_read"@);
    assert(tools[2].name == "file_write"@);
    assert(tools[3].name == "edit"@);
    assert(tools[4].name == "http_get"@);
    assert(tools[5].name == "skill"@);
    if requested(name, args) is Some {
        assert(tools[tool_index(name)].name == name);
    }
}

/// The schema of a text says that it is one, and that of a truth value that it is one
/// or missing.
pub proof fn law_schemas_name_their_types(ty: Seq<char>)
    ensures
        text::holds(schema_of("String"@), "\"type\":\"string\""@),
        ty != "String"@ ==> text::holds(schema_of(ty), "\"type\":[\"boolean\",\"null\"]"@),
{
    reveal_strlit(
        "{\"$schema\":\"http://json-schema.org/draft-07/schema#\",\"title\":\"String\",\"type\":\"string\"}",
    );
    reveal_strlit(
        "{\"$schema\":\"http://json-schema.org/draft-07/schema#\",\"title\":\"Nullable_Boolean\",\"type\":[\"boolean\",\"null\"]}",
    );
    reveal_strlit("\"type\":\"string\"");
    reveal_strlit("\"type\":[\"boolean\",\"null\"]");
    let t = text_schema();
    let a = "\"type\":\"string\""@;
    assert(t =~= t.take(t.len() - 1 - a.len()) + a + t.skip(t.len() - 1));
    let f = flag_schema();
    let b = "\"type\":[\"boolean\",\"null\"]"@;
    assert(f =~= f.take(f.len() - 1 - b.len()) + b + f.skip(f.len() - 1));
}

} // verus!
