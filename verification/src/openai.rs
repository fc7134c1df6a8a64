//! The chat API of OpenAI: what is sent to it, and what its replies mean.
use crate::bytes::{self, text_of};
use crate::http::{self, parse_url, UrlParts, UrlView};
use crate::json::{self, array_of, json_quote, parse_json};
use crate::provider::{LLMResponse, ResponseView};
use crate::text::{
    self, copy_str, find_char, from_chars, starts_with_chars, str_eq, sub_chars, to_chars,
    trim_chars,
};
use crate::types::{self, copy_opt, Message, MessageView, ToolCall, ToolCallView};
use vstd::prelude::*;

verus! {

// ---------------------------------------------------------------------------
// Requests
// ---------------------------------------------------------------------------

/// A tool call in the form of the API.
#[derive(Debug)]
pub struct ChatToolCall {
    /// Identifier of the call.
    pub id: String,
    /// The kind of call, which is always a function.
    pub call_type: String,
    /// What is called.
    pub function: ChatFunctionCall,
}

/// The call of a function.
#[derive(Debug)]
pub struct ChatFunctionCall {
    /// Name of the function.
    pub name: String,
    /// The arguments, as a JSON text.
    pub arguments: String,
}

/// A message in the form of the API.
#[derive(Debug)]
pub struct ChatMessage {
    /// The role.
    pub role: String,
    /// The text.
    pub content: String,
    /// The tool calls that it asks for.
    pub tool_calls: Option<Vec<ChatToolCall>>,
    /// The call that it answers.
    pub tool_call_id: Option<String>,
}

/// What a call in the form of the API says.
#[verifier::ext_equal]
pub struct ChatCallView {
    pub id: Seq<char>,
    pub call_type: Seq<char>,
    pub name: Seq<char>,
    pub arguments: Seq<char>,
}

/// What a message in the form of the API says.
#[verifier::ext_equal]
pub struct ChatMessageView {
    pub role: Seq<char>,
    pub content: Seq<char>,
    pub tool_calls: Option<Seq<ChatCallView>>,
    pub tool_call_id: Option<Seq<char>>,
}

impl View for ChatToolCall {
    type V = ChatCallView;

    open spec fn view(&self) -> ChatCallView {
        ChatCallView {
            id: self.id@,
            call_type: self.call_type@,
            name: self.function.name@,
            arguments: self.function.arguments@,
        }
    }
}

/// What a list of calls in the form of the API says.
pub open spec fn chat_calls_view(calls: Seq<ChatToolCall>) -> Seq<ChatCallView> {
    calls.map_values(|c: ChatToolCall| c@)
}

impl View for ChatMessage {
    type V = ChatMessageView;

    open spec fn view(&self) -> ChatMessageView {
        ChatMessageView {
            role: self.role@,
            content: self.content@,
            tool_calls: match self.tool_calls {
                Some(c) => Some(chat_calls_view(c@)),
                None => None,
            },
            tool_call_id: types::opt_view(self.tool_call_id),
        }
    }
}

/// A tool call in the form of the API.
pub open spec fn chat_call(c: ToolCallView) -> ChatCallView {
    ChatCallView { id: c.id, call_type: "function"@, name: c.name, arguments: c.arguments }
}

/// A message in the form of the API.
pub open spec fn chat_message(m: MessageView) -> ChatMessageView {
    ChatMessageView {
        role: m.role.name(),
        content: m.content,
        tool_calls: match m.tool_calls {
            Some(c) => Some(c.map_values(|c: ToolCallView| chat_call(c))),
            None => None,
        },
        tool_call_id: m.tool_call_id,
    }
}

/// A tool, as the model gets to know it.
#[derive(Debug)]
pub struct ToolDef {
    /// Its name.
    pub name: String,
    /// What it is for.
    pub description: String,
    /// The JSON schema of its parameters, as a text.
    pub parameters: String,
}

/// What a tool says of itself.
#[verifier::ext_equal]
pub struct ToolDefView {
    pub name: Seq<char>,
    pub description: Seq<char>,
    pub parameters: Seq<char>,
}

impl View for ToolDef {
    type V = ToolDefView;

    open spec fn view(&self) -> ToolDefView {
        ToolDefView {
            name: self.name@,
            description: self.description@,
            parameters: self.parameters@,
        }
    }
}

/// A tool in the form of the API.
#[derive(Debug)]
pub struct ChatTool {
    /// The kind of tool, which is always a function.
    pub tool_type: String,
    /// The function.
    pub function: ToolDef,
}

/// What a list of tools in the form of the API says.
pub open spec fn chat_tools_view(tools: Seq<ChatTool>) -> Seq<(Seq<char>, ToolDefView)> {
    tools.map_values(|t: ChatTool| (t.tool_type@, t.function@))
}

/// What a list of tools says.
pub open spec fn tool_defs_view(tools: Seq<ToolDef>) -> Seq<ToolDefView> {
    tools.map_values(|t: ToolDef| t@)
}

/// A request of the API.
#[derive(Debug)]
pub struct ChatRequest {
    /// Name of the model.
    pub model: String,
    /// The conversation.
    pub messages: Vec<ChatMessage>,
    /// The tools, if there are any.
    pub tools: Option<Vec<ChatTool>>,
    /// Whether the reply is streamed.
    pub stream: bool,
}

/// A call as a JSON object.
pub open spec fn chat_call_json(c: ChatCallView) -> Seq<char> {
    "{\"id\":"@ + json::json_string(c.id) + ",\"type\":"@ + json::json_string(c.call_type)
        + ",\"function\":{\"name\":"@ + json::json_string(c.name) + ",\"arguments\":"@
        + json::json_string(c.arguments) + "}}"@
}

/// A message as a JSON object.
pub open spec fn chat_message_json(m: ChatMessageView) -> Seq<char> {
    let head = "{\"role\":"@ + json::json_string(m.role) + ",\"content\":"@ + json::json_string(
        m.content,
    );
    let calls = match m.tool_calls {
        Some(c) => head + ",\"tool_calls\":"@ + json::json_array(
            c.map_values(|c: ChatCallView| chat_call_json(c)),
        ),
        None => head,
    };
    match m.tool_call_id {
        Some(id) => calls + ",\"tool_call_id\":"@ + json::json_string(id) + "}"@,
        None => calls + "}"@,
    }
}

/// A tool as a JSON object. The schema of its parameters is JSON already.
pub open spec fn chat_tool_json(tool_type: Seq<char>, t: ToolDefView) -> Seq<char> {
    "{\"type\":"@ + json::json_string(tool_type) + ",\"function\":{\"name\":"@ + json::json_string(
        t.name,
    ) + ",\"description\":"@ + json::json_string(t.description) + ",\"parameters\":"@
        + t.parameters + "}}"@
}

/// What a list of messages in the form of the API says.
pub open spec fn chat_messages_view(messages: Seq<ChatMessage>) -> Seq<ChatMessageView> {
    messages.map_values(|m: ChatMessage| m@)
}

impl ChatRequest {
    /// The request as a JSON object.
    pub open spec fn json(self) -> Seq<char> {
        let head = "{\"model\":"@ + json::json_string(self.model@) + ",\"messages\":"@
            + json::json_array(
            chat_messages_view(self.messages@).map_values(
                |m: ChatMessageView| chat_message_json(m),
            ),
        );
        let tools = match self.tools {
            Some(t) => head + ",\"tools\":"@ + json::json_array(
                chat_tools_view(t@).map_values(
                    |t: (Seq<char>, ToolDefView)| chat_tool_json(t.0, t.1),
                ),
            ),
            None => head,
        };
        tools + (if self.stream {
            ",\"stream\":true}"@
        } else {
            ",\"stream\":false}"@
        })
    }

    /// The request as a JSON object.
    pub fn to_json(&self) -> (r: String)
        ensures
            r@ == self.json(),
    {
        let mut s = copy_str("{\"model\":");
        let model = json_quote(&self.model);
        s.append(&model);
        s.append(",\"messages\":");
        let mut items: Vec<String> = Vec::new();
        let mut i: usize = 0;
        while i < self.messages.len()
            invariant
                i <= self.messages@.len(),
                items@.len() == i,
                forall|k: int|
                    0 <= k < i ==> (#[trigger] items@[k])@ == chat_message_json(
                        self.messages@[k]@,
                    ),
            decreases self.messages@.len() - i,
        {
            items.push(message_to_json(&self.messages[i]));
            i += 1;
        }
        assert(text::views(items@) =~= chat_messages_view(self.messages@).map_values(
            |m: ChatMessageView| chat_message_json(m),
        ));
        let messages = array_of(&items);
        s.append(&messages);
        if let Some(tools) = &self.tools {
            s.append(",\"tools\":");
            let mut items: Vec<String> = Vec::new();
            let mut i: usize = 0;
            while i < tools.len()
                invariant
                    i <= tools@.len(),
                    items@.len() == i,
                    forall|k: int|
                        0 <= k < i ==> (#[trigger] items@[k])@ == chat_tool_json(
                            tools@[k].tool_type@,
                            tools@[k].function@,
                        ),
                decreases tools@.len() - i,
            {
                items.push(tool_to_json(&tools[i]));
                i += 1;
            }
            assert(text::views(items@) =~= chat_tools_view(tools@).map_values(
                |t: (Seq<char>, ToolDefView)| chat_tool_json(t.0, t.1),
            ));
            let list = array_of(&items);
            s.append(&list);
        }
        if self.stream {
            s.append(",\"stream\":true}");
        } else {
            s.append(",\"stream\":false}");
        }
        s
    }
}

/// A call as a JSON object.
fn call_to_json(c: &ChatToolCall) -> (r: String)
    ensures
        r@ == chat_call_json(c@),
{
    let mut s = copy_str("{\"id\":");
    let id = json_quote(&c.id);
    s.append(&id);
    s.append(",\"type\":");
    let kind = json_quote(&c.call_type);
    s.append(&kind);
    s.append(",\"function\":{\"name\":");
    let name = json_quote(&c.function.name);
    s.append(&name);
    s.append(",\"arguments\":");
    let arguments = json_quote(&c.function.arguments);
    s.append(&arguments);
    s.append("}}");
    s
}

/// A message as a JSON object.
fn message_to_json(m: &ChatMessage) -> (r: String)
    ensures
        r@ == chat_message_json(m@),
{
    let mut s = copy_str("{\"role\":");
    let role = json_quote(&m.role);
    s.append(&role);
    s.append(",\"content\":");
    let content = json_quote(&m.content);
    s.append(&content);
    if let Some(calls) = &m.tool_calls {
        s.append(",\"tool_calls\":");
        let mut items: Vec<String> = Vec::new();
        let mut i: usize = 0;
        while i < calls.len()
            invariant
                i <= calls@.len(),
                items@.len() == i,
                forall|k: int| 0 <= k < i ==> (#[trigger] items@[k])@ == chat_call_json(calls@[k]@),
            decreases calls@.len() - i,
        {
            items.push(call_to_json(&calls[i]));
            i += 1;
        }
        assert(text::views(items@) =~= chat_calls_view(calls@).map_values(
            |c: ChatCallView| chat_call_json(c),
        ));
        let list = array_of(&items);
        s.append(&list);
    }
    if let Some(id) = &m.tool_call_id {
        s.append(",\"tool_call_id\":");
        let id = json_quote(id);
        s.append(&id);
    }
    s.append("}");
    s
}

/// A tool as a JSON object.
fn tool_to_json(t: &ChatTool) -> (r: String)
    ensures
        r@ == chat_tool_json(t.tool_type@, t.function@),
{
    let mut s = copy_str("{\"type\":");
    let kind = json_quote(&t.tool_type);
    s.append(&kind);
    s.append(",\"function\":{\"name\":");
    let name = json_quote(&t.function.name);
    s.append(&name);
    s.append(",\"description\":");
    let description = json_quote(&t.function.description);
    s.append(&description);
    s.append(",\"parameters\":");
    s.append(&t.function.parameters);
    s.append("}}");
    s
}

// ---------------------------------------------------------------------------
// Replies
// ---------------------------------------------------------------------------

/// How many tokens a reply took.
#[derive(Debug, Clone, Copy)]
pub struct ChatUsage {
    /// Number of tokens of the input.
    pub prompt_tokens: u32,
    /// Number of tokens of the output.
    pub completion_tokens: u32,
}

/// One of the messages that a reply offers.
#[derive(Debug)]
pub struct ChatChoice {
    /// The message.
    pub message: ChatMessage,
    /// Why it ends.
    pub finish_reason: Option<String>,
}

/// A reply of the API.
#[derive(Debug)]
pub struct ChatResponse {
    /// Identifier of the reply.
    pub id: String,
    /// The messages that it offers.
    pub choices: Vec<ChatChoice>,
    /// How many tokens it took.
    pub usage: Option<ChatUsage>,
}

/// A tool call of a reply, given its arguments in compact form, where they are
/// a JSON document; an empty object stands for those that are not.
pub open spec fn replied_call(c: ChatCallView, compact: Result<Seq<char>, (usize, usize)>) -> ToolCallView {
    ToolCallView {
        id: c.id,
        name: c.name,
        arguments: match compact {
            Ok(t) => t,
            Err(_) => "{}"@,
        },
        original_name: None,
    }
}

/// The reply in the form of the library: the first message that is offered.
pub open spec fn parsed_response(resp: ChatResponse) -> Option<ResponseView> {
    if resp.choices@.len() == 0 {
        None
    } else {
        let m = resp.choices@[0].message@;
        Some(
            ResponseView {
                content: m.content,
                tool_calls: match m.tool_calls {
                    Some(c) => c.map_values(
                        |c: ChatCallView| replied_call(c, json::parsed_json(c.arguments)),
                    ),
                    None => Seq::empty(),
                },
                prompt_tokens: match resp.usage {
                    Some(u) => u.prompt_tokens,
                    None => 0,
                },
                completion_tokens: match resp.usage {
                    Some(u) => u.completion_tokens,
                    None => 0,
                },
            },
        )
    }
}

/// A tool call of a reply, given its arguments in compact form or where they
/// stop to be a JSON document.
pub fn tool_call_of(c: &ChatToolCall, compact: Result<String, (usize, usize)>) -> (r: ToolCall)
    ensures
        r@ == replied_call(
            c@,
            match compact {
                Ok(t) => Ok::<Seq<char>, (usize, usize)>(t@),
                Err(at) => Err::<Seq<char>, (usize, usize)>(at),
            },
        ),
{
    let arguments = match compact {
        Ok(t) => t,
        Err(_) => copy_str("{}"),
    };
    ToolCall {
        id: copy_str(&c.id),
        name: copy_str(&c.function.name),
        arguments,
        original_name: None,
    }
}

/// Settings of the provider.
pub struct OpenAIProvider {
    api_key: String,
    model: String,
    base_url: String,
}

/// A text without the slashes at its end.
pub open spec fn trim_slashes(s: Seq<char>) -> Seq<char>
    decreases s.len(),
{
    if s.len() > 0 && s.last() == '/' {
        trim_slashes(s.drop_last())
    } else {
        s
    }
}

/// The endpoint of the provider, unless another is given.
pub open spec fn default_base_url() -> Seq<char> {
    "https://api.openai.com/v1"@
}

/// The endpoint that is used.
pub open spec fn endpoint(base_url: Option<Seq<char>>) -> Seq<char> {
    trim_slashes(
        match base_url {
            Some(u) => u,
            None => default_base_url(),
        },
    )
}

/// Why the settings of the provider are not usable, given whether the endpoint
/// is a URL.
pub open spec fn settings_problem(
    api_key: Seq<char>,
    endpoint: Seq<char>,
    parsed: Result<UrlView, Seq<char>>,
) -> Option<Seq<char>> {
    if api_key.len() == 0 {
        Some("OpenAI API key must not be empty"@)
    } else {
        match parsed {
            Ok(_) => None,
            Err(e) => Some("invalid base URL '"@ + endpoint + "': "@ + e),
        }
    }
}

/// The text without the slashes at its end.
fn without_slashes(s: &str) -> (r: String)
    ensures
        r@ == trim_slashes(s@),
{
    let v = to_chars(s);
    let mut n: usize = v.len();
    assert(v@.take(n as int) =~= s@);
    while n > 0 && v[n - 1] == '/'
        invariant
            n <= v@.len(),
            trim_slashes(s@) == trim_slashes(v@.take(n as int)),
        decreases n,
    {
        assert(v@.take(n as int).last() == v@[n - 1]);
        assert(v@.take(n as int).drop_last() =~= v@.take(n - 1));
        n -= 1;
    }
    assert(n > 0 ==> v@.take(n as int).last() == v@[n - 1]);
    let head = sub_chars(&v, 0, n);
    assert(head@ =~= v@.take(n as int));
    from_chars(&head)
}

/// Refuses settings that are not usable, given whether the endpoint is a URL.
pub fn check_settings(
    api_key: &str,
    endpoint: &str,
    parsed: Result<UrlParts, String>,
) -> (r: Result<(), String>)
    ensures
        match settings_problem(
            api_key@,
            endpoint@,
            match parsed {
                Ok(u) => Ok::<UrlView, Seq<char>>(u@),
                Err(e) => Err::<UrlView, Seq<char>>(e@),
            },
        ) {
            None => r is Ok,
            Some(p) => r matches Err(m) && m@ == p,
        },
{
    let key = to_chars(api_key);
    if key.len() == 0 {
        return Err(copy_str("OpenAI API key must not be empty"));
    }
    match parsed {
        Ok(_) => Ok(()),
        Err(e) => {
            let mut m = copy_str("invalid base URL '");
            m.append(endpoint);
            m.append("': ");
            m.append(&e);
            Err(m)
        },
    }
}

impl OpenAIProvider {
    /// The API key.
    pub closed spec fn key(&self) -> Seq<char> {
        self.api_key@
    }

    /// The name of the model.
    pub closed spec fn model_name(&self) -> Seq<char> {
        self.model@
    }

    /// The endpoint.
    pub closed spec fn endpoint(&self) -> Seq<char> {
        self.base_url@
    }

    /// The provider with the given settings, if they are usable: the key must
    /// not be empty, and the endpoint has to be a URL.
    pub fn new(api_key: String, model: String, base_url: Option<String>) -> (r: Result<
        Self,
        String,
    >)
        ensures
            match settings_problem(
                api_key@,
                endpoint(types::opt_view(base_url)),
                http::parsed_url(endpoint(types::opt_view(base_url))),
            ) {
                Some(p) => r matches Err(m) && m@ == p,
                None => r matches Ok(s) && s.key() == api_key@ && s.model_name() == model@
                    && s.endpoint() == endpoint(types::opt_view(base_url)),
            },
    {
        let given = match base_url {
            Some(u) => u,
            None => copy_str("https://api.openai.com/v1"),
        };
        let base_url = without_slashes(&given);
        match check_settings(&api_key, &base_url, parse_url(&base_url)) {
            Err(m) => Err(m),
            Ok(_) => Ok(OpenAIProvider { api_key, model, base_url }),
        }
    }

    /// The name of the model.
    pub fn model(&self) -> (r: &str)
        ensures
            r@ == self.model_name(),
    {
        self.model.as_str()
    }

    /// The endpoint.
    pub fn base_url(&self) -> (r: &str)
        ensures
            r@ == self.endpoint(),
    {
        self.base_url.as_str()
    }

    /// Where requests go.
    pub fn request_url(&self) -> (r: String)
        ensures
            r@ == self.endpoint() + "/chat/completions"@,
    {
        let mut s = copy_str(&self.base_url);
        s.append("/chat/completions");
        s
    }

    /// The headers of a request: the name and the value of each.
    pub fn request_headers(&self) -> (r: Vec<(&'static str, String)>)
        ensures
            r@.len() == 2,
            r@[0].0@ == "authorization"@,
            r@[0].1@ == "Bearer "@ + self.key(),
            r@[1].0@ == "content-type"@,
            r@[1].1@ == "application/json"@,
    {
        let mut bearer = copy_str("Bearer ");
        bearer.append(&self.api_key);
        let mut r: Vec<(&'static str, String)> = Vec::new();
        r.push(("authorization", bearer));
        r.push(("content-type", copy_str("application/json")));
        r
    }

    /// A message in the form of the API.
    pub fn to_chat_message(msg: &Message) -> (r: ChatMessage)
        ensures
            r@ == chat_message(msg@),
    {
        let tool_calls = match &msg.tool_calls {
            None => None,
            Some(calls) => {
                let mut list: Vec<ChatToolCall> = Vec::new();
                let mut i: usize = 0;
                while i < calls.len()
                    invariant
                        i <= calls@.len(),
                        list@.len() == i,
                        forall|k: int|
                            0 <= k < i ==> (#[trigger] list@[k])@ == chat_call(calls@[k]@),
                    decreases calls@.len() - i,
                {
                    let c = &calls[i];
                    list.push(
                        ChatToolCall {
                            id: copy_str(&c.id),
                            call_type: copy_str("function"),
                            function: ChatFunctionCall {
                                name: copy_str(&c.name),
                                arguments: copy_str(&c.arguments),
                            },
                        },
                    );
                    i += 1;
                }
                assert(chat_calls_view(list@) =~= types::calls_view(calls@).map_values(
                    |c: ToolCallView| chat_call(c),
                ));
                Some(list)
            },
        };
        ChatMessage {
            role: copy_str(msg.role.as_str()),
            content: copy_str(&msg.content),
            tool_calls,
            tool_call_id: copy_opt(&msg.tool_call_id),
        }
    }

    /// The tools in the form of the API; none where there are none.
    pub fn to_chat_tools(tools: &[ToolDef]) -> (r: Option<Vec<ChatTool>>)
        ensures
            match r {
                None => tools@.len() == 0,
                Some(t) => tools@.len() > 0 && chat_tools_view(t@) == tool_defs_view(
                    tools@,
                ).map_values(|d: ToolDefView| ("function"@, d)),
            },
    {
        if tools.len() == 0 {
            return None;
        }
        let mut list: Vec<ChatTool> = Vec::new();
        let mut i: usize = 0;
        while i < tools.len()
            invariant
                i <= tools@.len(),
                list@.len() == i,
                forall|k: int|
                    0 <= k < i ==> (#[trigger] list@[k]).tool_type@ == "function"@
                        && list@[k].function@ == tools@[k]@,
            decreases tools@.len() - i,
        {
            list.push(
                ChatTool {
                    tool_type: copy_str("function"),
                    function: ToolDef {
                        name: copy_str(&tools[i].name),
                        description: copy_str(&tools[i].description),
                        parameters: copy_str(&tools[i].parameters),
                    },
                },
            );
            i += 1;
        }
        assert(chat_tools_view(list@) =~= tool_defs_view(tools@).map_values(
            |d: ToolDefView| ("function"@, d),
        ));
        Some(list)
    }

    /// The request for a conversation: with the tools and in one piece, or
    /// without them and streamed.
    pub fn chat_request(&self, messages: &[Message], tools: &[ToolDef], stream: bool) -> (r:
        ChatRequest)
        ensures
            r.model@ == self.model_name(),
            chat_messages_view(r.messages@) == types::messages_view(messages@).map_values(
                |m: MessageView| chat_message(m),
            ),
            r.stream == stream,
            match r.tools {
                None => stream || tools@.len() == 0,
                Some(t) => !stream && tools@.len() > 0 && chat_tools_view(t@) == tool_defs_view(
                    tools@,
                ).map_values(|d: ToolDefView| ("function"@, d)),
            },
    {
        let mut list: Vec<ChatMessage> = Vec::new();
        let mut i: usize = 0;
        while i < messages.len()
            invariant
                i <= messages@.len(),
                list@.len() == i,
                forall|k: int| 0 <= k < i ==> (#[trigger] list@[k])@ == chat_message(messages@[k]@),
            decreases messages@.len() - i,
        {
            list.push(Self::to_chat_message(&messages[i]));
            i += 1;
        }
        assert(chat_messages_view(list@) =~= types::messages_view(messages@).map_values(
            |m: MessageView| chat_message(m),
        ));
        let tools = if stream {
            None
        } else {
            Self::to_chat_tools(tools)
        };
        ChatRequest { model: copy_str(&self.model), messages: list, tools, stream }
    }

    /// The reply in the form of the library.
    pub fn parse_response(resp: &ChatResponse) -> (r: Result<LLMResponse, String>)
        ensures
            match parsed_response(*resp) {
                Some(v) => r matches Ok(x) && x@ == v,
                None => r matches Err(m) && m@ == "OpenAI response contains no choices"@,
            },
    {
        if resp.choices.len() == 0 {
            return Err(copy_str("OpenAI response contains no choices"));
        }
        let m = &resp.choices[0].message;
        let mut list: Vec<ToolCall> = Vec::new();
        if let Some(calls) = &m.tool_calls {
            let mut i: usize = 0;
            while i < calls.len()
                invariant
                    i <= calls@.len(),
                    list@.len() == i,
                    forall|k: int|
                        0 <= k < i ==> (#[trigger] list@[k])@ == replied_call(
                            calls@[k]@,
                            json::parsed_json(calls@[k]@.arguments),
                        ),
                decreases calls@.len() - i,
            {
                let c = &calls[i];
                list.push(tool_call_of(c, parse_json(&c.function.arguments)));
                i += 1;
            }
            assert(types::calls_view(list@) =~= chat_calls_view(calls@).map_values(
                |c: ChatCallView| replied_call(c, json::parsed_json(c.arguments)),
            ));
        } else {
            assert(types::calls_view(list@) =~= Seq::empty());
        }
        let (prompt_tokens, completion_tokens) = match &resp.usage {
            Some(u) => (u.prompt_tokens, u.completion_tokens),
            None => (0, 0),
        };
        Ok(
            LLMResponse {
                content: copy_str(&m.content),
                tool_calls: list,
                prompt_tokens,
                completion_tokens,
            },
        )
    }

    /// What a request came to.
    pub fn chat_complete(reply: HttpReply) -> (r: Result<LLMResponse, String>)
        ensures
            match reply {
                HttpReply::Parsed(resp) => match parsed_response(resp) {
                    Some(v) => r matches Ok(x) && x@ == v,
                    None => r matches Err(m) && m@ == "OpenAI response contains no choices"@,
                },
                _ => r matches Err(m) && m@ == reply_problem(reply),
            },
    {
        match reply {
            HttpReply::Parsed(resp) => Self::parse_response(&resp),
            other => Err(problem_message(other)),
        }
    }
}

/// What came of a request.
#[derive(Debug)]
pub enum HttpReply {
    /// It could not be sent.
    SendFailed(String),
    /// The service refused it: the status as it is shown, and the body.
    Refused { status: String, body: String },
    /// The reply could not be read as JSON.
    Unreadable(String),
    /// Reading a stream failed.
    ReadFailed(String),
    /// The reply.
    Parsed(ChatResponse),
}

/// Whether a status is a success.
pub fn is_success(code: u16) -> (r: bool)
    ensures
        r == (200 <= code < 300),
{
    code >= 200 && code < 300
}

/// The message of a request that came to nothing.
pub open spec fn reply_problem(reply: HttpReply) -> Seq<char> {
    match reply {
        HttpReply::SendFailed(e) => "HTTP request failed: "@ + e@,
        HttpReply::Refused { status, body } => "OpenAI API error (status "@ + status@ + "): "@
            + body@,
        HttpReply::Unreadable(e) => "failed to parse OpenAI response: "@ + e@,
        HttpReply::ReadFailed(e) => "stream read error: "@ + e@,
        HttpReply::Parsed(_) => Seq::empty(),
    }
}

/// The message of a request that came to nothing.
pub fn problem_message(reply: HttpReply) -> (r: String)
    ensures
        r@ == reply_problem(reply),
{
    match reply {
        HttpReply::SendFailed(e) => {
            let mut m = copy_str("HTTP request failed: ");
            m.append(&e);
            m
        },
        HttpReply::Refused { status, body } => {
            let mut m = copy_str("OpenAI API error (status ");
            m.append(&status);
            m.append("): ");
            m.append(&body);
            m
        },
        HttpReply::Unreadable(e) => {
            let mut m = copy_str("failed to parse OpenAI response: ");
            m.append(&e);
            m
        },
        HttpReply::ReadFailed(e) => {
            let mut m = copy_str("stream read error: ");
            m.append(&e);
            m
        },
        HttpReply::Parsed(_) => {
            let m = String::new();
            assert(m@ =~= Seq::empty());
            m
        },
    }
}

// ---------------------------------------------------------------------------
// Streams
// ---------------------------------------------------------------------------

/// What a line of a stream says.
pub enum LineView {
    /// Nothing.
    Other,
    /// The stream ends.
    Done,
    /// A piece of data.
    Data(Seq<char>),
}

/// What a line of a stream says: data follow the mark `data: `, and the word
/// `[DONE]` in their place ends the stream.
pub open spec fn line_view(line: Seq<char>) -> LineView {
    let t = text::trim(line);
    if "data: "@.is_prefix_of(t) {
        let d = t.skip(6);
        if d == "[DONE]"@ {
            LineView::Done
        } else {
            LineView::Data(d)
        }
    } else {
        LineView::Other
    }
}

/// What is taken out of the text of a stream.
#[verifier::ext_equal]
pub struct Drained {
    /// The data of the whole lines, in order.
    pub data: Seq<Seq<char>>,
    /// What follows the last whole line that was looked at.
    pub rest: Seq<char>,
    /// Whether the stream has ended.
    pub done: bool,
}

/// What is taken out of the text of a stream: the data of its whole lines, up
/// to the end of the stream.
pub open spec fn drained(buffer: Seq<char>) -> Drained
    decreases buffer.len(),
    via drained_decreases
{
    let k = text::index_of_char(buffer, '\n', 0);
    if k >= buffer.len() {
        Drained { data: Seq::empty(), rest: buffer, done: false }
    } else {
        let rest = buffer.skip(k + 1);
        match line_view(buffer.take(k)) {
            LineView::Done => Drained { data: Seq::empty(), rest, done: true },
            LineView::Data(d) => Drained {
                data: seq![d] + drained(rest).data,
                ..drained(rest)
            },
            LineView::Other => drained(rest),
        }
    }
}

#[via_fn]
proof fn drained_decreases(buffer: Seq<char>) {
    text::lemma_index_of_char(buffer, '\n', 0);
}

/// The text of a stream that has not been looked at, and whether the stream has
/// ended.
pub struct SseBuffer {
    buffer: Vec<char>,
    done: bool,
}

impl SseBuffer {
    /// The text that has not been looked at.
    pub closed spec fn pending(&self) -> Seq<char> {
        self.buffer@
    }

    /// Whether the stream has ended.
    pub closed spec fn ended(&self) -> bool {
        self.done
    }

    /// The beginning of a stream.
    pub fn new() -> (r: Self)
        ensures
            r.pending().len() == 0,
            !r.ended(),
    {
        SseBuffer { buffer: Vec::new(), done: false }
    }

    /// Whether the stream has ended.
    pub fn is_done(&self) -> (r: bool)
        ensures
            r == self.ended(),
    {
        self.done
    }

    /// Takes in a piece of the text and returns the data that are complete. After
    /// the end of the stream nothing is returned any more.
    pub fn push_text(&mut self, piece: &str) -> (r: Vec<String>)
        ensures
            old(self).ended() ==> r@.len() == 0 && final(self).ended(),
            !old(self).ended() ==> {
                let d = drained(old(self).pending() + piece@);
                &&& text::views(r@) == d.data
                &&& final(self).pending() == d.rest
                &&& final(self).ended() == d.done
            },
    {
        let mut r: Vec<String> = Vec::new();
        if self.done {
            return r;
        }
        let more = to_chars(piece);
        let ghost all = self.buffer@ + piece@;
        text::extend_chars(&mut self.buffer, &more);
        let buffer = sub_chars(&self.buffer, 0, self.buffer.len());
        assert(buffer@ =~= all);
        let mut i: usize = 0;
        let ghost whole = drained(all);
        assert(all.skip(0) =~= all);
        assert(text::views(r@) + drained(all.skip(0)).data =~= whole.data);
        while !self.done && i < buffer.len()
            invariant
                i <= buffer@.len(),
                buffer@ == all,
                !self.done ==> {
                    &&& whole.data == text::views(r@) + drained(all.skip(i as int)).data
                    &&& whole.rest == drained(all.skip(i as int)).rest
                    &&& whole.done == drained(all.skip(i as int)).done
                },
                self.done ==> whole == (Drained {
                    data: text::views(r@),
                    rest: all.skip(i as int),
                    done: true,
                }),
            ensures
                i <= buffer@.len(),
                self.done ==> whole == (Drained {
                    data: text::views(r@),
                    rest: all.skip(i as int),
                    done: true,
                }),
                !self.done ==> whole == (Drained {
                    data: text::views(r@),
                    rest: all.skip(i as int),
                    done: false,
                }),
            decreases buffer@.len() - i,
        {
            let ghost here = all.skip(i as int);
            let k = find_char(&buffer, '\n', i);
            proof {
                lemma_index_shift(all, i as int);
            }
            if k == buffer.len() {
                assert(drained(here) == (Drained { data: Seq::empty(), rest: here, done: false }));
                assert(text::views(r@) + Seq::<Seq<char>>::empty() =~= text::views(r@));
                break;
            }
            let line = sub_chars(&buffer, i, k);
            assert(line@ =~= here.take(k - i));
            assert(here.skip(k - i + 1) =~= all.skip(k + 1));
            i = k + 1;
            match read_line(&line) {
                StreamLine::Other => {},
                StreamLine::Done => {
                    self.done = true;
                    assert(text::views(r@) + Seq::<Seq<char>>::empty() =~= text::views(r@));
                },
                StreamLine::Data(d) => {
                    let ghost before = r@;
                    let ghost dv = d@;
                    r.push(d);
                    proof {
                        assert(text::views(r@) =~= text::views(before).push(dv));
                        let more = drained(all.skip(i as int)).data;
                        assert(text::views(before) + (seq![dv] + more) =~= text::views(
                            before,
                        ).push(dv) + more);
                    }
                },
            }
        }
        let rest = sub_chars(&buffer, i, buffer.len());
        assert(rest@ =~= all.skip(i as int));
        self.buffer = rest;
        r
    }

    /// Takes in a piece of the stream and returns the data that are complete. Each
    /// piece is read as UTF-8 by itself, so a character that is cut in two between
    /// pieces is lost.
    pub fn push_bytes(&mut self, piece: &[u8]) -> (r: Vec<String>)
        ensures
            old(self).ended() ==> r@.len() == 0 && final(self).ended(),
            !old(self).ended() ==> {
                let d = drained(old(self).pending() + bytes::utf8_text(piece@));
                &&& text::views(r@) == d.data
                &&& final(self).pending() == d.rest
                &&& final(self).ended() == d.done
            },
    {
        let t = text_of(piece);
        self.push_text(&t)
    }
}

/// What a line of a stream says.
enum StreamLine {
    Other,
    Done,
    Data(String),
}

impl View for StreamLine {
    type V = LineView;

    closed spec fn view(&self) -> LineView {
        match self {
            StreamLine::Other => LineView::Other,
            StreamLine::Done => LineView::Done,
            StreamLine::Data(d) => LineView::Data(d@),
        }
    }
}

/// What a line of a stream says.
fn read_line(line: &[char]) -> (r: StreamLine)
    ensures
        r@ == line_view(line@),
{
    let t = trim_chars(line);
    let mark = to_chars("data: ");
    proof {
        reveal_strlit("data: ");
    }
    if !starts_with_chars(&t, &mark) {
        return StreamLine::Other;
    }
    let d = sub_chars(&t, 6, t.len());
    assert(d@ =~= t@.skip(6));
    let s = from_chars(&d);
    if str_eq(&s, "[DONE]") {
        StreamLine::Done
    } else {
        StreamLine::Data(s)
    }
}

/// Where a line ends does not depend on what stands before it.
proof fn lemma_index_shift(s: Seq<char>, i: int)
    requires
        0 <= i <= s.len(),
    ensures
        text::index_of_char(s.skip(i), '\n', 0) == text::index_of_char(s, '\n', i) - i,
{
    lemma_index_shift_from(s, i, 0);
}

proof fn lemma_index_shift_from(s: Seq<char>, i: int, j: int)
    requires
        0 <= i <= s.len(),
        0 <= j <= s.len() - i,
    ensures
        text::index_of_char(s.skip(i), '\n', j) == text::index_of_char(s, '\n', i + j) - i,
    decreases s.len() - i - j,
{
    if j < s.len() - i && s[i + j] != '\n' {
        lemma_index_shift_from(s, i, j + 1);
    }
}

/// The text that a piece of data brings: the content of the first choice, if
/// there is one and it is not empty.
pub fn delta_text(choices: &[Option<String>]) -> (r: Option<String>)
    ensures
        match r {
            Some(s) => choices@.len() > 0 && s@.len() > 0 && types::opt_view(choices@[0]) == Some(
                s@,
            ),
            None => choices@.len() == 0 || choices@[0] is None || choices@[0]->0@.len() == 0,
        },
{
    if choices.len() == 0 {
        return None;
    }
    match &choices[0] {
        None => None,
        Some(c) => {
            let v = to_chars(c);
            if v.len() == 0 {
                None
            } else {
                Some(copy_str(c))
            }
        },
    }
}

proof fn lemma_index_append(a: Seq<char>, b: Seq<char>, i: int)
    requires
        0 <= i <= a.len(),
        text::index_of_char(a, '\n', i) < a.len(),
    ensures
        text::index_of_char(a + b, '\n', i) == text::index_of_char(a, '\n', i),
    decreases a.len() - i,
{
    if i < a.len() && a[i] != '\n' {
        lemma_index_append(a, b, i + 1);
    }
}

/// How the text of a stream is cut into pieces of whole characters does not
/// matter: what is taken out of two pieces one after the other is what is taken
/// out of both at once.
pub proof fn law_pieces_do_not_matter(a: Seq<char>, b: Seq<char>)
    ensures
        drained(a).done ==> drained(a + b).done && drained(a + b).data == drained(a).data,
        !drained(a).done ==> {
            let next = drained(drained(a).rest + b);
            &&& drained(a + b).data == drained(a).data + next.data
            &&& drained(a + b).rest == next.rest
            &&& drained(a + b).done == next.done
        },
    decreases a.len(),
{
    text::lemma_index_of_char(a, '\n', 0);
    let k = text::index_of_char(a, '\n', 0);
    if k < a.len() {
        lemma_index_append(a, b, 0);
        let rest = a.skip(k + 1);
        assert((a + b).skip(k + 1) =~= rest + b);
        assert((a + b).take(k) =~= a.take(k));
        law_pieces_do_not_matter(rest, b);
        match line_view(a.take(k)) {
            LineView::Data(d) => {
                if !drained(rest).done {
                    let next = drained(drained(rest).rest + b);
                    assert(seq![d] + (drained(rest).data + next.data) =~= seq![d] + drained(
                        rest,
                    ).data + next.data);
                }
            },
            _ => {},
        }
    } else {
        assert(Seq::<Seq<char>>::empty() + drained(a + b).data =~= drained(a + b).data);
    }
}

// ---------------------------------------------------------------------------
// What is kept of messages and replies
// ---------------------------------------------------------------------------

/// Nothing of a reply is lost: the text of the first message that is offered is
/// the text of the reply, every tool call of that message is one of the reply, in
/// the same place, under its own identifier and name and with its arguments, and
/// the tokens are those that are reported. A reply without messages is none.
pub proof fn law_every_call_of_a_reply_is_kept(resp: ChatResponse)
    ensures
        parsed_response(resp) is Some <==> resp.choices@.len() > 0,
        parsed_response(resp) matches Some(r) ==> {
            let m = resp.choices@[0].message;
            &&& r.content == m.content@
            &&& m.tool_calls is None ==> r.tool_calls.len() == 0
            &&& m.tool_calls matches Some(calls) ==> {
                &&& r.tool_calls.len() == calls@.len()
                &&& forall|i: int|
                    0 <= i < calls@.len() ==> {
                        &&& (#[trigger] r.tool_calls[i]).id == calls@[i].id@
                        &&& r.tool_calls[i].name == calls@[i].function.name@
                        &&& r.tool_calls[i].original_name is None
                        &&& match json::parsed_json(calls@[i].function.arguments@) {
                            Ok(compact) => r.tool_calls[i].arguments == compact,
                            Err(_) => r.tool_calls[i].arguments == seq!['{', '}'],
                        }
                    }
            }
            &&& resp.usage is None ==> r.prompt_tokens == 0 && r.completion_tokens == 0
            &&& resp.usage matches Some(u) ==> r.prompt_tokens == u.prompt_tokens
                && r.completion_tokens == u.completion_tokens
        },
{
    reveal_strlit("{}");
    assert("{}"@ =~= seq!['{', '}']);
}

/// Nothing of a message is lost on its way to the model: its text, the call that
/// it answers and each tool call that it asks for are in the message that is
/// sent, and its role is told from the other roles.
pub proof fn law_messages_are_sent_whole(m: MessageView)
    ensures
        ({
            let c = chat_message(m);
            &&& c.content == m.content
            &&& c.tool_call_id == m.tool_call_id
            &&& c.tool_calls is Some <==> m.tool_calls is Some
            &&& m.tool_calls matches Some(calls) ==> {
                &&& c.tool_calls->0.len() == calls.len()
                &&& forall|i: int|
                    0 <= i < calls.len() ==> {
                        &&& (#[trigger] c.tool_calls->0[i]).id == calls[i].id
                        &&& c.tool_calls->0[i].name == calls[i].name
                        &&& c.tool_calls->0[i].arguments == calls[i].arguments
                        &&& c.tool_calls->0[i].call_type == "function"@
                    }
            }
            &&& m.role == types::Role::System ==> c.role == "system"@
            &&& m.role == types::Role::User ==> c.role == "user"@
            &&& m.role == types::Role::Assistant ==> c.role == "assistant"@
            &&& m.role == types::Role::Tool ==> c.role == "tool"@
        }),
{
}

/// What a stream brings line by line: the data of a line that is marked as such,
/// nothing for any other line, and the end where the data say so; a line that is
/// not whole yet waits. The data come in the order of their lines.
pub proof fn law_every_line_of_a_stream_counts(line: Seq<char>, more: Seq<char>, data: Seq<char>)
    requires
        !line.contains('\n'),
    ensures
        ({
            let d = drained(line + seq!['\n'] + more);
            &&& text::trim(line) == "data: "@ + data && data != "[DONE]"@ ==> {
                &&& d.data == seq![data] + drained(more).data
                &&& d.rest == drained(more).rest
                &&& d.done == drained(more).done
            }
            &&& text::trim(line) == "data: [DONE]"@ ==> {
                &&& d.data.len() == 0
                &&& d.rest == more
                &&& d.done
            }
            &&& !"data: "@.is_prefix_of(text::trim(line)) ==> d == drained(more)
        }),
        drained(line).data.len() == 0,
        drained(line).rest == line,
        !drained(line).done,
{
    reveal_strlit("data: ");
    reveal_strlit("[DONE]");
    reveal_strlit("data: [DONE]");
    let s = line + seq!['\n'] + more;
    text::lemma_index_of_char(s, '\n', 0);
    text::lemma_index_of_char(line, '\n', 0);
    let k = text::index_of_char(s, '\n', 0);
    assert(s[line.len() as int] == '\n');
    if k < line.len() {
        assert(line[k] == '\n');
        assert(line.contains(line[k]));
    }
    assert(k == line.len());
    let j = text::index_of_char(line, '\n', 0);
    if j < line.len() {
        assert(line.contains(line[j]));
    }
    assert(s.take(k) =~= line);
    assert(s.skip(k + 1) =~= more);
    let t = text::trim(line);
    if t == "data: "@ + data {
        assert(t.skip(6) =~= data);
        assert(t.subrange(0, 6) =~= "data: "@);
    }
    if t == "data: [DONE]"@ {
        assert(t.skip(6) =~= "[DONE]"@);
        assert(t.subrange(0, 6) =~= "data: "@);
    }
}

/// The endpoint is what is given, without the slashes at its end and with nothing
/// else taken away, or the service's own.
pub proof fn law_the_endpoint_is_what_is_given(base: Seq<char>)
    ensures
        ({
            let e = endpoint(Some(base));
            &&& e.is_prefix_of(base)
            &&& forall|i: int| e.len() <= i < base.len() ==> #[trigger] base[i] == '/'
            &&& e.len() > 0 ==> e.last() != '/'
        }),
        endpoint(None) == "https://api.openai.com/v1"@,
{
    lemma_trim_slashes(base);
    reveal_strlit("https://api.openai.com/v1");
}

proof fn lemma_trim_slashes(s: Seq<char>)
    ensures
        trim_slashes(s).is_prefix_of(s),
        forall|i: int| trim_slashes(s).len() <= i < s.len() ==> #[trigger] s[i] == '/',
        trim_slashes(s).len() > 0 ==> trim_slashes(s).last() != '/',
    decreases s.len(),
{
    if s.len() > 0 && s.last() == '/' {
        let t = s.drop_last();
        lemma_trim_slashes(t);
        let r = trim_slashes(t);
        assert forall|i: int| r.len() <= i < s.len() implies #[trigger] s[i] == '/' by {
            if i < t.len() {
                assert(t[i] == s[i]);
            }
        }
        assert(r =~= s.subrange(0, r.len() as int)) by {
            assert(r == t.subrange(0, r.len() as int));
        }
    } else {
        assert(s =~= s.subrange(0, s.len() as int));
    }
}

/// A request that came to nothing is told with why.
pub proof fn law_failed_requests_are_told(e: String, status: String, body: String)
    ensures
        text::holds(reply_problem(HttpReply::SendFailed(e)), e@),
        text::holds(reply_problem(HttpReply::Unreadable(e)), e@),
        text::holds(reply_problem(HttpReply::ReadFailed(e)), e@),
        text::holds(reply_problem(HttpReply::Refused { status, body }), status@),
        text::holds(reply_problem(HttpReply::Refused { status, body }), body@),
        reply_problem(HttpReply::Refused { status, body }) == "OpenAI API error (status "@ + status@
            + "): "@ + body@,
        reply_problem(HttpReply::SendFailed(e)) == "HTTP request failed: "@ + e@,
{
    let none = Seq::<char>::empty();
    assert("HTTP request failed: "@ + e@ =~= "HTTP request failed: "@ + e@ + none);
    assert("failed to parse OpenAI response: "@ + e@ =~= "failed to parse OpenAI response: "@ + e@
        + none);
    assert("stream read error: "@ + e@ =~= "stream read error: "@ + e@ + none);
    let a = "OpenAI API error (status "@;
    let b = "): "@;
    assert(a + status@ + b + body@ =~= a + status@ + (b + body@));
    assert(a + status@ + b + body@ =~= (a + status@ + b) + body@ + none);
}

/// What is said of the messages of the service is what they hold.
pub proof fn law_chat_messages_say_what_they_hold(m: ChatMessage, c: ChatToolCall)
    ensures
        c@.id == c.id@,
        c@.call_type == c.call_type@,
        c@.name == c.function.name@,
        c@.arguments == c.function.arguments@,
        m@.role == m.role@,
        m@.content == m.content@,
        m.tool_call_id matches Some(id) ==> m@.tool_call_id == Some(id@),
        m.tool_call_id is None ==> m@.tool_call_id is None,
        m.tool_calls is None ==> m@.tool_calls is None,
        m.tool_calls matches Some(calls) ==> {
            &&& m@.tool_calls is Some
            &&& m@.tool_calls->0.len() == calls@.len()
            &&& forall|i: int| 0 <= i < calls@.len() ==> #[trigger] m@.tool_calls->0[i]
                == calls@[i]@
        },
{
}

/// The settings of the provider are usable where there is a key and the endpoint
/// is a URL, and only there.
pub proof fn law_usable_settings(
    api_key: Seq<char>,
    endpoint: Seq<char>,
    parsed: Result<UrlView, Seq<char>>,
)
    ensures
        settings_problem(api_key, endpoint, parsed) is None <==> api_key.len() > 0 && parsed is Ok,
        api_key.len() > 0 ==> (parsed matches Err(e) ==> text::holds(
            settings_problem(api_key, endpoint, parsed)->0,
            e,
        ) && text::holds(settings_problem(api_key, endpoint, parsed)->0, endpoint)),
{
    if let Err(e) = parsed {
        let a = "invalid base URL '"@;
        let b = "': "@;
        assert(a + endpoint + b + e =~= a + endpoint + (b + e));
        text::lemma_holds_ends(a + endpoint + b, e);
    }
}

// ---------------------------------------------------------------------------
// What is sent can be read
// ---------------------------------------------------------------------------

/// The function of a call, member by member.
pub open spec fn function_object(c: ChatCallView) -> Seq<char> {
    json::object_of(
        seq![
            ("name"@, json::json_string(c.name)),
            ("arguments"@, json::json_string(c.arguments)),
        ],
    )
}

/// A call, member by member.
spec fn call_members(c: ChatCallView) -> Seq<(Seq<char>, Seq<char>)> {
    seq![
        ("id"@, json::json_string(c.id)),
        ("type"@, json::json_string(c.call_type)),
        ("function"@, function_object(c)),
    ]
}

#[verifier::spinoff_prover]
#[verifier::rlimit(40)]
proof fn lemma_call_members(c: ChatCallView)
    ensures
        chat_call_json(c) == json::object_of(call_members(c)),
{
    reveal_strlit("{\"id\":");
    reveal_strlit(",\"type\":");
    reveal_strlit(",\"function\":{\"name\":");
    reveal_strlit(",\"arguments\":");
    reveal_strlit("}}");
    reveal_strlit("id");
    reveal_strlit("type");
    reveal_strlit("function");
    reveal_strlit("name");
    reveal_strlit("arguments");
    json::lemma_plain_string("id"@);
    json::lemma_plain_string("type"@);
    json::lemma_plain_string("function"@);
    json::lemma_plain_string("name"@);
    json::lemma_plain_string("arguments"@);
    let id = json::json_string(c.id);
    let kind = json::json_string(c.call_type);
    let name = json::json_string(c.name);
    let arguments = json::json_string(c.arguments);
    let colon = seq![':'];
    let comma = seq![','];
    json::lemma_inner_one("name"@, name);
    json::lemma_inner_more(seq![("name"@, name)], "arguments"@, arguments);
    assert(seq![("name"@, name)].push(("arguments"@, arguments)) =~= seq![
        ("name"@, name),
        ("arguments"@, arguments),
    ]);
    let f = function_object(c);
    let m1 = seq![("id"@, id)];
    let m2 = m1.push(("type"@, kind));
    json::lemma_inner_one("id"@, id);
    json::lemma_inner_more(m1, "type"@, kind);
    json::lemma_inner_more(m2, "function"@, f);
    assert(m2.push(("function"@, f)) =~= call_members(c));
    let k1 = json::json_string("id"@) + colon;
    let k2 = comma + json::json_string("type"@) + colon;
    let k3 = comma + json::json_string("function"@) + colon;
    let k4 = json::json_string("name"@) + colon;
    let k5 = comma + json::json_string("arguments"@) + colon;
    assert("{\"id\":"@ =~= seq!['{'] + k1);
    assert(",\"type\":"@ =~= k2);
    assert(",\"function\":{\"name\":"@ =~= k3 + seq!['{'] + k4);
    assert(",\"arguments\":"@ =~= k5);
    assert("}}"@ =~= seq!['}'] + seq!['}']);
    assert(f == seq!['{'] + (k4 + name + k5 + arguments) + seq!['}']);
    assert(json::object_of(call_members(c)) == seq!['{'] + (k1 + id + k2 + kind + k3 + f) + seq![
        '}',
    ]);
    assert(chat_call_json(c) =~= json::object_of(call_members(c)));
}

proof fn lemma_call_passes(c: ChatCallView, depth: nat)
    ensures
        json::passes(chat_call_json(c), depth),
        json::passes(function_object(c), depth),
        chat_call_json(c).len() > 0,
        chat_call_json(c)[0] == '{',
{
    lemma_call_members(c);
    json::lemma_passes_string(c.name, depth + 1);
    json::lemma_passes_string(c.arguments, depth + 1);
    json::lemma_passes_string(c.name, depth + 2);
    json::lemma_passes_string(c.arguments, depth + 2);
    json::lemma_passes_string(c.id, depth + 1);
    json::lemma_passes_string(c.call_type, depth + 1);
    let f = seq![
        ("name"@, json::json_string(c.name)),
        ("arguments"@, json::json_string(c.arguments)),
    ];
    json::lemma_passes_object(f, depth);
    json::lemma_passes_object(f, depth + 1);
    json::lemma_passes_object(call_members(c), depth);
}

/// A call that is sent is read as it is: its identifier and its kind, and in the
/// function its name and its arguments.
pub proof fn law_sent_calls_are_read_back(c: ChatCallView)
    ensures
        ({
            let s = chat_call_json(c);
            &&& json::text_member(s, "id"@) == Some(c.id)
            &&& json::text_member(s, "type"@) == Some(c.call_type)
            &&& json::value_member(s, "function"@) matches Some(f) && {
                &&& json::text_member(f, "name"@) == Some(c.name)
                &&& json::text_member(f, "arguments"@) == Some(c.arguments)
            }
        }),
{
    lemma_call_members(c);
    reveal_strlit("id");
    reveal_strlit("type");
    reveal_strlit("function");
    reveal_strlit("name");
    reveal_strlit("arguments");
    assert("id"@.len() == 2 && "type"@.len() == 4 && "function"@.len() == 8);
    assert("name"@.len() == 4 && "arguments"@.len() == 9);
    let s = chat_call_json(c);
    let members = call_members(c);
    json::lemma_passes_string(c.id, 0);
    json::lemma_passes_string(c.call_type, 0);
    lemma_call_passes(c, 0);
    assert forall|k: int| 0 <= k < members.len() implies json::passes(
        (#[trigger] members[k]).1,
        0,
    ) by {}
    json::law_objects_are_read_back(members, 0);
    json::law_objects_are_read_back(members, 1);
    json::law_objects_are_read_back(members, 2);
    json::lemma_text_member(s, "id"@, c.id);
    json::lemma_text_member(s, "type"@, c.call_type);
    let f = function_object(c);
    let inside = seq![
        ("name"@, json::json_string(c.name)),
        ("arguments"@, json::json_string(c.arguments)),
    ];
    json::lemma_passes_string(c.name, 0);
    json::lemma_passes_string(c.arguments, 0);
    assert forall|k: int| 0 <= k < inside.len() implies json::passes((#[trigger] inside[k]).1, 0) by {}
    json::law_objects_are_read_back(inside, 0);
    json::law_objects_are_read_back(inside, 1);
    json::lemma_text_member(f, "name"@, c.name);
    json::lemma_text_member(f, "arguments"@, c.arguments);
}

/// The calls of a message as JSON texts.
spec fn call_texts(calls: Seq<ChatCallView>) -> Seq<Seq<char>> {
    calls.map_values(|c: ChatCallView| chat_call_json(c))
}

/// A message, member by member.
spec fn message_members(m: ChatMessageView) -> Seq<(Seq<char>, Seq<char>)> {
    let head = seq![
        ("role"@, json::json_string(m.role)),
        ("content"@, json::json_string(m.content)),
    ];
    let calls = match m.tool_calls {
        Some(c) => head.push(("tool_calls"@, json::json_array(call_texts(c)))),
        None => head,
    };
    match m.tool_call_id {
        Some(id) => calls.push(("tool_call_id"@, json::json_string(id))),
        None => calls,
    }
}

#[verifier::spinoff_prover]
#[verifier::rlimit(40)]
proof fn lemma_message_members(m: ChatMessageView)
    ensures
        chat_message_json(m) == json::object_of(message_members(m)),
{
    reveal_strlit("{\"role\":");
    reveal_strlit(",\"content\":");
    reveal_strlit(",\"tool_calls\":");
    reveal_strlit(",\"tool_call_id\":");
    reveal_strlit("}");
    reveal_strlit("role");
    reveal_strlit("content");
    reveal_strlit("tool_calls");
    reveal_strlit("tool_call_id");
    json::lemma_plain_string("role"@);
    json::lemma_plain_string("content"@);
    json::lemma_plain_string("tool_calls"@);
    json::lemma_plain_string("tool_call_id"@);
    let role = json::json_string(m.role);
    let content = json::json_string(m.content);
    let colon = seq![':'];
    let comma = seq![','];
    let m1 = seq![("role"@, role)];
    let head = seq![("role"@, role), ("content"@, content)];
    json::lemma_inner_one("role"@, role);
    json::lemma_inner_more(m1, "content"@, content);
    assert(m1.push(("content"@, content)) =~= head);
    let k1 = json::json_string("role"@) + colon;
    let k2 = comma + json::json_string("content"@) + colon;
    let k3 = comma + json::json_string("tool_calls"@) + colon;
    let k4 = comma + json::json_string("tool_call_id"@) + colon;
    assert("{\"role\":"@ =~= seq!['{'] + k1);
    assert(",\"content\":"@ =~= k2);
    assert(",\"tool_calls\":"@ =~= k3);
    assert(",\"tool_call_id\":"@ =~= k4);
    assert("}"@ =~= seq!['}']);
    let calls = match m.tool_calls {
        Some(c) => head.push(("tool_calls"@, json::json_array(call_texts(c)))),
        None => head,
    };
    let tail = match m.tool_calls {
        Some(c) => k3 + json::json_array(call_texts(c)),
        None => Seq::empty(),
    };
    let base = k1 + role + k2 + content;
    if let Some(c) = m.tool_calls {
        json::lemma_inner_more(head, "tool_calls"@, json::json_array(call_texts(c)));
    }
    assert(json::inner(calls) =~= base + tail);
    let last = match m.tool_call_id {
        Some(id) => k4 + json::json_string(id),
        None => Seq::empty(),
    };
    if let Some(id) = m.tool_call_id {
        json::lemma_inner_more(calls, "tool_call_id"@, json::json_string(id));
        assert(message_members(m) == calls.push(("tool_call_id"@, json::json_string(id))));
    } else {
        assert(message_members(m) == calls);
    }
    assert(json::inner(message_members(m)) =~= base + tail + last);
    let start = "{\"role\":"@ + role + ",\"content\":"@ + content;
    assert(start =~= seq!['{'] + base);
    assert(chat_message_json(m) =~= start + tail + last + seq!['}']);
    assert(json::object_of(message_members(m)) =~= seq!['{'] + (base + tail + last) + seq!['}']);
    assert(start + tail + last + seq!['}'] =~= seq!['{'] + (base + tail + last) + seq!['}']);
}

proof fn lemma_message_passes(m: ChatMessageView, depth: nat)
    ensures
        forall|i: int|
            0 <= i < message_members(m).len() ==> json::passes(
                (#[trigger] message_members(m)[i]).1,
                depth,
            ),
        json::passes(chat_message_json(m), depth),
        chat_message_json(m).len() > 0,
        chat_message_json(m)[0] == '{',
{
    lemma_message_members(m);
    lemma_message_values_pass(m, depth);
    lemma_message_values_pass(m, depth + 1);
    json::lemma_passes_object(message_members(m), depth);
}

proof fn lemma_message_values_pass(m: ChatMessageView, depth: nat)
    ensures
        forall|i: int|
            0 <= i < message_members(m).len() ==> json::passes(
                (#[trigger] message_members(m)[i]).1,
                depth,
            ),
{
    json::lemma_passes_string(m.role, depth);
    json::lemma_passes_string(m.content, depth);
    if let Some(id) = m.tool_call_id {
        json::lemma_passes_string(id, depth);
    }
    if let Some(calls) = m.tool_calls {
        let texts = call_texts(calls);
        assert forall|i: int| 0 <= i < texts.len() implies json::passes(
            #[trigger] texts[i],
            depth + 1,
        ) by {
            lemma_call_passes(calls[i], depth + 1);
        }
        json::lemma_passes_array(texts, depth);
    }
}

/// A message that is sent is read as it is: its role, its text, the call that it
/// answers, and each call that it asks for, in its place and no other.
pub proof fn law_sent_messages_are_read_back(m: ChatMessageView)
    ensures
        ({
            let s = chat_message_json(m);
            &&& json::text_member(s, "role"@) == Some(m.role)
            &&& json::text_member(s, "content"@) == Some(m.content)
            &&& m.tool_call_id matches Some(id) ==> json::text_member(s, "tool_call_id"@) == Some(
                id,
            )
            &&& m.tool_calls matches Some(calls) ==> (json::value_member(
                s,
                "tool_calls"@,
            ) matches Some(list) && {
                &&& json::items(list).len() == calls.len()
                &&& forall|i: int|
                    0 <= i < calls.len() ==> #[trigger] json::items(list)[i] == chat_call_json(
                        calls[i],
                    )
            })
        }),
{
    lemma_sent_texts(m);
    if let Some(calls) = m.tool_calls {
        lemma_sent_call_list(m, calls);
    }
}

proof fn lemma_message_keys(m: ChatMessageView)
    ensures
        forall|a: int, b: int|
            0 <= a < b < message_members(m).len() ==> (#[trigger] message_members(m)[a]).0 != (
            #[trigger] message_members(m)[b]).0,
        message_members(m).len() >= 2,
        message_members(m)[0] == ("role"@, json::json_string(m.role)),
        message_members(m)[1] == ("content"@, json::json_string(m.content)),
        m.tool_calls matches Some(c) ==> message_members(m).len() >= 3 && message_members(m)[2] == (
            "tool_calls"@,
            json::json_array(call_texts(c)),
        ),
        m.tool_call_id matches Some(id) ==> message_members(m).last() == (
            "tool_call_id"@,
            json::json_string(id),
        ),
{
    reveal_strlit("role");
    reveal_strlit("content");
    reveal_strlit("tool_calls");
    reveal_strlit("tool_call_id");
    assert("role"@.len() == 4 && "content"@.len() == 7 && "tool_calls"@.len() == 10);
    assert("tool_call_id"@.len() == 12);
}

proof fn lemma_message_member(m: ChatMessageView, n: int)
    requires
        0 <= n < message_members(m).len(),
    ensures
        json::value_member(chat_message_json(m), message_members(m)[n].0) == Some(
            message_members(m)[n].1,
        ),
{
    lemma_message_members(m);
    lemma_message_passes(m, 0);
    lemma_message_keys(m);
    json::law_objects_are_read_back(message_members(m), n);
}

proof fn lemma_sent_texts(m: ChatMessageView)
    ensures
        json::text_member(chat_message_json(m), "role"@) == Some(m.role),
        json::text_member(chat_message_json(m), "content"@) == Some(m.content),
        m.tool_call_id matches Some(id) ==> json::text_member(
            chat_message_json(m),
            "tool_call_id"@,
        ) == Some(id),
{
    let s = chat_message_json(m);
    lemma_message_keys(m);
    lemma_message_member(m, 0);
    lemma_message_member(m, 1);
    json::lemma_text_member(s, "role"@, m.role);
    json::lemma_text_member(s, "content"@, m.content);
    if let Some(id) = m.tool_call_id {
        lemma_message_member(m, message_members(m).len() - 1);
        json::lemma_text_member(s, "tool_call_id"@, id);
    }
}

proof fn lemma_sent_call_list(m: ChatMessageView, calls: Seq<ChatCallView>)
    requires
        m.tool_calls == Some(calls),
    ensures
        json::value_member(chat_message_json(m), "tool_calls"@) == Some(
            json::json_array(call_texts(calls)),
        ),
        json::items(json::json_array(call_texts(calls))) == call_texts(calls),
{
    lemma_message_keys(m);
    lemma_message_member(m, 2);
    let texts = call_texts(calls);
    assert forall|i: int| 0 <= i < texts.len() implies json::passes(#[trigger] texts[i], 0) by {
        lemma_call_passes(calls[i], 0);
    }
    assert forall|i: int| 0 <= i < texts.len() implies (#[trigger] texts[i]).len() > 0
        && texts[i][0] != ']' by {
        lemma_call_passes(calls[i], 0);
    }
    json::law_arrays_are_read_back(texts);
}

/// A tool that is sent, member by member.
spec fn tool_members(tool_type: Seq<char>, t: ToolDefView) -> Seq<(Seq<char>, Seq<char>)> {
    seq![("type"@, json::json_string(tool_type)), ("function"@, definition_object(t))]
}

/// What is said of a tool, member by member.
pub open spec fn definition_members(t: ToolDefView) -> Seq<(Seq<char>, Seq<char>)> {
    seq![
        ("name"@, json::json_string(t.name)),
        ("description"@, json::json_string(t.description)),
        ("parameters"@, t.parameters),
    ]
}

/// What is said of a tool.
pub open spec fn definition_object(t: ToolDefView) -> Seq<char> {
    json::object_of(definition_members(t))
}

#[verifier::spinoff_prover]
#[verifier::rlimit(40)]
proof fn lemma_tool_members(tool_type: Seq<char>, t: ToolDefView)
    ensures
        chat_tool_json(tool_type, t) == json::object_of(tool_members(tool_type, t)),
{
    reveal_strlit("{\"type\":");
    reveal_strlit(",\"function\":{\"name\":");
    reveal_strlit(",\"description\":");
    reveal_strlit(",\"parameters\":");
    reveal_strlit("}}");
    reveal_strlit("type");
    reveal_strlit("function");
    reveal_strlit("name");
    reveal_strlit("description");
    reveal_strlit("parameters");
    json::lemma_plain_string("type"@);
    json::lemma_plain_string("function"@);
    json::lemma_plain_string("name"@);
    json::lemma_plain_string("description"@);
    json::lemma_plain_string("parameters"@);
    let kind = json::json_string(tool_type);
    let name = json::json_string(t.name);
    let about = json::json_string(t.description);
    let colon = seq![':'];
    let comma = seq![','];
    let d1 = seq![("name"@, name)];
    let d2 = d1.push(("description"@, about));
    json::lemma_inner_one("name"@, name);
    json::lemma_inner_more(d1, "description"@, about);
    json::lemma_inner_more(d2, "parameters"@, t.parameters);
    assert(d2.push(("parameters"@, t.parameters)) =~= definition_members(t));
    let f = definition_object(t);
    let m1 = seq![("type"@, kind)];
    json::lemma_inner_one("type"@, kind);
    json::lemma_inner_more(m1, "function"@, f);
    assert(m1.push(("function"@, f)) =~= tool_members(tool_type, t));
    let k1 = json::json_string("type"@) + colon;
    let k2 = comma + json::json_string("function"@) + colon;
    let k3 = json::json_string("name"@) + colon;
    let k4 = comma + json::json_string("description"@) + colon;
    let k5 = comma + json::json_string("parameters"@) + colon;
    assert("{\"type\":"@ =~= seq!['{'] + k1);
    assert(",\"function\":{\"name\":"@ =~= k2 + seq!['{'] + k3);
    assert(",\"description\":"@ =~= k4);
    assert(",\"parameters\":"@ =~= k5);
    assert("}}"@ =~= seq!['}'] + seq!['}']);
    assert(f == seq!['{'] + (k3 + name + k4 + about + k5 + t.parameters) + seq!['}']);
    assert(chat_tool_json(tool_type, t) =~= json::object_of(tool_members(tool_type, t)));
}

proof fn lemma_tool_passes(tool_type: Seq<char>, t: ToolDefView, depth: nat)
    requires
        json::is_value(t.parameters),
    ensures
        json::passes(chat_tool_json(tool_type, t), depth),
        json::passes(definition_object(t), depth),
        chat_tool_json(tool_type, t).len() > 0,
        chat_tool_json(tool_type, t)[0] == '{',
{
    lemma_tool_members(tool_type, t);
    lemma_definition_passes(t, depth);
    lemma_definition_passes(t, depth + 1);
    json::lemma_passes_string(tool_type, depth + 1);
    json::lemma_passes_object(tool_members(tool_type, t), depth);
}

proof fn lemma_definition_passes(t: ToolDefView, depth: nat)
    requires
        json::is_value(t.parameters),
    ensures
        json::passes(definition_object(t), depth),
{
    json::lemma_passes_string(t.name, depth + 1);
    json::lemma_passes_string(t.description, depth + 1);
    assert(json::passes(t.parameters, depth + 1));
    json::lemma_passes_object(definition_members(t), depth);
}

/// A tool that is sent is read as it is: its name, what it is for, and the schema
/// of its parameters.
pub proof fn law_sent_tools_are_read_back(tool_type: Seq<char>, t: ToolDefView)
    requires
        json::is_value(t.parameters),
    ensures
        ({
            let s = chat_tool_json(tool_type, t);
            &&& json::text_member(s, "type"@) == Some(tool_type)
            &&& json::value_member(s, "function"@) matches Some(f) && {
                &&& json::text_member(f, "name"@) == Some(t.name)
                &&& json::text_member(f, "description"@) == Some(t.description)
                &&& json::value_member(f, "parameters"@) == Some(t.parameters)
            }
        }),
{
    lemma_tool_members(tool_type, t);
    lemma_tool_keys();
    let s = chat_tool_json(tool_type, t);
    let members = tool_members(tool_type, t);
    json::lemma_passes_string(tool_type, 0);
    lemma_definition_passes(t, 0);
    assert forall|k: int| 0 <= k < members.len() implies json::passes(
        (#[trigger] members[k]).1,
        0,
    ) by {}
    json::law_objects_are_read_back(members, 0);
    json::law_objects_are_read_back(members, 1);
    json::lemma_text_member(s, "type"@, tool_type);
    lemma_definition_is_read_back(t);
}

proof fn lemma_tool_keys()
    ensures
        "type"@ != "function"@,
        "name"@ != "description"@,
        "name"@ != "parameters"@,
        "description"@ != "parameters"@,
{
    reveal_strlit("type");
    reveal_strlit("function");
    reveal_strlit("name");
    reveal_strlit("description");
    reveal_strlit("parameters");
    assert("type"@.len() == 4 && "function"@.len() == 8);
    assert("name"@.len() == 4 && "description"@.len() == 11 && "parameters"@.len() == 10);
}

proof fn lemma_definition_is_read_back(t: ToolDefView)
    requires
        json::is_value(t.parameters),
    ensures
        json::text_member(definition_object(t), "name"@) == Some(t.name),
        json::text_member(definition_object(t), "description"@) == Some(t.description),
        json::value_member(definition_object(t), "parameters"@) == Some(t.parameters),
{
    lemma_tool_keys();
    let f = definition_object(t);
    let members = definition_members(t);
    json::lemma_passes_string(t.name, 0);
    json::lemma_passes_string(t.description, 0);
    assert(json::passes(t.parameters, 0));
    assert forall|k: int| 0 <= k < members.len() implies json::passes(
        (#[trigger] members[k]).1,
        0,
    ) by {}
    json::law_objects_are_read_back(members, 0);
    json::law_objects_are_read_back(members, 1);
    json::law_objects_are_read_back(members, 2);
    json::lemma_text_member(f, "name"@, t.name);
    json::lemma_text_member(f, "description"@, t.description);
}

/// The messages of a request as JSON texts.
spec fn message_texts(r: ChatRequest) -> Seq<Seq<char>> {
    chat_messages_view(r.messages@).map_values(|m: ChatMessageView| chat_message_json(m))
}

/// The tools of a request as JSON texts.
spec fn tool_texts(tools: Seq<ChatTool>) -> Seq<Seq<char>> {
    chat_tools_view(tools).map_values(|t: (Seq<char>, ToolDefView)| chat_tool_json(t.0, t.1))
}

/// A truth value as a JSON text.
spec fn flag_text(b: bool) -> Seq<char> {
    if b {
        "true"@
    } else {
        "false"@
    }
}

/// A request, member by member.
spec fn request_members(r: ChatRequest) -> Seq<(Seq<char>, Seq<char>)> {
    let head = seq![
        ("model"@, json::json_string(r.model@)),
        ("messages"@, json::json_array(message_texts(r))),
    ];
    let tools = match r.tools {
        Some(t) => head.push(("tools"@, json::json_array(tool_texts(t@)))),
        None => head,
    };
    tools.push(("stream"@, flag_text(r.stream)))
}

#[verifier::spinoff_prover]
#[verifier::rlimit(40)]
proof fn lemma_request_members(r: ChatRequest)
    ensures
        r.json() == json::object_of(request_members(r)),
{
    reveal_strlit("{\"model\":");
    reveal_strlit(",\"messages\":");
    reveal_strlit(",\"tools\":");
    reveal_strlit(",\"stream\":true}");
    reveal_strlit(",\"stream\":false}");
    reveal_strlit("true");
    reveal_strlit("false");
    reveal_strlit("model");
    reveal_strlit("messages");
    reveal_strlit("tools");
    reveal_strlit("stream");
    json::lemma_plain_string("model"@);
    json::lemma_plain_string("messages"@);
    json::lemma_plain_string("tools"@);
    json::lemma_plain_string("stream"@);
    let model = json::json_string(r.model@);
    let messages = json::json_array(message_texts(r));
    let colon = seq![':'];
    let comma = seq![','];
    let m1 = seq![("model"@, model)];
    let head = seq![("model"@, model), ("messages"@, messages)];
    json::lemma_inner_one("model"@, model);
    json::lemma_inner_more(m1, "messages"@, messages);
    assert(m1.push(("messages"@, messages)) =~= head);
    let k1 = json::json_string("model"@) + colon;
    let k2 = comma + json::json_string("messages"@) + colon;
    let k3 = comma + json::json_string("tools"@) + colon;
    let k4 = comma + json::json_string("stream"@) + colon;
    assert("{\"model\":"@ =~= seq!['{'] + k1);
    assert(",\"messages\":"@ =~= k2);
    assert(",\"tools\":"@ =~= k3);
    assert(",\"stream\":true}"@ =~= k4 + "true"@ + seq!['}']);
    assert(",\"stream\":false}"@ =~= k4 + "false"@ + seq!['}']);
    let tools = match r.tools {
        Some(t) => head.push(("tools"@, json::json_array(tool_texts(t@)))),
        None => head,
    };
    let mid = match r.tools {
        Some(t) => k3 + json::json_array(tool_texts(t@)),
        None => Seq::empty(),
    };
    let base = k1 + model + k2 + messages;
    if let Some(t) = r.tools {
        json::lemma_inner_more(head, "tools"@, json::json_array(tool_texts(t@)));
    }
    assert(json::inner(tools) =~= base + mid);
    let flag = flag_text(r.stream);
    json::lemma_inner_more(tools, "stream"@, flag);
    assert(json::object_of(request_members(r)) == seq!['{'] + (base + mid + k4 + flag) + seq![
        '}',
    ]);
    assert(r.json() =~= seq!['{'] + base + mid + (k4 + flag + seq!['}']));
    assert(r.json() =~= json::object_of(request_members(r)));
}

/// Whether the schemas of the tools of a request are JSON values.
pub open spec fn schemas_are_values(r: ChatRequest) -> bool {
    r.tools matches Some(t) ==> forall|i: int|
        0 <= i < t@.len() ==> json::is_value((#[trigger] t@[i]).function.parameters@)
}

#[verifier::spinoff_prover]
proof fn lemma_messages_pass(r: ChatRequest)
    ensures
        json::passes(json::json_array(message_texts(r)), 0),
{
    let texts = message_texts(r);
    assert forall|i: int| 0 <= i < texts.len() implies json::passes(#[trigger] texts[i], 1) by {
        lemma_message_passes(chat_messages_view(r.messages@)[i], 1);
    }
    json::lemma_passes_array(texts, 0);
}

#[verifier::spinoff_prover]
proof fn lemma_tools_pass(r: ChatRequest)
    requires
        schemas_are_values(r),
    ensures
        r.tools matches Some(t) ==> json::passes(json::json_array(tool_texts(t@)), 0),
{
    if let Some(t) = r.tools {
        let list = tool_texts(t@);
        assert forall|i: int| 0 <= i < list.len() implies json::passes(#[trigger] list[i], 1) by {
            let v = chat_tools_view(t@)[i];
            assert(json::is_value(t@[i].function.parameters@));
            lemma_tool_passes(v.0, v.1, 1);
        }
        json::lemma_passes_array(list, 0);
    }
}

#[verifier::spinoff_prover]
proof fn lemma_flag_passes(stream: bool)
    ensures
        json::passes(flag_text(stream), 0),
{
    reveal_strlit("true");
    reveal_strlit("false");
    json::lemma_passes_word(flag_text(stream), 0);
}

#[verifier::spinoff_prover]
#[verifier::rlimit(40)]
proof fn lemma_request_member(r: ChatRequest, n: int)
    requires
        schemas_are_values(r),
        0 <= n < request_members(r).len(),
    ensures
        json::value_member(r.json(), request_members(r)[n].0) == Some(request_members(r)[n].1),
{
    lemma_request_members(r);
    lemma_request_keys(r);
    json::lemma_passes_string(r.model@, 0);
    lemma_messages_pass(r);
    lemma_tools_pass(r);
    lemma_flag_passes(r.stream);
    let members = request_members(r);
    assert forall|k: int| 0 <= k < members.len() implies json::passes(
        (#[trigger] members[k]).1,
        0,
    ) by {}
    json::law_objects_are_read_back(members, n);
}

#[verifier::spinoff_prover]
proof fn lemma_request_keys(r: ChatRequest)
    ensures
        forall|a: int, b: int|
            0 <= a < b < request_members(r).len() ==> (#[trigger] request_members(r)[a]).0 != (
            #[trigger] request_members(r)[b]).0,
        request_members(r).len() >= 3,
        request_members(r)[0] == ("model"@, json::json_string(r.model@)),
        request_members(r)[1] == ("messages"@, json::json_array(message_texts(r))),
        r.tools matches Some(t) ==> request_members(r).len() == 4 && request_members(r)[2] == (
            "tools"@,
            json::json_array(tool_texts(t@)),
        ),
        request_members(r).last() == ("stream"@, flag_text(r.stream)),
{
    reveal_strlit("model");
    reveal_strlit("messages");
    reveal_strlit("tools");
    reveal_strlit("stream");
    assert("model"@.len() == 5 && "messages"@.len() == 8 && "tools"@.len() == 5);
    assert("stream"@.len() == 6 && "model"@[0] != "tools"@[0]);
}

/// What is sent is the whole conversation: a request is read as it is, with the
/// name of the model, every message in its place and no other, every tool in its
/// place and no other, and whether the reply is streamed.
#[verifier::spinoff_prover]
#[verifier::rlimit(40)]
pub proof fn law_requests_hold_the_conversation(r: ChatRequest)
    requires
        schemas_are_values(r),
    ensures
        json::text_member(r.json(), "model"@) == Some(r.model@),
        json::value_member(r.json(), "messages"@) matches Some(list) && {
            &&& json::items(list).len() == r.messages@.len()
            &&& forall|i: int|
                0 <= i < r.messages@.len() ==> #[trigger] json::items(list)[i] == chat_message_json(
                    r.messages@[i]@,
                )
        },
        r.tools matches Some(t) ==> (json::value_member(r.json(), "tools"@) matches Some(list) && {
            &&& json::items(list).len() == t@.len()
            &&& forall|i: int|
                0 <= i < t@.len() ==> #[trigger] json::items(list)[i] == chat_tool_json(
                    t@[i].tool_type@,
                    t@[i].function@,
                )
        }),
        json::value_member(r.json(), "stream"@) == Some(
            if r.stream {
                "true"@
            } else {
                "false"@
            },
        ),
{
    lemma_request_keys(r);
    lemma_request_member(r, 0);
    lemma_request_member(r, 1);
    lemma_request_member(r, request_members(r).len() - 1);
    json::lemma_text_member(r.json(), "model"@, r.model@);
    let texts = message_texts(r);
    assert forall|i: int| 0 <= i < texts.len() implies json::passes(#[trigger] texts[i], 0) by {
        lemma_message_passes(chat_messages_view(r.messages@)[i], 0);
    }
    assert forall|i: int| 0 <= i < texts.len() implies (#[trigger] texts[i]).len() > 0
        && texts[i][0] != ']' by {
        lemma_message_passes(chat_messages_view(r.messages@)[i], 0);
    }
    json::law_arrays_are_read_back(texts);
    if let Some(t) = r.tools {
        lemma_request_member(r, 2);
        lemma_sent_tool_list(t@);
    }
}

proof fn lemma_sent_tool_list(tools: Seq<ChatTool>)
    requires
        forall|i: int| 0 <= i < tools.len() ==> json::is_value(
            (#[trigger] tools[i]).function.parameters@,
        ),
    ensures
        json::items(json::json_array(tool_texts(tools))) == tool_texts(tools),
{
    let list = tool_texts(tools);
    assert forall|i: int| 0 <= i < list.len() implies json::passes(#[trigger] list[i], 0) by {
        let v = chat_tools_view(tools)[i];
        assert(json::is_value(tools[i].function.parameters@));
        lemma_tool_passes(v.0, v.1, 0);
    }
    assert forall|i: int| 0 <= i < list.len() implies (#[trigger] list[i]).len() > 0 && list[i][0]
        != ']' by {
        let v = chat_tools_view(tools)[i];
        assert(json::is_value(tools[i].function.parameters@));
        lemma_tool_passes(v.0, v.1, 0);
    }
    json::law_arrays_are_read_back(list);
}

} // verus!
