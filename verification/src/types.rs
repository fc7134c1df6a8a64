//! Messages and tool calls: the data that the agent, the model, the memory and
//! the tools exchange.
use crate::text::copy_str;
use vstd::prelude::*;

verus! {

/// Who a message comes from.
#[derive(Debug, Clone, Copy, PartialEq, Eq, Structural, Hash)]
pub enum Role {
    /// The system message: persona, constraints, global instructions.
    System,
    /// Input of the user.
    User,
    /// A reply of the model, possibly with tool calls.
    Assistant,
    /// The result of a tool, linked to its call by `tool_call_id`.
    Tool,
}

impl Role {
    /// The name of a role in JSON documents.
    pub open spec fn name(self) -> Seq<char> {
        match self {
            Role::System => "system"@,
            Role::User => "user"@,
            Role::Assistant => "assistant"@,
            Role::Tool => "tool"@,
        }
    }

    /// The name of a role in JSON documents.
    pub fn as_str(self) -> (r: &'static str)
        ensures
            r@ == self.name(),
    {
        match self {
            Role::System => "system",
            Role::User => "user",
            Role::Assistant => "assistant",
            Role::Tool => "tool",
        }
    }
}

/// A request of the model to call a tool.
#[derive(Debug)]
pub struct ToolCall {
    /// Identifier of the call, chosen by the model.
    pub id: String,
    /// Name of the tool.
    pub name: String,
    /// The arguments, as a compact JSON text.
    pub arguments: String,
    /// The name by which the model knows the tool, where it differs.
    pub original_name: Option<String>,
}

/// What a tool call says.
#[verifier::ext_equal]
pub struct ToolCallView {
    pub id: Seq<char>,
    pub name: Seq<char>,
    pub arguments: Seq<char>,
    pub original_name: Option<Seq<char>>,
}

/// The text in an optional string.
pub open spec fn opt_view(s: Option<String>) -> Option<Seq<char>> {
    match s {
        Some(t) => Some(t@),
        None => None,
    }
}

impl View for ToolCall {
    type V = ToolCallView;

    open spec fn view(&self) -> ToolCallView {
        ToolCallView {
            id: self.id@,
            name: self.name@,
            arguments: self.arguments@,
            original_name: opt_view(self.original_name),
        }
    }
}

/// A copy of an optional string.
pub fn copy_opt(s: &Option<String>) -> (r: Option<String>)
    ensures
        opt_view(r) == opt_view(*s),
        r is Some == s is Some,
{
    match s {
        Some(t) => Some(copy_str(t)),
        None => None,
    }
}

impl Clone for ToolCall {
    fn clone(&self) -> (r: Self)
        ensures
            r@ == self@,
    {
        ToolCall {
            id: copy_str(&self.id),
            name: copy_str(&self.name),
            arguments: copy_str(&self.arguments),
            original_name: copy_opt(&self.original_name),
        }
    }
}

impl ToolCallView {
    /// The name to show: the model's own name for the tool, where there is one.
    pub open spec fn display_name(self) -> Seq<char> {
        match self.original_name {
            Some(n) => n,
            None => self.name,
        }
    }
}

impl ToolCall {
    /// The name to show: `original_name` where there is one, else `name`.
    pub fn display_name(&self) -> (r: &str)
        ensures
            r@ == self@.display_name(),
    {
        match &self.original_name {
            Some(n) => n.as_str(),
            None => self.name.as_str(),
        }
    }
}

/// What a list of tool calls says.
pub open spec fn calls_view(calls: Seq<ToolCall>) -> Seq<ToolCallView> {
    calls.map_values(|c: ToolCall| c@)
}

/// A copy of a list of tool calls.
pub fn copy_calls(calls: &[ToolCall]) -> (r: Vec<ToolCall>)
    ensures
        calls_view(r@) == calls_view(calls@),
        r@.len() == calls@.len(),
{
    let mut r: Vec<ToolCall> = Vec::new();
    let mut i: usize = 0;
    while i < calls.len()
        invariant
            i <= calls@.len(),
            r@.len() == i,
            forall|k: int| 0 <= k < i ==> (#[trigger] r@[k])@ == calls@[k]@,
        decreases calls@.len() - i,
    {
        r.push(calls[i].clone());
        i += 1;
    }
    assert(calls_view(r@) =~= calls_view(calls@));
    r
}

/// One message of a conversation.
#[derive(Debug)]
pub struct Message {
    /// Who it comes from.
    pub role: Role,
    /// Its text.
    pub content: String,
    /// The tool calls that an assistant message asks for.
    pub tool_calls: Option<Vec<ToolCall>>,
    /// The call that a tool message answers.
    pub tool_call_id: Option<String>,
}

/// What a message says.
#[verifier::ext_equal]
pub struct MessageView {
    pub role: Role,
    pub content: Seq<char>,
    pub tool_calls: Option<Seq<ToolCallView>>,
    pub tool_call_id: Option<Seq<char>>,
}

/// What an optional list of tool calls says.
pub open spec fn opt_calls_view(calls: Option<Vec<ToolCall>>) -> Option<Seq<ToolCallView>> {
    match calls {
        Some(c) => Some(calls_view(c@)),
        None => None,
    }
}

impl View for Message {
    type V = MessageView;

    open spec fn view(&self) -> MessageView {
        MessageView {
            role: self.role,
            content: self.content@,
            tool_calls: opt_calls_view(self.tool_calls),
            tool_call_id: opt_view(self.tool_call_id),
        }
    }
}

impl Clone for Message {
    fn clone(&self) -> (r: Self)
        ensures
            r@ == self@,
    {
        let tool_calls = match &self.tool_calls {
            Some(c) => Some(copy_calls(c)),
            None => None,
        };
        Message {
            role: self.role,
            content: copy_str(&self.content),
            tool_calls,
            tool_call_id: copy_opt(&self.tool_call_id),
        }
    }
}

impl MessageView {
    /// A message of text alone.
    pub open spec fn plain(role: Role, content: Seq<char>) -> MessageView {
        MessageView { role, content, tool_calls: None, tool_call_id: None }
    }

    /// An assistant message that asks for tool calls.
    pub open spec fn calling(content: Seq<char>, calls: Seq<ToolCallView>) -> MessageView {
        MessageView {
            role: Role::Assistant,
            content,
            tool_calls: Some(calls),
            tool_call_id: None,
        }
    }

    /// A tool message that answers a call.
    pub open spec fn answering(id: Seq<char>, content: Seq<char>) -> MessageView {
        MessageView { role: Role::Tool, content, tool_calls: None, tool_call_id: Some(id) }
    }

    /// Whether the message asks for at least one tool call.
    pub open spec fn has_tool_calls(self) -> bool {
        match self.tool_calls {
            Some(c) => c.len() > 0,
            None => false,
        }
    }
}

impl Message {
    /// A message of text alone.
    pub fn new(role: Role, content: String) -> (r: Self)
        ensures
            r@ == MessageView::plain(role, content@),
    {
        Message { role, content, tool_calls: None, tool_call_id: None }
    }

    /// An assistant message that asks for tool calls.
    pub fn with_tool_calls(content: String, tool_calls: Vec<ToolCall>) -> (r: Self)
        ensures
            r@ == MessageView::calling(content@, calls_view(tool_calls@)),
    {
        Message {
            role: Role::Assistant,
            content,
            tool_calls: Some(tool_calls),
            tool_call_id: None,
        }
    }

    /// A tool message that answers the call with the given identifier.
    pub fn tool_result(tool_call_id: String, content: String) -> (r: Self)
        ensures
            r@ == MessageView::answering(tool_call_id@, content@),
    {
        Message { role: Role::Tool, content, tool_calls: None, tool_call_id: Some(tool_call_id) }
    }

    /// Whether the message asks for at least one tool call.
    pub fn has_tool_calls(&self) -> (r: bool)
        ensures
            r == self@.has_tool_calls(),
    {
        match &self.tool_calls {
            Some(c) => c.len() > 0,
            None => false,
        }
    }
}

/// What a list of messages says.
pub open spec fn messages_view(messages: Seq<Message>) -> Seq<MessageView> {
    messages.map_values(|m: Message| m@)
}

/// What is said of a tool call is what it holds.
pub proof fn law_calls_say_what_they_hold(c: ToolCall)
    ensures
        c@.id == c.id@,
        c@.name == c.name@,
        c@.arguments == c.arguments@,
        c.original_name matches Some(n) ==> c@.original_name == Some(n@),
        c.original_name is None ==> c@.original_name is None,
        c.original_name matches Some(n) ==> c@.display_name() == n@,
        c.original_name is None ==> c@.display_name() == c.name@,
{
}

/// What is said of a message is what it holds: its role, its text, each of its tool
/// calls in its place, and the call that it answers.
pub proof fn law_messages_say_what_they_hold(m: Message)
    ensures
        m@.role == m.role,
        m@.content == m.content@,
        m.tool_call_id matches Some(id) ==> m@.tool_call_id == Some(id@),
        m.tool_call_id is None ==> m@.tool_call_id is None,
        m.tool_calls is None ==> m@.tool_calls is None,
        m.tool_calls matches Some(calls) ==> {
            &&& m@.tool_calls is Some
            &&& m@.tool_calls->0.len() == calls@.len()
            &&& forall|i: int| 0 <= i < calls@.len() ==> #[trigger] m@.tool_calls->0[i]
                == calls@[i]@
        },
{
}

/// A list of messages says what each of them says, in its order.
pub proof fn law_lists_say_what_their_messages_say(messages: Seq<Message>, i: int)
    requires
        0 <= i < messages.len(),
    ensures
        messages_view(messages).len() == messages.len(),
        messages_view(messages)[i] == messages[i]@,
{
}

/// A message of text is its text and nothing else, one that asks for tools holds
/// each call, and one that answers a call names that call.
pub proof fn law_messages_are_made_of_their_parts(
    role: Role,
    content: Seq<char>,
    calls: Seq<ToolCallView>,
    id: Seq<char>,
)
    ensures
        ({
            let m = MessageView::plain(role, content);
            &&& m.role == role && m.content == content
            &&& m.tool_calls is None && m.tool_call_id is None
        }),
        ({
            let m = MessageView::calling(content, calls);
            &&& m.role == Role::Assistant && m.content == content
            &&& m.tool_calls == Some(calls) && m.tool_call_id is None
        }),
        ({
            let m = MessageView::answering(id, content);
            &&& m.role == Role::Tool && m.content == content
            &&& m.tool_calls is None && m.tool_call_id == Some(id)
        }),
{
}

/// Each role has the name that it is known by.
pub proof fn law_roles_have_their_names(a: Role, b: Role)
    ensures
        a.name() == b.name() ==> a == b,
        Role::System.name() == seq!['s', 'y', 's', 't', 'e', 'm'],
        Role::User.name() == seq!['u', 's', 'e', 'r'],
        Role::Assistant.name() == seq!['a', 's', 's', 'i', 's', 't', 'a', 'n', 't'],
        Role::Tool.name() == seq!['t', 'o', 'o', 'l'],
{
    reveal_strlit("system");
    reveal_strlit("user");
    reveal_strlit("assistant");
    reveal_strlit("tool");
    assert("system"@ =~= seq!['s', 'y', 's', 't', 'e', 'm']);
    assert("user"@ =~= seq!['u', 's', 'e', 'r']);
    assert("assistant"@ =~= seq!['a', 's', 's', 'i', 's', 't', 'a', 'n', 't']);
    assert("tool"@ =~= seq!['t', 'o', 'o', 'l']);
    assert("user"@[0] != "tool"@[0]);
}

/// A message has tool calls where there is at least one.
pub proof fn law_one_call_is_enough(m: MessageView, calls: Seq<ToolCallView>, c: ToolCallView)
    ensures
        m.tool_calls == Some(calls.push(c)) ==> m.has_tool_calls(),
        m.tool_calls == Some(Seq::<ToolCallView>::empty()) ==> !m.has_tool_calls(),
        m.tool_calls is None ==> !m.has_tool_calls(),
{
}

} // verus!
