//! What a call of the model returns.
use crate::types::{self, ToolCall, ToolCallView};
use vstd::prelude::*;

verus! {

/// The reply of a model.
#[derive(Debug)]
pub struct LLMResponse {
    /// The text, possibly empty.
    pub content: String,
    /// The tool calls that the model asks for, possibly none.
    pub tool_calls: Vec<ToolCall>,
    /// Number of tokens of the input.
    pub prompt_tokens: u32,
    /// Number of tokens of the output.
    pub completion_tokens: u32,
}

/// What a reply says.
#[verifier::ext_equal]
pub struct ResponseView {
    pub content: Seq<char>,
    pub tool_calls: Seq<ToolCallView>,
    pub prompt_tokens: u32,
    pub completion_tokens: u32,
}

impl View for LLMResponse {
    type V = ResponseView;

    open spec fn view(&self) -> ResponseView {
        ResponseView {
            content: self.content@,
            tool_calls: types::calls_view(self.tool_calls@),
            prompt_tokens: self.prompt_tokens,
            completion_tokens: self.completion_tokens,
        }
    }
}

impl Clone for LLMResponse {
    fn clone(&self) -> (r: Self)
        ensures
            r@ == self@,
    {
        LLMResponse {
            content: crate::text::copy_str(&self.content),
            tool_calls: crate::types::copy_calls(&self.tool_calls),
            prompt_tokens: self.prompt_tokens,
            completion_tokens: self.completion_tokens,
        }
    }
}

impl LLMResponse {
    /// Whether the model asks for tool calls.
    pub fn has_tool_calls(&self) -> (r: bool)
        ensures
            r == (self@.tool_calls.len() > 0),
    {
        self.tool_calls.len() > 0
    }

    /// A reply of text alone.
    pub fn text(content: String, prompt_tokens: u32, completion_tokens: u32) -> (r: Self)
        ensures
            r@ == (ResponseView {
                content: content@,
                tool_calls: Seq::empty(),
                prompt_tokens,
                completion_tokens,
            }),
    {
        let r = LLMResponse { content, tool_calls: Vec::new(), prompt_tokens, completion_tokens };
        assert(r@.tool_calls =~= Seq::empty());
        r
    }

    /// A reply with tool calls.
    pub fn with_tool_calls(
        content: String,
        tool_calls: Vec<ToolCall>,
        prompt_tokens: u32,
        completion_tokens: u32,
    ) -> (r: Self)
        ensures
            r@ == (ResponseView {
                content: content@,
                tool_calls: types::calls_view(tool_calls@),
                prompt_tokens,
                completion_tokens,
            }),
    {
        LLMResponse { content, tool_calls, prompt_tokens, completion_tokens }
    }
}

/// What is said of a reply is what it holds: its text, each of its tool calls in
/// its place, and the tokens that it took.
pub proof fn law_replies_say_what_they_hold(r: LLMResponse)
    ensures
        r@.content == r.content@,
        r@.tool_calls.len() == r.tool_calls@.len(),
        forall|i: int| 0 <= i < r.tool_calls@.len() ==> #[trigger] r@.tool_calls[i]
            == r.tool_calls@[i]@,
        r@.prompt_tokens == r.prompt_tokens,
        r@.completion_tokens == r.completion_tokens,
{
}

} // verus!
