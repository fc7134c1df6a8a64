//! What the agent tells its observers.
use crate::state::AgentState;
use crate::text::copy_str;
use vstd::prelude::*;

verus! {

/// Something that happened during a run.
#[derive(Debug)]
pub enum AgentEvent {
    /// The agent moved to another state.
    StateChanged(AgentState),
    /// A piece of the answer.
    TokenChunk(String),
    /// A tool begins to run.
    ToolStarted {
        /// Identifier of the call.
        id: String,
        /// Name of the tool.
        name: String,
        /// The arguments, as a compact JSON text.
        args: String,
    },
    /// A tool has ended.
    ToolFinished {
        /// Identifier of the call.
        id: String,
        /// How long it took.
        duration_ms: u64,
        /// Whether it succeeded.
        success: bool,
    },
    /// What a call of the model used.
    TokenUsage {
        /// Number of tokens of the input.
        prompt_tokens: u32,
        /// Number of tokens of the output.
        completion_tokens: u32,
    },
}

/// What an event says.
#[verifier::ext_equal]
pub enum EventView {
    StateChanged(AgentState),
    TokenChunk(Seq<char>),
    ToolStarted { id: Seq<char>, name: Seq<char>, args: Seq<char> },
    ToolFinished { id: Seq<char>, duration_ms: u64, success: bool },
    TokenUsage { prompt_tokens: u32, completion_tokens: u32 },
}

impl View for AgentEvent {
    type V = EventView;

    open spec fn view(&self) -> EventView {
        match self {
            AgentEvent::StateChanged(s) => EventView::StateChanged(*s),
            AgentEvent::TokenChunk(t) => EventView::TokenChunk(t@),
            AgentEvent::ToolStarted { id, name, args } => EventView::ToolStarted {
                id: id@,
                name: name@,
                args: args@,
            },
            AgentEvent::ToolFinished { id, duration_ms, success } => EventView::ToolFinished {
                id: id@,
                duration_ms: *duration_ms,
                success: *success,
            },
            AgentEvent::TokenUsage { prompt_tokens, completion_tokens } => EventView::TokenUsage {
                prompt_tokens: *prompt_tokens,
                completion_tokens: *completion_tokens,
            },
        }
    }
}

impl Clone for AgentEvent {
    fn clone(&self) -> (r: Self)
        ensures
            r@ == self@,
    {
        match self {
            AgentEvent::StateChanged(s) => AgentEvent::StateChanged(*s),
            AgentEvent::TokenChunk(t) => AgentEvent::TokenChunk(copy_str(t)),
            AgentEvent::ToolStarted { id, name, args } => AgentEvent::ToolStarted {
                id: copy_str(id),
                name: copy_str(name),
                args: copy_str(args),
            },
            AgentEvent::ToolFinished { id, duration_ms, success } => AgentEvent::ToolFinished {
                id: copy_str(id),
                duration_ms: *duration_ms,
                success: *success,
            },
            AgentEvent::TokenUsage { prompt_tokens, completion_tokens } => AgentEvent::TokenUsage {
                prompt_tokens: *prompt_tokens,
                completion_tokens: *completion_tokens,
            },
        }
    }
}

/// What a list of events says.
pub open spec fn events_view(events: Seq<AgentEvent>) -> Seq<EventView> {
    events.map_values(|e: AgentEvent| e@)
}

/// What is said of an event is what it holds.
pub proof fn law_events_say_what_they_hold(e: AgentEvent)
    ensures
        match e {
            AgentEvent::StateChanged(s) => e@ == EventView::StateChanged(s),
            AgentEvent::TokenChunk(t) => e@ == EventView::TokenChunk(t@),
            AgentEvent::ToolStarted { id, name, args } => e@ == (EventView::ToolStarted {
                id: id@,
                name: name@,
                args: args@,
            }),
            AgentEvent::ToolFinished { id, duration_ms, success } => e@ == (
            EventView::ToolFinished { id: id@, duration_ms, success }),
            AgentEvent::TokenUsage { prompt_tokens, completion_tokens } => e@ == (
            EventView::TokenUsage { prompt_tokens, completion_tokens }),
        },
{
}

} // verus!
