//! The states of the agent and the moves between them.
use crate::error::{CogentError, CogentResult, ErrorView};
use crate::text::copy_str;
use vstd::prelude::*;

verus! {

/// Where the agent stands in its loop.
#[derive(Debug, Clone, Copy, PartialEq, Eq, Structural, Hash)]
pub enum AgentState {
    /// Waiting for input.
    Idle,
    /// Calling the model.
    Thinking,
    /// Running the tools that the model asked for.
    ToolCalling,
    /// Handing the results of the tools back to the model.
    Observing,
    /// The model gave its final answer.
    Completed,
    /// An error ended the run.
    Failed,
}

impl AgentState {
    /// The moves that are allowed: every state may fail, and the loop goes from
    /// idle to thinking, from thinking to the tools or to the end, from the
    /// tools to observing, and from there back to thinking.
    pub open spec fn allows(self, target: AgentState) -> bool {
        ||| target == AgentState::Failed
        ||| self == AgentState::Idle && target == AgentState::Thinking
        ||| self == AgentState::Thinking && target == AgentState::ToolCalling
        ||| self == AgentState::Thinking && target == AgentState::Completed
        ||| self == AgentState::ToolCalling && target == AgentState::Observing
        ||| self == AgentState::Observing && target == AgentState::Thinking
    }

    /// Whether the run is over.
    pub open spec fn terminal(self) -> bool {
        self == AgentState::Completed || self == AgentState::Failed
    }

    /// Whether the loop is running.
    pub open spec fn active(self) -> bool {
        self != AgentState::Idle && !self.terminal()
    }

    /// The name of the variant.
    pub open spec fn variant_name(self) -> Seq<char> {
        match self {
            AgentState::Idle => "Idle"@,
            AgentState::Thinking => "Thinking"@,
            AgentState::ToolCalling => "ToolCalling"@,
            AgentState::Observing => "Observing"@,
            AgentState::Completed => "Completed"@,
            AgentState::Failed => "Failed"@,
        }
    }

    /// The name of the state in logs and on the terminal.
    pub open spec fn label(self) -> Seq<char> {
        match self {
            AgentState::Idle => "idle"@,
            AgentState::Thinking => "thinking"@,
            AgentState::ToolCalling => "tool_calling"@,
            AgentState::Observing => "observing"@,
            AgentState::Completed => "completed"@,
            AgentState::Failed => "failed"@,
        }
    }

    /// Why a move is refused.
    pub open spec fn refusal(self, target: AgentState) -> ErrorView {
        ErrorView::Config(
            "illegal state transition: "@ + self.variant_name() + " -> "@ + target.variant_name(),
        )
    }

    /// Moves to `target`, if the table of moves allows it.
    pub fn transition(self, target: AgentState) -> (r: CogentResult<AgentState>)
        ensures
            match r {
                Ok(s) => self.allows(target) && s == target,
                Err(e) => !self.allows(target) && e@ == self.refusal(target),
            },
    {
        if target == AgentState::Failed {
            return Ok(AgentState::Failed);
        }
        let valid = match (self, target) {
            (AgentState::Idle, AgentState::Thinking) => true,
            (AgentState::Thinking, AgentState::ToolCalling) => true,
            (AgentState::Thinking, AgentState::Completed) => true,
            (AgentState::ToolCalling, AgentState::Observing) => true,
            (AgentState::Observing, AgentState::Thinking) => true,
            _ => false,
        };
        if valid {
            Ok(target)
        } else {
            let mut m = copy_str("illegal state transition: ");
            m.append(self.variant());
            m.append(" -> ");
            m.append(target.variant());
            Err(CogentError::Config(m))
        }
    }

    /// The name of the variant.
    fn variant(self) -> (r: &'static str)
        ensures
            r@ == self.variant_name(),
    {
        match self {
            AgentState::Idle => "Idle",
            AgentState::Thinking => "Thinking",
            AgentState::ToolCalling => "ToolCalling",
            AgentState::Observing => "Observing",
            AgentState::Completed => "Completed",
            AgentState::Failed => "Failed",
        }
    }

    /// Whether the run is over.
    pub fn is_terminal(self) -> (r: bool)
        ensures
            r == self.terminal(),
    {
        match self {
            AgentState::Completed | AgentState::Failed => true,
            _ => false,
        }
    }

    /// Whether the loop is running.
    pub fn is_active(self) -> (r: bool)
        ensures
            r == self.active(),
    {
        match self {
            AgentState::Thinking | AgentState::ToolCalling | AgentState::Observing => true,
            _ => false,
        }
    }

    /// Goes back to idle at the end of a round: a terminal state becomes idle,
    /// every other state stays as it is.
    pub fn reset(self) -> (r: AgentState)
        ensures
            r == (if self.terminal() {
                AgentState::Idle
            } else {
                self
            }),
    {
        if self.is_terminal() {
            AgentState::Idle
        } else {
            self
        }
    }

    /// The name of the state in logs and on the terminal.
    pub fn to_string(&self) -> (r: String)
        ensures
            r@ == self.label(),
    {
        let s = match self {
            AgentState::Idle => "idle",
            AgentState::Thinking => "thinking",
            AgentState::ToolCalling => "tool_calling",
            AgentState::Observing => "observing",
            AgentState::Completed => "completed",
            AgentState::Failed => "failed",
        };
        copy_str(s)
    }
}

/// A terminal state allows no move but to failure: a new round begins with
/// `reset`, which gives the idle state, and that allows thinking.
pub proof fn law_terminal_states_end_the_loop(s: AgentState, target: AgentState)
    requires
        s.terminal(),
    ensures
        s.allows(target) ==> target == AgentState::Failed,
        AgentState::Idle.allows(AgentState::Thinking),
        !s.active(),
{
}

/// The only ways through the loop: from idle to thinking, from thinking to the
/// tools or to the answer, from the tools to observing and back to thinking; and
/// from everywhere to failure. Every other move is refused.
pub proof fn law_the_ways_through_the_loop(s: AgentState, t: AgentState)
    ensures
        s.allows(AgentState::Failed),
        t == AgentState::Thinking ==> (s.allows(t) <==> s is Idle || s is Observing),
        t == AgentState::ToolCalling ==> (s.allows(t) <==> s is Thinking),
        t == AgentState::Completed ==> (s.allows(t) <==> s is Thinking),
        t == AgentState::Observing ==> (s.allows(t) <==> s is ToolCalling),
        t == AgentState::Idle ==> !s.allows(t),
        s.terminal() <==> s is Completed || s is Failed,
        s.active() <==> s is Thinking || s is ToolCalling || s is Observing,
{
}

/// Different states have different names and different labels.
pub proof fn law_states_are_told_apart(a: AgentState, b: AgentState)
    ensures
        a.variant_name() == b.variant_name() ==> a == b,
        a.label() == b.label() ==> a == b,
{
    reveal_strlit("Idle");
    reveal_strlit("Thinking");
    reveal_strlit("ToolCalling");
    reveal_strlit("Observing");
    reveal_strlit("Completed");
    reveal_strlit("Failed");
    reveal_strlit("idle");
    reveal_strlit("thinking");
    reveal_strlit("tool_calling");
    reveal_strlit("observing");
    reveal_strlit("completed");
    reveal_strlit("failed");
    assert("Idle"@.len() == 4 && "Thinking"@.len() == 8 && "ToolCalling"@.len() == 11);
    assert("Observing"@.len() == 9 && "Completed"@.len() == 9 && "Failed"@.len() == 6);
    assert("Observing"@[0] != "Completed"@[0]);
    assert("idle"@.len() == 4 && "thinking"@.len() == 8 && "tool_calling"@.len() == 12);
    assert("observing"@.len() == 9 && "completed"@.len() == 9 && "failed"@.len() == 6);
    assert("observing"@[0] != "completed"@[0]);
}

/// A refused change of state is told with both states, in their order.
pub proof fn law_refused_changes_name_both_states(a: AgentState, b: AgentState)
    ensures
        a.refusal(b) matches ErrorView::Config(m) && (a.variant_name() + " -> "@
            + b.variant_name()).is_suffix_of(m),
{
    let head = "illegal state transition: "@;
    let tail = a.variant_name() + " -> "@ + b.variant_name();
    let m = head + a.variant_name() + " -> "@ + b.variant_name();
    assert(m =~= head + tail);
    assert(m.subrange(head.len() as int, m.len() as int) =~= tail);
}

} // verus!
