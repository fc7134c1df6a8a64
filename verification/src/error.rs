//! The errors of the agent core.
use crate::text::{self, copy_str, decimal_usize};
use vstd::prelude::*;

verus! {

/// What went wrong in the agent core.
#[derive(Debug)]
pub enum CogentError {
    /// A call of the model failed; the text of the failure.
    Provider(String),
    /// A tool failed.
    Tool {
        /// Name of the tool.
        tool_name: String,
        /// What failed.
        detail: String,
    },
    /// The configuration is not usable, or a step is not allowed now.
    Config(String),
    /// A tool was called again and again with the same arguments.
    LoopDetected {
        /// Name of the tool.
        tool_name: String,
        /// How many times it was called.
        call_count: usize,
    },
    /// The memory failed.
    Memory(String),
    /// The limit of iterations, which was reached.
    MaxIterationsExceeded(usize),
    /// The iteration in which the model gave neither a text nor a tool call.
    EmptyResponse(usize),
    /// A middleware stopped the run.
    MiddlewareBlocked {
        /// Name of the middleware.
        middleware: String,
        /// Why it did so.
        reason: String,
    },
}

/// What an error says.
#[verifier::ext_equal]
pub enum ErrorView {
    Provider(Seq<char>),
    Tool { tool_name: Seq<char>, detail: Seq<char> },
    Config(Seq<char>),
    LoopDetected { tool_name: Seq<char>, call_count: nat },
    Memory(Seq<char>),
    MaxIterationsExceeded(nat),
    EmptyResponse(nat),
    MiddlewareBlocked { middleware: Seq<char>, reason: Seq<char> },
}

impl View for CogentError {
    type V = ErrorView;

    open spec fn view(&self) -> ErrorView {
        match self {
            CogentError::Provider(m) => ErrorView::Provider(m@),
            CogentError::Tool { tool_name, detail } => ErrorView::Tool {
                tool_name: tool_name@,
                detail: detail@,
            },
            CogentError::Config(m) => ErrorView::Config(m@),
            CogentError::LoopDetected { tool_name, call_count } => ErrorView::LoopDetected {
                tool_name: tool_name@,
                call_count: *call_count as nat,
            },
            CogentError::Memory(m) => ErrorView::Memory(m@),
            CogentError::MaxIterationsExceeded(n) => ErrorView::MaxIterationsExceeded(*n as nat),
            CogentError::EmptyResponse(n) => ErrorView::EmptyResponse(*n as nat),
            CogentError::MiddlewareBlocked { middleware, reason } => ErrorView::MiddlewareBlocked {
                middleware: middleware@,
                reason: reason@,
            },
        }
    }
}

impl ErrorView {
    /// The message of an error.
    pub open spec fn message(self) -> Seq<char> {
        match self {
            ErrorView::Provider(m) => "provider error: "@ + m,
            ErrorView::Tool { tool_name, detail } => "tool '"@ + tool_name + "' failed: "@
                + detail,
            ErrorView::Config(m) => "config error: "@ + m,
            ErrorView::LoopDetected { tool_name, call_count } => "loop detected: tool '"@
                + tool_name + "' called "@ + text::decimal(call_count)
                + " times with identical arguments"@,
            ErrorView::Memory(m) => "memory error: "@ + m,
            ErrorView::MaxIterationsExceeded(n) => "max iterations ("@ + text::decimal(n)
                + ") exceeded, engine terminated"@,
            ErrorView::EmptyResponse(n) => "empty LLM response at iteration "@ + text::decimal(n)
                + " (no content, no tool calls)"@,
            ErrorView::MiddlewareBlocked { middleware, reason } => "middleware '"@ + middleware
                + "' blocked: "@ + reason,
        }
    }
}

impl CogentError {
    /// The message of the error.
    pub fn to_string(&self) -> (r: String)
        ensures
            r@ == self@.message(),
    {
        match self {
            CogentError::Provider(m) => {
                let mut s = copy_str("provider error: ");
                s.append(m);
                s
            },
            CogentError::Tool { tool_name, detail } => {
                let mut s = copy_str("tool '");
                s.append(tool_name);
                s.append("' failed: ");
                s.append(detail);
                s
            },
            CogentError::Config(m) => {
                let mut s = copy_str("config error: ");
                s.append(m);
                s
            },
            CogentError::LoopDetected { tool_name, call_count } => {
                let mut s = copy_str("loop detected: tool '");
                s.append(tool_name);
                s.append("' called ");
                let n = decimal_usize(*call_count);
                s.append(&n);
                s.append(" times with identical arguments");
                s
            },
            CogentError::Memory(m) => {
                let mut s = copy_str("memory error: ");
                s.append(m);
                s
            },
            CogentError::MaxIterationsExceeded(n) => {
                let mut s = copy_str("max iterations (");
                let n = decimal_usize(*n);
                s.append(&n);
                s.append(") exceeded, engine terminated");
                s
            },
            CogentError::EmptyResponse(n) => {
                let mut s = copy_str("empty LLM response at iteration ");
                let n = decimal_usize(*n);
                s.append(&n);
                s.append(" (no content, no tool calls)");
                s
            },
            CogentError::MiddlewareBlocked { middleware, reason } => {
                let mut s = copy_str("middleware '");
                s.append(middleware);
                s.append("' blocked: ");
                s.append(reason);
                s
            },
        }
    }
}

/// The result type of the agent core.
pub type CogentResult<T> = Result<T, CogentError>;

/// A message tells what went wrong: it holds what the error holds.
pub proof fn law_messages_tell_what_went_wrong(a: Seq<char>, b: Seq<char>, n: nat)
    ensures
        text::holds(ErrorView::Provider(a).message(), a),
        text::holds(ErrorView::Config(a).message(), a),
        text::holds(ErrorView::Memory(a).message(), a),
        text::holds(ErrorView::Tool { tool_name: a, detail: b }.message(), a),
        text::holds(ErrorView::Tool { tool_name: a, detail: b }.message(), b),
        text::holds(ErrorView::MiddlewareBlocked { middleware: a, reason: b }.message(), a),
        text::holds(ErrorView::MiddlewareBlocked { middleware: a, reason: b }.message(), b),
        text::holds(ErrorView::LoopDetected { tool_name: a, call_count: n }.message(), a),
        text::holds(
            ErrorView::LoopDetected { tool_name: a, call_count: n }.message(),
            text::decimal(n),
        ),
        text::holds(ErrorView::MaxIterationsExceeded(n).message(), text::decimal(n)),
        text::holds(ErrorView::EmptyResponse(n).message(), text::decimal(n)),
{
    let none = Seq::<char>::empty();
    let d = text::decimal(n);
    assert("provider error: "@ + a =~= "provider error: "@ + a + none);
    assert("config error: "@ + a =~= "config error: "@ + a + none);
    assert("memory error: "@ + a =~= "memory error: "@ + a + none);
    let t = "tool '"@;
    let f = "' failed: "@;
    assert(t + a + f + b =~= t + a + (f + b));
    assert(t + a + f + b =~= (t + a + f) + b + none);
    let m = "middleware '"@;
    let k = "' blocked: "@;
    assert(m + a + k + b =~= m + a + (k + b));
    assert(m + a + k + b =~= (m + a + k) + b + none);
    let l = "loop detected: tool '"@;
    let c = "' called "@;
    let i = " times with identical arguments"@;
    assert(l + a + c + d + i =~= l + a + (c + d + i));
    assert(l + a + c + d + i =~= (l + a + c) + d + i);
}

} // verus!
