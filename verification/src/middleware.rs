//! The middleware of the agent: what is let through and what is stopped.
use crate::error::{CogentError, CogentResult, ErrorView};
use crate::json::{self, json_member, read_string};
use crate::memory::{self, estimate_message_tokens, TokenEstimator};
use crate::text::{
    self, contains_str, contains_string, copy_str, decimal_usize, str_eq, to_lower,
};
use crate::types::{self, Message, MessageView};
use std::sync::Arc;
use vstd::prelude::*;

verus! {

/// The middleware that only observes.
#[derive(Debug, Clone, Copy, Default)]
pub struct TracingMiddleware;

impl TracingMiddleware {
    /// Lets every context pass.
    pub fn before_llm(&self, messages: &[Message]) -> (r: CogentResult<()>)
        ensures
            r is Ok,
    {
        Ok(())
    }

    /// Lets every tool call pass.
    pub fn before_tool(&self, tool_name: &str, args: &str) -> (r: CogentResult<()>)
        ensures
            r is Ok,
    {
        Ok(())
    }
}

/// The pieces of commands that are stopped, in lower case.
pub open spec fn destructive_patterns() -> Seq<Seq<char>> {
    seq![
        "rm -rf /"@,
        "rm -rf /*"@,
        "mkfs"@,
        "dd if="@,
        "dd of=/dev/"@,
        ":(){:|:&};:"@,
        "chmod 777 /"@,
        "chmod -r 777 /"@,
        "shutdown"@,
        "reboot"@,
        "halt"@,
        "init 0"@,
        "init 6"@,
        "> /dev/sda"@,
        "> /dev/nvme"@,
    ]
}

/// Appends a pattern.
fn push_pattern(r: &mut Vec<String>, p: &str)
    ensures
        text::views(final(r)@) == text::views(old(r)@).push(p@),
{
    let ghost before = r@;
    r.push(copy_str(p));
    assert(text::views(r@) =~= text::views(before).push(p@));
}

/// The pieces of commands that are stopped, in lower case.
pub fn default_destructive_patterns() -> (r: Vec<String>)
    ensures
        text::views(r@) == destructive_patterns(),
{
    let mut r: Vec<String> = Vec::new();
    assert(text::views(r@) =~= Seq::empty());
    push_pattern(&mut r, "rm -rf /");
    push_pattern(&mut r, "rm -rf /*");
    push_pattern(&mut r, "mkfs");
    push_pattern(&mut r, "dd if=");
    push_pattern(&mut r, "dd of=/dev/");
    push_pattern(&mut r, ":(){:|:&};:");
    push_pattern(&mut r, "chmod 777 /");
    push_pattern(&mut r, "chmod -r 777 /");
    push_pattern(&mut r, "shutdown");
    push_pattern(&mut r, "reboot");
    push_pattern(&mut r, "halt");
    push_pattern(&mut r, "init 0");
    push_pattern(&mut r, "init 6");
    push_pattern(&mut r, "> /dev/sda");
    push_pattern(&mut r, "> /dev/nvme");
    assert(text::views(r@) =~= destructive_patterns());
    r
}

/// The tools that are blocked altogether, unless something else is said: none.
pub fn default_blocked_tools() -> (r: Vec<String>)
    ensures
        r@.len() == 0,
{
    Vec::new()
}

/// The middleware that stops tools and commands that do harm. It looks for
/// pieces of text and does not read the command as a shell would: it keeps a
/// model from slips, and is no barrier against intent.
pub struct SafetyGuardMiddleware {
    blocked_tools: Vec<String>,
    destructive_patterns: Vec<String>,
}

/// The index of the first pattern from index `i` on that a text contains.
pub open spec fn first_pattern(patterns: Seq<Seq<char>>, s: Seq<char>, i: int) -> Option<int>
    decreases patterns.len() - i,
{
    if i < 0 || i >= patterns.len() {
        None
    } else if text::contains(s, patterns[i]) {
        Some(i)
    } else {
        first_pattern(patterns, s, i + 1)
    }
}

/// Why a tool is stopped.
pub open spec fn blocked_tool_error(tool_name: Seq<char>) -> ErrorView {
    ErrorView::MiddlewareBlocked {
        middleware: "SafetyGuard"@,
        reason: "tool '"@ + tool_name + "' is blocked by safety policy"@,
    }
}

/// Why a command is stopped.
pub open spec fn destructive_error(pattern: Seq<char>) -> ErrorView {
    ErrorView::MiddlewareBlocked {
        middleware: "SafetyGuard"@,
        reason: "destructive command pattern '"@ + pattern + "' is blocked by safety policy"@,
    }
}

/// Why a tool call is stopped, given the command in lower case that it holds:
/// its tool is blocked, or it is a shell command with one of the patterns.
pub open spec fn guard_problem(
    blocked: Seq<Seq<char>>,
    patterns: Seq<Seq<char>>,
    tool_name: Seq<char>,
    lower_command: Option<Seq<char>>,
) -> Option<ErrorView> {
    if blocked.contains(tool_name) {
        Some(blocked_tool_error(tool_name))
    } else if tool_name == "bash"@ {
        match lower_command {
            None => None,
            Some(c) => match first_pattern(patterns, c, 0) {
                Some(i) => Some(destructive_error(patterns[i])),
                None => None,
            },
        }
    } else {
        None
    }
}

/// The command in lower case that the arguments of a tool call hold.
pub open spec fn lower_command_of(args: Seq<char>) -> Option<Seq<char>> {
    match json::member(args, "command"@) {
        Some(t) => match json::string_value(t) {
            Ok(c) => Some(text::lowercase(c)),
            Err(_) => None,
        },
        None => None,
    }
}

impl SafetyGuardMiddleware {
    /// The tools that are blocked.
    pub closed spec fn blocked(&self) -> Seq<Seq<char>> {
        text::views(self.blocked_tools@)
    }

    /// The patterns that are stopped.
    pub closed spec fn patterns(&self) -> Seq<Seq<char>> {
        text::views(self.destructive_patterns@)
    }

    /// Blocks no tool, and stops the default patterns.
    pub fn with_default_policy() -> (r: Self)
        ensures
            r.blocked() == Seq::<Seq<char>>::empty(),
            r.patterns() == destructive_patterns(),
    {
        let r = Self::new(default_blocked_tools());
        assert(r.blocked() =~= Seq::<Seq<char>>::empty());
        r
    }

    /// Blocks the given tools, and stops the default patterns.
    pub fn new(blocked_tools: Vec<String>) -> (r: Self)
        ensures
            r.blocked() == text::views(blocked_tools@),
            r.patterns() == destructive_patterns(),
    {
        SafetyGuardMiddleware {
            blocked_tools,
            destructive_patterns: default_destructive_patterns(),
        }
    }

    /// Lets a tool call pass or stops it, given the command in lower case that it
    /// holds.
    pub fn check_tool(&self, tool_name: &str, lower_command: Option<String>) -> (r: CogentResult<
        (),
    >)
        ensures
            match guard_problem(
                self.blocked(),
                self.patterns(),
                tool_name@,
                types::opt_view(lower_command),
            ) {
                None => r is Ok,
                Some(p) => r matches Err(e) && e@ == p,
            },
    {
        if contains_string(&self.blocked_tools, tool_name) {
            let mut reason = copy_str("tool '");
            reason.append(tool_name);
            reason.append("' is blocked by safety policy");
            return Err(
                CogentError::MiddlewareBlocked { middleware: copy_str("SafetyGuard"), reason },
            );
        }
        if !str_eq(tool_name, "bash") {
            return Ok(());
        }
        match lower_command {
            None => Ok(()),
            Some(c) => {
                let mut i: usize = 0;
                while i < self.destructive_patterns.len()
                    invariant
                        i <= self.destructive_patterns@.len(),
                        self.patterns() == text::views(self.destructive_patterns@),
                        !self.blocked().contains(tool_name@),
                        tool_name@ == "bash"@,
                        lower_command matches Some(l) && l@ == c@,
                        first_pattern(self.patterns(), c@, 0) == first_pattern(
                            self.patterns(),
                            c@,
                            i as int,
                        ),
                    decreases self.destructive_patterns@.len() - i,
                {
                    let p = &self.destructive_patterns[i];
                    assert(self.patterns()[i as int] == p@);
                    if contains_str(&c, p) {
                        let mut reason = copy_str("destructive command pattern '");
                        reason.append(p);
                        reason.append("' is blocked by safety policy");
                        return Err(
                            CogentError::MiddlewareBlocked {
                                middleware: copy_str("SafetyGuard"),
                                reason,
                            },
                        );
                    }
                    i += 1;
                }
                Ok(())
            },
        }
    }

    /// Lets a tool call pass or stops it.
    pub fn before_tool(&self, tool_name: &str, args: &str) -> (r: CogentResult<()>)
        ensures
            match guard_problem(
                self.blocked(),
                self.patterns(),
                tool_name@,
                lower_command_of(args@),
            ) {
                None => r is Ok,
                Some(p) => r matches Err(e) && e@ == p,
            },
    {
        let lower = match json_member(args, "command") {
            Some(t) => match read_string(&t) {
                Ok(c) => Some(to_lower(&c)),
                Err(_) => None,
            },
            None => None,
        };
        self.check_tool(tool_name, lower)
    }
}

/// The middleware that stops contexts that are too long.
pub struct TokenLimiterMiddleware<E: TokenEstimator> {
    max_tokens: usize,
    estimator: Arc<E>,
}

/// Why a context is stopped: it takes more tokens than the limit, counted as far
/// as `usize` reaches.
pub open spec fn limiter_problem(total: nat, max_tokens: nat) -> Option<ErrorView> {
    if memory::clip(total) > max_tokens {
        Some(
            ErrorView::MiddlewareBlocked {
                middleware: "TokenLimiter"@,
                reason: "context tokens ("@ + text::decimal(memory::clip(total))
                    + ") exceed limit ("@ + text::decimal(max_tokens) + ")"@,
            },
        )
    } else {
        None
    }
}

impl<E: TokenEstimator> TokenLimiterMiddleware<E> {
    /// The limit.
    pub closed spec fn limit(&self) -> nat {
        self.max_tokens as nat
    }

    /// How tokens are counted.
    pub closed spec fn model(&self) -> memory::TokenModel {
        memory::model_of(&*self.estimator)
    }

    /// Stops contexts of more than so many tokens.
    pub fn new(max_tokens: usize, estimator: Arc<E>) -> (r: Self)
        ensures
            r.limit() == max_tokens,
            r.model() == memory::model_of(&*estimator),
    {
        TokenLimiterMiddleware { max_tokens, estimator }
    }

    /// Lets a context pass or stops it. Its size is counted as the memory counts
    /// it.
    pub fn before_llm(&self, messages: &[Message]) -> (r: CogentResult<()>)
        ensures
            match limiter_problem(
                memory::total_tokens(self.model(), types::messages_view(messages@)),
                self.limit(),
            ) {
                None => r is Ok,
                Some(p) => r matches Err(e) && e@ == p,
            },
    {
        let ghost mv = types::messages_view(messages@);
        let mut total: usize = 0;
        let mut i: usize = 0;
        assert(mv.take(0) =~= Seq::empty());
        while i < messages.len()
            invariant
                i <= messages@.len(),
                mv == types::messages_view(messages@),
                total == memory::clip(memory::total_tokens(self.model(), mv.take(i as int))),
            decreases messages@.len() - i,
        {
            let n = estimate_message_tokens(&*self.estimator, &messages[i]);
            total = total.saturating_add(n);
            proof {
                assert(mv.take(i + 1).drop_last() =~= mv.take(i as int));
                assert(mv.take(i + 1).last() == messages@[i as int]@);
            }
            i += 1;
        }
        assert(mv.take(i as int) =~= mv);
        if total > self.max_tokens {
            let mut reason = copy_str("context tokens (");
            let t = decimal_usize(total);
            reason.append(&t);
            reason.append(") exceed limit (");
            let m = decimal_usize(self.max_tokens);
            reason.append(&m);
            reason.append(")");
            return Err(
                CogentError::MiddlewareBlocked { middleware: copy_str("TokenLimiter"), reason },
            );
        }
        Ok(())
    }
}

/// The limiter lets every window pass that the memory makes for the same
/// budget, provided that the system message fits alone, with a token to spare
/// for a task that takes one.
pub proof fn law_windows_pass_the_limiter(
    system: Option<MessageView>,
    h: Seq<MessageView>,
    max_tokens: nat,
)
    requires
        system matches Some(s) ==> memory::message_tokens(memory::char_model(), s) <= max_tokens,
        memory::task_index(h) matches Some(i) ==> {
            ||| memory::session_budget(memory::char_model(), system, max_tokens) >= 1
            ||| memory::total_tokens(
                memory::char_model(),
                memory::opt_seq(memory::truncated(memory::char_model(), h[i], 1)),
            ) == 0
        },
    ensures
        limiter_problem(
            memory::total_tokens(
                memory::char_model(),
                memory::window(memory::char_model(), system, h, max_tokens),
            ),
            max_tokens,
        ) is None,
{
    memory::law_window_fits_budget(system, h, max_tokens);
}

proof fn lemma_first_pattern(patterns: Seq<Seq<char>>, s: Seq<char>, i: int)
    requires
        0 <= i,
    ensures
        match first_pattern(patterns, s, i) {
            Some(k) => i <= k < patterns.len() && text::contains(s, patterns[k]),
            None => forall|j: int|
                i <= j < patterns.len() ==> !text::contains(s, #[trigger] patterns[j]),
        },
    decreases patterns.len() - i,
{
    if i < patterns.len() && !text::contains(s, patterns[i]) {
        lemma_first_pattern(patterns, s, i + 1);
    }
}

/// What the guard stops: every call of a blocked tool, and every shell command
/// that holds one of the patterns anywhere; and nothing else. The reason names the
/// tool or a pattern that the command holds.
pub proof fn law_the_guard_stops_what_it_says(
    blocked: Seq<Seq<char>>,
    patterns: Seq<Seq<char>>,
    tool_name: Seq<char>,
    command: Option<Seq<char>>,
)
    ensures
        ({
            let problem = guard_problem(blocked, patterns, tool_name, command);
            let harmful = tool_name == "bash"@ && command is Some && exists|i: int, at: int|
                0 <= i < patterns.len() && #[trigger] text::matches_at(
                    command->0,
                    patterns[i],
                    at,
                );
            &&& problem is Some <==> blocked.contains(tool_name) || harmful
            &&& problem matches Some(ErrorView::MiddlewareBlocked { middleware, reason }) ==> {
                &&& middleware == "SafetyGuard"@
                &&& blocked.contains(tool_name) ==> text::holds(reason, tool_name)
                &&& !blocked.contains(tool_name) ==> exists|i: int|
                    0 <= i < patterns.len() && text::contains(
                        command->0,
                        #[trigger] patterns[i],
                    ) && text::holds(reason, patterns[i])
            }
            &&& problem is Some ==> problem->0 is MiddlewareBlocked
        }),
{
    let tail = "' is blocked by safety policy"@;
    assert(text::holds("tool '"@ + tool_name + tail, tool_name));
    if let Some(c) = command {
        lemma_first_pattern(patterns, c, 0);
        match first_pattern(patterns, c, 0) {
            Some(k) => {
                assert(text::holds(
                    "destructive command pattern '"@ + patterns[k] + tail,
                    patterns[k],
                ));
                let at = choose|at: int| text::matches_at(c, patterns[k], at);
                assert(text::matches_at(c, patterns[k], at));
            },
            None => {
                assert forall|i: int, at: int|
                    0 <= i < patterns.len() implies !#[trigger] text::matches_at(
                    c,
                    patterns[i],
                    at,
                ) by {
                    assert(!text::contains(c, patterns[i]));
                }
            },
        }
    }
}

/// The limiter lets a context pass exactly where it takes no more tokens than the
/// limit.
pub proof fn law_the_limiter_keeps_the_limit(
    model: memory::TokenModel,
    messages: Seq<MessageView>,
    max_tokens: usize,
)
    ensures
        limiter_problem(memory::total_tokens(model, messages), max_tokens as nat) is Some <==> (
        memory::total_tokens(model, messages) > max_tokens && max_tokens < usize::MAX),
{
}

/// What the default policy stops: deleting the root, making file systems, writing
/// to devices, opening up the root, ending the machine, and the fork bomb.
pub proof fn law_harmful_patterns_are_listed()
    ensures
        destructive_patterns().contains("rm -rf /"@),
        destructive_patterns().contains("rm -rf /*"@),
        destructive_patterns().contains("mkfs"@),
        destructive_patterns().contains("dd if="@),
        destructive_patterns().contains("dd of=/dev/"@),
        destructive_patterns().contains(":(){:|:&};:"@),
        destructive_patterns().contains("chmod 777 /"@),
        destructive_patterns().contains("chmod -r 777 /"@),
        destructive_patterns().contains("shutdown"@),
        destructive_patterns().contains("reboot"@),
        destructive_patterns().contains("halt"@),
        destructive_patterns().contains("init 0"@),
        destructive_patterns().contains("init 6"@),
        destructive_patterns().contains("> /dev/sda"@),
        destructive_patterns().contains("> /dev/nvme"@),
        destructive_patterns().len() == 15,
{
    let p = destructive_patterns();
    assert(p[0] == "rm -rf /"@ && p[1] == "rm -rf /*"@ && p[2] == "mkfs"@ && p[3] == "dd if="@);
    assert(p[4] == "dd of=/dev/"@ && p[5] == ":(){:|:&};:"@ && p[6] == "chmod 777 /"@);
    assert(p[7] == "chmod -r 777 /"@ && p[8] == "shutdown"@ && p[9] == "reboot"@);
    assert(p[10] == "halt"@ && p[11] == "init 0"@ && p[12] == "init 6"@);
    assert(p[13] == "> /dev/sda"@ && p[14] == "> /dev/nvme"@);
}

/// What stops a call or a request is named in the error, with what it is about.
pub proof fn law_stops_are_named(tool: Seq<char>, total: nat, max_tokens: nat)
    ensures
        blocked_tool_error(tool) matches ErrorView::MiddlewareBlocked { middleware, reason }
            && middleware == "SafetyGuard"@ && text::holds(reason, tool),
        limiter_problem(total, max_tokens) matches Some(e)
            ==> e matches ErrorView::MiddlewareBlocked { middleware, reason } && middleware
            == "TokenLimiter"@ && text::holds(reason, text::decimal(memory::clip(total)))
            && text::holds(reason, text::decimal(max_tokens)),
{
    let a = "tool '"@;
    text::lemma_holds_ends(a, tool);
    text::lemma_holds_on(a + tool, "' is blocked by safety policy"@, tool);
    let b = "context tokens ("@;
    let n = text::decimal(memory::clip(total));
    let m = text::decimal(max_tokens);
    let c = ") exceed limit ("@;
    text::lemma_holds_ends(b, n);
    text::lemma_holds_on(b + n, c, n);
    text::lemma_holds_on(b + n + c, m, n);
    text::lemma_holds_on(b + n + c + m, ")"@, n);
    text::lemma_holds_ends(b + n + c, m);
    text::lemma_holds_on(b + n + c + m, ")"@, m);
}

/// The command of a call is the text that its arguments hold under `command`, in
/// lower case; where they hold none there is no command.
pub proof fn law_commands_are_found_in_the_arguments(args: Seq<char>, c: Seq<char>)
    ensures
        json::member(args, "command"@) is None ==> lower_command_of(args) is None,
        json::member(args, "command"@) matches Some(t) ==> match json::string_value(t) {
            Ok(c) => lower_command_of(args) == Some(text::lowercase(c)),
            Err(_) => lower_command_of(args) is None,
        },
{
}

} // verus!
