//! The ReAct loop of the agent, as a machine that is told what happened and
//! says what to do next.
//!
//! A run goes from thinking to the tools and back until the model answers
//! without a tool call, until the limit of iterations is reached, or until
//! something fails. The machine holds all of the decisions. Whoever drives it
//! carries out the effects of each step in order (events to publish, messages
//! to append to the memory), performs the action that the step asks for (fetch
//! the context, call the model, ask the middleware, run the tools) and hands
//! the outcome back as the next input.
use crate::error::{CogentError, CogentResult, ErrorView};
use crate::event::{self, AgentEvent, EventView};
use crate::provider::{LLMResponse, ResponseView};
use crate::state::AgentState;
use crate::summary::{self, ToolRecord, RecordView};
use crate::text::{self, contains_string, copy_str, from_chars, join_strings, to_chars, trim_str};
use crate::types::{self, Message, MessageView, Role, ToolCall, ToolCallView};
use vstd::prelude::*;

verus! {

// ---------------------------------------------------------------------------
// Inputs, effects, actions
// ---------------------------------------------------------------------------

/// How one tool ended.
#[derive(Debug)]
pub struct ToolRun {
    /// How long it took.
    pub duration_ms: u64,
    /// Its output, or the message of its failure.
    pub result: Result<String, String>,
}

/// What a tool run says.
#[verifier::ext_equal]
pub struct RunView {
    pub duration_ms: u64,
    pub result: Result<Seq<char>, Seq<char>>,
}

impl View for ToolRun {
    type V = RunView;

    open spec fn view(&self) -> RunView {
        RunView {
            duration_ms: self.duration_ms,
            result: match self.result {
                Ok(s) => Ok(s@),
                Err(s) => Err(s@),
            },
        }
    }
}

/// What a list of tool runs says.
pub open spec fn runs_view(runs: Seq<ToolRun>) -> Seq<RunView> {
    runs.map_values(|r: ToolRun| r@)
}

/// What happened since the last step.
#[derive(Debug)]
pub enum Input {
    /// A run is asked for.
    Start,
    /// The context was fetched and every middleware let it pass.
    Ready,
    /// The model replied.
    Replied(LLMResponse),
    /// The call of the model failed; the text of the failure.
    ModelFailed(String),
    /// Every middleware let the reply pass.
    Accepted,
    /// The context could not be fetched, or a middleware stopped the run.
    Rejected(CogentError),
    /// Every middleware let the tool call pass.
    Allowed,
    /// A middleware blocked the tool call; the message of its error.
    Blocked(String),
    /// The tools have run; one entry for each, in order.
    Ran(Vec<ToolRun>),
}

/// What an input says.
#[verifier::ext_equal]
pub enum InputView {
    Start,
    Ready,
    Replied(ResponseView),
    ModelFailed(Seq<char>),
    Accepted,
    Rejected(ErrorView),
    Allowed,
    Blocked(Seq<char>),
    Ran(Seq<RunView>),
}

impl View for Input {
    type V = InputView;

    open spec fn view(&self) -> InputView {
        match self {
            Input::Start => InputView::Start,
            Input::Ready => InputView::Ready,
            Input::Replied(r) => InputView::Replied(r@),
            Input::ModelFailed(m) => InputView::ModelFailed(m@),
            Input::Accepted => InputView::Accepted,
            Input::Rejected(e) => InputView::Rejected(e@),
            Input::Allowed => InputView::Allowed,
            Input::Blocked(m) => InputView::Blocked(m@),
            Input::Ran(r) => InputView::Ran(runs_view(r@)),
        }
    }
}

/// What a step does to the world.
#[derive(Debug)]
pub enum Effect {
    /// Publish an event.
    Publish(AgentEvent),
    /// Append a message to the memory.
    Append(Message),
}

/// What an effect says.
#[verifier::ext_equal]
pub enum EffectView {
    Publish(EventView),
    Append(MessageView),
}

impl View for Effect {
    type V = EffectView;

    open spec fn view(&self) -> EffectView {
        match self {
            Effect::Publish(e) => EffectView::Publish(e@),
            Effect::Append(m) => EffectView::Append(m@),
        }
    }
}

/// What a list of effects says.
pub open spec fn effects_view(effects: Seq<Effect>) -> Seq<EffectView> {
    effects.map_values(|e: Effect| e@)
}

/// What is to be done after a step.
#[derive(Debug)]
pub enum Action {
    /// Fetch the context and ask the middleware about it.
    Prepare,
    /// Call the model with the context.
    Call,
    /// Ask the middleware about the reply.
    Review,
    /// Ask the middleware about a tool call.
    CheckTool(ToolCall),
    /// Run these tools.
    RunTools(Vec<ToolCall>),
    /// The run is over: the answer, or why there is none.
    Finish(CogentResult<String>),
}

/// What an action says.
#[verifier::ext_equal]
pub enum ActionView {
    Prepare,
    Call,
    Review,
    CheckTool(ToolCallView),
    RunTools(Seq<ToolCallView>),
    Finish(Result<Seq<char>, ErrorView>),
}

impl View for Action {
    type V = ActionView;

    open spec fn view(&self) -> ActionView {
        match self {
            Action::Prepare => ActionView::Prepare,
            Action::Call => ActionView::Call,
            Action::Review => ActionView::Review,
            Action::CheckTool(c) => ActionView::CheckTool(c@),
            Action::RunTools(c) => ActionView::RunTools(types::calls_view(c@)),
            Action::Finish(Ok(s)) => ActionView::Finish(Ok(s@)),
            Action::Finish(Err(e)) => ActionView::Finish(Err(e@)),
        }
    }
}

/// What the machine waits for.
#[derive(Debug)]
enum Phase {
    /// Nothing: no run is under way.
    Rest,
    /// The context.
    Prepare,
    /// The reply of the model.
    Call,
    /// The word of the middleware on the reply.
    Review(LLMResponse),
    /// The word of the middleware on the tool call at index `at`.
    Gate { calls: Vec<ToolCall>, approved: Vec<ToolCall>, at: usize },
    /// The results of the tools.
    Work { jobs: Vec<ToolCall> },
}

/// What the machine waits for, in the model.
#[verifier::ext_equal]
pub enum PhaseView {
    Rest,
    Prepare,
    Call,
    Review(ResponseView),
    Gate { calls: Seq<ToolCallView>, approved: Seq<ToolCallView>, at: int },
    Work { jobs: Seq<ToolCallView> },
}

impl View for Phase {
    type V = PhaseView;

    closed spec fn view(&self) -> PhaseView {
        match self {
            Phase::Rest => PhaseView::Rest,
            Phase::Prepare => PhaseView::Prepare,
            Phase::Call => PhaseView::Call,
            Phase::Review(r) => PhaseView::Review(r@),
            Phase::Gate { calls, approved, at } => PhaseView::Gate {
                calls: types::calls_view(calls@),
                approved: types::calls_view(approved@),
                at: *at as int,
            },
            Phase::Work { jobs } => PhaseView::Work { jobs: types::calls_view(jobs@) },
        }
    }
}

/// The state of the machine, in the model.
#[verifier::ext_equal]
pub struct EngineView {
    /// The names of the tools, as registered.
    pub tools: Seq<Seq<char>>,
    /// The limit of iterations.
    pub max_iterations: nat,
    /// The tools that ran, in order.
    pub history: Seq<RecordView>,
    /// Where the agent stands.
    pub state: AgentState,
    /// Number of the current iteration, from one.
    pub iteration: nat,
    /// The signatures of the tool calls of the last reply that had some.
    pub last_calls: Seq<Seq<char>>,
    /// What the machine waits for.
    pub phase: PhaseView,
}

/// The outcome of a step, in the model.
#[verifier::ext_equal]
pub struct StepView {
    pub engine: EngineView,
    pub effects: Seq<EffectView>,
    pub action: ActionView,
}

// ---------------------------------------------------------------------------
// The model of a step
// ---------------------------------------------------------------------------

/// The event of a move to another state.
pub open spec fn moved(s: AgentState) -> EffectView {
    EffectView::Publish(EventView::StateChanged(s))
}

/// What tells one tool call from another: the tool and its arguments.
pub open spec fn signature(c: ToolCallView) -> Seq<char> {
    c.name + ":"@ + c.arguments
}

/// The signatures of some tool calls.
pub open spec fn signatures(calls: Seq<ToolCallView>) -> Seq<Seq<char>> {
    calls.map_values(|c: ToolCallView| signature(c))
}

/// Whether one of some tool calls was already in the reply before.
pub open spec fn repeats(calls: Seq<ToolCallView>, last: Seq<Seq<char>>) -> bool {
    exists|i: int| 0 <= i < calls.len() && last.contains(signature(#[trigger] calls[i]))
}

/// What the model is told when it repeats itself.
pub open spec fn repeat_warning() -> MessageView {
    MessageView::plain(
        Role::User,
        "WARNING: You are repeating the same tool call with identical arguments. Please try a different approach or provide your final answer."@,
    )
}

/// What the model is told when it asks for a tool that is not there; a name
/// that was registered more than once is told once.
pub open spec fn unknown_tool(c: ToolCallView, tools: Seq<Seq<char>>) -> MessageView {
    MessageView::answering(
        c.id,
        "Error: unknown tool '"@ + c.name + "'. Available tools: ["@ + text::join(
            distinct(tools),
            ", "@,
        )
            + "]. Use one of the available tools instead."@,
    )
}

/// What the model is told when a middleware blocks a tool call.
pub open spec fn blocked_tool(c: ToolCallView, reason: Seq<char>) -> MessageView {
    MessageView::answering(c.id, "Error: tool call blocked: "@ + reason)
}

/// The event of a tool that begins to run.
pub open spec fn started(c: ToolCallView) -> EffectView {
    EffectView::Publish(
        EventView::ToolStarted { id: c.id, name: c.name, args: c.arguments },
    )
}

/// What the model is told of a tool that ran.
pub open spec fn run_message(c: ToolCallView, run: RunView) -> MessageView {
    MessageView::answering(
        c.id,
        match run.result {
            Ok(output) => output,
            Err(e) => "Error: tool '"@ + c.name + "' failed: "@ + e,
        },
    )
}

/// The effects of the end of a tool.
pub open spec fn run_effects(c: ToolCallView, run: RunView) -> Seq<EffectView> {
    seq![
        EffectView::Publish(
            EventView::ToolFinished {
                id: c.id,
                duration_ms: run.duration_ms,
                success: run.result is Ok,
            },
        ),
        EffectView::Append(run_message(c, run)),
    ]
}

/// The effects of the ends of some tools, in order.
pub open spec fn all_run_effects(
    jobs: Seq<ToolCallView>,
    runs: Seq<RunView>,
) -> Seq<EffectView>
    decreases jobs.len(),
{
    if jobs.len() == 0 || runs.len() != jobs.len() {
        Seq::empty()
    } else {
        all_run_effects(jobs.drop_last(), runs.drop_last()) + run_effects(jobs.last(), runs.last())
    }
}

/// The record of a tool that ran.
pub open spec fn run_record(c: ToolCallView, run: RunView) -> RecordView {
    RecordView {
        tool_name: c.name,
        success: run.result is Ok,
        error: match run.result {
            Ok(_) => None,
            Err(e) => Some(e),
        },
    }
}

/// The records of some tools that ran, in order.
pub open spec fn run_records(jobs: Seq<ToolCallView>, runs: Seq<RunView>) -> Seq<RecordView> {
    Seq::new(jobs.len(), |i: int| run_record(jobs[i], runs[i]))
}

/// The run fails: the agent moves to the failed state, and the error is handed
/// out.
pub open spec fn failing(e: EngineView, effects: Seq<EffectView>, error: ErrorView) -> StepView {
    StepView {
        engine: EngineView { state: AgentState::Failed, phase: PhaseView::Rest, ..e },
        effects: effects.push(moved(AgentState::Failed)),
        action: ActionView::Finish(Err(error)),
    }
}

/// The next iteration begins, unless the limit is reached.
pub open spec fn iterating(e: EngineView, effects: Seq<EffectView>) -> StepView {
    if e.iteration < e.max_iterations {
        StepView {
            engine: EngineView { iteration: e.iteration + 1, phase: PhaseView::Prepare, ..e },
            effects,
            action: ActionView::Prepare,
        }
    } else {
        failing(e, effects, ErrorView::MaxIterationsExceeded(e.max_iterations))
    }
}

/// The tools are done: the agent observes and thinks again.
pub open spec fn observing(e: EngineView, effects: Seq<EffectView>) -> StepView {
    iterating(
        EngineView { state: AgentState::Thinking, ..e },
        effects.push(moved(AgentState::Observing)).push(moved(AgentState::Thinking)),
    )
}

/// The tool calls from index `at` on are taken in turn: a call of an unknown
/// tool is answered at once, the first of a known tool is put before the
/// middleware, and when none is left the approved tools are run.
pub open spec fn gating(
    e: EngineView,
    effects: Seq<EffectView>,
    calls: Seq<ToolCallView>,
    approved: Seq<ToolCallView>,
    at: int,
) -> StepView
    decreases calls.len() - at,
{
    if at < 0 || at >= calls.len() {
        StepView {
            engine: EngineView { phase: PhaseView::Work { jobs: approved }, ..e },
            effects,
            action: ActionView::RunTools(approved),
        }
    } else if e.tools.contains(calls[at].name) {
        StepView {
            engine: EngineView { phase: PhaseView::Gate { calls, approved, at }, ..e },
            effects,
            action: ActionView::CheckTool(calls[at]),
        }
    } else {
        gating(
            e,
            effects.push(EffectView::Append(unknown_tool(calls[at], e.tools))),
            calls,
            approved,
            at + 1,
        )
    }
}

/// What is done with a reply that every middleware let pass: its tool calls
/// are run, unless one of them was in the reply before; a text is the answer;
/// and nothing at all is an error.
pub open spec fn deciding(e: EngineView, r: ResponseView) -> StepView {
    if r.tool_calls.len() > 0 {
        let effects = seq![moved(AgentState::ToolCalling)];
        let next = EngineView {
            state: AgentState::ToolCalling,
            last_calls: signatures(r.tool_calls),
            ..e
        };
        if repeats(r.tool_calls, e.last_calls) {
            observing(next, effects.push(EffectView::Append(repeat_warning())))
        } else {
            gating(next, effects, r.tool_calls, Seq::empty(), 0)
        }
    } else if text::trim(r.content).len() == 0 {
        failing(e, Seq::empty(), ErrorView::EmptyResponse(e.iteration))
    } else {
        StepView {
            engine: EngineView { state: AgentState::Completed, phase: PhaseView::Rest, ..e },
            effects: seq![
                moved(AgentState::Completed),
                EffectView::Append(MessageView::plain(Role::Assistant, r.content)),
            ],
            action: ActionView::Finish(Ok(r.content)),
        }
    }
}

/// A run begins, if the state allows it.
pub open spec fn starting(e: EngineView) -> StepView {
    if e.state.allows(AgentState::Thinking) {
        iterating(
            EngineView {
                state: AgentState::Thinking,
                iteration: 0,
                last_calls: Seq::empty(),
                ..e
            },
            seq![moved(AgentState::Thinking)],
        )
    } else {
        StepView {
            engine: e,
            effects: Seq::empty(),
            action: ActionView::Finish(Err(e.state.refusal(AgentState::Thinking))),
        }
    }
}

impl EngineView {
    /// Whether an input answers what the machine waits for.
    pub open spec fn accepts(self, input: InputView) -> bool {
        match input {
            InputView::Start => self.phase is Rest,
            InputView::Ready => self.phase is Prepare,
            InputView::Rejected(_) => self.phase is Prepare || self.phase is Review,
            InputView::Replied(_) => self.phase is Call,
            InputView::ModelFailed(_) => self.phase is Call,
            InputView::Accepted => self.phase is Review,
            InputView::Allowed => self.phase is Gate,
            InputView::Blocked(_) => self.phase is Gate,
            InputView::Ran(runs) => self.phase matches PhaseView::Work { jobs } && runs.len()
                == jobs.len(),
        }
    }

    /// The step that an input brings about.
    pub open spec fn step(self, input: InputView) -> StepView {
        match input {
            InputView::Start => starting(self),
            InputView::Ready => StepView {
                engine: EngineView { phase: PhaseView::Call, ..self },
                effects: Seq::empty(),
                action: ActionView::Call,
            },
            InputView::Rejected(error) => failing(self, Seq::empty(), error),
            InputView::ModelFailed(m) => failing(self, Seq::empty(), ErrorView::Provider(m)),
            InputView::Replied(r) => StepView {
                engine: EngineView { phase: PhaseView::Review(r), ..self },
                effects: seq![
                    EffectView::Publish(
                        EventView::TokenUsage {
                            prompt_tokens: r.prompt_tokens,
                            completion_tokens: r.completion_tokens,
                        },
                    ),
                ],
                action: ActionView::Review,
            },
            InputView::Accepted => deciding(self, self.phase->Review_0),
            InputView::Allowed => {
                let call = self.phase->calls[self.phase->at];
                gating(
                    self,
                    seq![started(call)],
                    self.phase->calls,
                    self.phase->approved.push(call),
                    self.phase->at + 1,
                )
            },
            InputView::Blocked(reason) => {
                let call = self.phase->calls[self.phase->at];
                gating(
                    self,
                    seq![EffectView::Append(blocked_tool(call, reason))],
                    self.phase->calls,
                    self.phase->approved,
                    self.phase->at + 1,
                )
            },
            InputView::Ran(runs) => observing(
                EngineView {
                    history: self.history + run_records(self.phase->jobs, runs),
                    ..self
                },
                all_run_effects(self.phase->jobs, runs),
            ),
        }
    }

    /// The machine after a reset: idle where a run has ended.
    pub open spec fn rested(self) -> EngineView {
        EngineView {
            state: if self.state.terminal() {
                AgentState::Idle
            } else {
                self.state
            },
            ..self
        }
    }

    /// What holds of the machine at all times.
    pub open spec fn wf(self) -> bool {
        &&& self.iteration <= self.max_iterations
        &&& match self.phase {
            PhaseView::Rest => !self.state.active(),
            PhaseView::Prepare => self.state == AgentState::Thinking && self.iteration >= 1,
            PhaseView::Call => self.state == AgentState::Thinking && self.iteration >= 1,
            PhaseView::Review(_) => self.state == AgentState::Thinking && self.iteration >= 1,
            PhaseView::Gate { calls, approved, at } => {
                &&& self.state == AgentState::ToolCalling
                &&& self.iteration >= 1
                &&& 0 <= at < calls.len()
                &&& self.tools.contains(calls[at].name)
            },
            PhaseView::Work { jobs } => self.state == AgentState::ToolCalling && self.iteration
                >= 1,
        }
    }
}

// ---------------------------------------------------------------------------
// The machine
// ---------------------------------------------------------------------------

/// What a step does and what it asks for.
#[derive(Debug)]
pub struct Step {
    /// To be carried out in this order.
    pub effects: Vec<Effect>,
    /// To be performed after that.
    pub action: Action,
}

/// A step of the machine, in the model.
pub open spec fn outcome(engine: EngineView, s: Step) -> StepView {
    StepView { engine, effects: effects_view(s.effects@), action: s.action@ }
}

/// The agent: its tools, its limit of iterations, and where it stands.
#[derive(Debug)]
pub struct AgentEngine {
    tools: Vec<String>,
    max_iterations: usize,
    tool_history: Vec<ToolRecord>,
    state: AgentState,
    iteration: usize,
    last_calls: Vec<String>,
    phase: Phase,
}

impl View for AgentEngine {
    type V = EngineView;

    closed spec fn view(&self) -> EngineView {
        EngineView {
            tools: text::views(self.tools@),
            max_iterations: self.max_iterations as nat,
            history: summary::records_view(self.tool_history@),
            state: self.state,
            iteration: self.iteration as nat,
            last_calls: text::views(self.last_calls@),
            phase: self.phase@,
        }
    }
}

/// Number of characters of a piece of the answer.
pub const CHUNK_CHARS: usize = 16;

/// A text in pieces of sixteen characters, the last one with what is left.
pub open spec fn chunks(s: Seq<char>) -> Seq<Seq<char>>
    decreases s.len(),
{
    if s.len() == 0 {
        Seq::empty()
    } else if s.len() <= CHUNK_CHARS {
        seq![s]
    } else {
        seq![s.take(CHUNK_CHARS as int)] + chunks(s.skip(CHUNK_CHARS as int))
    }
}

/// The names of a list, each once, in the order of their first occurrence.
pub open spec fn distinct(names: Seq<Seq<char>>) -> Seq<Seq<char>>
    decreases names.len(),
{
    if names.len() == 0 {
        Seq::empty()
    } else {
        summary::push_new(distinct(names.drop_last()), names.last())
    }
}

/// The names of a list, each once.
fn distinct_names(names: &[String]) -> (r: Vec<String>)
    ensures
        text::views(r@) == distinct(text::views(names@)),
{
    let mut r: Vec<String> = Vec::new();
    let mut i: usize = 0;
    assert(text::views(r@) =~= distinct(text::views(names@).take(0)));
    while i < names.len()
        invariant
            i <= names@.len(),
            text::views(r@) == distinct(text::views(names@).take(i as int)),
        decreases names@.len() - i,
    {
        proof {
            let t = text::views(names@).take(i + 1);
            assert(t.drop_last() =~= text::views(names@).take(i as int));
            assert(t.last() == names@[i as int]@);
        }
        if !contains_string(&r, &names[i]) {
            let ghost before = r@;
            r.push(copy_str(&names[i]));
            assert(text::views(r@) =~= text::views(before).push(names@[i as int]@));
        }
        i += 1;
    }
    assert(text::views(names@).take(names@.len() as int) =~= text::views(names@));
    r
}

/// Appends an effect.
fn push_effect(effects: &mut Vec<Effect>, e: Effect)
    ensures
        effects_view(final(effects)@) == effects_view(old(effects)@).push(e@),
{
    let ghost before = effects@;
    effects.push(e);
    assert(effects_view(effects@) =~= effects_view(before).push(e@));
}

/// No effects yet.
fn no_effects() -> (r: Vec<Effect>)
    ensures
        effects_view(r@) == Seq::<EffectView>::empty(),
{
    let r: Vec<Effect> = Vec::new();
    assert(effects_view(r@) =~= Seq::<EffectView>::empty());
    r
}

/// The signatures of some tool calls.
fn call_signatures(calls: &[ToolCall]) -> (r: Vec<String>)
    ensures
        text::views(r@) == signatures(types::calls_view(calls@)),
        r@.len() == calls@.len(),
{
    let mut r: Vec<String> = Vec::new();
    let mut i: usize = 0;
    while i < calls.len()
        invariant
            i <= calls@.len(),
            r@.len() == i,
            forall|k: int| 0 <= k < i ==> (#[trigger] r@[k])@ == signature(calls@[k]@),
        decreases calls@.len() - i,
    {
        let mut s = copy_str(&calls[i].name);
        s.append(":");
        s.append(&calls[i].arguments);
        r.push(s);
        i += 1;
    }
    assert(text::views(r@) =~= signatures(types::calls_view(calls@)));
    r
}

/// Whether one of some signatures is among those before.
fn any_repeated(current: &[String], last: &[String]) -> (r: bool)
    ensures
        r == exists|i: int|
            0 <= i < current@.len() && text::views(last@).contains((#[trigger] current@[i])@),
{
    let mut i: usize = 0;
    while i < current.len()
        invariant
            i <= current@.len(),
            forall|k: int|
                0 <= k < i ==> !text::views(last@).contains((#[trigger] current@[k])@),
        decreases current@.len() - i,
    {
        if contains_string(last, &current[i]) {
            return true;
        }
        i += 1;
    }
    false
}

impl AgentEngine {
    /// A new agent, idle, with the tools of the given names.
    pub fn new(tools: &[String], max_iterations: usize) -> (r: Self)
        ensures
            r@ == (EngineView {
                tools: text::views(tools@),
                max_iterations: max_iterations as nat,
                history: Seq::empty(),
                state: AgentState::Idle,
                iteration: 0,
                last_calls: Seq::empty(),
                phase: PhaseView::Rest,
            }),
            r@.wf(),
    {
        let mut names: Vec<String> = Vec::new();
        let mut i: usize = 0;
        while i < tools.len()
            invariant
                i <= tools@.len(),
                names@.len() == i,
                forall|k: int| 0 <= k < i ==> (#[trigger] names@[k])@ == tools@[k]@,
            decreases tools@.len() - i,
        {
            names.push(copy_str(&tools[i]));
            i += 1;
        }
        let r = AgentEngine {
            tools: names,
            max_iterations,
            tool_history: Vec::new(),
            state: AgentState::Idle,
            iteration: 0,
            last_calls: Vec::new(),
            phase: Phase::Rest,
        };
        assert(r@.tools =~= text::views(tools@));
        assert(r@.history =~= Seq::empty());
        assert(r@.last_calls =~= Seq::empty());
        r
    }

    /// Where the agent stands.
    pub fn state(&self) -> (r: AgentState)
        ensures
            r == self@.state,
    {
        self.state
    }

    /// The tools that ran, in order.
    pub fn tool_history(&self) -> (r: &[ToolRecord])
        ensures
            summary::records_view(r@) == self@.history,
    {
        self.tool_history.as_slice()
    }

    /// The names of the tools, as registered.
    pub fn tools(&self) -> (r: &[String])
        ensures
            text::views(r@) == self@.tools,
    {
        self.tools.as_slice()
    }

    /// The limit of iterations.
    pub fn max_iterations(&self) -> (r: usize)
        ensures
            r == self@.max_iterations,
    {
        self.max_iterations
    }

    /// Goes back to idle after a run, so that another can begin. Returns the
    /// events to publish: one, where the state changed, else none.
    pub fn reset(&mut self) -> (r: Vec<AgentEvent>)
        requires
            old(self)@.wf(),
        ensures
            final(self)@ == old(self)@.rested(),
            event::events_view(r@) == (if old(self)@.state.terminal() {
                seq![EventView::StateChanged(AgentState::Idle)]
            } else {
                Seq::empty()
            }),
            final(self)@.wf(),
    {
        let mut r: Vec<AgentEvent> = Vec::new();
        let next = self.state.reset();
        if next != self.state {
            self.state = next;
            r.push(AgentEvent::StateChanged(AgentState::Idle));
            assert(event::events_view(r@) =~= seq![EventView::StateChanged(AgentState::Idle)]);
        } else {
            assert(event::events_view(r@) =~= Seq::empty());
        }
        r
    }

    /// The final answer in pieces, as events to publish one after the other.
    pub fn render_answer_chunked(&self, answer: &str) -> (r: Vec<AgentEvent>)
        ensures
            event::events_view(r@) == chunks(answer@).map_values(
                |c: Seq<char>| EventView::TokenChunk(c),
            ),
    {
        let chars = to_chars(answer);
        let mut r: Vec<AgentEvent> = Vec::new();
        let mut i: usize = 0;
        let ghost whole = chunks(answer@);
        let ghost mut done: Seq<Seq<char>> = Seq::empty();
        assert(chars@.skip(0) =~= answer@);
        assert(done + chunks(chars@.skip(0)) =~= whole);
        while i < chars.len()
            invariant
                i <= chars@.len(),
                whole == done + chunks(chars@.skip(i as int)),
                event::events_view(r@) == done.map_values(|c: Seq<char>| EventView::TokenChunk(c)),
            decreases chars@.len() - i,
        {
            let end: usize = if chars.len() - i <= CHUNK_CHARS {
                chars.len()
            } else {
                i + CHUNK_CHARS
            };
            let piece = text::sub_chars(&chars, i, end);
            let ghost before = event::events_view(r@);
            let ghost old_done = done;
            r.push(AgentEvent::TokenChunk(from_chars(&piece)));
            proof {
                let rest = chars@.skip(i as int);
                let more = chars@.skip(end as int);
                if rest.len() <= CHUNK_CHARS {
                    assert(piece@ =~= rest);
                    assert(more.len() == 0);
                    assert(chunks(rest) =~= seq![piece@] + chunks(more));
                } else {
                    assert(piece@ =~= rest.take(CHUNK_CHARS as int));
                    assert(more =~= rest.skip(CHUNK_CHARS as int));
                }
                done = done.push(piece@);
                assert(old_done + (seq![piece@] + chunks(more)) =~= done + chunks(more));
                assert(event::events_view(r@) =~= before.push(EventView::TokenChunk(piece@)));
                assert(done.map_values(|c: Seq<char>| EventView::TokenChunk(c))
                    =~= old_done.map_values(|c: Seq<char>| EventView::TokenChunk(c)).push(
                    EventView::TokenChunk(piece@),
                ));
            }
            i = end;
        }
        assert(chars@.skip(i as int).len() == 0);
        assert(done + chunks(chars@.skip(i as int)) =~= done);
        r
    }

    /// Moves to another state and notes the event.
    fn move_to(&mut self, target: AgentState, effects: &mut Vec<Effect>)
        requires
            old(self)@.state.allows(target),
        ensures
            final(self)@ == (EngineView { state: target, ..old(self)@ }),
            effects_view(final(effects)@) == effects_view(old(effects)@).push(moved(target)),
    {
        if let Ok(s) = self.state.transition(target) {
            self.state = s;
        }
        push_effect(effects, Effect::Publish(AgentEvent::StateChanged(target)));
    }

    /// Ends the run with an error.
    fn fail(&mut self, effects: Vec<Effect>, error: CogentError) -> (s: Step)
        ensures
            outcome(final(self)@, s) == failing(old(self)@, effects_view(effects@), error@),
    {
        let mut effects = effects;
        self.move_to(AgentState::Failed, &mut effects);
        self.phase = Phase::Rest;
        Step { effects, action: Action::Finish(Err(error)) }
    }

    /// Begins the next iteration, unless the limit is reached.
    fn iterate(&mut self, effects: Vec<Effect>) -> (s: Step)
        requires
            old(self)@.iteration <= old(self)@.max_iterations,
        ensures
            outcome(final(self)@, s) == iterating(old(self)@, effects_view(effects@)),
    {
        if self.iteration < self.max_iterations {
            self.iteration = self.iteration + 1;
            self.phase = Phase::Prepare;
            Step { effects, action: Action::Prepare }
        } else {
            let n = self.max_iterations;
            self.fail(effects, CogentError::MaxIterationsExceeded(n))
        }
    }

    /// Observes and thinks again.
    fn observe(&mut self, effects: Vec<Effect>) -> (s: Step)
        requires
            old(self)@.iteration <= old(self)@.max_iterations,
            old(self)@.state == AgentState::ToolCalling,
        ensures
            outcome(final(self)@, s) == observing(old(self)@, effects_view(effects@)),
    {
        let mut effects = effects;
        self.move_to(AgentState::Observing, &mut effects);
        self.move_to(AgentState::Thinking, &mut effects);
        self.iterate(effects)
    }

    /// What the model is told when it asks for a tool that is not there.
    fn unknown_tool_message(&self, c: &ToolCall) -> (r: Message)
        ensures
            r@ == unknown_tool(c@, self@.tools),
    {
        let mut s = copy_str("Error: unknown tool '");
        s.append(&c.name);
        s.append("'. Available tools: [");
        let names = distinct_names(&self.tools);
        let list = join_strings(&names, ", ");
        s.append(&list);
        s.append("]. Use one of the available tools instead.");
        Message::tool_result(copy_str(&c.id), s)
    }

    /// Takes the tool calls from index `at` on in turn.
    fn gate(
        &mut self,
        effects: Vec<Effect>,
        calls: Vec<ToolCall>,
        approved: Vec<ToolCall>,
        at: usize,
    ) -> (s: Step)
        requires
            at <= calls@.len(),
        ensures
            outcome(final(self)@, s) == gating(
                old(self)@,
                effects_view(effects@),
                types::calls_view(calls@),
                types::calls_view(approved@),
                at as int,
            ),
    {
        let ghost before = self@;
        let ghost given = effects_view(effects@);
        let ghost cv = types::calls_view(calls@);
        let ghost av = types::calls_view(approved@);
        let mut effects = effects;
        let mut i: usize = at;
        while i < calls.len() && !contains_string(&self.tools, &calls[i].name)
            invariant
                at <= i <= calls@.len(),
                self@ == before,
                before.tools == text::views(self.tools@),
                cv == types::calls_view(calls@),
                gating(before, given, cv, av, at as int) == gating(
                    before,
                    effects_view(effects@),
                    cv,
                    av,
                    i as int,
                ),
            decreases calls@.len() - i,
        {
            assert(cv[i as int] == calls@[i as int]@);
            let m = self.unknown_tool_message(&calls[i]);
            push_effect(&mut effects, Effect::Append(m));
            i += 1;
        }
        if i < calls.len() {
            assert(cv[i as int] == calls@[i as int]@);
            let c = calls[i].clone();
            self.phase = Phase::Gate { calls, approved, at: i };
            Step { effects, action: Action::CheckTool(c) }
        } else {
            let jobs = types::copy_calls(&approved);
            self.phase = Phase::Work { jobs };
            Step { effects, action: Action::RunTools(approved) }
        }
    }

    /// Decides what is done with a reply.
    fn decide(&mut self, r: LLMResponse) -> (s: Step)
        requires
            old(self)@.state == AgentState::Thinking,
            old(self)@.iteration <= old(self)@.max_iterations,
        ensures
            outcome(final(self)@, s) == deciding(old(self)@, r@),
    {
        let ghost before = self@;
        if r.has_tool_calls() {
            let mut effects = no_effects();
            self.move_to(AgentState::ToolCalling, &mut effects);
            assert(effects_view(effects@) =~= seq![moved(AgentState::ToolCalling)]);
            let current = call_signatures(&r.tool_calls);
            let repeated = any_repeated(&current, &self.last_calls);
            proof {
                let cv = r@.tool_calls;
                assert forall|k: int| 0 <= k < cv.len() implies signature(#[trigger] cv[k])
                    == current@[k]@ by {
                    assert(text::views(current@)[k] == signatures(cv)[k]);
                }
                assert(repeated == repeats(cv, before.last_calls)) by {
                    if repeated {
                        let k = choose|k: int|
                            0 <= k < current@.len() && text::views(self.last_calls@).contains(
                                (#[trigger] current@[k])@,
                            );
                        assert(signature(cv[k]) == current@[k]@);
                    }
                    if repeats(cv, before.last_calls) {
                        let k = choose|k: int|
                            0 <= k < cv.len() && before.last_calls.contains(
                                signature(#[trigger] cv[k]),
                            );
                        assert(signature(cv[k]) == current@[k]@);
                    }
                }
            }
            self.last_calls = current;
            if repeated {
                let warning = Message::new(
                    Role::User,
                    copy_str(
                        "WARNING: You are repeating the same tool call with identical arguments. Please try a different approach or provide your final answer.",
                    ),
                );
                push_effect(&mut effects, Effect::Append(warning));
                self.observe(effects)
            } else {
                let approved: Vec<ToolCall> = Vec::new();
                assert(types::calls_view(approved@) =~= Seq::empty());
                self.gate(effects, r.tool_calls, approved, 0)
            }
        } else {
            let trimmed = trim_str(&r.content);
            let chars = to_chars(&trimmed);
            if chars.len() == 0 {
                let n = self.iteration;
                let effects = no_effects();
                self.fail(effects, CogentError::EmptyResponse(n))
            } else {
                let mut effects = no_effects();
                self.move_to(AgentState::Completed, &mut effects);
                push_effect(
                    &mut effects,
                    Effect::Append(Message::new(Role::Assistant, copy_str(&r.content))),
                );
                assert(effects_view(effects@) =~= seq![
                    moved(AgentState::Completed),
                    EffectView::Append(MessageView::plain(Role::Assistant, r.content@)),
                ]);
                self.phase = Phase::Rest;
                Step { effects, action: Action::Finish(Ok(r.content)) }
            }
        }
    }

    /// Takes in the results of the tools.
    fn finish_tools(&mut self, jobs: Vec<ToolCall>, runs: Vec<ToolRun>) -> (s: Step)
        requires
            jobs@.len() == runs@.len(),
            old(self)@.state == AgentState::ToolCalling,
            old(self)@.iteration <= old(self)@.max_iterations,
        ensures
            outcome(final(self)@, s) == observing(
                EngineView {
                    history: old(self)@.history + run_records(
                        types::calls_view(jobs@),
                        runs_view(runs@),
                    ),
                    ..old(self)@
                },
                all_run_effects(types::calls_view(jobs@), runs_view(runs@)),
            ),
    {
        let ghost before = self@;
        let ghost jv = types::calls_view(jobs@);
        let ghost rv = runs_view(runs@);
        let mut effects = no_effects();
        let mut i: usize = 0;
        assert(self@.history =~= before.history + run_records(jv, rv).take(0));
        assert(self@ == (EngineView {
            history: before.history + run_records(jv, rv).take(0),
            ..before
        }));
        while i < jobs.len()
            invariant
                i <= jobs@.len() == runs@.len(),
                jv == types::calls_view(jobs@),
                rv == runs_view(runs@),
                effects_view(effects@) == all_run_effects(jv.take(i as int), rv.take(i as int)),
                self@ == (EngineView {
                    history: before.history + run_records(jv, rv).take(i as int),
                    ..before
                }),
            decreases jobs@.len() - i,
        {
            let ghost recorded = self@.history;
            let ghost so_far = effects_view(effects@);
            let c = &jobs[i];
            let run = &runs[i];
            let (success, content, error) = match &run.result {
                Ok(output) => (true, copy_str(output), None),
                Err(e) => {
                    let mut m = copy_str("Error: tool '");
                    m.append(&c.name);
                    m.append("' failed: ");
                    m.append(e);
                    (false, m, Some(copy_str(e)))
                },
            };
            push_effect(
                &mut effects,
                Effect::Publish(
                    AgentEvent::ToolFinished {
                        id: copy_str(&c.id),
                        duration_ms: run.duration_ms,
                        success,
                    },
                ),
            );
            push_effect(&mut effects, Effect::Append(Message::tool_result(copy_str(&c.id), content)));
            let ghost old_records = self.tool_history@;
            let record = ToolRecord { tool_name: copy_str(&c.name), success, error };
            let ghost record_view = record@;
            self.tool_history.push(record);
            proof {
                assert(summary::records_view(self.tool_history@) =~= summary::records_view(
                    old_records,
                ).push(record_view));
                assert(jv[i as int] == c@);
                assert(rv[i as int] == run@);
                assert(jv.take(i + 1).drop_last() =~= jv.take(i as int));
                assert(rv.take(i + 1).drop_last() =~= rv.take(i as int));
                assert(record_view == run_record(c@, run@));
                assert(effects_view(effects@) =~= so_far + run_effects(c@, run@));
                assert(recorded.push(record_view) =~= before.history + run_records(jv, rv).take(
                    i + 1,
                ));
            }
            i += 1;
        }
        assert(jv.take(i as int) =~= jv);
        assert(rv.take(i as int) =~= rv);
        assert(run_records(jv, rv).take(i as int) =~= run_records(jv, rv));
        self.observe(effects)
    }

    /// Whether an input answers what the machine waits for.
    pub fn accepts(&self, input: &Input) -> (r: bool)
        ensures
            r == self@.accepts(input@),
    {
        match (input, &self.phase) {
            (Input::Start, Phase::Rest) => true,
            (Input::Ready, Phase::Prepare) => true,
            (Input::Rejected(_), Phase::Prepare) => true,
            (Input::Rejected(_), Phase::Review(_)) => true,
            (Input::Replied(_), Phase::Call) => true,
            (Input::ModelFailed(_), Phase::Call) => true,
            (Input::Accepted, Phase::Review(_)) => true,
            (Input::Allowed, Phase::Gate { .. }) => true,
            (Input::Blocked(_), Phase::Gate { .. }) => true,
            (Input::Ran(runs), Phase::Work { jobs }) => runs.len() == jobs.len(),
            _ => false,
        }
    }

    /// Takes one step: the effects to carry out and the action to perform next.
    pub fn step(&mut self, input: Input) -> (s: Step)
        requires
            old(self)@.wf(),
            old(self)@.accepts(input@),
        ensures
            outcome(final(self)@, s) == old(self)@.step(input@),
            final(self)@.wf(),
    {
        let ghost before = self@;
        proof {
            lemma_step_keeps_wf(self@, input@);
        }
        match input {
            Input::Start => {
                let mut effects = no_effects();
                match self.state.transition(AgentState::Thinking) {
                    Ok(_) => {
                        self.move_to(AgentState::Thinking, &mut effects);
                        assert(effects_view(effects@) =~= seq![moved(AgentState::Thinking)]);
                        self.iteration = 0;
                        self.last_calls = Vec::new();
                        assert(self@.last_calls =~= Seq::empty());
                        self.iterate(effects)
                    },
                    Err(e) => Step { effects, action: Action::Finish(Err(e)) },
                }
            },
            Input::Ready => {
                self.phase = Phase::Call;
                Step { effects: no_effects(), action: Action::Call }
            },
            Input::Rejected(e) => {
                let effects = no_effects();
                self.fail(effects, e)
            },
            Input::ModelFailed(m) => {
                let effects = no_effects();
                self.fail(effects, CogentError::Provider(m))
            },
            Input::Replied(r) => {
                let mut effects = no_effects();
                push_effect(
                    &mut effects,
                    Effect::Publish(
                        AgentEvent::TokenUsage {
                            prompt_tokens: r.prompt_tokens,
                            completion_tokens: r.completion_tokens,
                        },
                    ),
                );
                assert(effects_view(effects@) =~= seq![
                    EffectView::Publish(
                        EventView::TokenUsage {
                            prompt_tokens: r.prompt_tokens,
                            completion_tokens: r.completion_tokens,
                        },
                    ),
                ]);
                self.phase = Phase::Review(r);
                Step { effects, action: Action::Review }
            },
            Input::Accepted => {
                let phase = self.take_phase();
                match phase {
                    Phase::Review(r) => {
                        proof {
                            lemma_gating_ignores_phase(
                                EngineView {
                                    state: AgentState::ToolCalling,
                                    last_calls: signatures(r@.tool_calls),
                                    ..before
                                },
                                PhaseView::Rest,
                                seq![moved(AgentState::ToolCalling)],
                                r@.tool_calls,
                                Seq::empty(),
                                0,
                            );
                        }
                        self.decide(r)
                    },
                    _ => vstd::pervasive::unreached(),
                }
            },
            Input::Allowed => {
                let phase = self.take_phase();
                match phase {
                    Phase::Gate { calls, approved, at } => {
                        let ghost av = types::calls_view(approved@);
                        let mut approved = approved;
                        let c = &calls[at];
                        assert(types::calls_view(calls@)[at as int] == c@);
                        assert(at < calls.len());
                        let mut effects = no_effects();
                        push_effect(
                            &mut effects,
                            Effect::Publish(
                                AgentEvent::ToolStarted {
                                    id: copy_str(&c.id),
                                    name: copy_str(&c.name),
                                    args: copy_str(&c.arguments),
                                },
                            ),
                        );
                        assert(effects_view(effects@) =~= seq![started(c@)]);
                        approved.push(c.clone());
                        assert(types::calls_view(approved@) =~= av.push(c@));
                        proof {
                            lemma_gating_ignores_phase(
                                before,
                                PhaseView::Rest,
                                effects_view(effects@),
                                types::calls_view(calls@),
                                types::calls_view(approved@),
                                at + 1,
                            );
                        }
                        self.gate(effects, calls, approved, at + 1)
                    },
                    _ => vstd::pervasive::unreached(),
                }
            },
            Input::Blocked(reason) => {
                let phase = self.take_phase();
                match phase {
                    Phase::Gate { calls, approved, at } => {
                        let c = &calls[at];
                        assert(types::calls_view(calls@)[at as int] == c@);
                        assert(at < calls.len());
                        let mut m = copy_str("Error: tool call blocked: ");
                        m.append(&reason);
                        let mut effects = no_effects();
                        push_effect(
                            &mut effects,
                            Effect::Append(Message::tool_result(copy_str(&c.id), m)),
                        );
                        assert(effects_view(effects@) =~= seq![
                            EffectView::Append(blocked_tool(c@, reason@)),
                        ]);
                        proof {
                            lemma_gating_ignores_phase(
                                before,
                                PhaseView::Rest,
                                effects_view(effects@),
                                types::calls_view(calls@),
                                types::calls_view(approved@),
                                at + 1,
                            );
                        }
                        self.gate(effects, calls, approved, at + 1)
                    },
                    _ => vstd::pervasive::unreached(),
                }
            },
            Input::Ran(runs) => {
                let phase = self.take_phase();
                match phase {
                    Phase::Work { jobs } => self.finish_tools(jobs, runs),
                    _ => vstd::pervasive::unreached(),
                }
            },
        }
    }

    /// Takes out what the machine waits for.
    fn take_phase(&mut self) -> (p: Phase)
        ensures
            p == old(self).phase,
            final(self)@ == (EngineView { phase: PhaseView::Rest, ..old(self)@ }),
    {
        let mut p = Phase::Rest;
        core::mem::swap(&mut p, &mut self.phase);
        p
    }
}

/// What the machine waited for does not matter to the calls in turn.
proof fn lemma_gating_ignores_phase(
    e: EngineView,
    phase: PhaseView,
    effects: Seq<EffectView>,
    calls: Seq<ToolCallView>,
    approved: Seq<ToolCallView>,
    at: int,
)
    ensures
        gating(EngineView { phase, ..e }, effects, calls, approved, at) == gating(
            e,
            effects,
            calls,
            approved,
            at,
        ),
    decreases calls.len() - at,
{
    if 0 <= at < calls.len() && !e.tools.contains(calls[at].name) {
        lemma_gating_ignores_phase(
            e,
            phase,
            effects.push(EffectView::Append(unknown_tool(calls[at], e.tools))),
            calls,
            approved,
            at + 1,
        );
    }
}

proof fn lemma_gating_keeps_wf(
    e: EngineView,
    effects: Seq<EffectView>,
    calls: Seq<ToolCallView>,
    approved: Seq<ToolCallView>,
    at: int,
)
    requires
        e.iteration <= e.max_iterations,
        e.iteration >= 1,
        e.state == AgentState::ToolCalling,
        0 <= at,
    ensures
        gating(e, effects, calls, approved, at).engine.wf(),
    decreases calls.len() - at,
{
    if at < calls.len() && !e.tools.contains(calls[at].name) {
        lemma_gating_keeps_wf(
            e,
            effects.push(EffectView::Append(unknown_tool(calls[at], e.tools))),
            calls,
            approved,
            at + 1,
        );
    }
}

proof fn lemma_step_keeps_wf(e: EngineView, input: InputView)
    requires
        e.wf(),
        e.accepts(input),
    ensures
        e.step(input).engine.wf(),
{
    match input {
        InputView::Accepted => {
            let r = e.phase->Review_0;
            let next = EngineView {
                state: AgentState::ToolCalling,
                last_calls: signatures(r.tool_calls),
                ..e
            };
            lemma_gating_keeps_wf(
                next,
                seq![moved(AgentState::ToolCalling)],
                r.tool_calls,
                Seq::empty(),
                0,
            );
        },
        InputView::Allowed => {
            let call = e.phase->calls[e.phase->at];
            lemma_gating_keeps_wf(
                e,
                seq![started(call)],
                e.phase->calls,
                e.phase->approved.push(call),
                e.phase->at + 1,
            );
        },
        InputView::Blocked(reason) => {
            let call = e.phase->calls[e.phase->at];
            lemma_gating_keeps_wf(
                e,
                seq![EffectView::Append(blocked_tool(call, reason))],
                e.phase->calls,
                e.phase->approved,
                e.phase->at + 1,
            );
        },
        _ => {},
    }
}

// ---------------------------------------------------------------------------
// Laws of the loop
// ---------------------------------------------------------------------------

/// The state in which some effects leave the agent.
pub open spec fn end_state(s: AgentState, effects: Seq<EffectView>) -> AgentState
    decreases effects.len(),
{
    if effects.len() == 0 {
        s
    } else {
        match effects.last() {
            EffectView::Publish(EventView::StateChanged(t)) => t,
            _ => end_state(s, effects.drop_last()),
        }
    }
}

/// Whether every move that some effects announce is allowed.
pub open spec fn legal_path(s: AgentState, effects: Seq<EffectView>) -> bool
    decreases effects.len(),
{
    effects.len() == 0 || {
        &&& legal_path(s, effects.drop_last())
        &&& match effects.last() {
            EffectView::Publish(EventView::StateChanged(t)) => end_state(
                s,
                effects.drop_last(),
            ).allows(t),
            _ => true,
        }
    }
}

proof fn lemma_path_push(s: AgentState, effects: Seq<EffectView>, e: EffectView)
    ensures
        end_state(s, effects.push(e)) == (match e {
            EffectView::Publish(EventView::StateChanged(t)) => t,
            _ => end_state(s, effects),
        }),
        legal_path(s, effects.push(e)) == (legal_path(s, effects) && match e {
            EffectView::Publish(EventView::StateChanged(t)) => end_state(s, effects).allows(t),
            _ => true,
        }),
{
    assert(effects.push(e).drop_last() =~= effects);
}

proof fn lemma_path_iterating(s: AgentState, e: EngineView, effects: Seq<EffectView>)
    requires
        legal_path(s, effects),
        end_state(s, effects) == e.state,
    ensures
        ({
            let r = iterating(e, effects);
            legal_path(s, r.effects) && end_state(s, r.effects) == r.engine.state
        }),
{
    lemma_path_push(s, effects, moved(AgentState::Failed));
}

proof fn lemma_path_observing(s: AgentState, e: EngineView, effects: Seq<EffectView>)
    requires
        legal_path(s, effects),
        end_state(s, effects) == e.state,
        e.state == AgentState::ToolCalling,
    ensures
        ({
            let r = observing(e, effects);
            legal_path(s, r.effects) && end_state(s, r.effects) == r.engine.state
        }),
{
    let f1 = effects.push(moved(AgentState::Observing));
    lemma_path_push(s, effects, moved(AgentState::Observing));
    lemma_path_push(s, f1, moved(AgentState::Thinking));
    lemma_path_iterating(
        s,
        EngineView { state: AgentState::Thinking, ..e },
        f1.push(moved(AgentState::Thinking)),
    );
}

proof fn lemma_path_gating(
    s: AgentState,
    e: EngineView,
    effects: Seq<EffectView>,
    calls: Seq<ToolCallView>,
    approved: Seq<ToolCallView>,
    at: int,
)
    requires
        legal_path(s, effects),
        end_state(s, effects) == e.state,
    ensures
        ({
            let r = gating(e, effects, calls, approved, at);
            legal_path(s, r.effects) && end_state(s, r.effects) == r.engine.state
        }),
    decreases calls.len() - at,
{
    if 0 <= at < calls.len() && !e.tools.contains(calls[at].name) {
        let note = EffectView::Append(unknown_tool(calls[at], e.tools));
        lemma_path_push(s, effects, note);
        lemma_path_gating(s, e, effects.push(note), calls, approved, at + 1);
    }
}

proof fn lemma_path_runs(s: AgentState, jobs: Seq<ToolCallView>, runs: Seq<RunView>)
    ensures
        legal_path(s, all_run_effects(jobs, runs)),
        end_state(s, all_run_effects(jobs, runs)) == s,
    decreases jobs.len(),
{
    if jobs.len() > 0 && runs.len() == jobs.len() {
        lemma_path_runs(s, jobs.drop_last(), runs.drop_last());
        let before = all_run_effects(jobs.drop_last(), runs.drop_last());
        let two = run_effects(jobs.last(), runs.last());
        lemma_path_push(s, before, two[0]);
        lemma_path_push(s, before.push(two[0]), two[1]);
        assert(before + two =~= before.push(two[0]).push(two[1]));
    }
}

/// The events tell the truth about the states: the moves that a step announces
/// lead, each allowed by the table of moves, from the state before the step to
/// the state after it.
pub proof fn law_states_follow_the_table(e: EngineView, input: InputView)
    requires
        e.wf(),
        e.accepts(input),
    ensures
        legal_path(e.state, e.step(input).effects),
        end_state(e.state, e.step(input).effects) == e.step(input).engine.state,
{
    let s = e.state;
    let none = Seq::<EffectView>::empty();
    match input {
        InputView::Start => {
            lemma_path_push(s, none, moved(AgentState::Thinking));
            assert(none.push(moved(AgentState::Thinking)) =~= seq![moved(AgentState::Thinking)]);
            if e.state.allows(AgentState::Thinking) {
                lemma_path_iterating(
                    s,
                    EngineView {
                        state: AgentState::Thinking,
                        iteration: 0,
                        last_calls: Seq::empty(),
                        ..e
                    },
                    seq![moved(AgentState::Thinking)],
                );
            }
        },
        InputView::Ready => {},
        InputView::Rejected(_) => {
            lemma_path_push(s, none, moved(AgentState::Failed));
        },
        InputView::ModelFailed(_) => {
            lemma_path_push(s, none, moved(AgentState::Failed));
        },
        InputView::Replied(r) => {
            let usage = e.step(input).effects[0];
            lemma_path_push(s, none, usage);
            assert(none.push(usage) =~= e.step(input).effects);
        },
        InputView::Accepted => {
            let r = e.phase->Review_0;
            let next = EngineView {
                state: AgentState::ToolCalling,
                last_calls: signatures(r.tool_calls),
                ..e
            };
            let f = seq![moved(AgentState::ToolCalling)];
            lemma_path_push(s, none, moved(AgentState::ToolCalling));
            assert(none.push(moved(AgentState::ToolCalling)) =~= f);
            lemma_path_push(s, f, EffectView::Append(repeat_warning()));
            if r.tool_calls.len() > 0 {
                if repeats(r.tool_calls, e.last_calls) {
                    lemma_path_observing(s, next, f.push(EffectView::Append(repeat_warning())));
                } else {
                    lemma_path_gating(s, next, f, r.tool_calls, Seq::empty(), 0);
                }
            } else {
                lemma_path_push(s, none, moved(AgentState::Failed));
                let answer = EffectView::Append(MessageView::plain(Role::Assistant, r.content));
                lemma_path_push(s, none, moved(AgentState::Completed));
                lemma_path_push(s, none.push(moved(AgentState::Completed)), answer);
                assert(none.push(moved(AgentState::Completed)).push(answer) =~= seq![
                    moved(AgentState::Completed),
                    answer,
                ]);
            }
        },
        InputView::Allowed => {
            let call = e.phase->calls[e.phase->at];
            lemma_path_push(s, none, started(call));
            assert(none.push(started(call)) =~= seq![started(call)]);
            lemma_path_gating(
                s,
                e,
                seq![started(call)],
                e.phase->calls,
                e.phase->approved.push(call),
                e.phase->at + 1,
            );
        },
        InputView::Blocked(reason) => {
            let call = e.phase->calls[e.phase->at];
            let note = EffectView::Append(blocked_tool(call, reason));
            lemma_path_push(s, none, note);
            assert(none.push(note) =~= seq![note]);
            lemma_path_gating(
                s,
                e,
                seq![note],
                e.phase->calls,
                e.phase->approved,
                e.phase->at + 1,
            );
        },
        InputView::Ran(runs) => {
            lemma_path_runs(s, e.phase->jobs, runs);
            lemma_path_observing(
                s,
                EngineView { history: e.history + run_records(e.phase->jobs, runs), ..e },
                all_run_effects(e.phase->jobs, runs),
            );
        },
    }
}

/// How many of some tool calls have an identifier.
pub open spec fn calls_with(calls: Seq<ToolCallView>, id: Seq<char>) -> nat
    decreases calls.len(),
{
    if calls.len() == 0 {
        0
    } else {
        calls_with(calls.drop_last(), id) + if calls.last().id == id {
            1nat
        } else {
            0nat
        }
    }
}

/// How many answers to a call are among some effects.
pub open spec fn answers_to(effects: Seq<EffectView>, id: Seq<char>) -> nat
    decreases effects.len(),
{
    if effects.len() == 0 {
        0
    } else {
        answers_to(effects.drop_last(), id) + if effects.last() matches EffectView::Append(m)
            && m.role == Role::Tool && m.tool_call_id == Some(id) {
            1nat
        } else {
            0nat
        }
    }
}

/// How many starts of a call are among some effects.
pub open spec fn starts_of(effects: Seq<EffectView>, call: Seq<char>) -> nat
    decreases effects.len(),
{
    if effects.len() == 0 {
        0
    } else {
        starts_of(effects.drop_last(), call) + match effects.last() {
            EffectView::Publish(EventView::ToolStarted { id, .. }) => if id == call {
                1nat
            } else {
                0nat
            },
            _ => 0nat,
        }
    }
}

/// How many ends of a call are among some effects.
pub open spec fn ends_of(effects: Seq<EffectView>, call: Seq<char>) -> nat
    decreases effects.len(),
{
    if effects.len() == 0 {
        0
    } else {
        ends_of(effects.drop_last(), call) + match effects.last() {
            EffectView::Publish(EventView::ToolFinished { id, .. }) => if id == call {
                1nat
            } else {
                0nat
            },
            _ => 0nat,
        }
    }
}

impl EngineView {
    /// How many answers the machine still owes to a call.
    pub open spec fn owes(self, id: Seq<char>) -> nat {
        match self.phase {
            PhaseView::Gate { calls, approved, at } => calls_with(approved, id) + calls_with(
                calls.skip(at),
                id,
            ),
            PhaseView::Work { jobs } => calls_with(jobs, id),
            _ => 0,
        }
    }

    /// How many runs of a call have begun and not ended.
    pub open spec fn running(self, id: Seq<char>) -> nat {
        match self.phase {
            PhaseView::Gate { calls, approved, at } => calls_with(approved, id),
            PhaseView::Work { jobs } => calls_with(jobs, id),
            _ => 0,
        }
    }

    /// How many answers to a call the machine takes on with an input: one for
    /// each tool call of a reply that does not repeat itself.
    pub open spec fn takes_on(self, input: InputView, id: Seq<char>) -> nat {
        match (input, self.phase) {
            (InputView::Accepted, PhaseView::Review(r)) => if repeats(
                r.tool_calls,
                self.last_calls,
            ) {
                0
            } else {
                calls_with(r.tool_calls, id)
            },
            _ => 0,
        }
    }
}

proof fn lemma_counts_push(effects: Seq<EffectView>, e: EffectView, id: Seq<char>)
    ensures
        answers_to(effects.push(e), id) == answers_to(effects, id) + if e
            matches EffectView::Append(m) && m.role == Role::Tool && m.tool_call_id == Some(id) {
            1nat
        } else {
            0nat
        },
        starts_of(effects.push(e), id) == starts_of(effects, id) + match e {
            EffectView::Publish(EventView::ToolStarted { id: i, .. }) => if i == id {
                1nat
            } else {
                0nat
            },
            _ => 0nat,
        },
        ends_of(effects.push(e), id) == ends_of(effects, id) + match e {
            EffectView::Publish(EventView::ToolFinished { id: i, .. }) => if i == id {
                1nat
            } else {
                0nat
            },
            _ => 0nat,
        },
{
    assert(effects.push(e).drop_last() =~= effects);
}

proof fn lemma_calls_with_first(calls: Seq<ToolCallView>, id: Seq<char>)
    requires
        calls.len() > 0,
    ensures
        calls_with(calls, id) == (if calls[0].id == id {
            1nat
        } else {
            0nat
        }) + calls_with(calls.skip(1), id),
    decreases calls.len(),
{
    if calls.len() == 1 {
        assert(calls.drop_last() =~= Seq::empty());
        assert(calls.skip(1) =~= Seq::empty());
    } else {
        lemma_calls_with_first(calls.drop_last(), id);
        assert(calls.drop_last().skip(1) =~= calls.skip(1).drop_last());
        assert(calls.skip(1).last() == calls.last());
    }
}

proof fn lemma_gating_counts(
    e: EngineView,
    effects: Seq<EffectView>,
    calls: Seq<ToolCallView>,
    approved: Seq<ToolCallView>,
    at: int,
    id: Seq<char>,
)
    requires
        0 <= at <= calls.len(),
    ensures
        ({
            let r = gating(e, effects, calls, approved, at);
            &&& answers_to(effects, id) + calls_with(approved, id) + calls_with(calls.skip(at), id)
                == answers_to(r.effects, id) + r.engine.owes(id)
            &&& r.engine.running(id) == calls_with(approved, id)
            &&& starts_of(r.effects, id) == starts_of(effects, id)
            &&& ends_of(r.effects, id) == ends_of(effects, id)
        }),
    decreases calls.len() - at,
{
    if at < calls.len() && !e.tools.contains(calls[at].name) {
        let note = EffectView::Append(unknown_tool(calls[at], e.tools));
        lemma_counts_push(effects, note, id);
        lemma_gating_counts(e, effects.push(note), calls, approved, at + 1, id);
        lemma_calls_with_first(calls.skip(at), id);
        assert(calls.skip(at).skip(1) =~= calls.skip(at + 1));
    } else if at == calls.len() {
        assert(calls.skip(at) =~= Seq::empty());
    }
}

proof fn lemma_runs_counts(jobs: Seq<ToolCallView>, runs: Seq<RunView>, id: Seq<char>)
    requires
        runs.len() == jobs.len(),
    ensures
        answers_to(all_run_effects(jobs, runs), id) == calls_with(jobs, id),
        ends_of(all_run_effects(jobs, runs), id) == calls_with(jobs, id),
        starts_of(all_run_effects(jobs, runs), id) == 0,
    decreases jobs.len(),
{
    if jobs.len() > 0 {
        lemma_runs_counts(jobs.drop_last(), runs.drop_last(), id);
        let before = all_run_effects(jobs.drop_last(), runs.drop_last());
        let two = run_effects(jobs.last(), runs.last());
        lemma_counts_push(before, two[0], id);
        lemma_counts_push(before.push(two[0]), two[1], id);
        assert(before + two =~= before.push(two[0]).push(two[1]));
    }
}

proof fn lemma_observing_counts(e: EngineView, effects: Seq<EffectView>, id: Seq<char>)
    ensures
        ({
            let r = observing(e, effects);
            &&& answers_to(r.effects, id) == answers_to(effects, id)
            &&& starts_of(r.effects, id) == starts_of(effects, id)
            &&& ends_of(r.effects, id) == ends_of(effects, id)
            &&& r.engine.owes(id) == 0
            &&& r.engine.running(id) == 0
        }),
{
    let f1 = effects.push(moved(AgentState::Observing));
    let f2 = f1.push(moved(AgentState::Thinking));
    lemma_counts_push(effects, moved(AgentState::Observing), id);
    lemma_counts_push(f1, moved(AgentState::Thinking), id);
    lemma_counts_push(f2, moved(AgentState::Failed), id);
}

/// Every tool call is answered, and answered once: what a step takes on and
/// what was owed before it equals what it answers and what is owed after it;
/// and in the same way every run of a tool that is announced as begun is
/// announced as ended.
pub proof fn law_every_call_is_answered_once(e: EngineView, input: InputView, id: Seq<char>)
    requires
        e.wf(),
        e.accepts(input),
    ensures
        ({
            let r = e.step(input);
            &&& e.takes_on(input, id) + e.owes(id) == answers_to(r.effects, id) + r.engine.owes(id)
            &&& starts_of(r.effects, id) + e.running(id) == ends_of(r.effects, id)
                + r.engine.running(id)
        }),
{
    let none = Seq::<EffectView>::empty();
    match input {
        InputView::Start => {
            let f = seq![moved(AgentState::Thinking)];
            lemma_counts_push(none, moved(AgentState::Thinking), id);
            assert(none.push(moved(AgentState::Thinking)) =~= f);
            lemma_counts_push(f, moved(AgentState::Failed), id);
        },
        InputView::Ready => {},
        InputView::Rejected(_) => {
            lemma_counts_push(none, moved(AgentState::Failed), id);
        },
        InputView::ModelFailed(_) => {
            lemma_counts_push(none, moved(AgentState::Failed), id);
        },
        InputView::Replied(r) => {
            let usage = e.step(input).effects[0];
            lemma_counts_push(none, usage, id);
            assert(none.push(usage) =~= e.step(input).effects);
        },
        InputView::Accepted => {
            let r = e.phase->Review_0;
            let next = EngineView {
                state: AgentState::ToolCalling,
                last_calls: signatures(r.tool_calls),
                ..e
            };
            let f = seq![moved(AgentState::ToolCalling)];
            lemma_counts_push(none, moved(AgentState::ToolCalling), id);
            assert(none.push(moved(AgentState::ToolCalling)) =~= f);
            let warning = EffectView::Append(repeat_warning());
            lemma_counts_push(f, warning, id);
            if r.tool_calls.len() > 0 {
                if repeats(r.tool_calls, e.last_calls) {
                    lemma_observing_counts(next, f.push(warning), id);
                } else {
                    lemma_gating_counts(next, f, r.tool_calls, Seq::empty(), 0, id);
                    assert(r.tool_calls.skip(0) =~= r.tool_calls);
                }
            } else {
                lemma_counts_push(none, moved(AgentState::Failed), id);
                let answer = EffectView::Append(MessageView::plain(Role::Assistant, r.content));
                lemma_counts_push(none, moved(AgentState::Completed), id);
                lemma_counts_push(none.push(moved(AgentState::Completed)), answer, id);
                assert(none.push(moved(AgentState::Completed)).push(answer) =~= seq![
                    moved(AgentState::Completed),
                    answer,
                ]);
            }
        },
        InputView::Allowed => {
            let calls = e.phase->calls;
            let at = e.phase->at;
            let approved = e.phase->approved;
            lemma_counts_push(none, started(calls[at]), id);
            assert(none.push(started(calls[at])) =~= seq![started(calls[at])]);
            lemma_gating_counts(
                e,
                seq![started(calls[at])],
                calls,
                approved.push(calls[at]),
                at + 1,
                id,
            );
            lemma_calls_with_first(calls.skip(at), id);
            assert(calls.skip(at).skip(1) =~= calls.skip(at + 1));
            assert(approved.push(calls[at]).drop_last() =~= approved);
        },
        InputView::Blocked(reason) => {
            let calls = e.phase->calls;
            let at = e.phase->at;
            let note = EffectView::Append(blocked_tool(calls[at], reason));
            lemma_counts_push(none, note, id);
            assert(none.push(note) =~= seq![note]);
            lemma_gating_counts(e, seq![note], calls, e.phase->approved, at + 1, id);
            lemma_calls_with_first(calls.skip(at), id);
            assert(calls.skip(at).skip(1) =~= calls.skip(at + 1));
        },
        InputView::Ran(runs) => {
            lemma_runs_counts(e.phase->jobs, runs, id);
            lemma_observing_counts(
                EngineView { history: e.history + run_records(e.phase->jobs, runs), ..e },
                all_run_effects(e.phase->jobs, runs),
                id,
            );
        },
    }
}

/// How far a run is from its end: the iterations that are left, then the stage
/// of the current one, then the tool calls to be checked.
pub open spec fn distance(e: EngineView) -> (int, int, int) {
    (
        if e.phase is Rest {
            0
        } else {
            e.max_iterations - e.iteration + 1
        },
        match e.phase {
            PhaseView::Rest => 0,
            PhaseView::Prepare => 5,
            PhaseView::Call => 4,
            PhaseView::Review(_) => 3,
            PhaseView::Gate { .. } => 2,
            PhaseView::Work { .. } => 1,
        },
        match e.phase {
            PhaseView::Gate { calls, at, .. } => calls.len() - at,
            _ => 0,
        },
    )
}

/// Whether a triple of numbers is below another, the first entry deciding
/// first.
pub open spec fn below(a: (int, int, int), b: (int, int, int)) -> bool {
    ||| a.0 < b.0
    ||| a.0 == b.0 && a.1 < b.1
    ||| a.0 == b.0 && a.1 == b.1 && a.2 < b.2
}

proof fn lemma_gating_distance(
    e: EngineView,
    effects: Seq<EffectView>,
    calls: Seq<ToolCallView>,
    approved: Seq<ToolCallView>,
    at: int,
)
    requires
        0 <= at <= calls.len(),
    ensures
        ({
            let r = gating(e, effects, calls, approved, at);
            &&& r.engine.max_iterations == e.max_iterations
            &&& r.engine.iteration == e.iteration
            &&& r.engine.phase is Gate || r.engine.phase is Work
            &&& r.engine.phase is Gate ==> distance(r.engine).2 <= calls.len() - at
        }),
    decreases calls.len() - at,
{
    if at < calls.len() && !e.tools.contains(calls[at].name) {
        lemma_gating_distance(
            e,
            effects.push(EffectView::Append(unknown_tool(calls[at], e.tools))),
            calls,
            approved,
            at + 1,
        );
    }
}

/// Every run ends: each step after the first brings the machine closer to its
/// end, in an order without infinite descent.
pub proof fn law_every_run_ends(e: EngineView, input: InputView)
    requires
        e.wf(),
        e.accepts(input),
        input !is Start,
    ensures
        below(distance(e.step(input).engine), distance(e)),
        distance(e.step(input).engine).0 >= 0,
        distance(e.step(input).engine).1 >= 0,
        distance(e.step(input).engine).2 >= 0,
{
    lemma_step_keeps_wf(e, input);
    match input {
        InputView::Accepted => {
            let r = e.phase->Review_0;
            lemma_gating_distance(
                EngineView {
                    state: AgentState::ToolCalling,
                    last_calls: signatures(r.tool_calls),
                    ..e
                },
                seq![moved(AgentState::ToolCalling)],
                r.tool_calls,
                Seq::empty(),
                0,
            );
        },
        InputView::Allowed => {
            let call = e.phase->calls[e.phase->at];
            lemma_gating_distance(
                e,
                seq![started(call)],
                e.phase->calls,
                e.phase->approved.push(call),
                e.phase->at + 1,
            );
        },
        InputView::Blocked(reason) => {
            let call = e.phase->calls[e.phase->at];
            lemma_gating_distance(
                e,
                seq![EffectView::Append(blocked_tool(call, reason))],
                e.phase->calls,
                e.phase->approved,
                e.phase->at + 1,
            );
        },
        _ => {},
    }
}

/// A run is over exactly where the machine waits for nothing more. Then the
/// agent is in a terminal state: completed, with the answer appended to the
/// memory as the last effect, or failed. Only a run that was refused, since the
/// agent was not idle, leaves it as it was.
pub proof fn law_a_run_ends_in_a_terminal_state(e: EngineView, input: InputView)
    requires
        e.wf(),
        e.accepts(input),
    ensures
        ({
            let r = e.step(input);
            &&& r.action is Finish <==> r.engine.phase is Rest
            &&& r.action matches ActionView::Finish(Ok(answer)) ==> {
                &&& r.engine.state == AgentState::Completed
                &&& r.effects.len() > 0
                &&& r.effects.last() == EffectView::Append(
                    MessageView::plain(Role::Assistant, answer),
                )
            }
            &&& r.action matches ActionView::Finish(Err(_)) ==> r.engine.state
                == AgentState::Failed || input is Start && r.engine == e && e.state
                != AgentState::Idle
        }),
{
    match input {
        InputView::Accepted => {
            let r = e.phase->Review_0;
            lemma_gating_distance(
                EngineView {
                    state: AgentState::ToolCalling,
                    last_calls: signatures(r.tool_calls),
                    ..e
                },
                seq![moved(AgentState::ToolCalling)],
                r.tool_calls,
                Seq::empty(),
                0,
            );
            lemma_gating_action(
                EngineView {
                    state: AgentState::ToolCalling,
                    last_calls: signatures(r.tool_calls),
                    ..e
                },
                seq![moved(AgentState::ToolCalling)],
                r.tool_calls,
                Seq::empty(),
                0,
            );
        },
        InputView::Allowed => {
            let call = e.phase->calls[e.phase->at];
            lemma_gating_distance(
                e,
                seq![started(call)],
                e.phase->calls,
                e.phase->approved.push(call),
                e.phase->at + 1,
            );
            lemma_gating_action(
                e,
                seq![started(call)],
                e.phase->calls,
                e.phase->approved.push(call),
                e.phase->at + 1,
            );
        },
        InputView::Blocked(reason) => {
            let call = e.phase->calls[e.phase->at];
            let f = seq![EffectView::Append(blocked_tool(call, reason))];
            lemma_gating_distance(e, f, e.phase->calls, e.phase->approved, e.phase->at + 1);
            lemma_gating_action(e, f, e.phase->calls, e.phase->approved, e.phase->at + 1);
        },
        _ => {},
    }
}

proof fn lemma_gating_action(
    e: EngineView,
    effects: Seq<EffectView>,
    calls: Seq<ToolCallView>,
    approved: Seq<ToolCallView>,
    at: int,
)
    ensures
        ({
            let r = gating(e, effects, calls, approved, at);
            &&& r.action is CheckTool || r.action is RunTools
            &&& r.engine.phase matches PhaseView::Gate { approved: a, .. } ==> a == approved
            &&& r.engine.phase matches PhaseView::Work { jobs } ==> jobs == approved
        }),
    decreases calls.len() - at,
{
    if 0 <= at < calls.len() && !e.tools.contains(calls[at].name) {
        lemma_gating_action(
            e,
            effects.push(EffectView::Append(unknown_tool(calls[at], e.tools))),
            calls,
            approved,
            at + 1,
        );
    }
}

/// A reply that repeats a tool call of the reply before runs no tool: the model
/// is warned, and the loop goes on.
pub proof fn law_repeated_calls_do_not_run(e: EngineView, r: ResponseView)
    requires
        e.wf(),
        e.phase == PhaseView::Review(r),
        repeats(r.tool_calls, e.last_calls),
    ensures
        ({
            let s = e.step(InputView::Accepted);
            &&& s.effects.contains(EffectView::Append(repeat_warning()))
            &&& s.engine.history == e.history
            &&& s.engine.phase is Prepare || s.engine.phase is Rest
            &&& forall|id: Seq<char>| #[trigger] starts_of(s.effects, id) == 0
        }),
{
    let s = e.step(InputView::Accepted);
    assert(s.effects[1] == EffectView::Append(repeat_warning()));
    let none = Seq::<EffectView>::empty();
    let f = seq![moved(AgentState::ToolCalling)];
    let next = EngineView {
        state: AgentState::ToolCalling,
        last_calls: signatures(r.tool_calls),
        ..e
    };
    assert forall|id: Seq<char>| #[trigger] starts_of(s.effects, id) == 0 by {
        lemma_counts_push(none, moved(AgentState::ToolCalling), id);
        assert(none.push(moved(AgentState::ToolCalling)) =~= f);
        lemma_counts_push(f, EffectView::Append(repeat_warning()), id);
        lemma_observing_counts(next, f.push(EffectView::Append(repeat_warning())), id);
    }
}

/// What the reply before asked for is what the next one is held against.
pub proof fn law_the_last_reply_is_remembered(e: EngineView, r: ResponseView)
    requires
        e.wf(),
        e.phase == PhaseView::Review(r),
        r.tool_calls.len() > 0,
    ensures
        e.step(InputView::Accepted).engine.last_calls == signatures(r.tool_calls),
{
    let next = EngineView {
        state: AgentState::ToolCalling,
        last_calls: signatures(r.tool_calls),
        ..e
    };
    lemma_gating_keeps_last_calls(
        next,
        seq![moved(AgentState::ToolCalling)],
        r.tool_calls,
        Seq::empty(),
        0,
    );
}

proof fn lemma_gating_keeps_last_calls(
    e: EngineView,
    effects: Seq<EffectView>,
    calls: Seq<ToolCallView>,
    approved: Seq<ToolCallView>,
    at: int,
)
    ensures
        gating(e, effects, calls, approved, at).engine.last_calls == e.last_calls,
    decreases calls.len() - at,
{
    if 0 <= at < calls.len() && !e.tools.contains(calls[at].name) {
        lemma_gating_keeps_last_calls(
            e,
            effects.push(EffectView::Append(unknown_tool(calls[at], e.tools))),
            calls,
            approved,
            at + 1,
        );
    }
}

/// A tool call that a middleware blocked is not among the tools that will run.
pub proof fn law_blocked_calls_do_not_run(e: EngineView, reason: Seq<char>)
    requires
        e.wf(),
        e.phase is Gate,
    ensures
        ({
            let s = e.step(InputView::Blocked(reason));
            &&& s.engine.phase matches PhaseView::Gate { approved, .. } ==> approved
                == e.phase->approved
            &&& s.engine.phase matches PhaseView::Work { jobs } ==> jobs == e.phase->approved
        }),
{
    let call = e.phase->calls[e.phase->at];
    lemma_gating_action(
        e,
        seq![EffectView::Append(blocked_tool(call, reason))],
        e.phase->calls,
        e.phase->approved,
        e.phase->at + 1,
    );
}

/// Whether each of some inputs answers what the machine waits for in its turn.
pub open spec fn follows(e: EngineView, inputs: Seq<InputView>) -> bool
    decreases inputs.len(),
{
    inputs.len() == 0 || follows(e, inputs.drop_last()) && after(e, inputs.drop_last()).accepts(
        inputs.last(),
    )
}

/// The machine after some inputs.
pub open spec fn after(e: EngineView, inputs: Seq<InputView>) -> EngineView
    decreases inputs.len(),
{
    if inputs.len() == 0 {
        e
    } else {
        after(e, inputs.drop_last()).step(inputs.last()).engine
    }
}

/// How often the model is called in the course of some inputs.
pub open spec fn model_calls(e: EngineView, inputs: Seq<InputView>) -> nat
    decreases inputs.len(),
{
    if inputs.len() == 0 {
        0
    } else {
        model_calls(e, inputs.drop_last()) + if after(e, inputs.drop_last()).step(
            inputs.last(),
        ).action is Call {
            1nat
        } else {
            0nat
        }
    }
}

/// How often the model may still be called in this run.
spec fn calls_left(e: EngineView) -> int {
    e.max_iterations - e.iteration + if e.phase is Prepare {
        1int
    } else {
        0int
    }
}

proof fn lemma_step_calls_left(e: EngineView, input: InputView)
    requires
        e.wf(),
        e.accepts(input),
    ensures
        e.step(input).engine.max_iterations == e.max_iterations,
        input !is Start ==> calls_left(e.step(input).engine) + (if e.step(input).action is Call {
            1int
        } else {
            0int
        }) <= calls_left(e),
        input is Start && e.state == AgentState::Idle ==> calls_left(e.step(input).engine)
            <= e.max_iterations && e.step(input).action !is Call,
{
    match input {
        InputView::Accepted => {
            let r = e.phase->Review_0;
            let next = EngineView {
                state: AgentState::ToolCalling,
                last_calls: signatures(r.tool_calls),
                ..e
            };
            let f = seq![moved(AgentState::ToolCalling)];
            lemma_gating_distance(next, f, r.tool_calls, Seq::empty(), 0);
            lemma_gating_action(next, f, r.tool_calls, Seq::empty(), 0);
        },
        InputView::Allowed => {
            let call = e.phase->calls[e.phase->at];
            let approved = e.phase->approved.push(call);
            lemma_gating_distance(e, seq![started(call)], e.phase->calls, approved, e.phase->at + 1);
            lemma_gating_action(e, seq![started(call)], e.phase->calls, approved, e.phase->at + 1);
        },
        InputView::Blocked(reason) => {
            let call = e.phase->calls[e.phase->at];
            let f = seq![EffectView::Append(blocked_tool(call, reason))];
            lemma_gating_distance(e, f, e.phase->calls, e.phase->approved, e.phase->at + 1);
            lemma_gating_action(e, f, e.phase->calls, e.phase->approved, e.phase->at + 1);
        },
        _ => {},
    }
}

proof fn lemma_calls_bounded(e: EngineView, inputs: Seq<InputView>)
    requires
        e.wf(),
        e.state == AgentState::Idle,
        follows(e, inputs),
        inputs.len() > 0,
        inputs[0] is Start,
        forall|i: int| 0 < i < inputs.len() ==> (#[trigger] inputs[i]) !is Start,
    ensures
        after(e, inputs).wf(),
        after(e, inputs).max_iterations == e.max_iterations,
        model_calls(e, inputs) + calls_left(after(e, inputs)) <= e.max_iterations,
    decreases inputs.len(),
{
    let before = inputs.drop_last();
    if before.len() == 0 {
        assert(after(e, before) == e);
        assert(model_calls(e, before) == 0);
        lemma_step_keeps_wf(e, inputs.last());
        lemma_step_calls_left(e, inputs.last());
    } else {
        lemma_calls_bounded(e, before);
        lemma_step_keeps_wf(after(e, before), inputs.last());
        lemma_step_calls_left(after(e, before), inputs.last());
    }
}

/// In one run the model is called at most as often as the limit of iterations
/// says.
pub proof fn law_model_calls_are_bounded(e: EngineView, inputs: Seq<InputView>)
    requires
        e.wf(),
        e.state == AgentState::Idle,
        follows(e, inputs),
        inputs.len() > 0,
        inputs[0] is Start,
        forall|i: int| 0 < i < inputs.len() ==> (#[trigger] inputs[i]) !is Start,
    ensures
        model_calls(e, inputs) <= e.max_iterations,
{
    lemma_calls_bounded(e, inputs);
}

/// The calls in turn lead to the middleware or to the tools, in the same
/// iteration.
proof fn lemma_gating_stays(
    e: EngineView,
    effects: Seq<EffectView>,
    calls: Seq<ToolCallView>,
    approved: Seq<ToolCallView>,
    at: int,
)
    ensures
        ({
            let r = gating(e, effects, calls, approved, at);
            &&& r.engine.iteration == e.iteration
            &&& r.engine.max_iterations == e.max_iterations
            &&& r.engine.phase is Gate || r.engine.phase is Work
            &&& r.action !is Call
        }),
    decreases calls.len() - at,
{
    if 0 <= at < calls.len() && !e.tools.contains(calls[at].name) {
        lemma_gating_stays(
            e,
            effects.push(EffectView::Append(unknown_tool(calls[at], e.tools))),
            calls,
            approved,
            at + 1,
        );
    }
}

/// Whether an input is what comes of a model that never stops to ask for tools
/// while nothing fails.
pub open spec fn busy(input: InputView) -> bool {
    match input {
        InputView::Replied(r) => r.tool_calls.len() > 0,
        InputView::Rejected(_) => false,
        InputView::ModelFailed(_) => false,
        _ => true,
    }
}

/// What holds in the course of such a run: a reply that is looked at asks for
/// tools, and a run that is over reached its limit.
spec fn stays_busy(e: EngineView) -> bool {
    &&& e.phase matches PhaseView::Review(r) ==> r.tool_calls.len() > 0
    &&& e.phase is Rest ==> e.iteration == e.max_iterations && e.state == AgentState::Failed
}

proof fn lemma_busy_step(e: EngineView, input: InputView)
    requires
        e.wf(),
        e.accepts(input),
        busy(input),
        input is Start ==> e.state == AgentState::Idle,
        stays_busy(e) || input is Start,
    ensures
        ({
            let s = e.step(input);
            &&& stays_busy(s.engine)
            &&& s.engine.max_iterations == e.max_iterations
            &&& s.engine.phase is Rest ==> s.action == ActionView::Finish(
                Err(ErrorView::MaxIterationsExceeded(e.max_iterations)),
            )
            &&& calls_left(s.engine) + (if s.action is Call {
                1int
            } else {
                0int
            }) == (if input is Start {
                e.max_iterations as int
            } else {
                calls_left(e)
            })
        }),
{
    match input {
        InputView::Accepted => {
            let r = e.phase->Review_0;
            let next = EngineView {
                state: AgentState::ToolCalling,
                last_calls: signatures(r.tool_calls),
                ..e
            };
            let f = seq![moved(AgentState::ToolCalling)];
            lemma_gating_stays(next, f, r.tool_calls, Seq::empty(), 0);
        },
        InputView::Allowed => {
            let call = e.phase->calls[e.phase->at];
            let approved = e.phase->approved.push(call);
            lemma_gating_stays(e, seq![started(call)], e.phase->calls, approved, e.phase->at + 1);
        },
        InputView::Blocked(reason) => {
            let call = e.phase->calls[e.phase->at];
            let f = seq![EffectView::Append(blocked_tool(call, reason))];
            lemma_gating_stays(e, f, e.phase->calls, e.phase->approved, e.phase->at + 1);
        },
        _ => {},
    }
}

proof fn lemma_busy_run(e: EngineView, inputs: Seq<InputView>)
    requires
        e.wf(),
        e.state == AgentState::Idle,
        follows(e, inputs),
        inputs.len() > 0,
        inputs[0] is Start,
        forall|i: int| 0 < i < inputs.len() ==> (#[trigger] inputs[i]) !is Start,
        forall|i: int| 0 <= i < inputs.len() ==> busy(#[trigger] inputs[i]),
    ensures
        after(e, inputs).wf(),
        stays_busy(after(e, inputs)),
        after(e, inputs).max_iterations == e.max_iterations,
        model_calls(e, inputs) + calls_left(after(e, inputs)) == e.max_iterations,
    decreases inputs.len(),
{
    let before = inputs.drop_last();
    assert(busy(inputs[inputs.len() - 1]));
    if before.len() == 0 {
        assert(after(e, before) == e);
        assert(model_calls(e, before) == 0);
    } else {
        lemma_busy_run(e, before);
    }
    lemma_step_keeps_wf(after(e, before), inputs.last());
    lemma_busy_step(after(e, before), inputs.last());
}

/// A run in which every reply asks for tools, and nothing fails, calls the model
/// exactly as often as the limit of iterations says, and ends with the error of
/// that limit.
pub proof fn law_busy_runs_reach_the_limit(e: EngineView, inputs: Seq<InputView>)
    requires
        e.wf(),
        e.state == AgentState::Idle,
        follows(e, inputs),
        inputs.len() > 0,
        inputs[0] is Start,
        forall|i: int| 0 < i < inputs.len() ==> (#[trigger] inputs[i]) !is Start,
        forall|i: int| 0 <= i < inputs.len() ==> busy(#[trigger] inputs[i]),
        after(e, inputs).phase is Rest,
    ensures
        model_calls(e, inputs) == e.max_iterations,
        after(e, inputs).state == AgentState::Failed,
        after(e, inputs.drop_last()).step(inputs.last()).action == ActionView::Finish(
            Err(ErrorView::MaxIterationsExceeded(e.max_iterations)),
        ),
{
    lemma_busy_run(e, inputs);
    let before = inputs.drop_last();
    assert(busy(inputs[inputs.len() - 1]));
    if before.len() == 0 {
        assert(after(e, before) == e);
    } else {
        lemma_busy_run(e, before);
    }
    lemma_busy_step(after(e, before), inputs.last());
}

/// However a run ended, with an answer or with an error, a reset makes the agent
/// ready for the next: it is idle, keeps its tools and what they did, and a new
/// run begins with the first iteration.
pub proof fn law_the_next_run_can_begin(e: EngineView)
    requires
        e.wf(),
        e.phase is Rest,
    ensures
        ({
            let next = e.rested();
            &&& next.wf()
            &&& next.state == AgentState::Idle
            &&& next.accepts(InputView::Start)
            &&& next.tools == e.tools && next.history == e.history
            &&& e.max_iterations > 0 ==> next.step(InputView::Start).action == ActionView::Prepare
            &&& e.max_iterations > 0 ==> next.step(InputView::Start).engine.iteration == 1
        }),
{
}

/// The texts of a list, one after the other.
pub open spec fn concat(parts: Seq<Seq<char>>) -> Seq<char>
    decreases parts.len(),
{
    if parts.len() == 0 {
        Seq::empty()
    } else {
        parts[0] + concat(parts.skip(1))
    }
}

/// The pieces of an answer, one after the other, are the answer, and none is
/// empty or longer than sixteen characters.
pub proof fn law_chunks_make_up_the_answer(answer: Seq<char>)
    ensures
        concat(chunks(answer)) == answer,
        forall|i: int|
            0 <= i < chunks(answer).len() ==> 0 < (#[trigger] chunks(answer)[i]).len()
                <= CHUNK_CHARS,
    decreases answer.len(),
{
    if answer.len() == 0 {
    } else if answer.len() <= CHUNK_CHARS {
        assert(seq![answer].skip(1) =~= Seq::empty());
        assert(concat(seq![answer].skip(1)) == Seq::<char>::empty());
        assert(answer + Seq::<char>::empty() =~= answer);
    } else {
        let head = answer.take(CHUNK_CHARS as int);
        let rest = answer.skip(CHUNK_CHARS as int);
        law_chunks_make_up_the_answer(rest);
        let all = chunks(answer);
        assert(all.skip(1) =~= chunks(rest));
        assert(head + rest =~= answer);
        assert forall|i: int| 0 <= i < all.len() implies 0 < (#[trigger] all[i]).len()
            <= CHUNK_CHARS by {
            if i > 0 {
                assert(all[i] == chunks(rest)[i - 1]);
            }
        }
    }
}

// ---------------------------------------------------------------------------
// What each step does
// ---------------------------------------------------------------------------

/// What every step leaves as it is: the tools, the limit, and the records of
/// what ran before. Only tools that ran add records, and one each.
pub proof fn law_steps_keep_what_was_done(e: EngineView, input: InputView)
    requires
        e.wf(),
        e.accepts(input),
    ensures
        ({
            let next = e.step(input).engine;
            &&& next.tools == e.tools
            &&& next.max_iterations == e.max_iterations
            &&& input !is Ran ==> next.history == e.history
            &&& input matches InputView::Ran(runs) ==> {
                &&& next.history.len() == e.history.len() + runs.len()
                &&& next.history.take(e.history.len() as int) == e.history
            }
        }),
{
    match input {
        InputView::Accepted => {
            let r = e.phase->Review_0;
            lemma_gating_frame(
                EngineView {
                    state: AgentState::ToolCalling,
                    last_calls: signatures(r.tool_calls),
                    ..e
                },
                seq![moved(AgentState::ToolCalling)],
                r.tool_calls,
                Seq::empty(),
                0,
            );
        },
        InputView::Allowed => {
            let call = e.phase->calls[e.phase->at];
            lemma_gating_frame(
                e,
                seq![started(call)],
                e.phase->calls,
                e.phase->approved.push(call),
                e.phase->at + 1,
            );
        },
        InputView::Blocked(reason) => {
            let call = e.phase->calls[e.phase->at];
            lemma_gating_frame(
                e,
                seq![EffectView::Append(blocked_tool(call, reason))],
                e.phase->calls,
                e.phase->approved,
                e.phase->at + 1,
            );
        },
        InputView::Ran(runs) => {
            assert((e.history + run_records(e.phase->jobs, runs)).take(e.history.len() as int)
                =~= e.history);
        },
        _ => {},
    }
}

proof fn lemma_gating_frame(
    e: EngineView,
    effects: Seq<EffectView>,
    calls: Seq<ToolCallView>,
    approved: Seq<ToolCallView>,
    at: int,
)
    ensures
        ({
            let next = gating(e, effects, calls, approved, at).engine;
            &&& next.tools == e.tools
            &&& next.max_iterations == e.max_iterations
            &&& next.history == e.history
            &&& next.iteration == e.iteration
            &&& next.state == e.state
        }),
    decreases calls.len() - at,
{
    if 0 <= at < calls.len() && !e.tools.contains(calls[at].name) {
        lemma_gating_frame(
            e,
            effects.push(EffectView::Append(unknown_tool(calls[at], e.tools))),
            calls,
            approved,
            at + 1,
        );
    }
}

proof fn lemma_run_effects_at(jobs: Seq<ToolCallView>, runs: Seq<RunView>, i: int)
    requires
        runs.len() == jobs.len(),
    ensures
        all_run_effects(jobs, runs).len() == 2 * jobs.len(),
        0 <= i < jobs.len() ==> {
            &&& all_run_effects(jobs, runs)[2 * i] == run_effects(jobs[i], runs[i])[0]
            &&& all_run_effects(jobs, runs)[2 * i + 1] == run_effects(jobs[i], runs[i])[1]
        },
    decreases jobs.len(),
{
    if jobs.len() > 0 {
        lemma_run_effects_at(jobs.drop_last(), runs.drop_last(), i);
    }
}

/// The model gets what the tools returned: after the tools have run, each call
/// is answered, in the order of the calls, with a message that names the call and
/// whose text is the output of its tool, or says which tool failed and how. Each
/// end is announced before it, with how long the tool took and whether it
/// succeeded, and recorded.
pub proof fn law_tools_answer_with_their_output(e: EngineView, runs: Seq<RunView>, i: int)
    requires
        e.wf(),
        e.accepts(InputView::Ran(runs)),
        0 <= i < runs.len(),
    ensures
        ({
            let jobs = e.phase->jobs;
            let s = e.step(InputView::Ran(runs));
            let record = s.engine.history[e.history.len() + i];
            &&& s.effects.len() >= 2 * runs.len()
            &&& s.effects[2 * i] == EffectView::Publish(
                EventView::ToolFinished {
                    id: jobs[i].id,
                    duration_ms: runs[i].duration_ms,
                    success: runs[i].result is Ok,
                },
            )
            &&& s.effects[2 * i + 1] matches EffectView::Append(m) && {
                &&& m.role == Role::Tool
                &&& m.tool_call_id == Some(jobs[i].id)
                &&& m.tool_calls is None
                &&& runs[i].result matches Ok(output) ==> m.content == output
                &&& runs[i].result matches Err(why) ==> {
                    &&& m.content == "Error: tool '"@ + jobs[i].name + "' failed: "@ + why
                    &&& m.content.len() >= why.len()
                    &&& m.content.skip(m.content.len() - why.len()) == why
                }
            }
            &&& record.tool_name == jobs[i].name
            &&& record.success == (runs[i].result is Ok)
            &&& runs[i].result is Ok ==> record.error is None
            &&& runs[i].result matches Err(why) ==> record.error == Some(why)
        }),
{
    let jobs = e.phase->jobs;
    lemma_run_effects_at(jobs, runs, i);
    let all = all_run_effects(jobs, runs);
    let s = e.step(InputView::Ran(runs));
    assert(s.effects[2 * i] == all[2 * i]);
    assert(s.effects[2 * i + 1] == all[2 * i + 1]);
    if let Err(why) = runs[i].result {
        let head = "Error: tool '"@ + jobs[i].name + "' failed: "@;
        assert((head + why).skip(head.len() as int) =~= why);
    }
    assert((e.history + run_records(jobs, runs))[e.history.len() + i] == run_records(
        jobs,
        runs,
    )[i]);
}

/// After the tools have run, nothing else reaches the memory, and the model is
/// asked again: in the next iteration, or, where the limit is reached, not any
/// more.
pub proof fn law_the_model_is_asked_again(e: EngineView, runs: Seq<RunView>)
    requires
        e.wf(),
        e.accepts(InputView::Ran(runs)),
    ensures
        ({
            let n = 2 * runs.len();
            let s = e.step(InputView::Ran(runs));
            &&& s.effects[n + 0int] == EffectView::Publish(
                EventView::StateChanged(AgentState::Observing),
            )
            &&& s.effects[n + 1int] == EffectView::Publish(
                EventView::StateChanged(AgentState::Thinking),
            )
            &&& e.iteration < e.max_iterations ==> {
                &&& s.effects.len() == n + 2
                &&& s.action == ActionView::Prepare
                &&& s.engine.phase == PhaseView::Prepare
                &&& s.engine.iteration == e.iteration + 1
                &&& s.engine.last_calls == e.last_calls
            }
            &&& e.iteration >= e.max_iterations ==> {
                &&& s.effects.len() == n + 3
                &&& s.effects[n + 2int] == EffectView::Publish(
                    EventView::StateChanged(AgentState::Failed),
                )
                &&& s.action == ActionView::Finish(
                    Err(ErrorView::MaxIterationsExceeded(e.max_iterations)),
                )
            }
        }),
{
    lemma_run_effects_at(e.phase->jobs, runs, 0);
}

/// Whether a step takes the tool calls of a reply from an index on in turn: each
/// up to the first of a known tool is answered with a message that says that its
/// tool is not known; then the middleware is asked about that first one, or, where
/// there is none, the approved calls are run. Before the answers stands one
/// effect more.
pub open spec fn takes_in_turn(
    s: StepView,
    tools: Seq<Seq<char>>,
    calls: Seq<ToolCallView>,
    approved: Seq<ToolCallView>,
    from: int,
) -> bool {
    let k = match s.engine.phase {
        PhaseView::Gate { at, .. } => at,
        _ => calls.len() as int,
    };
    &&& from <= k <= calls.len()
    &&& s.effects.len() == 1 + k - from
    &&& forall|j: int|
        from <= j < k ==> !tools.contains((#[trigger] calls[j]).name) && says_unknown(
            s.effects[1 + j - from],
            calls[j],
            tools,
        )
    &&& k < calls.len() ==> {
        &&& tools.contains(calls[k].name)
        &&& s.action == ActionView::CheckTool(calls[k])
        &&& s.engine.phase == PhaseView::Gate { calls, approved, at: k }
    }
    &&& k == calls.len() ==> {
        &&& s.action == ActionView::RunTools(approved)
        &&& s.engine.phase == PhaseView::Work { jobs: approved }
    }
}

/// Whether an effect answers a call with a message that names its tool and every
/// tool that there is.
pub open spec fn says_unknown(
    effect: EffectView,
    call: ToolCallView,
    tools: Seq<Seq<char>>,
) -> bool {
    effect matches EffectView::Append(m) && {
        &&& m.role == Role::Tool
        &&& m.tool_call_id == Some(call.id)
        &&& m.tool_calls is None
        &&& ("Error: unknown tool '"@ + call.name + "'. Available tools: ["@).is_prefix_of(m.content)
        &&& forall|i: int| 0 <= i < tools.len() ==> text::holds(m.content, #[trigger] tools[i])
    }
}

proof fn lemma_distinct_keeps(names: Seq<Seq<char>>, i: int)
    requires
        0 <= i < names.len(),
    ensures
        distinct(names).contains(names[i]),
    decreases names.len(),
{
    let before = distinct(names.drop_last());
    let last = names.last();
    if i < names.len() - 1 {
        lemma_distinct_keeps(names.drop_last(), i);
        assert(names.drop_last()[i] == names[i]);
        let k = choose|k: int| 0 <= k < before.len() && before[k] == names[i];
        assert(distinct(names)[k] == names[i]);
    } else {
        if !before.contains(last) {
            assert(distinct(names) == before.push(last));
            assert(distinct(names)[before.len() as int] == last);
        }
    }
}

proof fn lemma_says_unknown(call: ToolCallView, tools: Seq<Seq<char>>)
    ensures
        says_unknown(EffectView::Append(unknown_tool(call, tools)), call, tools),
{
    let m = unknown_tool(call, tools);
    let head = "Error: unknown tool '"@ + call.name + "'. Available tools: ["@;
    let list = text::join(distinct(tools), ", "@);
    let tail = "]. Use one of the available tools instead."@;
    assert(m.content =~= head + list + tail);
    assert(head.is_prefix_of(m.content));
    assert forall|i: int| 0 <= i < tools.len() implies text::holds(
        m.content,
        #[trigger] tools[i],
    ) by {
        lemma_distinct_keeps(tools, i);
        let k = choose|k: int| 0 <= k < distinct(tools).len() && distinct(tools)[k] == tools[i];
        text::law_joining_keeps_every_part(distinct(tools), ", "@, k);
        let (a, b) = choose|a: Seq<char>, b: Seq<char>| list == #[trigger] (a + tools[i] + b);
        assert(m.content =~= (head + a) + tools[i] + (b + tail));
    }
}

proof fn lemma_gating_takes_in_turn(
    e: EngineView,
    effects: Seq<EffectView>,
    calls: Seq<ToolCallView>,
    approved: Seq<ToolCallView>,
    from: int,
    at: int,
)
    requires
        0 <= from <= at <= calls.len(),
        effects.len() == 1 + at - from,
        forall|j: int|
            from <= j < at ==> !e.tools.contains((#[trigger] calls[j]).name) && says_unknown(
                effects[1 + j - from],
                calls[j],
                e.tools,
            ),
    ensures
        takes_in_turn(gating(e, effects, calls, approved, at), e.tools, calls, approved, from),
        gating(e, effects, calls, approved, at).effects[0] == effects[0],
    decreases calls.len() - at,
{
    if at < calls.len() && !e.tools.contains(calls[at].name) {
        lemma_says_unknown(calls[at], e.tools);
        lemma_gating_takes_in_turn(
            e,
            effects.push(EffectView::Append(unknown_tool(calls[at], e.tools))),
            calls,
            approved,
            from,
            at + 1,
        );
    }
}

/// The tool calls of a reply are taken in the order in which the model asked for
/// them, from the first on, unless one of them was already in the reply before.
pub proof fn law_the_calls_of_a_reply_are_taken_in_turn(e: EngineView, r: ResponseView)
    requires
        e.wf(),
        e.phase == PhaseView::Review(r),
        r.tool_calls.len() > 0,
        forall|i: int|
            0 <= i < r.tool_calls.len() ==> !e.last_calls.contains(
                (#[trigger] r.tool_calls[i]).name + seq![':'] + r.tool_calls[i].arguments,
            ),
    ensures
        ({
            let s = e.step(InputView::Accepted);
            &&& s.effects[0] == EffectView::Publish(
                EventView::StateChanged(AgentState::ToolCalling),
            )
            &&& s.engine.state == AgentState::ToolCalling
            &&& s.engine.iteration == e.iteration
            &&& takes_in_turn(s, e.tools, r.tool_calls, Seq::empty(), 0)
        }),
{
    reveal_strlit(":");
    assert(":"@ =~= seq![':']);
    let next = EngineView {
        state: AgentState::ToolCalling,
        last_calls: signatures(r.tool_calls),
        ..e
    };
    let effects = seq![moved(AgentState::ToolCalling)];
    assert(!repeats(r.tool_calls, e.last_calls)) by {
        assert forall|i: int| 0 <= i < r.tool_calls.len() implies !e.last_calls.contains(
            signature(#[trigger] r.tool_calls[i]),
        ) by {}
    }
    lemma_gating_takes_in_turn(next, effects, r.tool_calls, Seq::empty(), 0, 0);
    lemma_gating_frame(next, effects, r.tool_calls, Seq::empty(), 0);
}

/// A tool call that the middleware lets pass is announced and runs with those
/// that passed before it, and the calls after it are taken in turn.
pub proof fn law_allowed_calls_run(e: EngineView)
    requires
        e.wf(),
        e.phase is Gate,
    ensures
        ({
            let s = e.step(InputView::Allowed);
            let call = e.phase->calls[e.phase->at];
            &&& s.effects[0] == EffectView::Publish(
                EventView::ToolStarted { id: call.id, name: call.name, args: call.arguments },
            )
            &&& s.engine.iteration == e.iteration
            &&& takes_in_turn(
                s,
                e.tools,
                e.phase->calls,
                e.phase->approved.push(call),
                e.phase->at + 1,
            )
        }),
{
    let call = e.phase->calls[e.phase->at];
    let approved = e.phase->approved.push(call);
    lemma_gating_takes_in_turn(
        e,
        seq![started(call)],
        e.phase->calls,
        approved,
        e.phase->at + 1,
        e.phase->at + 1,
    );
    lemma_gating_frame(e, seq![started(call)], e.phase->calls, approved, e.phase->at + 1);
}

/// A tool call that the middleware blocks does not run: it is answered with a
/// message that gives the reason, and the calls after it are taken in turn.
pub proof fn law_blocked_calls_are_answered(e: EngineView, reason: Seq<char>)
    requires
        e.wf(),
        e.phase is Gate,
    ensures
        ({
            let s = e.step(InputView::Blocked(reason));
            let call = e.phase->calls[e.phase->at];
            &&& s.effects[0] matches EffectView::Append(m) && {
                &&& m.role == Role::Tool
                &&& m.tool_call_id == Some(call.id)
                &&& m.tool_calls is None
                &&& m.content == "Error: tool call blocked: "@ + reason
            }
            &&& s.engine.iteration == e.iteration
            &&& takes_in_turn(
                s,
                e.tools,
                e.phase->calls,
                e.phase->approved,
                e.phase->at + 1,
            )
        }),
{
    let call = e.phase->calls[e.phase->at];
    let effects = seq![EffectView::Append(blocked_tool(call, reason))];
    lemma_gating_takes_in_turn(
        e,
        effects,
        e.phase->calls,
        e.phase->approved,
        e.phase->at + 1,
        e.phase->at + 1,
    );
    lemma_gating_frame(e, effects, e.phase->calls, e.phase->approved, e.phase->at + 1);
}

/// A reply without tool calls is the answer: its text is handed out as it is and
/// appended to the memory as what the assistant said. Only a reply of whitespace
/// alone is none, and an error.
pub proof fn law_a_text_is_the_answer(e: EngineView, r: ResponseView)
    requires
        e.wf(),
        e.phase == PhaseView::Review(r),
        r.tool_calls.len() == 0,
    ensures
        ({
            let s = e.step(InputView::Accepted);
            let blank = forall|i: int|
                0 <= i < r.content.len() ==> text::is_whitespace(#[trigger] r.content[i]);
            &&& !blank ==> {
                &&& s.action == ActionView::Finish(Ok(r.content))
                &&& s.engine.state == AgentState::Completed
                &&& s.effects.len() == 2
                &&& s.effects[0] == EffectView::Publish(
                    EventView::StateChanged(AgentState::Completed),
                )
                &&& s.effects[1] matches EffectView::Append(m) && {
                    &&& m.role == Role::Assistant
                    &&& m.content == r.content
                    &&& m.tool_calls is None
                    &&& m.tool_call_id is None
                }
            }
            &&& blank ==> {
                &&& s.action == ActionView::Finish(Err(ErrorView::EmptyResponse(e.iteration)))
                &&& s.engine.state == AgentState::Failed
                &&& s.effects.len() == 1
                &&& s.effects[0] == EffectView::Publish(
                    EventView::StateChanged(AgentState::Failed),
                )
            }
        }),
{
    text::law_trimming_takes_whitespace_off(r.content);
}

/// A reply that asks for a tool call of the reply before, with the same tool and
/// the same arguments, is answered with a warning of the user alone.
pub proof fn law_repeated_calls_are_warned_of(e: EngineView, r: ResponseView, i: int)
    requires
        e.wf(),
        e.phase == PhaseView::Review(r),
        0 <= i < r.tool_calls.len(),
        e.last_calls.contains(
            r.tool_calls[i].name + seq![':'] + r.tool_calls[i].arguments,
        ),
    ensures
        ({
            let s = e.step(InputView::Accepted);
            &&& s.effects.len() == (if e.iteration < e.max_iterations {
                4int
            } else {
                5
            })
            &&& s.effects[1] matches EffectView::Append(m) && {
                &&& m.role == Role::User
                &&& m.tool_calls is None
                &&& m.tool_call_id is None
                &&& m.content
                    == "WARNING: You are repeating the same tool call with identical arguments. Please try a different approach or provide your final answer."@
            }
            &&& forall|k: int|
                0 <= k < s.effects.len() && k != 1 ==> !((#[trigger] s.effects[k]) is Append)
            &&& e.iteration < e.max_iterations ==> s.action == ActionView::Prepare
                && s.engine.iteration == e.iteration + 1
            &&& e.iteration >= e.max_iterations ==> s.action == ActionView::Finish(
                Err(ErrorView::MaxIterationsExceeded(e.max_iterations)),
            )
        }),
{
    reveal_strlit(":");
    assert(":"@ =~= seq![':']);
    assert(e.last_calls.contains(signature(r.tool_calls[i])));
    assert(repeats(r.tool_calls, e.last_calls));
}

/// Calls are told apart by tool and arguments: what is remembered of a reply is
/// one entry for each of its tool calls.
pub proof fn law_calls_are_remembered(e: EngineView, r: ResponseView, i: int)
    requires
        e.wf(),
        e.phase == PhaseView::Review(r),
        0 <= i < r.tool_calls.len(),
    ensures
        ({
            let last = e.step(InputView::Accepted).engine.last_calls;
            &&& last.len() == r.tool_calls.len()
            &&& last[i] == r.tool_calls[i].name + seq![':'] + r.tool_calls[i].arguments
        }),
{
    reveal_strlit(":");
    assert(":"@ =~= seq![':']);
    law_the_last_reply_is_remembered(e, r);
}

/// The way to a reply: a run that may begin starts with its first iteration and
/// forgets the calls of the last one; then the context is fetched, the model is
/// called with it, its use of tokens is announced, and the reply is put before
/// the middleware. None of this reaches the memory.
pub proof fn law_the_model_is_asked(e: EngineView, reply: ResponseView)
    requires
        e.wf(),
    ensures
        e.phase is Rest && e.state == AgentState::Idle && e.max_iterations > 0 ==> {
            let s = e.step(InputView::Start);
            &&& s.action == ActionView::Prepare
            &&& s.engine.phase == PhaseView::Prepare
            &&& s.engine.state == AgentState::Thinking
            &&& s.engine.iteration == 1
            &&& s.engine.last_calls.len() == 0
            &&& s.effects.len() == 1
            &&& s.effects[0] == EffectView::Publish(
                EventView::StateChanged(AgentState::Thinking),
            )
        },
        e.phase is Prepare ==> {
            let s = e.step(InputView::Ready);
            &&& s.action == ActionView::Call
            &&& s.engine.phase == PhaseView::Call
            &&& s.engine.iteration == e.iteration
            &&& s.engine.last_calls == e.last_calls
            &&& s.effects.len() == 0
        },
        e.phase is Call ==> {
            let s = e.step(InputView::Replied(reply));
            &&& s.action == ActionView::Review
            &&& s.engine.phase == PhaseView::Review(reply)
            &&& s.engine.iteration == e.iteration
            &&& s.engine.last_calls == e.last_calls
            &&& s.effects.len() == 1
            &&& s.effects[0] == EffectView::Publish(
                EventView::TokenUsage {
                    prompt_tokens: reply.prompt_tokens,
                    completion_tokens: reply.completion_tokens,
                },
            )
        },
{
}

/// What stops a run is what it ends with: the error of the context, of the
/// middleware or of the model is handed out as it is, the agent has failed, and
/// nothing reaches the memory.
pub proof fn law_failures_end_the_run(e: EngineView, error: ErrorView, message: Seq<char>)
    requires
        e.wf(),
    ensures
        e.accepts(InputView::Rejected(error)) ==> {
            let s = e.step(InputView::Rejected(error));
            &&& s.action == ActionView::Finish(Err(error))
            &&& s.engine.state == AgentState::Failed
            &&& s.engine.phase is Rest
            &&& s.effects.len() == 1
            &&& s.effects[0] == EffectView::Publish(EventView::StateChanged(AgentState::Failed))
        },
        e.accepts(InputView::ModelFailed(message)) ==> {
            let s = e.step(InputView::ModelFailed(message));
            &&& s.action == ActionView::Finish(Err(ErrorView::Provider(message)))
            &&& s.engine.state == AgentState::Failed
            &&& s.engine.phase is Rest
            &&& s.effects.len() == 1
            &&& s.effects[0] == EffectView::Publish(EventView::StateChanged(AgentState::Failed))
        },
{
}

// ---------------------------------------------------------------------------
// Inputs and effects
// ---------------------------------------------------------------------------

/// What is said of the ends of the tools is what they hold: one entry for each, in
/// order, with its output or the message of its failure.
pub proof fn law_runs_say_what_they_hold(runs: Vec<ToolRun>, i: int)
    requires
        0 <= i < runs@.len(),
    ensures
        Input::Ran(runs)@ matches InputView::Ran(v) && {
            &&& v.len() == runs@.len()
            &&& v[i].duration_ms == runs@[i].duration_ms
            &&& runs@[i].result matches Ok(s) ==> v[i].result == Ok::<Seq<char>, Seq<char>>(s@)
            &&& runs@[i].result matches Err(s) ==> v[i].result == Err::<Seq<char>, Seq<char>>(s@)
        },
{
}

/// What is said of the other inputs is what they hold.
pub proof fn law_inputs_say_what_they_hold(r: LLMResponse, m: String, e: CogentError)
    ensures
        Input::Start@ is Start,
        Input::Ready@ is Ready,
        Input::Accepted@ is Accepted,
        Input::Allowed@ is Allowed,
        Input::Replied(r)@ == InputView::Replied(r@),
        Input::ModelFailed(m)@ == InputView::ModelFailed(m@),
        Input::Blocked(m)@ == InputView::Blocked(m@),
        Input::Rejected(e)@ == InputView::Rejected(e@),
{
}

/// What is said of effects and actions is what they hold: each effect of a step in
/// its place, and the calls of an action one by one.
pub proof fn law_steps_say_what_they_hold(
    s: Step,
    engine: EngineView,
    i: int,
    calls: Vec<ToolCall>,
    k: int,
    answer: String,
)
    ensures
        outcome(engine, s).engine == engine,
        outcome(engine, s).action == s.action@,
        outcome(engine, s).effects.len() == s.effects@.len(),
        0 <= i < s.effects@.len() ==> match s.effects@[i] {
            Effect::Append(m) => outcome(engine, s).effects[i] == EffectView::Append(m@),
            Effect::Publish(e) => outcome(engine, s).effects[i] == EffectView::Publish(e@),
        },
        Action::RunTools(calls)@ matches ActionView::RunTools(v) && v.len() == calls@.len() && (0
            <= k < calls@.len() ==> v[k] == calls@[k]@),
        0 <= k < calls@.len() ==> Action::CheckTool(calls@[k])@ == ActionView::CheckTool(
            calls@[k]@,
        ),
        Action::Finish(Ok(answer))@ == ActionView::Finish(Ok(answer@)),
{
}

/// Names are told once each: every name of a list is among the distinct ones, none
/// is there twice, and none comes from elsewhere.
pub proof fn law_names_are_told_once(names: Seq<Seq<char>>, name: Seq<char>)
    ensures
        distinct(names).no_duplicates(),
        distinct(names).contains(name) <==> names.contains(name),
    decreases names.len(),
{
    if names.len() > 0 {
        let t = names.drop_last();
        let last = names.last();
        let before = distinct(t);
        let now = distinct(names);
        law_names_are_told_once(t, name);
        law_names_are_told_once(t, last);
        if names.contains(name) {
            let i = choose|i: int| 0 <= i < names.len() && names[i] == name;
            lemma_distinct_keeps(names, i);
        }
        if now.contains(name) {
            let k = choose|k: int| 0 <= k < now.len() && now[k] == name;
            if k < before.len() {
                assert(before[k] == name);
                assert(before.contains(name));
                let j = choose|j: int| 0 <= j < t.len() && t[j] == name;
                assert(names[j] == name);
            } else {
                assert(names[names.len() - 1] == name);
            }
        }
    }
}

} // verus!
