//! The loop of the agent, driven with scripted replies and tools.
use cogent::engine::{Action, AgentEngine, Effect, Input, ToolRun};
use cogent::error::CogentError;
use cogent::event::AgentEvent;
use cogent::memory::{CharBasedEstimator, WindowMemory};
use cogent::provider::LLMResponse;
use cogent::state::AgentState;
use cogent::types::{Message, Role, ToolCall};
use std::collections::VecDeque;

type Memory = WindowMemory<CharBasedEstimator>;

/// What surrounds the agent in a test.
struct World {
    replies: VecDeque<LLMResponse>,
    memory: Memory,
    events: Vec<AgentEvent>,
    /// The calls that ran.
    ran: Vec<ToolCall>,
    /// How often the model was called.
    model_calls: usize,
    run_tool: fn(&ToolCall) -> Result<String, String>,
    check_tool: fn(&ToolCall) -> Result<(), String>,
}

fn works(_call: &ToolCall) -> Result<String, String> {
    Ok("result".into())
}

fn passes(_call: &ToolCall) -> Result<(), String> {
    Ok(())
}

impl World {
    fn new(replies: Vec<LLMResponse>) -> Self {
        World {
            replies: replies.into(),
            memory: WindowMemory::with_default_estimator(8000),
            events: Vec::new(),
            ran: Vec::new(),
            model_calls: 0,
            run_tool: works,
            check_tool: passes,
        }
    }

    fn states(&self) -> Vec<AgentState> {
        self.events
            .iter()
            .filter_map(|e| match e {
                AgentEvent::StateChanged(s) => Some(*s),
                _ => None,
            })
            .collect()
    }

    fn run(&mut self, engine: &mut AgentEngine) -> Result<String, CogentError> {
        let mut input = Input::Start;
        loop {
            assert!(engine.accepts(&input));
            let step = engine.step(input);
            for effect in step.effects {
                match effect {
                    Effect::Publish(e) => self.events.push(e),
                    Effect::Append(m) => self.memory.append(m),
                }
            }
            input = match step.action {
                Action::Prepare => match self.memory.get_context(8000) {
                    Ok(_) => Input::Ready,
                    Err(e) => Input::Rejected(e),
                },
                Action::Call => {
                    self.model_calls += 1;
                    match self.replies.pop_front() {
                        Some(r) => Input::Replied(r),
                        None => Input::ModelFailed("no more responses".into()),
                    }
                }
                Action::Review => Input::Accepted,
                Action::CheckTool(call) => match (self.check_tool)(&call) {
                    Ok(()) => Input::Allowed,
                    Err(m) => Input::Blocked(m),
                },
                Action::RunTools(calls) => {
                    let runs = calls
                        .iter()
                        .map(|c| ToolRun {
                            duration_ms: 1,
                            result: (self.run_tool)(c),
                        })
                        .collect();
                    self.ran.extend(calls);
                    Input::Ran(runs)
                }
                Action::Finish(result) => return result,
            };
        }
    }
}

fn engine(tools: &[&str], max_iterations: usize) -> AgentEngine {
    let names: Vec<String> = tools.iter().map(|t| t.to_string()).collect();
    AgentEngine::new(&names, max_iterations)
}

fn call(id: &str, name: &str, arguments: &str) -> ToolCall {
    ToolCall {
        id: id.into(),
        name: name.into(),
        arguments: arguments.into(),
        original_name: None,
    }
}

#[test]
fn engine_test_full_react_cycle() {
    let tool_call = call("call_1", "mock", "{\"x\":1}");
    let resp1 = LLMResponse::with_tool_calls("Let me check.".into(), vec![tool_call], 10, 5);
    let resp2 = LLMResponse::text("The answer is 42.".into(), 20, 10);
    let mut world = World::new(vec![resp1, resp2]);
    let mut engine = engine(&["mock"], 10);

    let result = world.run(&mut engine).unwrap();
    assert_eq!(result, "The answer is 42.");
    assert_eq!(engine.state(), AgentState::Completed);
    assert_eq!(world.ran.len(), 1);

    let state_changes = world.states();
    assert!(state_changes.contains(&AgentState::Thinking));
    assert!(state_changes.contains(&AgentState::ToolCalling));
    assert!(state_changes.contains(&AgentState::Observing));
    assert!(state_changes.contains(&AgentState::Completed));
    assert!(world
        .events
        .iter()
        .any(|e| matches!(e, AgentEvent::ToolStarted { name, .. } if name == "mock")));
    assert!(world
        .events
        .iter()
        .any(|e| matches!(e, AgentEvent::ToolFinished { success, .. } if *success)));
    assert!(world.events.iter().any(
        |e| matches!(e, AgentEvent::TokenUsage { prompt_tokens, .. } if *prompt_tokens > 0)
    ));
}

#[test]
fn test_loop_detection() {
    let resp1 =
        LLMResponse::with_tool_calls(String::new(), vec![call("call_1", "mock", "{\"x\":1}")], 10, 5);
    let resp2 =
        LLMResponse::with_tool_calls(String::new(), vec![call("call_2", "mock", "{\"x\":1}")], 10, 5);
    let resp3 = LLMResponse::text("Done.".into(), 20, 5);
    let mut world = World::new(vec![resp1, resp2, resp3]);
    let mut engine = engine(&["mock"], 10);

    let result = world.run(&mut engine).unwrap();
    assert_eq!(result, "Done.");
    assert_eq!(world.ran.len(), 1);
}

#[test]
fn test_loop_detection_reordered() {
    let a1 = call("a1", "mock", "{\"x\":1}");
    let b1 = call("b1", "mock", "{\"y\":2}");
    let resp1 = LLMResponse::with_tool_calls(String::new(), vec![a1, b1], 10, 5);
    let a2 = call("a2", "mock", "{\"x\":1}");
    let b2 = call("b2", "mock", "{\"y\":2}");
    let resp2 = LLMResponse::with_tool_calls(String::new(), vec![b2, a2], 10, 5);
    let resp3 = LLMResponse::text("Done.".into(), 20, 5);
    let mut world = World::new(vec![resp1, resp2, resp3]);
    let mut engine = engine(&["mock"], 10);

    let result = world.run(&mut engine).unwrap();
    assert_eq!(result, "Done.");
    assert_eq!(world.ran.len(), 2);
}

async fn slow(result: &str) -> ToolRun {
    tokio::time::sleep(std::time::Duration::from_millis(100)).await;
    ToolRun {
        duration_ms: 100,
        result: Ok(result.into()),
    }
}

#[test]
fn test_parallel_tool_execution() {
    let calls = vec![
        call("c1", "t1", "{}"),
        call("c2", "t2", "{}"),
        call("c3", "t3", "{}"),
    ];
    let mut replies: VecDeque<LLMResponse> = VecDeque::new();
    replies.push_back(LLMResponse::with_tool_calls(String::new(), calls, 10, 5));
    replies.push_back(LLMResponse::text("All done.".into(), 20, 5));
    let mut engine = engine(&["t1", "t2", "t3"], 10);
    let runtime = tokio::runtime::Builder::new_current_thread()
        .enable_time()
        .build()
        .unwrap();

    let start = std::time::Instant::now();
    let mut ran = Vec::new();
    let mut input = Input::Start;
    let result = loop {
        let step = engine.step(input);
        input = match step.action {
            Action::Prepare => Input::Ready,
            Action::Call => Input::Replied(replies.pop_front().unwrap()),
            Action::Review => Input::Accepted,
            Action::CheckTool(_) => Input::Allowed,
            Action::RunTools(jobs) => {
                let names: Vec<String> = jobs.iter().map(|j| j.name.clone()).collect();
                let runs = names.iter().map(|n| slow(n));
                let done = runtime.block_on(futures::future::join_all(runs));
                ran.extend(names);
                Input::Ran(done)
            }
            Action::Finish(result) => break result,
        };
    };
    let elapsed = start.elapsed();

    assert_eq!(result.unwrap(), "All done.");
    assert!(
        elapsed.as_millis() < 250,
        "parallel execution took {}ms (expected < 250ms)",
        elapsed.as_millis()
    );
    assert_eq!(ran, vec!["t1", "t2", "t3"]);
}

#[test]
fn test_max_iterations_exceeded() {
    let responses: Vec<LLMResponse> = (0..20)
        .map(|i| {
            let tc = call(&format!("call_{i}"), "mock", &format!("{{\"i\":{i}}}"));
            LLMResponse::with_tool_calls(String::new(), vec![tc], 10, 5)
        })
        .collect();
    let mut world = World::new(responses);
    let mut engine = engine(&["mock"], 3);

    let result = world.run(&mut engine);
    assert!(result.is_err());
    let err = result.unwrap_err();
    assert!(matches!(err, CogentError::MaxIterationsExceeded(3)));
    assert_eq!(engine.state(), AgentState::Failed);
    assert_eq!(engine.tool_history().len(), 3);
    assert!(engine.tool_history().iter().all(|r| r.success));
    assert!(engine.tool_history().iter().all(|r| r.tool_name == "mock"));
    assert_eq!(world.model_calls, 3);
}

fn blocks_one(call: &ToolCall) -> Result<(), String> {
    if call.name == "blocked_tool" {
        Err(CogentError::MiddlewareBlocked {
            middleware: "Blocker".into(),
            reason: "blocked by policy".into(),
        }
        .to_string())
    } else {
        Ok(())
    }
}

#[test]
fn test_middleware_blocks_tool() {
    let resp1 =
        LLMResponse::with_tool_calls(String::new(), vec![call("c1", "blocked_tool", "{}")], 10, 5);
    let resp2 = LLMResponse::text("OK.".into(), 20, 5);
    let mut world = World::new(vec![resp1, resp2]);
    world.check_tool = blocks_one;
    let mut engine = engine(&["blocked_tool"], 10);

    let result = world.run(&mut engine).unwrap();
    assert_eq!(result, "OK.");
    assert_eq!(world.ran.len(), 0);
}

#[test]
fn test_unknown_tool() {
    let resp1 =
        LLMResponse::with_tool_calls(String::new(), vec![call("c1", "nonexistent", "{}")], 10, 5);
    let resp2 = LLMResponse::text("Handled.".into(), 20, 5);
    let mut world = World::new(vec![resp1, resp2]);
    let mut engine = engine(&[], 10);

    let result = world.run(&mut engine).unwrap();
    assert_eq!(result, "Handled.");
    assert!(world.ran.is_empty());
}

#[test]
fn test_state_change_events() {
    let mut world = World::new(vec![LLMResponse::text("Direct answer.".into(), 10, 5)]);
    let mut engine = engine(&[], 10);
    world.run(&mut engine).unwrap();
    assert_eq!(
        world.states(),
        vec![AgentState::Thinking, AgentState::Completed]
    );
}

#[test]
fn engine_test_token_usage_event() {
    let mut world = World::new(vec![LLMResponse::text("Answer.".into(), 100, 50)]);
    let mut engine = engine(&[], 10);
    world.run(&mut engine).unwrap();
    let mut got_usage = false;
    for event in &world.events {
        if let AgentEvent::TokenUsage {
            prompt_tokens,
            completion_tokens,
        } = event
        {
            assert_eq!(*prompt_tokens, 100);
            assert_eq!(*completion_tokens, 50);
            got_usage = true;
        }
    }
    assert!(got_usage, "should receive TokenUsage event");
}

fn fails(_call: &ToolCall) -> Result<String, String> {
    Err("boom".into())
}

#[test]
fn test_tool_execution_failure() {
    let resp1 =
        LLMResponse::with_tool_calls(String::new(), vec![call("c1", "failing", "{}")], 10, 5);
    let resp2 = LLMResponse::text("Recovered.".into(), 20, 5);
    let mut world = World::new(vec![resp1, resp2]);
    world.run_tool = fails;
    let mut engine = engine(&["failing"], 10);

    let result = world.run(&mut engine).unwrap();
    assert_eq!(result, "Recovered.");
    let ctx = world.memory.get_context(8000).unwrap();
    let tool_msgs: Vec<&Message> = ctx.iter().filter(|m| m.role == Role::Tool).collect();
    assert_eq!(tool_msgs.len(), 1);
    assert!(tool_msgs[0].content.contains("failed"));
    assert_eq!(engine.tool_history().len(), 1);
    assert!(!engine.tool_history()[0].success);
    assert_eq!(engine.tool_history()[0].error.as_deref(), Some("boom"));
}

#[test]
fn test_engine_accessors() {
    let engine = engine(&["mock"], 10);
    assert_eq!(engine.tools().len(), 1);
    assert_eq!(engine.tools()[0], "mock");
    assert_eq!(engine.max_iterations(), 10);
    let mut memory: Memory = WindowMemory::with_default_estimator(8000);
    memory.append(Message::new(Role::User, "hi".into()));
    assert_eq!(memory.get_context(8000).unwrap().len(), 1);
    memory.clear();
    assert!(memory.get_context(8000).unwrap().is_empty());
}

#[test]
fn names_registered_twice_are_told_once() {
    let resp1 =
        LLMResponse::with_tool_calls(String::new(), vec![call("c1", "missing", "{}")], 10, 5);
    let resp2 = LLMResponse::text("Done.".into(), 20, 5);
    let mut world = World::new(vec![resp1, resp2]);
    let mut engine = engine(&["bash", "grep", "bash"], 10);
    assert_eq!(engine.tools(), ["bash", "grep", "bash"]);

    world.run(&mut engine).unwrap();
    let ctx = world.memory.get_context(8000).unwrap();
    assert_eq!(
        ctx[0].content,
        "Error: unknown tool 'missing'. Available tools: [bash, grep]. \
         Use one of the available tools instead."
    );
}

#[test]
fn test_engine_debug_impl() {
    let engine = engine(&[], 7);
    let dbg = format!("{engine:?}");
    assert!(dbg.contains("AgentEngine"));
    assert!(dbg.contains("Idle"));
    assert!(dbg.contains("max_iterations"));
}

#[test]
fn test_reset_from_completed() {
    let mut world = World::new(vec![LLMResponse::text("done".into(), 10, 5)]);
    let mut engine = engine(&[], 10);
    world.run(&mut engine).unwrap();
    assert_eq!(engine.state(), AgentState::Completed);

    let events = engine.reset();
    assert_eq!(engine.state(), AgentState::Idle);
    assert!(matches!(
        events.as_slice(),
        [AgentEvent::StateChanged(AgentState::Idle)]
    ));
}

#[test]
fn test_reset_idempotent_on_idle() {
    let mut engine = engine(&[], 10);
    assert_eq!(engine.state(), AgentState::Idle);
    let events = engine.reset();
    assert_eq!(engine.state(), AgentState::Idle);
    assert!(events.is_empty());
}

#[test]
fn test_multi_turn_via_reset() {
    let resp1 = LLMResponse::text("first".into(), 10, 5);
    let resp2 = LLMResponse::text("second".into(), 10, 5);
    let mut world = World::new(vec![resp1, resp2]);
    let mut engine = engine(&[], 10);

    let r1 = world.run(&mut engine).unwrap();
    assert_eq!(r1, "first");
    assert_eq!(engine.state(), AgentState::Completed);

    engine.reset();
    let r2 = world.run(&mut engine).unwrap();
    assert_eq!(r2, "second");
    assert_eq!(engine.state(), AgentState::Completed);
}

#[test]
fn a_failed_run_can_be_followed_by_another() {
    let mut world = World::new(vec![
        LLMResponse::text("  ".into(), 1, 1),
        LLMResponse::text("second".into(), 1, 1),
    ]);
    let mut engine = engine(&[], 10);
    assert!(world.run(&mut engine).is_err());
    assert_eq!(engine.state(), AgentState::Failed);
    engine.reset();
    assert_eq!(engine.state(), AgentState::Idle);
    assert_eq!(world.run(&mut engine).unwrap(), "second");
}

fn chunk_texts(events: Vec<AgentEvent>) -> Vec<String> {
    events
        .into_iter()
        .map(|e| match e {
            AgentEvent::TokenChunk(c) => c,
            other => panic!("expected a chunk, got {other:?}"),
        })
        .collect()
}

#[test]
fn test_render_answer_chunked() {
    let engine = engine(&[], 10);
    assert_eq!(chunk_texts(engine.render_answer_chunked("Hi!")), vec!["Hi!"]);
}

#[test]
fn test_run_writes_final_answer_to_memory() {
    let mut world = World::new(vec![LLMResponse::text("The answer is 42.".into(), 20, 10)]);
    let mut engine = engine(&[], 10);
    let answer = world.run(&mut engine).unwrap();
    assert_eq!(answer, "The answer is 42.");
    let ctx = world.memory.get_context(8000).unwrap();
    let assistant_msgs: Vec<&Message> =
        ctx.iter().filter(|m| m.role == Role::Assistant).collect();
    assert_eq!(assistant_msgs.len(), 1);
    assert_eq!(assistant_msgs[0].content, "The answer is 42.");
    let received = chunk_texts(engine.render_answer_chunked(&answer)).concat();
    assert_eq!(received, answer, "chunked render must match run() answer");
}

#[test]
fn every_call_is_answered_even_where_it_does_not_run() {
    let calls = vec![
        call("a", "mock", "{}"),
        call("b", "nonexistent", "{}"),
        call("c", "blocked_tool", "{}"),
    ];
    let resp1 = LLMResponse::with_tool_calls(String::new(), calls, 10, 5);
    let resp2 = LLMResponse::text("OK.".into(), 20, 5);
    let mut world = World::new(vec![resp1, resp2]);
    world.check_tool = blocks_one;
    let mut engine = engine(&["mock", "blocked_tool"], 10);
    world.run(&mut engine).unwrap();
    let ctx = world.memory.get_context(8000).unwrap();
    let mut answered: Vec<String> = ctx
        .iter()
        .filter_map(|m| m.tool_call_id.clone())
        .collect();
    answered.sort();
    assert_eq!(answered, vec!["a", "b", "c"]);
    assert_eq!(world.ran.len(), 1);
}

#[test]
fn empty_reply_fails_the_run() {
    let mut world = World::new(vec![LLMResponse::text("  \n".into(), 1, 1)]);
    let mut engine = engine(&[], 10);
    let err = world.run(&mut engine).unwrap_err();
    assert!(matches!(err, CogentError::EmptyResponse(1)));
    assert_eq!(engine.state(), AgentState::Failed);
    assert_eq!(world.states().last(), Some(&AgentState::Failed));
}

#[test]
fn failure_of_the_model_fails_the_run() {
    let mut world = World::new(vec![]);
    let mut engine = engine(&[], 10);
    let err = world.run(&mut engine).unwrap_err();
    assert_eq!(err.to_string(), "provider error: no more responses");
    assert_eq!(engine.state(), AgentState::Failed);
}

#[test]
fn rejected_context_fails_the_run() {
    let mut engine = engine(&[], 10);
    let step = engine.step(Input::Start);
    assert!(matches!(step.action, Action::Prepare));
    let step = engine.step(Input::Rejected(CogentError::Memory("full".into())));
    match step.action {
        Action::Finish(Err(e)) => assert_eq!(e.to_string(), "memory error: full"),
        other => panic!("expected the end of the run, got {other:?}"),
    }
    assert_eq!(engine.state(), AgentState::Failed);
}

#[test]
fn published_states_follow_each_other_as_allowed() {
    let replies = vec![
        LLMResponse::with_tool_calls(String::new(), vec![call("a", "mock", "{}")], 1, 1),
        LLMResponse::with_tool_calls(String::new(), vec![call("b", "mock", "{}")], 1, 1),
        LLMResponse::text("Done.".into(), 1, 1),
    ];
    let mut world = World::new(replies);
    let mut engine = engine(&["mock"], 10);
    world.run(&mut engine).unwrap();
    let mut state = AgentState::Idle;
    for next in world.states() {
        state = state.transition(next).unwrap();
    }
    assert_eq!(state, AgentState::Completed);
    let warnings = world.memory.get_context(8000).unwrap();
    assert!(warnings.iter().any(|m| m.content.starts_with("WARNING: ")));
}
