//! The memory and the window that it shows the model.
use cogent::memory::{
    estimate_message_tokens, CharBasedEstimator, TokenEstimator, WindowMemory,
};
use cogent::types::{Message, Role, ToolCall};

#[test]
fn test_char_based_estimator() {
    let est = CharBasedEstimator;
    assert_eq!(est.estimate("abcd"), 1);
    assert_eq!(est.estimate("abcdefgh"), 2);
    assert_eq!(est.estimate(""), 0);
    assert_eq!(est.estimate("abc"), 0);
    assert_eq!(est.token_to_chars(3), 12);
}

#[test]
fn test_append_and_get_context() {
    let mut mem = WindowMemory::with_default_estimator(1000);
    mem.append(Message::new(Role::User, "Hello".into()));
    mem.append(Message::new(Role::Assistant, "Hi there!".into()));

    let ctx = mem.get_context(1000).unwrap();
    assert_eq!(ctx.len(), 2);
    assert_eq!(ctx[0].role, Role::User);
    assert_eq!(ctx[1].role, Role::Assistant);
}

#[test]
fn test_system_message_always_first() {
    let mut mem = WindowMemory::with_default_estimator(1000);
    mem.set_system(Message::new(
        Role::System,
        "You are a helpful assistant.".into(),
    ));
    mem.append(Message::new(Role::User, "Hello".into()));

    let ctx = mem.get_context(1000).unwrap();
    assert_eq!(ctx.len(), 2);
    assert_eq!(ctx[0].role, Role::System);
    assert_eq!(ctx[1].role, Role::User);
}

#[test]
fn test_window_trimming() {
    let mut mem = WindowMemory::with_default_estimator(10);
    mem.append(Message::new(Role::User, "aaaaaaaaaaaaaaaaaaaa".into()));
    mem.append(Message::new(Role::Assistant, "bbbbbbbbbbbbbbbbbbbb".into()));
    mem.append(Message::new(Role::User, "cccccccccccccccccccc".into()));

    let ctx = mem.get_context(10).unwrap();
    assert_eq!(ctx.len(), 2);
    assert_eq!(ctx[0].role, Role::User);
    assert!(ctx[0].content.starts_with('a'));
    assert!(ctx[0].content.len() < 20);
    assert_eq!(ctx[1].content, "cccccccccccccccccccc");
}

#[test]
fn test_oversized_tool_result_keeps_task_and_snippet() {
    let mut mem = WindowMemory::with_default_estimator(8000);
    mem.set_system(Message::new(Role::System, "sys".into()));
    mem.append(Message::new(Role::User, "分析需求是否都已实现".into()));
    let huge = "x".repeat(39000);
    mem.append(Message::tool_result("call_1".into(), huge.clone()));

    let ctx = mem.get_context(8000).unwrap();
    assert!(
        ctx.len() >= 3,
        "task + oversized result must be retained, got {} msgs",
        ctx.len()
    );
    assert_eq!(ctx[0].role, Role::System);
    assert!(
        ctx.iter()
            .any(|m| m.role == Role::User && m.content.contains("分析需求")),
        "original task must survive truncation"
    );
    let tool = ctx
        .iter()
        .find(|m| m.role == Role::Tool)
        .expect("oversized tool result retained as snippet");
    assert!(tool.content.contains("[truncated]"));
    assert!(tool.content.len() < huge.len());
}

#[test]
fn test_truncate_to_budget_none_when_tool_calls_exceed_budget() {
    let mem = WindowMemory::with_default_estimator(1000);
    let call = ToolCall {
        id: "call_1".into(),
        name: "bash".into(),
        arguments: format!("{{\"command\":\"{}\"}}", "x".repeat(800)),
        original_name: None,
    };
    let msg = Message::with_tool_calls("short".into(), vec![call]);
    let tool_call_tokens = estimate_message_tokens(&CharBasedEstimator, &msg);
    assert!(
        tool_call_tokens > 10,
        "precondition: tool_calls must be sizable"
    );
    assert!(mem.truncate_to_budget(&msg, 5).is_none());
    assert!(mem
        .truncate_to_budget(&msg, tool_call_tokens + 10)
        .is_some());
}

#[test]
fn test_window_trimming_preserves_system() {
    let mut mem = WindowMemory::with_default_estimator(10);
    mem.set_system(Message::new(Role::System, "System prompt here.".into()));
    mem.append(Message::new(Role::User, "aaaaaaaaaaaaaaaaaaaa".into()));
    mem.append(Message::new(Role::Assistant, "bbbbbbbbbbbbbbbbbbbb".into()));

    let ctx = mem.get_context(10).unwrap();
    assert_eq!(ctx[0].role, Role::System);
    assert!(ctx.len() <= 3);
}

#[test]
fn test_clear_preserves_system() {
    let mut mem = WindowMemory::with_default_estimator(1000);
    mem.set_system(Message::new(Role::System, "System.".into()));
    mem.append(Message::new(Role::User, "Hello".into()));
    mem.append(Message::new(Role::Assistant, "Hi!".into()));
    assert_eq!(mem.history_len(), 2);

    mem.clear();

    assert_eq!(mem.history_len(), 0);
    assert!(mem.has_system());
    let ctx = mem.get_context(1000).unwrap();
    assert_eq!(ctx.len(), 1);
    assert_eq!(ctx[0].role, Role::System);
}

#[test]
fn test_empty_memory() {
    let mem = WindowMemory::with_default_estimator(1000);
    let ctx = mem.get_context(1000).unwrap();
    assert!(ctx.is_empty());
    assert_eq!(mem.max_tokens(), 1000);
}

fn assert_send_sync<T: Send + Sync>() {}

#[test]
fn test_send_sync() {
    assert_send_sync::<WindowMemory<CharBasedEstimator>>();
}

#[test]
fn test_tool_call_token_estimation() {
    let mut mem = WindowMemory::with_default_estimator(1000);
    let call = ToolCall {
        id: "call_1".into(),
        name: "bash".into(),
        arguments: "{\"command\":\"ls\"}".into(),
        original_name: None,
    };
    let msg = Message::with_tool_calls("Let me check.".into(), vec![call]);
    mem.append(msg);
    let ctx = mem.get_context(1000).unwrap();
    assert_eq!(ctx.len(), 1);
    assert!(ctx[0].has_tool_calls());
}

#[test]
fn tool_calls_are_counted_by_their_json() {
    let call = ToolCall {
        id: "c1".into(),
        name: "bash".into(),
        arguments: "{\"command\":\"ls\"}".into(),
        original_name: None,
    };
    let msg = Message::with_tool_calls("12345678".into(), vec![call]);
    let json = "[{\"id\":\"c1\",\"name\":\"bash\",\"arguments\":{\"command\":\"ls\"}}]";
    assert_eq!(
        estimate_message_tokens(&CharBasedEstimator, &msg),
        2 + json.len() / 4
    );
}

#[test]
fn windows_fit_the_budget_and_end_with_the_latest_message() {
    let mut mem = WindowMemory::with_default_estimator(100);
    mem.set_system(Message::new(Role::System, "s".repeat(40)));
    mem.append(Message::new(Role::User, "t".repeat(80)));
    for i in 0..10 {
        mem.append(Message::new(Role::Assistant, format!("{i}").repeat(60)));
    }
    let ctx = mem.get_context(100).unwrap();
    let total: usize = ctx
        .iter()
        .map(|m| estimate_message_tokens(&CharBasedEstimator, m))
        .sum();
    assert!(total <= 100);
    assert_eq!(ctx[0].role, Role::System);
    assert_eq!(ctx[1].role, Role::User);
    assert_eq!(ctx.last().unwrap().content, "9".repeat(60));
}

struct Quarter;

impl TokenEstimator for Quarter {
    fn estimate(&self, text: &str) -> usize {
        text.chars().count() / 4
    }
}

#[test]
fn a_token_stands_for_four_characters_unless_said_otherwise() {
    assert_eq!(CharBasedEstimator.token_to_chars(25), 100);
    assert_eq!(Quarter.token_to_chars(25), 100);
    assert_eq!(Quarter.token_to_chars(usize::MAX / 2), usize::MAX);
}

#[test]
fn pieces_of_messages_follow_the_estimator() {
    let message = Message {
        role: Role::Assistant,
        content: "a".repeat(400),
        tool_calls: None,
        tool_call_id: None,
    };
    let memory = WindowMemory::new(1000, Box::new(Quarter));
    let cut = memory.truncate_to_budget(&message, 43).unwrap().content;
    assert_eq!(cut, format!("{}\n…[truncated]", "a".repeat(160)));
}
