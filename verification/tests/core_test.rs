//! The small types of the core: errors, states, messages, replies, summaries and
//! the configuration.
use cogent::config::{Config, EnvVars};
use cogent::error::CogentError;
use cogent::provider::LLMResponse;
use cogent::state::AgentState;
use cogent::summary::{generate_summary, ToolRecord};
use cogent::types::{Message, Role, ToolCall};

#[test]
fn test_provider_error_display() {
    let err = CogentError::Provider("HTTP 500 Internal Server Error".into());
    assert_eq!(
        err.to_string(),
        "provider error: HTTP 500 Internal Server Error"
    );
}

#[test]
fn test_provider_error_source_chain() {
    let root = std::io::Error::new(std::io::ErrorKind::TimedOut, "connection timed out");
    let err = CogentError::Provider(format!("request failed: {root}"));
    match &err {
        CogentError::Provider(source) => assert!(source.contains("connection timed out")),
        _ => panic!("expected a provider error"),
    }
    assert_eq!(
        err.to_string(),
        "provider error: request failed: connection timed out"
    );
}

#[test]
fn test_tool_error_display() {
    let err = CogentError::Tool {
        tool_name: "bash".into(),
        detail: "command not found".into(),
    };
    assert_eq!(err.to_string(), "tool 'bash' failed: command not found");
}

#[test]
fn test_loop_detected_display() {
    let err = CogentError::LoopDetected {
        tool_name: "bash".into(),
        call_count: 2,
    };
    assert_eq!(
        err.to_string(),
        "loop detected: tool 'bash' called 2 times with identical arguments"
    );
}

#[test]
fn test_max_iterations_display() {
    let err = CogentError::MaxIterationsExceeded(10);
    assert_eq!(
        err.to_string(),
        "max iterations (10) exceeded, engine terminated"
    );
}

#[test]
fn test_middleware_blocked_display() {
    let err = CogentError::MiddlewareBlocked {
        middleware: "SafetyGuard".into(),
        reason: "blocked command: rm -rf /".into(),
    };
    assert_eq!(
        err.to_string(),
        "middleware 'SafetyGuard' blocked: blocked command: rm -rf /"
    );
}

#[test]
fn test_error_trait_impl() {
    let err: Box<CogentError> = Box::new(CogentError::Config("missing OPENAI_API_KEY".into()));
    assert!(err.to_string().contains("OPENAI_API_KEY"));
}

#[test]
fn test_anyhow_conversion() {
    let err = CogentError::Provider("timeout".into());
    let anyhow_err: anyhow::Error = anyhow::Error::msg(err.to_string());
    assert!(anyhow_err.to_string().contains("timeout"));
}

#[test]
fn remaining_errors_are_displayed() {
    assert_eq!(CogentError::Memory("full".into()).to_string(), "memory error: full");
    assert_eq!(
        CogentError::EmptyResponse(3).to_string(),
        "empty LLM response at iteration 3 (no content, no tool calls)"
    );
    assert_eq!(CogentError::Config("x".into()).to_string(), "config error: x");
}

#[test]
fn test_legal_transitions() {
    assert_eq!(
        AgentState::Idle.transition(AgentState::Thinking).unwrap(),
        AgentState::Thinking
    );
    assert_eq!(
        AgentState::Thinking
            .transition(AgentState::ToolCalling)
            .unwrap(),
        AgentState::ToolCalling
    );
    assert_eq!(
        AgentState::Thinking
            .transition(AgentState::Completed)
            .unwrap(),
        AgentState::Completed
    );
    assert_eq!(
        AgentState::ToolCalling
            .transition(AgentState::Observing)
            .unwrap(),
        AgentState::Observing
    );
    assert_eq!(
        AgentState::Observing
            .transition(AgentState::Thinking)
            .unwrap(),
        AgentState::Thinking
    );
}

#[test]
fn test_any_state_to_failed() {
    for state in [
        AgentState::Idle,
        AgentState::Thinking,
        AgentState::ToolCalling,
        AgentState::Observing,
        AgentState::Completed,
    ] {
        assert_eq!(
            state.transition(AgentState::Failed).unwrap(),
            AgentState::Failed
        );
    }
}

#[test]
fn test_illegal_transitions() {
    assert!(AgentState::Idle.transition(AgentState::ToolCalling).is_err());
    assert!(AgentState::Idle.transition(AgentState::Observing).is_err());
    assert!(AgentState::Thinking.transition(AgentState::Observing).is_err());
    assert!(AgentState::ToolCalling.transition(AgentState::Thinking).is_err());
    assert!(AgentState::Completed.transition(AgentState::Thinking).is_err());
    assert!(AgentState::Failed.transition(AgentState::Thinking).is_err());
}

#[test]
fn refused_transition_names_both_states() {
    let err = AgentState::Idle.transition(AgentState::ToolCalling).unwrap_err();
    assert!(matches!(err, CogentError::Config(_)));
    assert_eq!(
        err.to_string(),
        "config error: illegal state transition: Idle -> ToolCalling"
    );
}

#[test]
fn test_is_terminal() {
    assert!(AgentState::Completed.is_terminal());
    assert!(AgentState::Failed.is_terminal());
    assert!(!AgentState::Idle.is_terminal());
    assert!(!AgentState::Thinking.is_terminal());
    assert!(!AgentState::ToolCalling.is_terminal());
    assert!(!AgentState::Observing.is_terminal());
}

#[test]
fn test_is_active() {
    assert!(AgentState::Thinking.is_active());
    assert!(AgentState::ToolCalling.is_active());
    assert!(AgentState::Observing.is_active());
    assert!(!AgentState::Idle.is_active());
    assert!(!AgentState::Completed.is_active());
    assert!(!AgentState::Failed.is_active());
}

#[test]
fn test_display() {
    assert_eq!(AgentState::Idle.to_string(), "idle");
    assert_eq!(AgentState::Thinking.to_string(), "thinking");
    assert_eq!(AgentState::ToolCalling.to_string(), "tool_calling");
    assert_eq!(AgentState::Observing.to_string(), "observing");
    assert_eq!(AgentState::Completed.to_string(), "completed");
    assert_eq!(AgentState::Failed.to_string(), "failed");
}

#[test]
fn state_test_full_react_cycle() {
    let mut state = AgentState::Idle;
    state = state.transition(AgentState::Thinking).unwrap();
    state = state.transition(AgentState::ToolCalling).unwrap();
    state = state.transition(AgentState::Observing).unwrap();
    state = state.transition(AgentState::Thinking).unwrap();
    state = state.transition(AgentState::Completed).unwrap();
    assert!(state.is_terminal());
}

#[test]
fn test_reset() {
    assert_eq!(AgentState::Completed.reset(), AgentState::Idle);
    assert_eq!(AgentState::Failed.reset(), AgentState::Idle);
    assert_eq!(AgentState::Idle.reset(), AgentState::Idle);
    assert_eq!(AgentState::Thinking.reset(), AgentState::Thinking);
    assert_eq!(AgentState::ToolCalling.reset(), AgentState::ToolCalling);
    assert_eq!(AgentState::Observing.reset(), AgentState::Observing);
}

fn rec(name: &str, success: bool, error: Option<&str>) -> ToolRecord {
    ToolRecord {
        tool_name: name.to_string(),
        success,
        error: error.map(|s| s.to_string()),
    }
}

#[test]
fn test_summary_three_sections() {
    let history = vec![
        rec("edit", true, None),
        rec("edit", false, Some("old_string not found")),
    ];
    let s = generate_summary(40, &history);
    assert!(s.contains("Max iterations (40) reached."));
    assert!(s.contains("Completed:"));
    assert!(s.contains("Failed:"));
    assert!(s.contains("Suggestion:"));
}

#[test]
fn test_summary_completed_dedup() {
    let history = vec![
        rec("edit", true, None),
        rec("edit", true, None),
        rec("file_read", true, None),
    ];
    let s = generate_summary(10, &history);
    let completed_section = s.split("Failed:").next().unwrap();
    assert_eq!(completed_section.matches("- edit").count(), 1);
    assert!(completed_section.contains("- file_read"));
}

#[test]
fn test_summary_failed_with_reason() {
    let history = vec![
        rec("edit", false, Some("old_string not found")),
        rec("edit", false, Some("old_string not found")),
        rec("file_write", false, Some("content is null")),
    ];
    let s = generate_summary(10, &history);
    let failed_section = s
        .split("Failed:")
        .nth(1)
        .unwrap()
        .split("Suggestion:")
        .next()
        .unwrap();
    assert_eq!(failed_section.matches("old_string not found").count(), 1);
    assert!(failed_section.contains("file_write"));
    assert!(failed_section.contains("content is null"));
}

#[test]
fn test_summary_suggestion_from_failures() {
    let history = vec![rec("edit", false, Some("old_string not found"))];
    let s = generate_summary(10, &history);
    let suggestion = s.split("Suggestion:").nth(1).unwrap();
    assert!(suggestion.contains("edit"));
    assert!(suggestion.contains("corrected arguments"));
}

#[test]
fn test_summary_suggestion_all_success() {
    let history = vec![rec("edit", true, None)];
    let s = generate_summary(10, &history);
    let suggestion = s.split("Suggestion:").nth(1).unwrap();
    assert!(suggestion.contains("Increase max_iterations"));
}

#[test]
fn test_summary_empty_history() {
    let s = generate_summary(5, &[]);
    assert!(s.contains("Completed:\n  (none)"));
    assert!(s.contains("Failed:\n  (none)"));
}

#[test]
fn test_message_new() {
    let msg = Message::new(Role::User, "Hello".into());
    assert_eq!(msg.role, Role::User);
    assert_eq!(msg.content, "Hello");
    assert!(msg.tool_calls.is_none());
    assert!(msg.tool_call_id.is_none());
    assert!(!msg.has_tool_calls());
}

fn ls_call() -> ToolCall {
    ToolCall {
        id: "call_1".into(),
        name: "bash".into(),
        arguments: "{\"command\":\"ls\"}".into(),
        original_name: None,
    }
}

#[test]
fn test_message_with_tool_calls() {
    let msg = Message::with_tool_calls(String::new(), vec![ls_call()]);
    assert_eq!(msg.role, Role::Assistant);
    assert!(msg.has_tool_calls());
    assert_eq!(msg.tool_calls.as_ref().unwrap().len(), 1);
}

#[test]
fn test_message_tool_result() {
    let msg = Message::tool_result("call_1".into(), "file1\nfile2".into());
    assert_eq!(msg.role, Role::Tool);
    assert_eq!(msg.tool_call_id.as_deref(), Some("call_1"));
    assert!(!msg.has_tool_calls());
}

#[test]
fn test_role_serialization() {
    let quoted = |role: Role| serde_json::to_string(role.as_str()).unwrap();
    assert_eq!(quoted(Role::System), "\"system\"");
    assert_eq!(quoted(Role::User), "\"user\"");
    assert_eq!(quoted(Role::Assistant), "\"assistant\"");
    assert_eq!(quoted(Role::Tool), "\"tool\"");
}

#[test]
fn calls_are_shown_under_the_name_that_the_model_used() {
    let mut call = ls_call();
    assert_eq!(call.display_name(), "bash");
    call.original_name = Some("Bash".into());
    assert_eq!(call.display_name(), "Bash");
}

#[test]
fn test_llm_response_text() {
    let resp = LLMResponse::text("Hello!".into(), 10, 5);
    assert_eq!(resp.content, "Hello!");
    assert!(!resp.has_tool_calls());
    assert_eq!(resp.prompt_tokens, 10);
    assert_eq!(resp.completion_tokens, 5);
}

#[test]
fn test_llm_response_with_tool_calls() {
    let resp = LLMResponse::with_tool_calls(String::new(), vec![ls_call()], 20, 10);
    assert!(resp.has_tool_calls());
    assert_eq!(resp.tool_calls.len(), 1);
    assert_eq!(resp.tool_calls[0].name, "bash");
}

#[test]
fn test_has_tool_calls_empty() {
    let resp = LLMResponse::text("Hi".into(), 5, 3);
    assert!(!resp.has_tool_calls());
}

#[test]
fn test_config_default() {
    let cfg = Config::default();
    assert_eq!(cfg.provider, "openai");
    assert_eq!(cfg.model, "gpt-4o-mini");
    assert!(cfg.api_key.is_none());
    assert_eq!(cfg.max_iterations, 20);
    assert_eq!(cfg.max_context_tokens, 8000);
    assert_eq!(cfg.event_bus_capacity, 256);
    assert!(cfg.otel_endpoint.is_none());
}

#[test]
fn test_from_env_missing_api_key() {
    let env = EnvVars {
        provider: Some("openai".into()),
        ..EnvVars::default()
    };
    let result = Config::from_env(&env);
    assert!(result.is_err());
    let err = result.unwrap_err();
    assert!(matches!(err, CogentError::Config(_)));
    assert!(err.to_string().contains("OPENAI_API_KEY"));
}

#[test]
fn test_from_env_success() {
    let env = EnvVars {
        provider: Some("openai".into()),
        model: Some("test-model".into()),
        openai_api_key: Some("test-key-12345".into()),
        max_iterations: Some("5".into()),
        max_context_tokens: Some("4000".into()),
        ..EnvVars::default()
    };
    let cfg = Config::from_env(&env).unwrap();
    assert_eq!(cfg.provider, "openai");
    assert_eq!(cfg.model, "test-model");
    assert_eq!(cfg.api_key.as_deref(), Some("test-key-12345"));
    assert_eq!(cfg.max_iterations, 5);
    assert_eq!(cfg.max_context_tokens, 4000);
}

#[test]
fn test_from_env_invalid_max_iterations_falls_back() {
    let env = EnvVars {
        provider: Some("openai".into()),
        openai_api_key: Some("test-key".into()),
        max_iterations: Some("not-a-number".into()),
        ..EnvVars::default()
    };
    let cfg = Config::from_env(&env).unwrap();
    assert_eq!(cfg.max_iterations, 20);
}

#[test]
fn test_from_env_empty_api_key() {
    let env = EnvVars {
        provider: Some("openai".into()),
        openai_api_key: Some(String::new()),
        ..EnvVars::default()
    };
    let result = Config::from_env(&env);
    assert!(result.is_err());
    let err = result.unwrap_err();
    assert!(matches!(err, CogentError::Config(_)));
    assert!(err.to_string().contains("empty"));
}
