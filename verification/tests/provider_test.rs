//! The provider, the repetition of its calls, and the middleware.
use cogent::memory::{CharBasedEstimator, WindowMemory};
use cogent::middleware::{
    default_blocked_tools, SafetyGuardMiddleware, TokenLimiterMiddleware, TracingMiddleware,
};
use cogent::openai::{
    delta_text, is_success, ChatChoice, ChatFunctionCall, ChatMessage, ChatRequest, ChatResponse,
    ChatToolCall, ChatUsage, HttpReply, OpenAIProvider, SseBuffer, ToolDef,
};
use cogent::provider::LLMResponse;
use cogent::retry::{extract_status_code, is_retryable, RetryMiddleware, StreamRetry, StreamStep};
use cogent::types::{Message, Role, ToolCall};
use std::sync::Arc;

fn provider() -> OpenAIProvider {
    OpenAIProvider::new("sk-test".into(), "gpt-4o-mini".into(), None)
        .ok()
        .unwrap()
}

#[test]
fn test_to_chat_message_user() {
    let msg = Message::new(Role::User, "Hello".into());
    let chat_msg = OpenAIProvider::to_chat_message(&msg);
    assert_eq!(chat_msg.role, "user");
    assert_eq!(chat_msg.content, "Hello");
    assert!(chat_msg.tool_calls.is_none());
    assert!(chat_msg.tool_call_id.is_none());
}

#[test]
fn test_to_chat_message_assistant_with_tool_calls() {
    let call = ToolCall {
        id: "call_1".into(),
        name: "bash".into(),
        arguments: "{\"command\":\"ls\"}".into(),
        original_name: None,
    };
    let msg = Message::with_tool_calls("Let me check.".into(), vec![call]);
    let chat_msg = OpenAIProvider::to_chat_message(&msg);
    assert_eq!(chat_msg.role, "assistant");
    let calls = chat_msg.tool_calls.as_ref().unwrap();
    assert_eq!(calls.len(), 1);
    assert_eq!(calls[0].id, "call_1");
    assert_eq!(calls[0].function.name, "bash");
    assert_eq!(calls[0].function.arguments, "{\"command\":\"ls\"}");
}

#[test]
fn test_to_chat_message_tool_result() {
    let msg = Message::tool_result("call_1".into(), "file1\nfile2".into());
    let chat_msg = OpenAIProvider::to_chat_message(&msg);
    assert_eq!(chat_msg.role, "tool");
    assert_eq!(chat_msg.tool_call_id.as_deref(), Some("call_1"));
    assert_eq!(chat_msg.content, "file1\nfile2");
}

#[test]
fn test_to_chat_tools_empty() {
    let tools: Vec<ToolDef> = Vec::new();
    assert!(OpenAIProvider::to_chat_tools(&tools).is_none());
}

#[test]
fn test_parse_response_text() {
    let resp = ChatResponse {
        id: "chatcmpl-123".into(),
        choices: vec![ChatChoice {
            message: ChatMessage {
                role: "assistant".into(),
                content: "Hello!".into(),
                tool_calls: None,
                tool_call_id: None,
            },
            finish_reason: Some("stop".into()),
        }],
        usage: Some(ChatUsage {
            prompt_tokens: 10,
            completion_tokens: 5,
        }),
    };
    let llm_resp = OpenAIProvider::parse_response(&resp).unwrap();
    assert_eq!(llm_resp.content, "Hello!");
    assert!(!llm_resp.has_tool_calls());
    assert_eq!(llm_resp.prompt_tokens, 10);
    assert_eq!(llm_resp.completion_tokens, 5);
}

#[test]
fn test_parse_response_with_tool_calls() {
    let resp = ChatResponse {
        id: "chatcmpl-456".into(),
        choices: vec![ChatChoice {
            message: ChatMessage {
                role: "assistant".into(),
                content: String::new(),
                tool_calls: Some(vec![ChatToolCall {
                    id: "call_abc".into(),
                    call_type: "function".into(),
                    function: ChatFunctionCall {
                        name: "bash".into(),
                        arguments: "{\"command\":\"ls\"}".into(),
                    },
                }]),
                tool_call_id: None,
            },
            finish_reason: Some("tool_calls".into()),
        }],
        usage: Some(ChatUsage {
            prompt_tokens: 20,
            completion_tokens: 10,
        }),
    };
    let llm_resp = OpenAIProvider::parse_response(&resp).unwrap();
    assert!(llm_resp.has_tool_calls());
    assert_eq!(llm_resp.tool_calls[0].id, "call_abc");
    assert_eq!(llm_resp.tool_calls[0].name, "bash");
    let args: serde_json::Value =
        serde_json::from_str(&llm_resp.tool_calls[0].arguments).unwrap();
    assert_eq!(args["command"], "ls");
}

#[test]
fn test_parse_response_no_choices() {
    let resp = ChatResponse {
        id: "chatcmpl-789".into(),
        choices: Vec::new(),
        usage: None,
    };
    assert!(OpenAIProvider::parse_response(&resp).is_err());
}

#[test]
fn test_new_empty_api_key() {
    assert!(OpenAIProvider::new(String::new(), "gpt-4o-mini".into(), None).is_err());
}

#[test]
fn test_new_success() {
    let provider = provider();
    assert_eq!(provider.model(), "gpt-4o-mini");
    assert_eq!(provider.base_url(), "https://api.openai.com/v1");
}

#[test]
fn test_new_custom_base_url_trims_trailing_slash() {
    let provider = OpenAIProvider::new(
        "sk-test".into(),
        "gpt-4o-mini".into(),
        Some("http://localhost:8080/v1/".into()),
    )
    .ok()
    .unwrap();
    assert_eq!(provider.base_url(), "http://localhost:8080/v1");
}

#[test]
fn test_request_url() {
    let provider = provider();
    assert_eq!(
        provider.request_url(),
        "https://api.openai.com/v1/chat/completions"
    );
}

#[test]
fn test_chat_request_serialization() {
    let req = ChatRequest {
        model: "gpt-4o-mini".into(),
        messages: vec![ChatMessage {
            role: "user".into(),
            content: "Hi".into(),
            tool_calls: None,
            tool_call_id: None,
        }],
        tools: None,
        stream: false,
    };
    let json: serde_json::Value = serde_json::from_str(&req.to_json()).unwrap();
    assert_eq!(json["model"], "gpt-4o-mini");
    assert_eq!(json["stream"], false);
    assert!(json.get("tools").is_none());
}

/// The contents of the choices of a piece of data.
fn contents(data: &str) -> Vec<Option<String>> {
    let chunk: serde_json::Value = serde_json::from_str(data).unwrap();
    let choices = chunk["choices"].as_array().unwrap();
    choices
        .iter()
        .map(|c| c["delta"]["content"].as_str().map(|s| s.to_string()))
        .collect()
}

#[test]
fn test_stream_chunk_deserialization() {
    let data =
        r#"{"id":"chatcmpl-1","choices":[{"delta":{"content":"Hello"},"finish_reason":null}]}"#;
    let mut buffer = SseBuffer::new();
    let found = buffer.push_text(&format!("data: {data}\n\n"));
    assert_eq!(found, vec![data]);
    assert_eq!(delta_text(&contents(&found[0])).as_deref(), Some("Hello"));
}

#[test]
fn test_stream_chunk_empty_delta() {
    let data = r#"{"id":"chatcmpl-1","choices":[{"delta":{},"finish_reason":"stop"}]}"#;
    assert!(delta_text(&contents(data)).is_none());
}

#[test]
fn streams_may_be_cut_anywhere() {
    let text = ": note\ndata: {\"a\":1}\n\ndata: {\"b\":2}\ndata: [DONE]\ndata: late\n";
    let mut whole = SseBuffer::new();
    let expected = whole.push_text(text);
    assert_eq!(expected, vec!["{\"a\":1}", "{\"b\":2}"]);
    assert!(whole.is_done());
    for size in 1..10 {
        let mut buffer = SseBuffer::new();
        let mut found = Vec::new();
        for piece in text.as_bytes().chunks(size) {
            found.extend(buffer.push_bytes(piece));
        }
        assert_eq!(found, expected);
        assert!(buffer.is_done());
    }
}

#[test]
fn requests_are_json() {
    let tool = ToolDef {
        name: "echo".into(),
        description: "Echoes \"x\".".into(),
        parameters: "{\"type\":\"object\"}".into(),
    };
    let messages = [
        Message::new(Role::User, "Hi\n".into()),
        Message::tool_result("c1".into(), "done".into()),
    ];
    let tools = [tool];
    let streamed = provider().chat_request(&messages, &tools, true);
    let json: serde_json::Value = serde_json::from_str(&streamed.to_json()).unwrap();
    assert_eq!(json["stream"], true);
    assert!(json.get("tools").is_none());
    let request = provider().chat_request(&messages, &tools, false);
    let json: serde_json::Value = serde_json::from_str(&request.to_json()).unwrap();
    assert_eq!(json["model"], "gpt-4o-mini");
    assert_eq!(json["stream"], false);
    assert_eq!(json["messages"][0]["role"], "user");
    assert_eq!(json["messages"][0]["content"], "Hi\n");
    assert!(json["messages"][0].get("tool_call_id").is_none());
    assert_eq!(json["messages"][1]["tool_call_id"], "c1");
    assert_eq!(json["tools"][0]["type"], "function");
    assert_eq!(json["tools"][0]["function"]["name"], "echo");
    assert_eq!(json["tools"][0]["function"]["parameters"]["type"], "object");
}

#[test]
fn headers_carry_the_key() {
    let headers = provider().request_headers();
    assert_eq!(headers[0], ("authorization", "Bearer sk-test".to_string()));
    assert_eq!(headers[1], ("content-type", "application/json".to_string()));
}

#[test]
fn endpoints_that_are_no_url_are_refused() {
    let result = OpenAIProvider::new("sk".into(), "m".into(), Some("not a url".into()));
    assert!(result.err().unwrap().starts_with("invalid base URL 'not a url': "));
}

#[test]
fn requests_that_come_to_nothing_are_told() {
    let err = OpenAIProvider::chat_complete(HttpReply::SendFailed("refused".into())).unwrap_err();
    assert_eq!(err, "HTTP request failed: refused");
    let err = OpenAIProvider::chat_complete(HttpReply::Refused {
        status: "429 Too Many Requests".into(),
        body: "slow down".into(),
    })
    .unwrap_err();
    assert_eq!(
        err,
        "OpenAI API error (status 429 Too Many Requests): slow down"
    );
    let err = OpenAIProvider::chat_complete(HttpReply::Unreadable("eof".into())).unwrap_err();
    assert_eq!(err, "failed to parse OpenAI response: eof");
    let err = OpenAIProvider::chat_complete(HttpReply::ReadFailed("cut".into())).unwrap_err();
    assert_eq!(err, "stream read error: cut");
    assert!(is_success(200) && is_success(299));
    assert!(!is_success(199) && !is_success(300));
}

/// A reply with one tool call.
fn calling(arguments: &str) -> ChatResponse {
    ChatResponse {
        id: "x".into(),
        choices: vec![ChatChoice {
            message: ChatMessage {
                role: "assistant".into(),
                content: String::new(),
                tool_calls: Some(vec![ChatToolCall {
                    id: "c".into(),
                    call_type: "function".into(),
                    function: ChatFunctionCall {
                        name: "bash".into(),
                        arguments: arguments.into(),
                    },
                }]),
                tool_call_id: None,
            },
            finish_reason: None,
        }],
        usage: None,
    }
}

#[test]
fn arguments_that_are_no_json_become_an_empty_object() {
    let reply = OpenAIProvider::parse_response(&calling("{broken")).unwrap();
    assert_eq!(reply.tool_calls[0].arguments, "{}");
    assert_eq!(reply.prompt_tokens, 0);
}

#[test]
fn arguments_are_kept_in_compact_form() {
    let reply = OpenAIProvider::parse_response(&calling("{ \"b\": 1,\n \"a\": [2] }")).unwrap();
    assert_eq!(reply.tool_calls[0].arguments, "{\"a\":[2],\"b\":1}");
}

#[test]
fn test_is_retryable_429() {
    let err = format!("OpenAI API error (status 429): rate limited");
    assert!(is_retryable(&err));
}

#[test]
fn status_codes_decide_before_words() {
    assert!(!is_retryable(
        "OpenAI API error (status 400): unknown field 'timeout'"
    ));
    assert!(!is_retryable("OpenAI API error (status 401): connection refused by dns"));
    assert!(is_retryable("OpenAI API error (status 503): no connection"));
    assert!(is_retryable("connection closed (status 200)"));
    assert!(!is_retryable("moved (status 301)"));
    assert!(is_retryable("stream read error: connection reset"));
}

#[test]
fn test_is_retryable_5xx() {
    for code in [500, 502, 503, 504] {
        let err = format!("OpenAI API error (status {code}): server error");
        assert!(is_retryable(&err), "expected {code} to be retryable");
    }
}

#[test]
fn test_is_retryable_400() {
    let err = format!("OpenAI API error (status 400): bad request");
    assert!(!is_retryable(&err));
}

#[test]
fn test_is_retryable_401() {
    let err = format!("OpenAI API error (status 401): unauthorized");
    assert!(!is_retryable(&err));
}

#[test]
fn test_is_retryable_timeout() {
    let err = format!("HTTP request failed: operation timed out");
    assert!(is_retryable(&err));
}

#[test]
fn test_is_retryable_connection() {
    let err = format!("HTTP request failed: connection refused");
    assert!(is_retryable(&err));
}

/// A provider that fails a number of times, with a failure that passes or not.
struct FlakyProvider {
    calls: usize,
    fail_times: usize,
    retryable: bool,
}

impl FlakyProvider {
    fn new(fail_times: usize, retryable: bool) -> Self {
        FlakyProvider {
            calls: 0,
            fail_times,
            retryable,
        }
    }

    fn call(&mut self) -> Result<LLMResponse, String> {
        self.calls += 1;
        if self.calls > self.fail_times {
            Ok(LLMResponse::text("ok".into(), 1, 1))
        } else if self.retryable {
            Err("OpenAI API error (status 429): rate limited".into())
        } else {
            Err("OpenAI API error (status 400): bad request".into())
        }
    }

    fn chat_complete(&mut self, mw: &RetryMiddleware) -> Result<LLMResponse, String> {
        let mut run = mw.begin();
        loop {
            match self.call() {
                Ok(resp) => return Ok(resp),
                Err(e) => {
                    if !run.on_failure(&e) {
                        return Err(e);
                    }
                }
            }
        }
    }
}

#[test]
fn test_chat_complete_retries_then_succeeds() {
    let mut flaky = FlakyProvider::new(2, true);
    let resp = flaky
        .chat_complete(&RetryMiddleware::new(3))
        .expect("should succeed after retries");
    assert_eq!(resp.content, "ok");
    assert_eq!(flaky.calls, 3);
}

#[test]
fn test_chat_complete_non_retryable_fails_immediately() {
    let mut flaky = FlakyProvider::new(100, false);
    let result = flaky.chat_complete(&RetryMiddleware::new(3));
    assert!(result.is_err());
    assert_eq!(flaky.calls, 1);
}

#[test]
fn test_chat_complete_exhausts_retries() {
    let mut flaky = FlakyProvider::new(100, true);
    let result = flaky.chat_complete(&RetryMiddleware::new(2));
    assert!(result.is_err());
    assert_eq!(flaky.calls, 3);
}

#[test]
fn test_with_default_retries() {
    let mut flaky = FlakyProvider::new(100, true);
    let result = flaky.chat_complete(&RetryMiddleware::with_default_retries());
    assert!(result.is_err());
    assert_eq!(flaky.calls, 4);
}

#[test]
fn streams_are_opened_anew_only_before_their_first_text() {
    let mut stream = StreamRetry::new(&RetryMiddleware::new(1));
    assert_eq!(stream.next_if(Some(Err(true))), StreamStep::Reopen);
    assert_eq!(stream.next_if(Some(Err(true))), StreamStep::ForwardAndEnd);
    let mut stream = StreamRetry::new(&RetryMiddleware::new(3));
    assert_eq!(stream.next_if(Some(Err(false))), StreamStep::ForwardAndEnd);
    let mut stream = StreamRetry::new(&RetryMiddleware::new(3));
    assert_eq!(stream.next_if(Some(Ok(()))), StreamStep::Forward);
    assert_eq!(stream.next_if(Some(Err(true))), StreamStep::Forward);
    assert_eq!(stream.next_if(None), StreamStep::End);
}

#[test]
fn status_codes_are_found_in_messages() {
    assert_eq!(
        extract_status_code("OpenAI API error (status 503 Service Unavailable): x"),
        Some(503)
    );
    assert_eq!(extract_status_code("no code here"), None);
    assert!(is_retryable("DNS lookup failed"));
}

#[test]
fn test_tracing_passes() {
    let mw = TracingMiddleware;
    let msgs = vec![Message::new(Role::User, "hi".into())];
    assert!(mw.before_llm(&msgs).is_ok());
    assert!(mw.before_tool("bash", "null").is_ok());
}

#[test]
fn test_safety_blocks() {
    let mw = SafetyGuardMiddleware::new(vec!["bash".into()]);
    assert!(mw.before_tool("bash", "null").is_err());
    assert!(mw.before_tool("file_read", "null").is_ok());
}

#[test]
fn test_safety_empty_blocks_all_pass() {
    let mw = SafetyGuardMiddleware::new(vec![]);
    assert!(mw.before_tool("bash", "null").is_ok());
}

#[test]
fn test_safety_blocks_destructive_patterns() {
    let mw = SafetyGuardMiddleware::with_default_policy();
    let args = "{\"command\":\"rm -rf /\"}";
    assert!(mw.before_tool("bash", args).is_err());
    let args = "{\"command\":\"mkfs.ext4 /dev/sda1\"}";
    assert!(mw.before_tool("bash", args).is_err());
    let args = "{\"command\":\"RM -RF /\"}";
    assert!(mw.before_tool("bash", args).is_err());
}

#[test]
fn test_safety_allows_safe_bash() {
    let mw = SafetyGuardMiddleware::with_default_policy();
    let args = "{\"command\":\"ls -la\"}";
    assert!(mw.before_tool("bash", args).is_ok());
    let args = "{\"command\":\"echo hello\"}";
    assert!(mw.before_tool("bash", args).is_ok());
}

#[test]
fn test_token_limiter_blocks() {
    let mw = TokenLimiterMiddleware::new(10, Arc::new(CharBasedEstimator));
    let long = "x".repeat(100);
    let msgs = vec![Message::new(Role::User, long)];
    assert!(mw.before_llm(&msgs).is_err());
}

#[test]
fn test_token_limiter_passes() {
    let mw = TokenLimiterMiddleware::new(1000, Arc::new(CharBasedEstimator));
    let msgs = vec![Message::new(Role::User, "hi".into())];
    assert!(mw.before_llm(&msgs).is_ok());
}

#[test]
fn blocked_calls_name_the_reason() {
    assert!(default_blocked_tools().is_empty());
    let mw = SafetyGuardMiddleware::new(vec!["bash".into()]);
    let err = mw.before_tool("bash", "{}").unwrap_err();
    assert!(err.to_string().starts_with("middleware 'SafetyGuard' blocked: "));
    let limiter = TokenLimiterMiddleware::new(10, Arc::new(CharBasedEstimator));
    let msgs = vec![Message::new(Role::User, "x".repeat(100))];
    let err = limiter.before_llm(&msgs).unwrap_err();
    assert!(err.to_string().starts_with("middleware 'TokenLimiter' blocked: "));
    assert!(err.to_string().contains("25"));
}

#[test]
fn windows_of_the_memory_pass_the_limiter() {
    let mut memory = WindowMemory::with_default_estimator(50);
    memory.set_system(Message::new(Role::System, "s".repeat(40)));
    memory.append(Message::new(Role::User, "t".repeat(120)));
    for _ in 0..5 {
        memory.append(Message::new(Role::Assistant, "a".repeat(60)));
    }
    let limiter = TokenLimiterMiddleware::new(50, Arc::new(CharBasedEstimator));
    assert!(limiter.before_llm(&memory.get_context(50).unwrap()).is_ok());
    assert!(limiter.before_llm(&memory.get_context(500).unwrap()).is_err());
}
