//! The declarations of tools, the terminal and the session on it.
use cogent::builtin::{build_tools, builtin_decls, tool_request, ParamValue, ToolRequest};
use cogent::error::CogentError;
use cogent::event::AgentEvent;
use cogent::openai::ToolDef;
use cogent::render::{describe_tools, list_tools, render_event, state_label, Rendering, Style};
use cogent::repl::{
    after_turn, end_turn, on_read, summary_notice, AfterTurn, ReadOutcome, ReplAction, TurnEnd,
};
use cogent::state::AgentState;
use cogent::tool::{
    capitalized, cogent_tool, declare_tool, expand_tool, extract_description, to_pascal_case,
    MetaSyntax, ToolDecl,
};

#[test]
fn test_state_label() {
    assert_eq!(state_label(&AgentState::Idle), "→ Idle");
    assert_eq!(state_label(&AgentState::Thinking), "→ Thinking");
    assert_eq!(state_label(&AgentState::ToolCalling), "→ ToolCalling");
    assert_eq!(state_label(&AgentState::Observing), "→ Observing");
    assert_eq!(state_label(&AgentState::Completed), "→ Completed");
    assert_eq!(state_label(&AgentState::Failed), "→ Failed");
}

/// The pieces of a rendering, as pairs.
fn pieces(r: &Rendering) -> Vec<(Style, &str)> {
    r.spans.iter().map(|s| (s.style, s.text.as_str())).collect()
}

fn plain(r: &Rendering) -> String {
    r.spans.iter().map(|s| s.text.as_str()).collect()
}

#[test]
fn events_are_shown_in_their_colours() {
    let r = render_event(&AgentEvent::StateChanged(AgentState::Thinking));
    assert_eq!(pieces(&r), vec![(Style::Dimmed, "  → Thinking")]);
    assert!(r.newline);

    let r = render_event(&AgentEvent::TokenChunk("abc".into()));
    assert_eq!(pieces(&r), vec![(Style::Plain, "abc")]);
    assert!(!r.newline);

    let r = render_event(&AgentEvent::ToolStarted {
        id: "c".into(),
        name: "bash".into(),
        args: "{}".into(),
    });
    assert_eq!(plain(&r), "  ⚙ tool bash {}");
    assert_eq!(r.spans[1].style, Style::YellowBold);
    assert_eq!(r.spans[3].style, Style::Yellow);

    let r = render_event(&AgentEvent::ToolFinished {
        id: "c".into(),
        duration_ms: 150,
        success: true,
    });
    assert_eq!(plain(&r), "  ⚙ done ✓ ok 150ms");
    assert_eq!(r.spans[3].style, Style::Green);

    let r = render_event(&AgentEvent::ToolFinished {
        id: "c".into(),
        duration_ms: 3,
        success: false,
    });
    assert_eq!(plain(&r), "  ⚙ done ✗ failed 3ms");
    assert_eq!(r.spans[3].style, Style::Red);

    let r = render_event(&AgentEvent::TokenUsage {
        prompt_tokens: 100,
        completion_tokens: 50,
    });
    assert_eq!(plain(&r), "  ◈ tokens in:100 out:50");
}

#[test]
fn tools_are_listed() {
    let tools = [ToolDef {
        name: "echo".into(),
        description: "Echoes.\nTwice.".into(),
        parameters: "{\"type\":\"object\"}".into(),
    }];
    let short: Vec<String> = list_tools(&tools).iter().map(plain).collect();
    assert_eq!(short, vec!["1 registered tools:", "  echo — Echoes."]);
    let long: Vec<String> = describe_tools(&tools).iter().map(plain).collect();
    assert_eq!(
        long,
        vec![
            "1 registered tools:",
            "",
            "  echo",
            "    Echoes.",
            "    Twice.",
            "    {",
            "      \"type\": \"object\"",
            "    }",
        ]
    );
}

fn read(line: &str) -> ReplAction {
    on_read(ReadOutcome::Line(line.into()))
}

#[test]
fn lines_are_requests_or_commands() {
    assert!(matches!(read("   "), ReplAction::Skip));
    assert!(matches!(read("  hello  "), ReplAction::Prompt(p) if p == "hello"));
    assert!(matches!(read("/exit"), ReplAction::Quit));
    assert!(matches!(read(" /quit "), ReplAction::Quit));
    assert!(matches!(read("/tools"), ReplAction::ListTools));
    assert!(matches!(read("/clear"), ReplAction::Clear(s) if s.text == "session cleared"));
    assert!(matches!(read("/help"), ReplAction::Show(s) if s.text.contains("/clear")));
    assert!(matches!(
        read("/nope"),
        ReplAction::Show(s) if s.text == "unknown command: /nope" && s.style == Style::Yellow
    ));
    assert!(matches!(on_read(ReadOutcome::Eof), ReplAction::Quit));
    assert!(matches!(
        on_read(ReadOutcome::Interrupted),
        ReplAction::Show(s) if s.text == "(ctrl-c, /exit to quit)"
    ));
    assert!(matches!(
        on_read(ReadOutcome::Failed("broken".into())),
        ReplAction::Fail(m) if m == "readline error: broken"
    ));
}

#[test]
fn turns_end_with_an_answer_or_an_error() {
    assert!(matches!(end_turn(&Ok("yes".into())), TurnEnd::Answer(a) if a == "yes"));
    match end_turn(&Err(CogentError::MaxIterationsExceeded(7))) {
        TurnEnd::Error { summary_of, notice } => {
            assert_eq!(summary_of, Some(7));
            assert_eq!(
                notice.text,
                "error: max iterations (7) exceeded, engine terminated"
            );
            assert_eq!(notice.style, Style::Red);
        }
        other => panic!("expected an error, got {other:?}"),
    }
    match end_turn(&Err(CogentError::Provider("x".into()))) {
        TurnEnd::Error { summary_of, .. } => assert_eq!(summary_of, None),
        other => panic!("expected an error, got {other:?}"),
    }
    assert_eq!(
        summary_notice("output/summary.md", &Ok(())),
        "(iteration summary written to output/summary.md)"
    );
    assert_eq!(
        summary_notice("output/summary.md", &Err("full".into())),
        "(failed to write summary file: full)"
    );
}

#[test]
fn names_of_types_are_made_of_names_of_functions() {
    assert_eq!(to_pascal_case("file_read"), "FileRead");
    assert_eq!(to_pascal_case("bash"), "Bash");
    assert_eq!(to_pascal_case("http_get"), "HttpGet");
    assert_eq!(to_pascal_case("__a__b"), "AB");
    assert_eq!(to_pascal_case("ßa"), "SSa");
    assert_eq!(capitalized("word", "W"), "Word");
}

/// The schema of a type.
fn schema_for<T: schemars::JsonSchema>() -> String {
    let schema = schemars::SchemaGenerator::default().into_root_schema_for::<T>();
    serde_json::to_value(schema).unwrap().to_string()
}

const ECHO: &str = "/// Echoes a text.\n///   Twice.\n#[allow(dead_code)]\n\
    async fn echo_text(text: String, twice: Option<bool>, (a, b): (u8, u8)) -> R { x }";

#[test]
fn functions_declare_tools() {
    let decl = cogent_tool("", ECHO).unwrap();
    assert_eq!(decl.struct_name, "EchoTextTool");
    assert_eq!(decl.name, "echo_text");
    assert_eq!(decl.description, "Echoes a text.\nTwice.");
    assert_eq!(decl.params.len(), 2);
    assert_eq!(decl.params[0].0, "text");
    assert_eq!(decl.params[1].1, "Option < bool >");
    let schema: serde_json::Value =
        serde_json::from_str(&decl.parameters_schema(&[
            schema_for::<String>(),
            schema_for::<Option<bool>>(),
        ]))
        .unwrap();
    assert_eq!(schema["type"], "object");
    assert_eq!(schema["properties"]["text"]["type"], "string");
    assert_eq!(schema["properties"]["twice"]["type"][1], "null");
    assert_eq!(schema["required"][1], "twice");
}

#[test]
fn attributes_rename_tools() {
    let decl = cogent_tool("name = \"echo\"", ECHO).unwrap();
    assert_eq!(decl.name, "echo");
    assert_eq!(decl.struct_name, "EchoTextTool");
    let last = cogent_tool("name = \"a\", other, name = \"b\"", ECHO).unwrap();
    assert_eq!(last.name, "b");
    let broken = cogent_tool("name = = =", ECHO).unwrap();
    assert_eq!(broken.name, "echo_text");
    assert!(cogent_tool("", "struct S;").is_err());
}

fn echo_tool() -> ToolDef {
    let item = "/// Echoes the input text back.\nasync fn echo(text: String) -> R { x }";
    cogent_tool("", item)
        .unwrap()
        .definition(&[schema_for::<String>()])
}

#[test]
fn test_tool_name_and_description() {
    let tool = echo_tool();
    assert_eq!(tool.name, "echo");
    assert!(!tool.description.is_empty());
}

#[test]
fn test_parameters_schema() {
    let schema: serde_json::Value = serde_json::from_str(&echo_tool().parameters).unwrap();
    assert_eq!(schema["type"], "object");
    assert!(schema["properties"].get("text").is_some());
}

fn meta(path: &str, value: Option<&str>) -> MetaSyntax {
    MetaSyntax {
        path: Some(path.into()),
        value: value.map(|v| v.into()),
    }
}

#[test]
fn declarations_are_made_of_syntax() {
    let attrs = [
        meta("doc", Some(" one")),
        meta("inline", None),
        meta("doc", Some("")),
        meta("doc", Some("   two ")),
    ];
    assert_eq!(extract_description(&attrs), "one\n\ntwo ");
    let params = [
        Some(("self".to_string(), "Self".to_string())),
        None,
        Some(("n".to_string(), "u8".to_string())),
    ];
    let decl = declare_tool(&[meta("name", Some("x"))], &attrs, "f_g", &params);
    assert_eq!(decl.name, "x");
    assert_eq!(decl.struct_name, "FGTool");
    assert_eq!(decl.params, vec![("n".to_string(), "u8".to_string())]);
    let schema: serde_json::Value =
        serde_json::from_str(&decl.parameters_schema(&[schema_for::<u8>()])).unwrap();
    assert_eq!(schema["properties"]["n"]["type"], "integer");
    assert_eq!(schema["required"][0], "n");
    assert_eq!(decl.definition(&[schema_for::<u8>()]).name, "x");
}

#[test]
fn tools_take_the_place_of_functions() {
    let item = "/// Says \"hi\" \\ twice.\nasync fn say_it(n: u32) -> R { let x = n ; x }";
    let source = expand_tool("name = \"say\"", item, "kit::Tool").unwrap();
    let file = syn::parse_str::<syn::File>(&source).unwrap();
    assert_eq!(file.items.len(), 2);
    match (&file.items[0], &file.items[1]) {
        (syn::Item::Struct(s), syn::Item::Impl(i)) => {
            assert_eq!(s.ident.to_string(), "SayItTool");
            assert!(s.fields.is_empty());
            assert_eq!(i.items.len(), 4);
        }
        _ => panic!("expected a type and an impl"),
    }
    assert!(source.contains("impl kit::Tool for SayItTool {"));
    assert!(source.contains("fn name(&self) -> &str {\n\"say\"\n}"));
    assert!(source.contains("\"Says \\\"hi\\\" \\\\ twice.\""));
    assert!(source.contains("schemars::schema_for!(u32)"));
    assert!(source.contains("\"required\": [\"n\".to_string()]"));
    assert!(source.contains("let n: u32 = serde_json::from_value("));
    assert!(source.contains("{ let x = n ; x }"));
    assert!(expand_tool("", "struct S;", "kit::Tool").is_err());
}

fn pair(twice: bool) -> ToolDecl {
    ToolDecl {
        struct_name: "PairTool".into(),
        name: "pair".into(),
        description: "A pair.".into(),
        params: vec![
            ("b".into(), "String".into()),
            (if twice { "b" } else { "a" }.into(), "Option < bool >".into()),
        ],
    }
}

#[test]
fn schemas_list_every_parameter() {
    let schemas = [schema_for::<String>(), schema_for::<Option<bool>>()];
    assert_eq!(
        pair(false).parameters_schema(&schemas),
        "{\"properties\":{\"a\":{\"$schema\":\"http://json-schema.org/draft-07/schema#\",\
\"title\":\"Nullable_Boolean\",\"type\":[\"boolean\",\"null\"]},\"b\":{\"$schema\":\
\"http://json-schema.org/draft-07/schema#\",\"title\":\"String\",\"type\":\"string\"}},\
\"required\":[\"b\",\"a\"],\"type\":\"object\"}"
    );
    let twice: serde_json::Value =
        serde_json::from_str(&pair(true).parameters_schema(&schemas)).unwrap();
    assert_eq!(twice["properties"].as_object().unwrap().len(), 1);
    assert_eq!(twice["properties"]["b"]["title"], "Nullable_Boolean");
}

#[test]
fn arguments_are_read_in_the_order_of_the_parameters() {
    let values = pair(false)
        .decode(vec![
            Ok(ParamValue::Text("x".into())),
            Ok(ParamValue::Flag(Some(true))),
        ])
        .unwrap();
    assert!(matches!(&values[0], ParamValue::Text(s) if s == "x"));
    assert!(matches!(values[1], ParamValue::Flag(Some(true))));
    let err = pair(false)
        .decode::<String>(vec![Err("why".into()), Err("why not".into())])
        .unwrap_err();
    assert_eq!(
        err,
        "tool 'pair': failed to deserialize parameter 'b': why"
    );
}

#[test]
fn missing_arguments_count_as_null() {
    match tool_request("edit", "{\"path\":\"p\",\"old_string\":\"a\",\"new_string\":\"b\"}") {
        Some(Ok(ToolRequest::Edit { replace_all, .. })) => assert!(!replace_all),
        other => panic!("expected a request, got {other:?}"),
    }
    let missing = tool_request("bash", "{}").unwrap().unwrap_err();
    let null = tool_request("bash", "{\"command\":null}").unwrap().unwrap_err();
    assert_eq!(missing, null);
    assert_eq!(
        missing,
        "tool 'bash': failed to deserialize parameter 'command': \
         invalid type: null, expected a string"
    );
}

#[test]
fn built_in_tools_come_in_their_order() {
    let names: Vec<String> = build_tools().into_iter().map(|t| t.name).collect();
    assert_eq!(
        names,
        vec!["bash", "file_read", "file_write", "edit", "http_get", "skill"]
    );
    let structs: Vec<String> = builtin_decls().into_iter().map(|d| d.struct_name).collect();
    assert_eq!(structs[1], "FileReadTool");
    for (decl, tool) in builtin_decls().into_iter().zip(build_tools()) {
        assert_eq!(decl.struct_name, to_pascal_case(&decl.name) + "Tool");
        assert_eq!(decl.description, tool.description);
    }
}

#[test]
fn calls_become_requests() {
    assert!(tool_request("nope", "{}").is_none());
    assert!(matches!(
        tool_request("bash", "{\"command\":\"ls\"}"),
        Some(Ok(ToolRequest::Bash { command })) if command == "ls"
    ));
    assert!(matches!(
        tool_request("file_write", "{\"content\":\"x\",\"path\":\"p\"}"),
        Some(Ok(ToolRequest::FileWrite { path, content })) if path == "p" && content == "x"
    ));
    assert!(matches!(
        tool_request(
            "edit",
            "{\"path\":\"p\",\"old_string\":\"a\",\"new_string\":\"b\"}"
        ),
        Some(Ok(ToolRequest::Edit { replace_all: false, .. }))
    ));
    assert!(matches!(
        tool_request(
            "edit",
            "{\"path\":\"p\",\"old_string\":\"a\",\"new_string\":\"b\",\"replace_all\":true}"
        ),
        Some(Ok(ToolRequest::Edit { replace_all: true, .. }))
    ));
    assert!(matches!(
        tool_request("file_read", "{\"path\":null}"),
        Some(Err(_))
    ));
}

#[test]
fn errors_end_tasks_but_no_sessions() {
    let failed: Result<String, CogentError> = Err(CogentError::EmptyResponse(2));
    let answered: Result<String, CogentError> = Ok("done".into());
    assert!(matches!(after_turn(true, &failed), AfterTurn::GoOn));
    assert!(matches!(after_turn(true, &answered), AfterTurn::GoOn));
    assert!(matches!(after_turn(false, &answered), AfterTurn::Leave));
    match after_turn(false, &failed) {
        AfterTurn::Fail(m) => assert_eq!(m, CogentError::EmptyResponse(2).to_string()),
        other => panic!("expected a failure, got {other:?}"),
    }
}
