//! The skills, the command that loads them, and the prompt that speaks of them.
use cogent::bash::{plan_bash, try_handle_cog_skill, BashPlan};
use cogent::builtin::{tool_request, ToolRequest};
use cogent::config::Config;
use cogent::factory::{
    build_engine, build_provider, resolve_system_prompt, DEFAULT_SYSTEM_PROMPT,
};
use cogent::skills::{
    get_routing_table, get_skill, list_names, list_skills, render_skill, SkillBody, SkillEntry,
    Skills,
};
use cogent::state::AgentState;

/// The title of a skill: its name in words with capitals.
fn title(name: &str) -> String {
    match name {
        "test-driven-development" => "Test-Driven Development".into(),
        "spec-driven-development" => "Spec-Driven Development".into(),
        _ => name
            .split('-')
            .map(|w| {
                let mut c = w.chars();
                let first: String = c.next().unwrap().to_uppercase().collect();
                first + c.as_str()
            })
            .collect::<Vec<String>>()
            .join(" "),
    }
}

fn body(name: &str) -> SkillBody {
    let mut content = format!("---\nname: {name}\n---\n\n# {}\n\n", title(name));
    content.push_str(&"Take one step after the other.\n".repeat(40));
    if name == "using-agent-skills" {
        content.push_str("## Skill Discovery\n\n");
        content.push_str("## Core Operating Behaviors\n\n");
        content.push_str("## Lifecycle Sequence\n\n## Quick Reference\n\n");
        for n in list_names() {
            content.push_str(&format!("- {n}\n"));
        }
    }
    let auxiliary = match name {
        "idea-refine" => vec!["# Frameworks".into(), "# Examples".into(), "# Criteria".into()],
        "constraint-driven-development" => vec!["# Floor guard".into()],
        _ => Vec::new(),
    };
    SkillBody { content, auxiliary }
}

fn skills() -> Skills {
    Skills::new(list_names().into_iter().map(body).collect()).unwrap()
}

fn entries(skills: &Skills) -> Vec<&SkillEntry> {
    list_names()
        .into_iter()
        .map(|n| get_skill(skills, n).unwrap())
        .collect()
}

#[test]
fn test_get_skill_hit() {
    let skills = skills();
    let entry = get_skill(&skills, "test-driven-development").expect("TDD skill should exist");
    assert_eq!(entry.meta.name, "test-driven-development");
    assert_eq!(entry.meta.phase, "Verify");
    assert!(!entry.content.is_empty());
    assert!(entry.content.contains("Test-Driven Development"));
}

#[test]
fn test_get_skill_miss() {
    let skills = skills();
    assert!(get_skill(&skills, "nonexistent-skill").is_none());
    assert!(get_skill(&skills, "").is_none());
}

#[test]
fn test_list_skills_count() {
    assert_eq!(list_skills().len(), 25);
}

#[test]
fn test_list_skills_unique_names() {
    let skills = list_skills();
    let mut names: Vec<&str> = skills.iter().map(|s| s.name).collect();
    let count = names.len();
    names.sort_unstable();
    names.dedup();
    assert_eq!(names.len(), count, "skill names must be unique");
    assert!(names.iter().all(|n| !n.is_empty()));
}

#[test]
fn test_get_routing_table() {
    let skills = skills();
    let table = get_routing_table(&skills);
    assert!(!table.is_empty());
    assert!(table.contains("Quick Reference"));
    assert!(table.contains("test-driven-development"));
    assert!(table.contains("Skill Discovery"));
    assert!(table.contains("Core Operating Behaviors"));
    assert!(table.contains("Lifecycle Sequence"));
}

#[test]
fn test_render_skill_hit_no_aux() {
    let skills = skills();
    let out = render_skill(&skills, "test-driven-development").unwrap();
    assert!(out.contains("Test-Driven Development"));
    assert!(!out.contains("\n\n---\n\n"));
}

#[test]
fn test_render_skill_hit_with_aux() {
    let skills = skills();
    let out = render_skill(&skills, "idea-refine").unwrap();
    assert!(out.contains("Idea Refine"));
    assert!(out.matches("\n\n---\n\n").count() >= 3);
}

#[test]
fn test_render_skill_miss() {
    let skills = skills();
    let err = render_skill(&skills, "nonexistent").unwrap_err();
    assert!(err.contains("unknown skill"));
    assert!(err.contains("test-driven-development"));
}

#[test]
fn test_idea_refine_auxiliary() {
    let skills = skills();
    let entry = get_skill(&skills, "idea-refine").expect("idea-refine should exist");
    assert_eq!(entry.auxiliary.len(), 3);
    assert!(entry.auxiliary.iter().all(|a| !a.is_empty()));
}

#[test]
fn test_constraint_auxiliary() {
    let skills = skills();
    let entry = get_skill(&skills, "constraint-driven-development").expect("should exist");
    assert_eq!(entry.auxiliary.len(), 1);
    assert!(!entry.auxiliary[0].is_empty());
}

#[test]
fn test_no_auxiliary() {
    let skills = skills();
    let entry = get_skill(&skills, "spec-driven-development").expect("should exist");
    assert!(entry.auxiliary.is_empty());
}

#[test]
fn test_all_skills_content_nonempty() {
    let skills = skills();
    for entry in entries(&skills).iter() {
        assert!(
            !entry.content.is_empty(),
            "skill '{}' content is empty",
            entry.meta.name
        );
        assert!(
            !entry.meta.description.is_empty(),
            "skill '{}' description is empty",
            entry.meta.name
        );
    }
}

#[test]
fn test_all_phases_valid() {
    let skills = skills();
    let valid = [
        "Define", "Plan", "Build", "Verify", "Review", "Ship", "Meta",
    ];
    for entry in entries(&skills).iter() {
        assert!(
            valid.contains(&entry.meta.phase),
            "skill '{}' has invalid phase '{}'",
            entry.meta.name,
            entry.meta.phase
        );
    }
}

#[test]
fn test_registry_has_25_skills() {
    let skills = skills();
    assert_eq!(entries(&skills).len(), 25);
}

#[test]
fn test_all_names_queryable() {
    let skills = skills();
    let names = list_names();
    assert_eq!(names.len(), 25);
    for name in &names {
        assert!(get_skill(&skills, name).is_some(), "skill '{name}' not queryable");
    }
}

#[test]
fn test_all_content_has_title() {
    let skills = skills();
    for entry in entries(&skills).iter() {
        assert!(
            entry.content.starts_with("---") || entry.content.starts_with('#'),
            "skill '{}' content should start with frontmatter or title",
            entry.meta.name
        );
    }
}

#[test]
fn test_routing_table_mentions_all_skills() {
    let skills = skills();
    let table = get_routing_table(&skills);
    for name in list_names() {
        assert!(table.contains(name), "routing table missing skill '{name}'");
    }
}

#[test]
fn test_phase_distribution() {
    let skills = list_skills();
    let count = |phase: &str| skills.iter().filter(|s| s.phase == phase).count();
    assert_eq!(count("Define"), 3);
    assert_eq!(count("Plan"), 1);
    assert_eq!(count("Build"), 6);
    assert_eq!(count("Verify"), 3);
    assert_eq!(count("Review"), 4);
    assert_eq!(count("Ship"), 6);
    assert_eq!(count("Meta"), 2);
}

#[test]
fn test_auxiliary_total() {
    let skills = skills();
    let total: usize = entries(&skills).iter().map(|s| s.auxiliary.len()).sum();
    assert_eq!(total, 4);
}

#[test]
fn test_cog_skill_hit() {
    let result = try_handle_cog_skill(&skills(), "cog-skill test-driven-development").unwrap();
    let v: serde_json::Value = serde_json::from_str(&result).unwrap();
    assert_eq!(v["exit_code"], 0);
    assert!(
        v["stdout"]
            .as_str()
            .unwrap()
            .contains("Test-Driven Development")
    );
    assert!(v["stderr"].as_str().unwrap().is_empty());
}

#[test]
fn test_cog_skill_with_auxiliary() {
    let result = try_handle_cog_skill(&skills(), "cog-skill idea-refine").unwrap();
    let v: serde_json::Value = serde_json::from_str(&result).unwrap();
    let stdout = v["stdout"].as_str().unwrap();
    assert!(stdout.contains("Idea Refine"));
    assert!(stdout.contains("\n\n---\n\n"));
}

#[test]
fn test_cog_skill_unknown() {
    let result = try_handle_cog_skill(&skills(), "cog-skill nonexistent-skill").unwrap();
    let v: serde_json::Value = serde_json::from_str(&result).unwrap();
    assert_eq!(v["exit_code"], 1);
    assert!(v["stderr"].as_str().unwrap().contains("unknown skill"));
    assert!(
        v["stderr"]
            .as_str()
            .unwrap()
            .contains("test-driven-development")
    );
}

#[test]
fn test_cog_skill_no_name() {
    let result = try_handle_cog_skill(&skills(), "cog-skill").unwrap();
    let v: serde_json::Value = serde_json::from_str(&result).unwrap();
    assert_eq!(v["exit_code"], 1);
    assert!(v["stderr"].as_str().unwrap().contains("unknown skill"));
}

#[test]
fn test_cog_skill_non_matching() {
    assert!(try_handle_cog_skill(&skills(), "echo hello").is_none());
    assert!(try_handle_cog_skill(&skills(), "cog-skillx foo").is_none());
    assert!(try_handle_cog_skill(&skills(), "").is_none());
    assert!(try_handle_cog_skill(&skills(), "  ").is_none());
}

#[test]
fn test_cog_skill_leading_whitespace() {
    let result = try_handle_cog_skill(&skills(), "   cog-skill spec-driven-development").unwrap();
    let v: serde_json::Value = serde_json::from_str(&result).unwrap();
    assert_eq!(v["exit_code"], 0);
    assert!(
        v["stdout"]
            .as_str()
            .unwrap()
            .contains("Spec-Driven Development")
    );
}

#[test]
fn test_cog_skill_chained_command() {
    let result = try_handle_cog_skill(&skills(), "cd /x && cog-skill test-driven-development").unwrap();
    let v: serde_json::Value = serde_json::from_str(&result).unwrap();
    assert_eq!(v["exit_code"], 0);
    assert!(
        v["stdout"]
            .as_str()
            .unwrap()
            .contains("Test-Driven Development")
    );
}

#[test]
fn test_cog_skill_mid_chain() {
    let result = try_handle_cog_skill(&skills(), "echo hi; cog-skill idea-refine").unwrap();
    let v: serde_json::Value = serde_json::from_str(&result).unwrap();
    assert_eq!(v["exit_code"], 0);
    assert!(v["stdout"].as_str().unwrap().contains("Idea Refine"));
}

/// What the tool `skill` hands back.
fn skill(args: &str) -> Result<String, String> {
    match tool_request("skill", args) {
        Some(Ok(ToolRequest::Skill { name })) => render_skill(&skills(), &name),
        Some(Err(e)) => Err(e),
        other => panic!("expected a request for a skill, got {other:?}"),
    }
}

#[test]
fn test_skill_returns_content() {
    let result = skill("{\"name\":\"test-driven-development\"}")
        .unwrap();
    assert!(result.contains("Test-Driven Development"));
    assert!(result.len() > 1000);
}

#[test]
fn test_skill_with_auxiliary() {
    let result = skill("{\"name\":\"idea-refine\"}")
        .unwrap();
    assert!(result.contains("Idea Refine"));
    assert!(result.contains("\n\n---\n\n"));
    let sep_count = result.matches("\n\n---\n\n").count();
    assert!(sep_count >= 3, "expected >= 3 separators, got {sep_count}");
}

#[test]
fn test_skill_unknown_name() {
    let result = skill("{\"name\":\"nonexistent-skill\"}");
    assert!(result.is_err());
    let err = result.unwrap_err();
    assert!(err.contains("unknown skill"));
    assert!(err.contains("test-driven-development"));
    assert!(err.contains("spec-driven-development"));
}

#[test]
fn test_skill_empty_name() {
    let result = skill("{\"name\":\"\"}");
    assert!(result.is_err());
}

#[test]
fn test_skill_no_auxiliary() {
    let result = skill("{\"name\":\"spec-driven-development\"}")
        .unwrap();
    assert!(!result.ends_with("\n\n---\n\n"));
}

#[test]
fn arguments_of_other_types_are_refused() {
    let err = skill("{\"name\":7}").unwrap_err();
    assert!(err.starts_with("tool 'skill': failed to deserialize parameter 'name': "), "{err}");
    let err = skill("{}").unwrap_err();
    assert!(err.starts_with("tool 'skill': failed to deserialize parameter 'name': "), "{err}");
}

#[test]
fn texts_that_do_not_fit_the_catalogue_are_refused() {
    let mut bodies: Vec<SkillBody> = list_names().into_iter().map(body).collect();
    bodies.pop();
    assert!(Skills::new(bodies).is_none());
    let mut bodies: Vec<SkillBody> = list_names().into_iter().map(body).collect();
    bodies[0].auxiliary.push("more".into());
    assert!(Skills::new(bodies).is_none());
    let mut bodies: Vec<SkillBody> = list_names().into_iter().map(body).collect();
    bodies[23].content = "# Using Agent Skills\n".into();
    assert!(Skills::new(bodies).is_none());
}

#[test]
fn commands_that_ask_for_a_skill_are_answered_without_a_shell() {
    let dir = Ok("/work".to_string());
    match plan_bash(&skills(), "cog-skill idea-refine", &dir, &None) {
        BashPlan::Reply(s) => assert!(s.contains("Idea Refine")),
        other => panic!("expected an answer, got {other:?}"),
    }
    match plan_bash(&skills(), "ls", &dir, &Some("7".into())) {
        BashPlan::Run(seconds) => assert_eq!(seconds, 7),
        other => panic!("expected a run, got {other:?}"),
    }
    match plan_bash(&skills(), "ls", &Err("gone".into()), &None) {
        BashPlan::Fail(m) => {
            assert_eq!(m, "failed to get current working directory: gone")
        }
        other => panic!("expected a failure, got {other:?}"),
    }
}

fn test_config() -> Config {
    Config {
        provider: "openai".into(),
        model: "gpt-4o-mini".into(),
        api_key: Some("sk-test".into()),
        base_url: None,
        max_iterations: 5,
        max_context_tokens: 1000,
        event_bus_capacity: 64,
        otel_endpoint: None,
        auto_approve: true,
        java_check: false,
    }
}

#[test]
fn test_build_engine() {
    let assembly = build_engine(&test_config(), None, &skills()).ok().unwrap();
    assert_eq!(assembly.engine.state(), AgentState::Idle);
    assert_eq!(assembly.engine.max_iterations(), 5);
    assert_eq!(
        assembly.engine.tools(),
        ["bash", "file_read", "file_write", "edit", "http_get", "skill"]
    );
    assert_eq!(assembly.provider.model(), "gpt-4o-mini");
    assert!(assembly.memory.has_system());
    assert_eq!(assembly.memory.max_tokens(), 1000);
}

#[test]
fn test_build_engine_custom_prompt() {
    let assembly = build_engine(&test_config(), Some("custom prompt".into()), &skills())
        .ok()
        .unwrap();
    assert_eq!(assembly.engine.state(), AgentState::Idle);
    let context = assembly.memory.get_context(100_000).unwrap();
    assert!(context[0].content.starts_with("custom prompt\n\n"));
}

#[test]
fn test_build_engine_missing_api_key() {
    let mut config = test_config();
    config.api_key = None;
    assert!(build_engine(&config, None, &skills()).is_err());
}

#[test]
fn providers_that_cannot_be_made_are_told() {
    let mut config = test_config();
    config.api_key = None;
    assert_eq!(
        build_provider(&config).err().unwrap(),
        "API key is required for OpenAI provider"
    );
    config.api_key = Some(String::new());
    assert_eq!(
        build_provider(&config).err().unwrap(),
        "failed to create OpenAI provider: OpenAI API key must not be empty"
    );
    config.provider = "other".into();
    assert_eq!(
        build_provider(&config).err().unwrap(),
        "unknown provider: other"
    );
}

#[test]
fn test_resolve_system_prompt() {
    let prompt = resolve_system_prompt(None, &skills());
    assert!(prompt.starts_with(DEFAULT_SYSTEM_PROMPT));
    assert!(prompt.contains("Using Agent Skills"));
    assert!(prompt.contains("Quick Reference"));
    assert!(prompt.contains("test-driven-development"));
    assert!(prompt.contains("MANDATORY SKILL WORKFLOW"));
    assert!(prompt.contains("cog-skill"));
}

#[test]
fn test_resolve_system_prompt_custom_kept() {
    let prompt = resolve_system_prompt(Some("custom base".into()), &skills());
    assert!(prompt.starts_with("custom base"));
    assert!(prompt.contains("Using Agent Skills"));
    assert!(prompt.contains("MANDATORY SKILL WORKFLOW"));
}
