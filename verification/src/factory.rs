//! The assembly of the agent from its configuration.
use crate::builtin::{self, build_tools};
use crate::config::{Config, ConfigView};
use crate::engine::AgentEngine;
use crate::http;
use crate::memory::{self, CharBasedEstimator, WindowMemory};
use crate::middleware::{self, SafetyGuardMiddleware, TokenLimiterMiddleware, TracingMiddleware};
use crate::openai::{self, OpenAIProvider, ToolDef, ToolDefView};
use crate::retry::RetryMiddleware;
use crate::skills::{get_routing_table, Skills};
use crate::state::AgentState;
use crate::text::{self, copy_str, str_eq};
use crate::tool::ToolDeclView;
use crate::types::{self, copy_opt, Message, MessageView, Role};
use std::sync::Arc;
use vstd::prelude::*;

verus! {

/// What the model is told of itself, unless the user says otherwise.
pub const DEFAULT_SYSTEM_PROMPT: &'static str = "You are Cogent, a helpful AI agent. You can use tools to accomplish tasks. Think step by step, call tools when needed, and provide a clear final answer.";

/// What the model is told of the skills: to load the one that fits before it
/// begins, and to follow it.
pub const COG_SKILL_HINT: &'static str = "MANDATORY SKILL WORKFLOW — you MUST follow this for any non-trivial task:\n1. From the 'Using Agent Skills' decision tree above, identify which skill(s) apply to the current task.\n2. Load the FULL skill content by running the command: cog-skill <name> (e.g. `cog-skill test-driven-development`). This returns the complete step-by-step workflow. Do NOT guess the steps — load the skill first.\n3. Follow the loaded skill's steps IN ORDER. Do not skip verification steps. A task is not complete until its verification passes with evidence.\nMultiple skills may apply in sequence (e.g. spec-driven-development → planning-and-task-breakdown → incremental-implementation → test-driven-development → code-review-and-quality). Load each as you reach it. For a trivial one-line fix you may skip the skill, but state why.";

/// The system prompt: what the user gives or the default, the routing table of
/// the skills, and the hint at them, with blank lines in between.
pub open spec fn system_prompt(given: Option<Seq<char>>, routing: Seq<char>) -> Seq<char> {
    (match given {
        Some(p) => p,
        None => DEFAULT_SYSTEM_PROMPT@,
    }) + "\n\n"@ + routing + "\n\n"@ + COG_SKILL_HINT@
}

/// The system prompt: what the user gives or the default, the routing table of
/// the skills, and the hint at them, with blank lines in between.
pub fn resolve_system_prompt(given: Option<String>, skills: &Skills) -> (r: String)
    requires
        skills.wf(),
    ensures
        r@ == system_prompt(types::opt_view(given), skills.routing_table()),
{
    let mut prompt = match given {
        Some(p) => p,
        None => copy_str(DEFAULT_SYSTEM_PROMPT),
    };
    prompt.append("\n\n");
    prompt.append(get_routing_table(skills));
    prompt.append("\n\n");
    prompt.append(COG_SKILL_HINT);
    prompt
}

/// Why no provider can be made from a configuration.
pub open spec fn provider_problem(config: ConfigView) -> Option<Seq<char>> {
    if config.provider != "openai"@ {
        Some("unknown provider: "@ + config.provider)
    } else {
        match config.api_key {
            None => Some("API key is required for OpenAI provider"@),
            Some(key) => {
                let endpoint = openai::endpoint(config.base_url);
                match openai::settings_problem(key, endpoint, http::parsed_url(endpoint)) {
                    Some(p) => Some("failed to create OpenAI provider: "@ + p),
                    None => None,
                }
            },
        }
    }
}

/// The provider that a configuration asks for, or why there is none.
pub fn build_provider(config: &Config) -> (r: Result<OpenAIProvider, String>)
    ensures
        match provider_problem(config@) {
            Some(p) => r matches Err(m) && m@ == p,
            None => r matches Ok(p) && Some(p.key()) == config@.api_key && p.model_name()
                == config@.model && p.endpoint() == openai::endpoint(config@.base_url),
        },
{
    if !str_eq(&config.provider, "openai") {
        let mut m = copy_str("unknown provider: ");
        m.append(&config.provider);
        return Err(m);
    }
    let key = match copy_opt(&config.api_key) {
        Some(k) => k,
        None => {
            return Err(copy_str("API key is required for OpenAI provider"));
        },
    };
    match OpenAIProvider::new(key, copy_str(&config.model), copy_opt(&config.base_url)) {
        Ok(p) => Ok(p),
        Err(e) => {
            let mut m = copy_str("failed to create OpenAI provider: ");
            m.append(&e);
            Err(m)
        },
    }
}

/// The agent and everything that it works with.
pub struct Assembly {
    /// The model.
    pub provider: OpenAIProvider,
    /// How often calls of the model are repeated.
    pub retry: RetryMiddleware,
    /// The tools.
    pub tools: Vec<ToolDef>,
    /// The memory, which holds the system prompt.
    pub memory: WindowMemory<CharBasedEstimator>,
    /// The first middleware, which only watches.
    pub tracing: TracingMiddleware,
    /// The second middleware, which stops harmful commands.
    pub guard: SafetyGuardMiddleware,
    /// The third middleware, which stops contexts that are too large.
    pub limiter: TokenLimiterMiddleware<CharBasedEstimator>,
    /// The agent.
    pub engine: AgentEngine,
}

/// The tools as the model gets to know them.
pub open spec fn tool_definitions() -> Seq<ToolDefView> {
    builtin::builtin_tools().map_values(|d: ToolDeclView| builtin::definition_of(d))
}

impl Assembly {
    /// What an agent with a configuration and a system prompt is made of: the
    /// provider of the configuration, with three repetitions; the built-in
    /// tools; an empty memory with the system prompt and the budget of the
    /// configuration; the default policy of safety; a limit of the same budget;
    /// and an idle engine with the limit of iterations of the configuration.
    pub open spec fn is_built_from(&self, config: ConfigView, prompt: Seq<char>) -> bool {
        &&& Some(self.provider.key()) == config.api_key
        &&& self.provider.model_name() == config.model
        &&& self.provider.endpoint() == openai::endpoint(config.base_url)
        &&& self.retry.limit() == 3
        &&& openai::tool_defs_view(self.tools@) == tool_definitions()
        &&& self.memory.history() == Seq::<MessageView>::empty()
        &&& self.memory.system() == Some(MessageView::plain(Role::System, prompt))
        &&& self.memory.budget() == config.max_context_tokens
        &&& self.memory.model() == memory::char_model()
        &&& self.guard.blocked() == Seq::<Seq<char>>::empty()
        &&& self.guard.patterns() == middleware::destructive_patterns()
        &&& self.limiter.limit() == config.max_context_tokens
        &&& self.limiter.model() == memory::char_model()
        &&& self.engine@.wf()
        &&& self.engine@.state == AgentState::Idle
        &&& self.engine@.max_iterations == config.max_iterations
        &&& self.engine@.history.len() == 0
        &&& self.engine@.tools == tool_definitions().map_values(|t: ToolDefView| t.name)
    }
}

/// The names of the tools.
fn tool_names(tools: &[ToolDef]) -> (r: Vec<String>)
    ensures
        text::views(r@) == openai::tool_defs_view(tools@).map_values(|t: ToolDefView| t.name),
{
    let mut names: Vec<String> = Vec::new();
    let mut i: usize = 0;
    while i < tools.len()
        invariant
            i <= tools@.len(),
            names@.len() == i,
            forall|k: int| 0 <= k < i ==> (#[trigger] names@[k])@ == tools@[k]@.name,
        decreases tools@.len() - i,
    {
        names.push(copy_str(&tools[i].name));
        i += 1;
    }
    assert(text::views(names@) =~= openai::tool_defs_view(tools@).map_values(
        |t: ToolDefView| t.name,
    ));
    names
}

/// The agent that a configuration asks for, or why there is none.
pub fn build_engine(config: &Config, system_prompt: Option<String>, skills: &Skills) -> (r: Result<
    Assembly,
    String,
>)
    requires
        skills.wf(),
    ensures
        match provider_problem(config@) {
            Some(p) => r matches Err(m) && m@ == p,
            None => r matches Ok(a) && a.is_built_from(
                config@,
                self::system_prompt(types::opt_view(system_prompt), skills.routing_table()),
            ),
        },
{
    let provider = match build_provider(config) {
        Ok(p) => p,
        Err(m) => {
            return Err(m);
        },
    };
    let retry = RetryMiddleware::with_default_retries();
    let tools = build_tools();
    let mut memory = WindowMemory::with_default_estimator(config.max_context_tokens);
    let prompt = resolve_system_prompt(system_prompt, skills);
    memory.set_system(Message::new(Role::System, prompt));
    let guard = SafetyGuardMiddleware::with_default_policy();
    let limiter = TokenLimiterMiddleware::new(
        config.max_context_tokens,
        Arc::new(CharBasedEstimator),
    );
    assert(limiter.model() =~= memory::char_model());
    let names = tool_names(&tools);
    let engine = AgentEngine::new(&names, config.max_iterations);
    Ok(Assembly { provider, retry, tools, memory, tracing: TracingMiddleware, guard, limiter, engine })
}

/// The system prompt leaves nothing out: it begins with what the user gives, or
/// else with the default, and holds the routing table of the skills and the hint
/// at them.
pub proof fn law_the_prompt_leaves_nothing_out(given: Option<Seq<char>>, routing: Seq<char>)
    ensures
        given matches Some(p) ==> p.is_prefix_of(system_prompt(given, routing)),
        given is None ==> DEFAULT_SYSTEM_PROMPT@.is_prefix_of(system_prompt(given, routing)),
        text::holds(system_prompt(given, routing), routing),
        text::holds(system_prompt(given, routing), COG_SKILL_HINT@),
        system_prompt(given, routing).len() == (match given {
            Some(p) => p.len(),
            None => DEFAULT_SYSTEM_PROMPT@.len(),
        }) + routing.len() + COG_SKILL_HINT@.len() + 4,
{
    reveal_strlit("\n\n");
    let gap = "\n\n"@;
    let head = match given {
        Some(p) => p,
        None => DEFAULT_SYSTEM_PROMPT@,
    };
    let hint = COG_SKILL_HINT@;
    let s = system_prompt(given, routing);
    assert(head =~= s.subrange(0, head.len() as int));
    assert(s =~= (head + gap) + routing + (gap + hint));
    assert(s =~= (head + gap + routing + gap) + hint + Seq::<char>::empty());
}

/// The agent has all of its tools: those that run commands, read, write and edit
/// files, fetch pages and load skills, each under its own name.
pub proof fn law_the_agent_has_its_tools()
    ensures
        ({
            let t = tool_definitions();
            &&& t.len() == 6
            &&& t[0].name == "bash"@
            &&& t[1].name == "file_read"@
            &&& t[2].name == "file_write"@
            &&& t[3].name == "edit"@
            &&& t[4].name == "http_get"@
            &&& t[5].name == "skill"@
        }),
{
}

/// A provider is made where the configuration names OpenAI, holds a key and has an
/// endpoint that is a URL, and only there.
pub proof fn law_which_configurations_have_a_provider(config: ConfigView)
    ensures
        provider_problem(config) is None <==> {
            &&& config.provider == "openai"@
            &&& config.api_key matches Some(key) && key.len() > 0
            &&& http::parsed_url(openai::endpoint(config.base_url)) is Ok
        },
{
}

/// A provider that there is not is named in the error.
pub proof fn law_unknown_providers_are_named(config: ConfigView)
    requires
        config.provider != "openai"@,
    ensures
        provider_problem(config) matches Some(m) && config.provider.is_suffix_of(m),
{
    let m = "unknown provider: "@ + config.provider;
    assert(m.subrange(m.len() - config.provider.len(), m.len() as int) =~= config.provider);
}

/// A new agent remembers nothing, forbids no tool by name, refuses the listed harmful
/// commands, and counts by the same measure when it chooses and when it limits what
/// the model is shown.
pub proof fn law_new_agents_begin_afresh(a: Assembly, config: ConfigView, prompt: Seq<char>)
    requires
        a.is_built_from(config, prompt),
    ensures
        a.memory.history().len() == 0,
        a.engine@.history.len() == 0,
        a.guard.blocked().len() == 0,
        a.guard.patterns() == middleware::destructive_patterns(),
        a.memory.model() == a.limiter.model(),
        a.memory.budget() == a.limiter.limit(),
        a.memory.system() matches Some(m) && m.role == Role::System && m.content == prompt,
        a.engine@.tools.len() == a.tools@.len(),
{
}

} // verus!
