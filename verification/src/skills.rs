//! The engineering skills: a fixed catalogue, and the texts that go with it.
use crate::text::{self, contains_str, copy_str, str_eq};
use vstd::prelude::*;

verus! {

/// Name, phase and purpose of a skill.
#[derive(Debug, Clone, Copy, PartialEq, Eq)]
pub struct SkillMeta {
    /// The name by which the skill is asked for.
    pub name: &'static str,
    /// The phase of the life cycle.
    pub phase: &'static str,
    /// What the skill is for, in one sentence.
    pub description: &'static str,
}

/// What the description of a skill says.
#[verifier::ext_equal]
pub struct MetaView {
    pub name: Seq<char>,
    pub phase: Seq<char>,
    pub description: Seq<char>,
}

impl View for SkillMeta {
    type V = MetaView;

    open spec fn view(&self) -> MetaView {
        MetaView { name: self.name@, phase: self.phase@, description: self.description@ }
    }
}

/// What a list of descriptions says.
pub open spec fn metas_view(v: Seq<SkillMeta>) -> Seq<MetaView> {
    v.map_values(|m: SkillMeta| m@)
}

/// The text of a skill.
#[derive(Debug)]
pub struct SkillBody {
    /// The main text.
    pub content: String,
    /// The texts that go with it.
    pub auxiliary: Vec<String>,
}

/// A skill with its text.
#[derive(Debug)]
pub struct SkillEntry {
    /// Its description.
    pub meta: SkillMeta,
    /// The main text.
    pub content: String,
    /// The texts that go with it.
    pub auxiliary: Vec<String>,
}

/// What a skill says.
#[verifier::ext_equal]
pub struct EntryView {
    pub meta: MetaView,
    pub content: Seq<char>,
    pub auxiliary: Seq<Seq<char>>,
}

impl View for SkillEntry {
    type V = EntryView;

    open spec fn view(&self) -> EntryView {
        EntryView {
            meta: self.meta@,
            content: self.content@,
            auxiliary: text::views(self.auxiliary@),
        }
    }
}

/// The catalogue of the skills, in the order of the life cycle.
pub open spec fn catalogue() -> Seq<MetaView> {
    seq![
        MetaView {
            name: "interview-me"@,
            phase: "Define"@,
            description: "Surface what the user actually wants before any plan, spec, or code exists"@,
        },
        MetaView {
            name: "idea-refine"@,
            phase: "Define"@,
            description: "Refine ideas through structured divergent and convergent thinking"@,
        },
        MetaView {
            name: "spec-driven-development"@,
            phase: "Define"@,
            description: "Requirements and acceptance criteria before code"@,
        },
        MetaView {
            name: "planning-and-task-breakdown"@,
            phase: "Plan"@,
            description: "Decompose into small, verifiable tasks"@,
        },
        MetaView {
            name: "incremental-implementation"@,
            phase: "Build"@,
            description: "Thin vertical slices, test each before expanding"@,
        },
        MetaView {
            name: "source-driven-development"@,
            phase: "Build"@,
            description: "Verify against official docs before implementing"@,
        },
        MetaView {
            name: "doubt-driven-development"@,
            phase: "Build"@,
            description: "Adversarial fresh-context review of every non-trivial decision"@,
        },
        MetaView {
            name: "context-engineering"@,
            phase: "Build"@,
            description: "Right context at the right time"@,
        },
        MetaView {
            name: "frontend-ui-engineering"@,
            phase: "Build"@,
            description: "Production-quality UI with accessibility"@,
        },
        MetaView {
            name: "api-and-interface-design"@,
            phase: "Build"@,
            description: "Stable interfaces with clear contracts"@,
        },
        MetaView {
            name: "test-driven-development"@,
            phase: "Verify"@,
            description: "Failing test first, then make it pass"@,
        },
        MetaView {
            name: "browser-testing-with-devtools"@,
            phase: "Verify"@,
            description: "Chrome DevTools MCP for runtime verification"@,
        },
        MetaView {
            name: "debugging-and-error-recovery"@,
            phase: "Verify"@,
            description: "Reproduce, localize, fix, guard"@,
        },
        MetaView {
            name: "code-review-and-quality"@,
            phase: "Review"@,
            description: "Five-axis review with quality gates"@,
        },
        MetaView {
            name: "code-simplification"@,
            phase: "Review"@,
            description: "Preserve behavior while reducing unnecessary complexity"@,
        },
        MetaView {
            name: "security-and-hardening"@,
            phase: "Review"@,
            description: "OWASP prevention, input validation, least privilege"@,
        },
        MetaView {
            name: "performance-optimization"@,
            phase: "Review"@,
            description: "Measure first, optimize only what matters"@,
        },
        MetaView {
            name: "git-workflow-and-versioning"@,
            phase: "Ship"@,
            description: "Atomic commits, clean history"@,
        },
        MetaView {
            name: "ci-cd-and-automation"@,
            phase: "Ship"@,
            description: "Automated quality gates on every change"@,
        },
        MetaView {
            name: "deprecation-and-migration"@,
            phase: "Ship"@,
            description: "Remove old systems and migrate users safely"@,
        },
        MetaView {
            name: "documentation-and-adrs"@,
            phase: "Ship"@,
            description: "Document the why, not just the what"@,
        },
        MetaView {
            name: "observability-and-instrumentation"@,
            phase: "Ship"@,
            description: "Structured logs, RED metrics, traces, symptom-based alerts"@,
        },
        MetaView {
            name: "shipping-and-launch"@,
            phase: "Ship"@,
            description: "Pre-launch checklist, monitoring, rollback plan"@,
        },
        MetaView {
            name: "using-agent-skills"@,
            phase: "Meta"@,
            description: "Discovers and invokes agent skills (meta-skill governing all others)"@,
        },
        MetaView {
            name: "constraint-driven-development"@,
            phase: "Meta"@,
            description: "Establish a project quality bar as a written contract"@,
        },
    ]
}

/// Appends a description.
fn push_meta(
    r: &mut Vec<SkillMeta>,
    name: &'static str,
    phase: &'static str,
    description: &'static str,
)
    ensures
        metas_view(final(r)@) == metas_view(old(r)@).push(
            MetaView { name: name@, phase: phase@, description: description@ },
        ),
{
    let ghost before = r@;
    r.push(SkillMeta { name, phase, description });
    assert(metas_view(r@) =~= metas_view(before).push(
        MetaView { name: name@, phase: phase@, description: description@ },
    ));
}

/// The descriptions of all skills.
pub fn list_skills() -> (r: Vec<SkillMeta>)
    ensures
        metas_view(r@) == catalogue(),
        r@.len() == 25,
{
    let mut r: Vec<SkillMeta> = Vec::new();
    assert(metas_view(r@) =~= Seq::empty());
    push_meta(
        &mut r,
        "interview-me",
        "Define",
        "Surface what the user actually wants before any plan, spec, or code exists",
    );
    push_meta(
        &mut r,
        "idea-refine",
        "Define",
        "Refine ideas through structured divergent and convergent thinking",
    );
    push_meta(
        &mut r,
        "spec-driven-development",
        "Define",
        "Requirements and acceptance criteria before code",
    );
    push_meta(
        &mut r,
        "planning-and-task-breakdown",
        "Plan",
        "Decompose into small, verifiable tasks",
    );
    push_meta(
        &mut r,
        "incremental-implementation",
        "Build",
        "Thin vertical slices, test each before expanding",
    );
    push_meta(
        &mut r,
        "source-driven-development",
        "Build",
        "Verify against official docs before implementing",
    );
    push_meta(
        &mut r,
        "doubt-driven-development",
        "Build",
        "Adversarial fresh-context review of every non-trivial decision",
    );
    push_meta(
        &mut r,
        "context-engineering",
        "Build",
        "Right context at the right time",
    );
    push_meta(
        &mut r,
        "frontend-ui-engineering",
        "Build",
        "Production-quality UI with accessibility",
    );
    push_meta(
        &mut r,
        "api-and-interface-design",
        "Build",
        "Stable interfaces with clear contracts",
    );
    push_meta(
        &mut r,
        "test-driven-development",
        "Verify",
        "Failing test first, then make it pass",
    );
    push_meta(
        &mut r,
        "browser-testing-with-devtools",
        "Verify",
        "Chrome DevTools MCP for runtime verification",
    );
    push_meta(
        &mut r,
        "debugging-and-error-recovery",
        "Verify",
        "Reproduce, localize, fix, guard",
    );
    push_meta(
        &mut r,
        "code-review-and-quality",
        "Review",
        "Five-axis review with quality gates",
    );
    push_meta(
        &mut r,
        "code-simplification",
        "Review",
        "Preserve behavior while reducing unnecessary complexity",
    );
    push_meta(
        &mut r,
        "security-and-hardening",
        "Review",
        "OWASP prevention, input validation, least privilege",
    );
    push_meta(
        &mut r,
        "performance-optimization",
        "Review",
        "Measure first, optimize only what matters",
    );
    push_meta(
        &mut r,
        "git-workflow-and-versioning",
        "Ship",
        "Atomic commits, clean history",
    );
    push_meta(
        &mut r,
        "ci-cd-and-automation",
        "Ship",
        "Automated quality gates on every change",
    );
    push_meta(
        &mut r,
        "deprecation-and-migration",
        "Ship",
        "Remove old systems and migrate users safely",
    );
    push_meta(
        &mut r,
        "documentation-and-adrs",
        "Ship",
        "Document the why, not just the what",
    );
    push_meta(
        &mut r,
        "observability-and-instrumentation",
        "Ship",
        "Structured logs, RED metrics, traces, symptom-based alerts",
    );
    push_meta(
        &mut r,
        "shipping-and-launch",
        "Ship",
        "Pre-launch checklist, monitoring, rollback plan",
    );
    push_meta(
        &mut r,
        "using-agent-skills",
        "Meta",
        "Discovers and invokes agent skills (meta-skill governing all others)",
    );
    push_meta(
        &mut r,
        "constraint-driven-development",
        "Meta",
        "Establish a project quality bar as a written contract",
    );
    assert(metas_view(r@) =~= catalogue());
    assert(metas_view(r@).len() == 25);
    r
}

/// The names of all skills.
pub open spec fn skill_names() -> Seq<Seq<char>> {
    catalogue().map_values(|m: MetaView| m.name)
}

/// The names of all skills.
pub fn list_names() -> (r: Vec<&'static str>)
    ensures
        r@.map_values(|n: &'static str| n@) == skill_names(),
{
    let metas = list_skills();
    let mut r: Vec<&'static str> = Vec::new();
    let mut i: usize = 0;
    while i < metas.len()
        invariant
            i <= metas@.len(),
            metas_view(metas@) == catalogue(),
            r@.len() == i,
            forall|k: int| 0 <= k < i ==> (#[trigger] r@[k])@ == metas@[k].name@,
        decreases metas@.len() - i,
    {
        r.push(metas[i].name);
        i += 1;
    }
    proof {
        let names = r@.map_values(|n: &'static str| n@);
        assert(metas_view(metas@).len() == metas@.len());
        assert forall|k: int| 0 <= k < names.len() implies names[k] == skill_names()[k] by {
            assert(metas_view(metas@)[k] == metas@[k]@);
            assert(names[k] == r@[k]@);
        }
        assert(names =~= skill_names());
    }
    r
}

/// All skills with their texts.
pub struct Skills {
    entries: Vec<SkillEntry>,
}

/// What a list of skills says.
pub open spec fn entries_view(v: Seq<SkillEntry>) -> Seq<EntryView> {
    v.map_values(|e: SkillEntry| e@)
}

/// How many texts go with the skill at an index of the catalogue: three with
/// `idea-refine` and one with `constraint-driven-development`.
pub open spec fn auxiliary_count(i: int) -> nat {
    if i == 1 {
        3
    } else if i == 24 {
        1
    } else {
        0
    }
}

/// Whether a text names every skill.
pub open spec fn names_every_skill(table: Seq<char>) -> bool {
    forall|i: int|
        0 <= i < skill_names().len() ==> text::contains(table, #[trigger] skill_names()[i])
}

/// Whether a text names every skill.
fn names_all(table: &str) -> (r: bool)
    ensures
        r == names_every_skill(table@),
{
    let names = list_names();
    let ghost nv = names@.map_values(|n: &'static str| n@);
    assert(nv.len() == names@.len());
    let mut i: usize = 0;
    while i < names.len()
        invariant
            i <= names@.len() == skill_names().len(),
            nv == names@.map_values(|n: &'static str| n@),
            nv == skill_names(),
            forall|k: int| 0 <= k < i ==> text::contains(table@, #[trigger] skill_names()[k]),
        decreases names@.len() - i,
    {
        assert(skill_names()[i as int] == nv[i as int]);
        if !contains_str(table, names[i]) {
            return false;
        }
        i += 1;
    }
    true
}

/// Whether some texts are those of the skills: one main text for each, as many
/// others as go with it, and a text for `using-agent-skills` that names every
/// skill.
pub open spec fn fits(bodies: Seq<SkillBody>) -> bool {
    &&& bodies.len() == catalogue().len()
    &&& forall|i: int|
        0 <= i < bodies.len() ==> (#[trigger] bodies[i]).auxiliary@.len() == auxiliary_count(i)
    &&& names_every_skill(bodies[23].content@)
}

/// The skill with a text at an index of the catalogue.
pub open spec fn entry_of(i: int, body: SkillBody) -> EntryView {
    EntryView {
        meta: catalogue()[i],
        content: body.content@,
        auxiliary: text::views(body.auxiliary@),
    }
}

impl Skills {
    /// The skills, in the order of the catalogue.
    pub closed spec fn entries(&self) -> Seq<EntryView> {
        entries_view(self.entries@)
    }

    /// The text of the skill `using-agent-skills`, which routes to the others.
    pub open spec fn routing_table(&self) -> Seq<char> {
        self.entries()[23].content
    }

    /// Whether the skills are those of the catalogue, and the text that routes to
    /// them names each.
    pub open spec fn wf(&self) -> bool {
        &&& self.entries().len() == catalogue().len()
        &&& names_every_skill(self.routing_table())
        &&& forall|i: int|
            0 <= i < catalogue().len() ==> (#[trigger] self.entries()[i]).meta == catalogue()[i]
                && self.entries()[i].auxiliary.len() == auxiliary_count(i)
    }

    /// The skills with their texts: one main text for each entry of the
    /// catalogue, in order, and as many others as go with it. Nothing where
    /// there are more texts or fewer, or where the text that routes to the
    /// skills leaves one out.
    pub fn new(bodies: Vec<SkillBody>) -> (r: Option<Self>)
        ensures
            r is Some <==> fits(bodies@),
            r matches Some(s) ==> {
                &&& s.wf()
                &&& s.entries() == Seq::new(
                    bodies@.len(),
                    |i: int| entry_of(i, bodies@[i]),
                )
            },
    {
        let metas = list_skills();
        assert(metas_view(metas@).len() == metas@.len());
        if bodies.len() != metas.len() {
            return None;
        }
        let mut n: usize = 0;
        while n < bodies.len()
            invariant
                n <= bodies@.len(),
                bodies@.len() <= 25,
                forall|k: int|
                    0 <= k < n ==> (#[trigger] bodies@[k]).auxiliary@.len() == auxiliary_count(k),
            decreases bodies@.len() - n,
        {
            let expected: usize = if n == 1 {
                3
            } else if n == 24 {
                1
            } else {
                0
            };
            if bodies[n].auxiliary.len() != expected {
                assert(bodies@[n as int].auxiliary@.len() != auxiliary_count(n as int));
                return None;
            }
            n += 1;
        }
        if !names_all(&bodies[23].content) {
            return None;
        }
        let ghost given = bodies@;
        let mut rest = bodies;
        let mut entries: Vec<SkillEntry> = Vec::new();
        let mut reversed: Vec<SkillBody> = Vec::new();
        while rest.len() > 0
            invariant
                rest@.len() <= given.len(),
                rest@ == given.take(rest@.len() as int),
                reversed@ == given.skip(rest@.len() as int).reverse(),
            decreases rest@.len(),
        {
            let ghost n = rest@.len() as int;
            if let Some(b) = rest.pop() {
                reversed.push(b);
                assert(given.take(n).drop_last() =~= given.take(n - 1));
                assert(given.skip(n - 1).reverse() =~= given.skip(n).reverse().push(given[n - 1]));
            }
        }
        assert(given.skip(0) =~= given);
        let mut i: usize = 0;
        while i < metas.len()
            invariant
                i <= metas@.len() == given.len(),
                metas_view(metas@) == catalogue(),
                entries@.len() == i,
                forall|k: int|
                    0 <= k < given.len() ==> (#[trigger] given[k]).auxiliary@.len()
                        == auxiliary_count(k),
                reversed@ == given.skip(i as int).reverse(),
                forall|k: int| 0 <= k < i ==> (#[trigger] entries@[k])@ == entry_of(k, given[k]),
            decreases metas@.len() - i,
        {
            assert(reversed@.len() > 0);
            if let Some(b) = reversed.pop() {
                assert(b == given[i as int]);
                assert(given.skip(i as int).reverse().drop_last() =~= given.skip(
                    i + 1,
                ).reverse());
                assert(metas_view(metas@)[i as int] == metas@[i as int]@);
                entries.push(
                    SkillEntry { meta: metas[i], content: b.content, auxiliary: b.auxiliary },
                );
                assert(entries@[i as int]@ =~= entry_of(i as int, given[i as int]));
            }
            i += 1;
        }
        let r = Skills { entries };
        assert(r.entries() =~= Seq::new(given.len(), |i: int| entry_of(i, given[i])));
        assert(r.routing_table() == given[23].content@);
        Some(r)
    }
}

/// The index of the first skill with a name.
pub open spec fn find_name(names: Seq<Seq<char>>, name: Seq<char>) -> Option<int>
    decreases names.len(),
{
    if names.len() == 0 {
        None
    } else {
        match find_name(names.drop_last(), name) {
            Some(i) => Some(i),
            None => if names.last() == name {
                Some(names.len() - 1)
            } else {
                None
            },
        }
    }
}

proof fn lemma_find_name(names: Seq<Seq<char>>, name: Seq<char>, n: int)
    requires
        0 <= n < names.len(),
        names[n] == name,
        forall|k: int| 0 <= k < n ==> names[k] != name,
    ensures
        find_name(names, name) == Some(n),
    decreases names.len(),
{
    let t = names.drop_last();
    if n < t.len() {
        lemma_find_name(t, name, n);
    } else {
        lemma_find_no_name(t, name);
    }
}

proof fn lemma_find_no_name(names: Seq<Seq<char>>, name: Seq<char>)
    requires
        forall|k: int| 0 <= k < names.len() ==> names[k] != name,
    ensures
        find_name(names, name) is None,
    decreases names.len(),
{
    if names.len() > 0 {
        lemma_find_no_name(names.drop_last(), name);
    }
}

/// The skill with the given name.
pub fn get_skill<'a>(skills: &'a Skills, name: &str) -> (r: Option<&'a SkillEntry>)
    requires
        skills.wf(),
    ensures
        match r {
            Some(e) => find_name(skill_names(), name@) matches Some(i) && 0 <= i
                < skills.entries().len() && e@ == skills.entries()[i] && e@.meta.name == name@,
            None => find_name(skill_names(), name@) is None,
        },
{
    let mut i: usize = 0;
    while i < skills.entries.len()
        invariant
            i <= skills.entries@.len(),
            skills.wf(),
            skills.entries() == entries_view(skills.entries@),
            forall|k: int| 0 <= k < i ==> skill_names()[k] != name@,
        decreases skills.entries@.len() - i,
    {
        proof {
            assert(skills.entries()[i as int] == skills.entries@[i as int]@);
            assert(skill_names()[i as int] == skills.entries@[i as int].meta.name@);
        }
        if str_eq(skills.entries[i].meta.name, name) {
            proof {
                lemma_find_name(skill_names(), name@, i as int);
            }
            return Some(&skills.entries[i]);
        }
        i += 1;
    }
    proof {
        lemma_find_no_name(skill_names(), name@);
    }
    None
}

/// The main text and then the texts that go with it, each after a rule.
pub open spec fn rendered(content: Seq<char>, auxiliary: Seq<Seq<char>>) -> Seq<char>
    decreases auxiliary.len(),
{
    if auxiliary.len() == 0 {
        content
    } else {
        rendered(content, auxiliary.drop_last()) + "\n\n---\n\n"@ + auxiliary.last()
    }
}

/// What is said about a name that is no skill.
pub open spec fn unknown_skill(name: Seq<char>) -> Seq<char> {
    "unknown skill '"@ + name + "'. Available skills: "@ + text::join(skill_names(), ", "@)
}

/// The whole text of a skill, or the message that there is none of that name.
pub fn render_skill(skills: &Skills, name: &str) -> (r: Result<String, String>)
    requires
        skills.wf(),
    ensures
        match r {
            Ok(s) => find_name(skill_names(), name@) matches Some(i) && s@ == rendered(
                skills.entries()[i].content,
                skills.entries()[i].auxiliary,
            ),
            Err(m) => find_name(skill_names(), name@) is None && m@ == unknown_skill(name@),
        },
{
    match get_skill(skills, name) {
        None => {
            let mut m = copy_str("unknown skill '");
            m.append(name);
            m.append("'. Available skills: ");
            let names = list_names();
            let mut owned: Vec<String> = Vec::new();
            let mut i: usize = 0;
            while i < names.len()
                invariant
                    i <= names@.len(),
                    owned@.len() == i,
                    forall|k: int| 0 <= k < i ==> (#[trigger] owned@[k])@ == names@[k]@,
                decreases names@.len() - i,
            {
                owned.push(copy_str(names[i]));
                i += 1;
            }
            assert(text::views(owned@) =~= names@.map_values(|n: &'static str| n@));
            let list = text::join_strings(&owned, ", ");
            m.append(&list);
            Err(m)
        },
        Some(e) => {
            let mut s = copy_str(&e.content);
            let mut i: usize = 0;
            let ghost aux = text::views(e.auxiliary@);
            assert(aux.take(0) =~= Seq::empty());
            while i < e.auxiliary.len()
                invariant
                    i <= e.auxiliary@.len(),
                    aux == text::views(e.auxiliary@),
                    s@ == rendered(e.content@, aux.take(i as int)),
                decreases e.auxiliary@.len() - i,
            {
                s.append("\n\n---\n\n");
                s.append(&e.auxiliary[i]);
                proof {
                    assert(aux.take(i + 1).drop_last() =~= aux.take(i as int));
                    assert(aux.take(i + 1).last() == e.auxiliary@[i as int]@);
                }
                i += 1;
            }
            assert(aux.take(i as int) =~= aux);
            Ok(s)
        },
    }
}

/// The text that routes to the other skills.
pub fn get_routing_table(skills: &Skills) -> (r: &str)
    requires
        skills.wf(),
    ensures
        r@ == skills.routing_table(),
        skills.entries()[23].meta.name == "using-agent-skills"@,
{
    assert(skills.entries()[23].meta == catalogue()[23]);
    skills.entries[23].content.as_str()
}

/// The text that routes to the skills names each of them.
pub proof fn law_routing_table_names_every_skill(skills: Skills, i: int)
    requires
        skills.wf(),
        0 <= i < skill_names().len(),
    ensures
        text::contains(skills.routing_table(), skill_names()[i]),
{
}

/// What tells the names of the catalogue apart: their lengths, and their first
/// and their third characters.
spec fn mark(s: Seq<char>) -> (nat, char, char) {
    (s.len(), s[0], s[2])
}

/// No two skills have the same name.
pub proof fn law_names_are_distinct(i: int, j: int)
    requires
        0 <= i < j < skill_names().len(),
    ensures
        skill_names()[i] != skill_names()[j],
{
    let n = skill_names();
    reveal_strlit("interview-me");
    reveal_strlit("idea-refine");
    reveal_strlit("spec-driven-development");
    reveal_strlit("planning-and-task-breakdown");
    reveal_strlit("incremental-implementation");
    reveal_strlit("source-driven-development");
    reveal_strlit("doubt-driven-development");
    reveal_strlit("context-engineering");
    reveal_strlit("frontend-ui-engineering");
    reveal_strlit("api-and-interface-design");
    reveal_strlit("test-driven-development");
    reveal_strlit("browser-testing-with-devtools");
    reveal_strlit("debugging-and-error-recovery");
    reveal_strlit("code-review-and-quality");
    reveal_strlit("code-simplification");
    reveal_strlit("security-and-hardening");
    reveal_strlit("performance-optimization");
    reveal_strlit("git-workflow-and-versioning");
    reveal_strlit("ci-cd-and-automation");
    reveal_strlit("deprecation-and-migration");
    reveal_strlit("documentation-and-adrs");
    reveal_strlit("observability-and-instrumentation");
    reveal_strlit("shipping-and-launch");
    reveal_strlit("using-agent-skills");
    reveal_strlit("constraint-driven-development");
    assert(mark(n[0]) == (12nat, 'i', 't'));
    assert(mark(n[1]) == (11nat, 'i', 'e'));
    assert(mark(n[2]) == (23nat, 's', 'e'));
    assert(mark(n[3]) == (27nat, 'p', 'a'));
    assert(mark(n[4]) == (26nat, 'i', 'c'));
    assert(mark(n[5]) == (25nat, 's', 'u'));
    assert(mark(n[6]) == (24nat, 'd', 'u'));
    assert(mark(n[7]) == (19nat, 'c', 'n'));
    assert(mark(n[8]) == (23nat, 'f', 'o'));
    assert(mark(n[9]) == (24nat, 'a', 'i'));
    assert(mark(n[10]) == (23nat, 't', 's'));
    assert(mark(n[11]) == (29nat, 'b', 'o'));
    assert(mark(n[12]) == (28nat, 'd', 'b'));
    assert(mark(n[13]) == (23nat, 'c', 'd'));
    assert(mark(n[14]) == (19nat, 'c', 'd'));
    assert(mark(n[15]) == (22nat, 's', 'c'));
    assert(mark(n[16]) == (24nat, 'p', 'r'));
    assert(mark(n[17]) == (27nat, 'g', 't'));
    assert(mark(n[18]) == (20nat, 'c', '-'));
    assert(mark(n[19]) == (25nat, 'd', 'p'));
    assert(mark(n[20]) == (22nat, 'd', 'c'));
    assert(mark(n[21]) == (33nat, 'o', 's'));
    assert(mark(n[22]) == (19nat, 's', 'i'));
    assert(mark(n[23]) == (18nat, 'u', 'i'));
    assert(mark(n[24]) == (29nat, 'c', 'n'));
    assert(mark(n[i]) != mark(n[j]));
}

/// Every skill is found by its name.
pub proof fn law_every_name_is_found(i: int)
    requires
        0 <= i < skill_names().len(),
    ensures
        find_name(skill_names(), skill_names()[i]) == Some(i),
{
    assert forall|k: int| 0 <= k < i implies skill_names()[k] != skill_names()[i] by {
        law_names_are_distinct(k, i);
    }
    lemma_find_name(skill_names(), skill_names()[i], i);
}

/// Nothing of a skill is left out: its whole text is its main text and then every
/// text that goes with it, in order, each after a rule.
pub proof fn law_skills_are_rendered_whole(content: Seq<char>, auxiliary: Seq<Seq<char>>)
    ensures
        rendered(content, auxiliary) == text::join(
            seq![content] + auxiliary,
            "\n\n---\n\n"@,
        ),
        content.is_prefix_of(rendered(content, auxiliary)),
    decreases auxiliary.len(),
{
    let rule = "\n\n---\n\n"@;
    let all = seq![content] + auxiliary;
    if auxiliary.len() == 0 {
        assert(all =~= seq![content]);
        assert(content.take(content.len() as int) =~= content);
    } else {
        law_skills_are_rendered_whole(content, auxiliary.drop_last());
        assert(all.drop_last() =~= seq![content] + auxiliary.drop_last());
        assert(all.last() == auxiliary.last());
        let before = rendered(content, auxiliary.drop_last());
        assert(content =~= (before + rule + auxiliary.last()).subrange(0, content.len() as int));
    }
}

/// A name that is no skill is answered with all that there are.
pub proof fn law_unknown_names_are_told_the_skills(name: Seq<char>, i: int)
    requires
        0 <= i < skill_names().len(),
    ensures
        text::holds(unknown_skill(name), name),
        text::holds(unknown_skill(name), skill_names()[i]),
{
    let head = "unknown skill '"@;
    let mid = "'. Available skills: "@;
    let list = text::join(skill_names(), ", "@);
    assert(unknown_skill(name) =~= head + name + (mid + list));
    text::law_joining_keeps_every_part(skill_names(), ", "@, i);
    let n = skill_names()[i];
    let (a, b) = choose|a: Seq<char>, b: Seq<char>| list == #[trigger] (a + n + b);
    assert(unknown_skill(name) =~= (head + name + mid + a) + n + b);
}

/// A skill is found under its own name and no other.
pub proof fn law_a_found_skill_has_the_name(name: Seq<char>)
    ensures
        match find_name(skill_names(), name) {
            Some(i) => 0 <= i < skill_names().len() && skill_names()[i] == name,
            None => !skill_names().contains(name),
        },
{
    lemma_find_name_sound(skill_names(), name);
}

proof fn lemma_find_name_sound(names: Seq<Seq<char>>, name: Seq<char>)
    ensures
        match find_name(names, name) {
            Some(i) => 0 <= i < names.len() && names[i] == name,
            None => forall|i: int| 0 <= i < names.len() ==> names[i] != name,
        },
    decreases names.len(),
{
    if names.len() > 0 {
        let t = names.drop_last();
        lemma_find_name_sound(t, name);
        assert forall|i: int| 0 <= i < t.len() implies names[i] == t[i] by {}
        if find_name(names, name) is None {
            assert forall|i: int| 0 <= i < names.len() implies names[i] != name by {
                if i < t.len() {
                    assert(t[i] != name);
                }
            }
        }
    }
}

/// Each text stays with its skill: the entry at an index is that of the catalogue
/// there, with the texts that were given for it.
pub proof fn law_texts_stay_with_their_skills(i: int, body: SkillBody)
    ensures
        entry_of(i, body).meta == catalogue()[i],
        entry_of(i, body).content == body.content@,
        entry_of(i, body).auxiliary.len() == body.auxiliary@.len(),
        forall|k: int| 0 <= k < body.auxiliary@.len() ==> #[trigger] entry_of(i, body).auxiliary[k]
            == body.auxiliary@[k]@,
{
}

/// The text that routes to the skills is that of the skill `using-agent-skills`.
pub proof fn law_the_routing_table_is_a_skill(skills: Skills, i: int)
    requires
        skills.wf(),
        0 <= i < skill_names().len(),
        skill_names()[i] == "using-agent-skills"@,
    ensures
        skills.entries()[i].content == skills.routing_table(),
        skills.entries()[i].meta.name == "using-agent-skills"@,
{
    assert(skill_names()[23] == "using-agent-skills"@);
    if i != 23 {
        if i < 23 {
            law_names_are_distinct(i, 23);
        } else {
            law_names_are_distinct(23, i);
        }
    }
}

/// Three texts go with `idea-refine`, one goes with `constraint-driven-development`,
/// and none with any other skill.
pub proof fn law_two_skills_have_more_texts(skills: Skills, i: int)
    requires
        skills.wf(),
        0 <= i < skill_names().len(),
    ensures
        skills.entries()[i].auxiliary.len() == if skill_names()[i] == "idea-refine"@ {
            3nat
        } else if skill_names()[i] == "constraint-driven-development"@ {
            1nat
        } else {
            0nat
        },
{
    assert(skill_names()[1] == "idea-refine"@);
    assert(skill_names()[24] == "constraint-driven-development"@);
    law_names_are_distinct(1, 24);
    if i < 1 {
        law_names_are_distinct(i, 1);
    }
    if i > 1 {
        law_names_are_distinct(1, i);
    }
    if i < 24 {
        law_names_are_distinct(i, 24);
    }
    if i > 24 {
        law_names_are_distinct(24, i);
    }
    assert(skills.entries()[i].meta == catalogue()[i]);
}

} // verus!
