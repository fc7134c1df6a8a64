//! What the terminal shows of the run and of the tools.
use crate::event::{AgentEvent, EventView};
use crate::json::{self, pretty_json};
use crate::openai::{self, ToolDef, ToolDefView};
use crate::state::AgentState;
use crate::text::{self, copy_str, decimal_u64, decimal_usize, lines_str};
use vstd::prelude::*;

verus! {

/// How a piece of text looks.
#[derive(Debug, Clone, Copy, PartialEq, Eq, Structural)]
pub enum Style {
    /// As usual.
    Plain,
    /// Grey.
    Dimmed,
    /// Bold.
    Bold,
    /// Yellow.
    Yellow,
    /// Yellow and bold.
    YellowBold,
    /// Green.
    Green,
    /// Red.
    Red,
    /// Cyan.
    Cyan,
    /// Cyan and bold.
    CyanBold,
}

/// A piece of text and how it looks.
#[derive(Debug)]
pub struct Span {
    /// How it looks.
    pub style: Style,
    /// The text.
    pub text: String,
}

/// What a piece of text says.
#[verifier::ext_equal]
pub struct SpanView {
    pub style: Style,
    pub text: Seq<char>,
}

impl View for Span {
    type V = SpanView;

    open spec fn view(&self) -> SpanView {
        SpanView { style: self.style, text: self.text@ }
    }
}

/// What some pieces of text say.
pub open spec fn spans_view(v: Seq<Span>) -> Seq<SpanView> {
    v.map_values(|s: Span| s@)
}

/// A piece of text.
pub open spec fn piece(style: Style, text: Seq<char>) -> SpanView {
    SpanView { style, text }
}

/// A piece of text.
pub fn span(style: Style, text: &str) -> (r: Span)
    ensures
        r@ == piece(style, text@),
{
    Span { style, text: copy_str(text) }
}

/// What is shown of something.
#[derive(Debug)]
pub struct Rendering {
    /// The pieces of text, one after the other.
    pub spans: Vec<Span>,
    /// Whether the line ends after them.
    pub newline: bool,
}

/// What a rendering says.
#[verifier::ext_equal]
pub struct RenderingView {
    pub spans: Seq<SpanView>,
    pub newline: bool,
}

impl View for Rendering {
    type V = RenderingView;

    open spec fn view(&self) -> RenderingView {
        RenderingView { spans: spans_view(self.spans@), newline: self.newline }
    }
}

/// What some renderings say.
pub open spec fn renderings_view(v: Seq<Rendering>) -> Seq<RenderingView> {
    v.map_values(|x: Rendering| x@)
}

/// A line of some pieces of text.
pub open spec fn line(spans: Seq<SpanView>) -> RenderingView {
    RenderingView { spans, newline: true }
}

/// A line of one piece of text.
fn line_of_one(a: Span) -> (r: Rendering)
    ensures
        r@ == line(seq![a@]),
{
    let mut spans: Vec<Span> = Vec::new();
    spans.push(a);
    assert(spans_view(spans@) =~= seq![a@]);
    Rendering { spans, newline: true }
}

/// A line of two pieces of text.
fn line_of_two(a: Span, b: Span) -> (r: Rendering)
    ensures
        r@ == line(seq![a@, b@]),
{
    let mut spans: Vec<Span> = Vec::new();
    spans.push(a);
    spans.push(b);
    assert(spans_view(spans@) =~= seq![a@, b@]);
    Rendering { spans, newline: true }
}

/// An indented line of three words.
pub open spec fn three_words(a: SpanView, b: SpanView, c: SpanView) -> RenderingView {
    line(seq![piece(Style::Plain, "  "@), a, piece(Style::Plain, " "@), b, piece(Style::Plain, " "@), c])
}

/// An indented line of three words.
fn line_of_words(a: Span, b: Span, c: Span) -> (r: Rendering)
    ensures
        r@ == three_words(a@, b@, c@),
{
    let mut spans: Vec<Span> = Vec::new();
    spans.push(span(Style::Plain, "  "));
    spans.push(a);
    spans.push(span(Style::Plain, " "));
    spans.push(b);
    spans.push(span(Style::Plain, " "));
    spans.push(c);
    assert(spans_view(spans@) =~= three_words(a@, b@, c@).spans);
    Rendering { spans, newline: true }
}

/// The label of a state.
pub open spec fn label_of(state: AgentState) -> Seq<char> {
    match state {
        AgentState::Idle => "→ Idle"@,
        AgentState::Thinking => "→ Thinking"@,
        AgentState::ToolCalling => "→ ToolCalling"@,
        AgentState::Observing => "→ Observing"@,
        AgentState::Completed => "→ Completed"@,
        AgentState::Failed => "→ Failed"@,
    }
}

/// The label of a state.
pub fn state_label(state: &AgentState) -> (r: String)
    ensures
        r@ == label_of(*state),
{
    match state {
        AgentState::Idle => copy_str("→ Idle"),
        AgentState::Thinking => copy_str("→ Thinking"),
        AgentState::ToolCalling => copy_str("→ ToolCalling"),
        AgentState::Observing => copy_str("→ Observing"),
        AgentState::Completed => copy_str("→ Completed"),
        AgentState::Failed => copy_str("→ Failed"),
    }
}

/// What is shown of an event: a grey line for a state and for the tokens used, a
/// yellow line for a tool that begins, a green or a red mark and the time for
/// one that ends, and a piece of the answer as it is, without the end of a line.
pub open spec fn rendered_event(event: EventView) -> RenderingView {
    match event {
        EventView::StateChanged(s) => line(seq![piece(Style::Dimmed, "  "@ + label_of(s))]),
        EventView::TokenChunk(t) => RenderingView {
            spans: seq![piece(Style::Plain, t)],
            newline: false,
        },
        EventView::ToolStarted { id, name, args } => three_words(
            piece(Style::YellowBold, "⚙ tool"@),
            piece(Style::Yellow, name),
            piece(Style::Dimmed, args),
        ),
        EventView::ToolFinished { id, duration_ms, success } => three_words(
            piece(Style::Dimmed, "⚙ done"@),
            if success {
                piece(Style::Green, "✓ ok"@)
            } else {
                piece(Style::Red, "✗ failed"@)
            },
            piece(Style::Dimmed, text::decimal(duration_ms as nat) + "ms"@),
        ),
        EventView::TokenUsage { prompt_tokens, completion_tokens } => three_words(
            piece(Style::Dimmed, "◈ tokens"@),
            piece(Style::Dimmed, "in:"@ + text::decimal(prompt_tokens as nat)),
            piece(Style::Dimmed, "out:"@ + text::decimal(completion_tokens as nat)),
        ),
    }
}

/// A text with a number after it.
fn with_number(prefix: &str, n: u32) -> (r: String)
    ensures
        r@ == prefix@ + text::decimal(n as nat),
{
    let mut s = copy_str(prefix);
    let d = decimal_u64(n as u64);
    s.append(&d);
    s
}

/// What is shown of an event.
pub fn render_event(event: &AgentEvent) -> (r: Rendering)
    ensures
        r@ == rendered_event(event@),
{
    match event {
        AgentEvent::StateChanged(state) => {
            let label = state_label(state);
            let mut s = copy_str("  ");
            s.append(&label);
            line_of_one(Span { style: Style::Dimmed, text: s })
        },
        AgentEvent::TokenChunk(chunk) => {
            let mut spans: Vec<Span> = Vec::new();
            spans.push(span(Style::Plain, chunk));
            assert(spans_view(spans@) =~= seq![piece(Style::Plain, chunk@)]);
            Rendering { spans, newline: false }
        },
        AgentEvent::ToolStarted { id: _, name, args } => line_of_words(
            span(Style::YellowBold, "⚙ tool"),
            span(Style::Yellow, name),
            span(Style::Dimmed, args),
        ),
        AgentEvent::ToolFinished { id: _, duration_ms, success } => {
            let status = if *success {
                span(Style::Green, "✓ ok")
            } else {
                span(Style::Red, "✗ failed")
            };
            let mut time = decimal_u64(*duration_ms);
            time.append("ms");
            line_of_words(
                span(Style::Dimmed, "⚙ done"),
                status,
                Span { style: Style::Dimmed, text: time },
            )
        },
        AgentEvent::TokenUsage { prompt_tokens, completion_tokens } => {
            let prompt = with_number("in:", *prompt_tokens);
            let completion = with_number("out:", *completion_tokens);
            line_of_words(
                span(Style::Dimmed, "◈ tokens"),
                Span { style: Style::Dimmed, text: prompt },
                Span { style: Style::Dimmed, text: completion },
            )
        },
    }
}

/// The first line of a list of tools.
pub open spec fn tool_count(n: nat) -> RenderingView {
    line(seq![piece(Style::Bold, text::decimal(n) + " registered tools:"@)])
}

/// The first line of a list of tools.
fn count_line(n: usize) -> (r: Rendering)
    ensures
        r@ == tool_count(n as nat),
{
    let mut s = decimal_usize(n);
    s.append(" registered tools:");
    line_of_one(Span { style: Style::Bold, text: s })
}

/// The first line of a text.
pub open spec fn first_line(s: Seq<char>) -> Seq<char> {
    let all = text::lines(s);
    if all.len() > 0 {
        all[0]
    } else {
        Seq::empty()
    }
}

/// A tool in the short list: its name and the first line of its description.
pub open spec fn short_entry(t: ToolDefView) -> RenderingView {
    line(
        seq![
            piece(Style::Plain, "  "@),
            piece(Style::Cyan, t.name),
            piece(Style::Plain, " — "@ + first_line(t.description)),
        ],
    )
}

/// The short list of the tools.
pub open spec fn short_list(tools: Seq<ToolDefView>) -> Seq<RenderingView> {
    seq![tool_count(tools.len())] + tools.map_values(|t: ToolDefView| short_entry(t))
}

/// A tool in the short list.
fn short_line(t: &ToolDef) -> (r: Rendering)
    ensures
        r@ == short_entry(t@),
{
    let all = lines_str(&t.description);
    let mut s = copy_str(" — ");
    if all.len() > 0 {
        assert(text::views(all@)[0] == all@[0]@);
        s.append(&all[0]);
    } else {
        assert(text::views(all@).len() == 0);
        assert(s@ + Seq::<char>::empty() =~= s@);
    }
    let mut spans: Vec<Span> = Vec::new();
    spans.push(span(Style::Plain, "  "));
    spans.push(span(Style::Cyan, &t.name));
    spans.push(Span { style: Style::Plain, text: s });
    assert(spans_view(spans@) =~= short_entry(t@).spans);
    Rendering { spans, newline: true }
}

/// The short list of the tools: how many there are, and each with its name and
/// the first line of its description.
pub fn list_tools(tools: &[ToolDef]) -> (r: Vec<Rendering>)
    ensures
        renderings_view(r@) == short_list(openai::tool_defs_view(tools@)),
{
    let mut r: Vec<Rendering> = Vec::new();
    r.push(count_line(tools.len()));
    let mut i: usize = 0;
    while i < tools.len()
        invariant
            i <= tools@.len(),
            r@.len() == i + 1,
            r@[0]@ == tool_count(tools@.len()),
            forall|k: int| 0 <= k < i ==> (#[trigger] r@[k + 1])@ == short_entry(tools@[k]@),
        decreases tools@.len() - i,
    {
        r.push(short_line(&tools[i]));
        i += 1;
    }
    proof {
        let want = short_list(openai::tool_defs_view(tools@));
        assert forall|k: int| 0 <= k < want.len() implies renderings_view(r@)[k] == want[k] by {
            if k > 0 {
                assert(r@[(k - 1) + 1]@ == short_entry(tools@[k - 1]@));
            }
        }
        assert(renderings_view(r@) =~= want);
    }
    r
}

/// A line of a text in the long list.
pub open spec fn indented(s: Seq<char>) -> RenderingView {
    line(seq![piece(Style::Plain, "    "@ + s)])
}

/// The lines of a text in the long list.
pub open spec fn indented_lines(s: Seq<char>) -> Seq<RenderingView> {
    text::lines(s).map_values(|l: Seq<char>| indented(l))
}

/// A tool in the long list: a blank line, its name, its description and the
/// schema of its parameters.
pub open spec fn long_entry(t: ToolDefView, schema: Seq<char>) -> Seq<RenderingView> {
    seq![
        line(Seq::empty()),
        line(seq![piece(Style::Plain, "  "@), piece(Style::CyanBold, t.name)]),
    ] + indented_lines(t.description) + indented_lines(schema)
}

/// Appends the lines of a text in the long list.
fn push_lines(out: &mut Vec<Rendering>, s: &str)
    ensures
        renderings_view(final(out)@) == renderings_view(old(out)@) + indented_lines(s@),
{
    let all = lines_str(s);
    let ghost av = text::views(all@);
    let ghost start = out@.len();
    let ghost before = out@;
    let mut i: usize = 0;
    while i < all.len()
        invariant
            i <= all@.len(),
            av == text::views(all@),
            start == before.len(),
            out@.len() == start + i,
            forall|k: int| 0 <= k < start ==> #[trigger] out@[k] == before[k],
            forall|k: int|
                start <= k < start + i ==> (#[trigger] out@[k])@ == indented(av[k - start]),
        decreases all@.len() - i,
    {
        let mut l = copy_str("    ");
        l.append(&all[i]);
        out.push(line_of_one(Span { style: Style::Plain, text: l }));
        assert(av[i as int] == all@[i as int]@);
        i += 1;
    }
    assert(renderings_view(out@) =~= renderings_view(before) + indented_lines(s@));
}

/// A tool in the long list, given the schema of its parameters as it is shown.
pub fn describe_tool(t: &ToolDef, schema: &str) -> (r: Vec<Rendering>)
    ensures
        renderings_view(r@) == long_entry(t@, schema@),
{
    let mut r: Vec<Rendering> = Vec::new();
    let blank = Rendering { spans: Vec::new(), newline: true };
    assert(spans_view(blank.spans@) =~= Seq::empty());
    r.push(blank);
    r.push(line_of_two(span(Style::Plain, "  "), span(Style::CyanBold, &t.name)));
    assert(renderings_view(r@) =~= seq![
        line(Seq::empty()),
        line(seq![piece(Style::Plain, "  "@), piece(Style::CyanBold, t.name@)]),
    ]);
    push_lines(&mut r, &t.description);
    push_lines(&mut r, schema);
    r
}

/// The long list of the first tools.
pub open spec fn long_list(tools: Seq<ToolDefView>, all: nat) -> Seq<RenderingView>
    decreases tools.len(),
{
    if tools.len() == 0 {
        seq![tool_count(all)]
    } else {
        long_list(tools.drop_last(), all) + long_entry(
            tools.last(),
            json::pretty(tools.last().parameters),
        )
    }
}

/// The long list of the tools: how many there are, and each with its name, its
/// description and the schema of its parameters.
pub fn describe_tools(tools: &[ToolDef]) -> (r: Vec<Rendering>)
    ensures
        renderings_view(r@) == long_list(openai::tool_defs_view(tools@), tools@.len()),
{
    let ghost tv = openai::tool_defs_view(tools@);
    let mut r: Vec<Rendering> = Vec::new();
    r.push(count_line(tools.len()));
    let mut i: usize = 0;
    assert(renderings_view(r@) =~= long_list(tv.take(0), tools@.len()));
    while i < tools.len()
        invariant
            i <= tools@.len(),
            tv == openai::tool_defs_view(tools@),
            renderings_view(r@) == long_list(tv.take(i as int), tools@.len()),
        decreases tools@.len() - i,
    {
        proof {
            assert(tv.take(i + 1).drop_last() =~= tv.take(i as int));
            assert(tv.take(i + 1).last() == tools@[i as int]@);
        }
        let schema = pretty_json(&tools[i].parameters);
        let mut entry = describe_tool(&tools[i], &schema);
        let ghost before = r@;
        let ghost more = entry@;
        r.append(&mut entry);
        assert(renderings_view(r@) =~= renderings_view(before) + renderings_view(more));
        i += 1;
    }
    assert(tv.take(tools@.len() as int) =~= tv);
    r
}

/// Whether one of the pieces of a line is a text.
pub open spec fn shows(r: RenderingView, t: Seq<char>) -> bool {
    exists|i: int| 0 <= i < r.spans.len() && (#[trigger] r.spans[i]).text == t
}

/// What is shown of an event is what it says: of a tool that begins its name and
/// its arguments, of one that ends how long it took and, in green or in red,
/// whether it succeeded, of the tokens both numbers, and of the answer each piece
/// as it is, with nothing in between.
pub proof fn law_events_are_shown(
    a: Seq<char>,
    b: Seq<char>,
    c: Seq<char>,
    ms: u64,
    n: u32,
    m: u32,
)
    ensures
        ({
            let r = rendered_event(EventView::TokenChunk(a));
            r.spans.len() == 1 && r.spans[0].text == a && !r.newline
        }),
        ({
            let r = rendered_event(EventView::ToolStarted { id: a, name: b, args: c });
            shows(r, b) && shows(r, c) && r.newline
        }),
        ({
            let r = rendered_event(
                EventView::ToolFinished { id: a, duration_ms: ms, success: true },
            );
            &&& shows(r, text::decimal(ms as nat) + "ms"@)
            &&& exists|i: int| 0 <= i < r.spans.len() && (#[trigger] r.spans[i]).style
                == Style::Green
            &&& forall|i: int| 0 <= i < r.spans.len() ==> (#[trigger] r.spans[i]).style
                != Style::Red
        }),
        ({
            let r = rendered_event(
                EventView::ToolFinished { id: a, duration_ms: ms, success: false },
            );
            &&& shows(r, text::decimal(ms as nat) + "ms"@)
            &&& exists|i: int| 0 <= i < r.spans.len() && (#[trigger] r.spans[i]).style
                == Style::Red
            &&& forall|i: int| 0 <= i < r.spans.len() ==> (#[trigger] r.spans[i]).style
                != Style::Green
        }),
        ({
            let r = rendered_event(
                EventView::TokenUsage { prompt_tokens: n, completion_tokens: m },
            );
            shows(r, "in:"@ + text::decimal(n as nat)) && shows(
                r,
                "out:"@ + text::decimal(m as nat),
            )
        }),
{
    let started = rendered_event(EventView::ToolStarted { id: a, name: b, args: c });
    assert(started.spans[3].text == b && started.spans[5].text == c);
    let ok = rendered_event(EventView::ToolFinished { id: a, duration_ms: ms, success: true });
    assert(ok.spans[3].style == Style::Green);
    assert(ok.spans[5].text == text::decimal(ms as nat) + "ms"@);
    let failed = rendered_event(
        EventView::ToolFinished { id: a, duration_ms: ms, success: false },
    );
    assert(failed.spans[3].style == Style::Red);
    assert(failed.spans[5].text == text::decimal(ms as nat) + "ms"@);
    let usage = rendered_event(EventView::TokenUsage { prompt_tokens: n, completion_tokens: m });
    assert(usage.spans[3].text == "in:"@ + text::decimal(n as nat));
    assert(usage.spans[5].text == "out:"@ + text::decimal(m as nat));
}

/// Every tool is in the short list, in its place: after a line with how many there
/// are, a line for each, with its name and the first line of its description.
pub proof fn law_every_tool_is_listed(tools: Seq<ToolDefView>, i: int)
    requires
        0 <= i < tools.len(),
    ensures
        ({
            let list = short_list(tools);
            &&& list.len() == tools.len() + 1
            &&& list[0].spans.len() == 1 && text::holds(
                list[0].spans[0].text,
                text::decimal(tools.len()),
            )
            &&& shows(list[i + 1], tools[i].name)
            &&& text::lines(tools[i].description).len() > 0 ==> shows(
                list[i + 1],
                " — "@ + text::lines(tools[i].description)[0],
            )
        }),
{
    let list = short_list(tools);
    let n = text::decimal(tools.len());
    let tail = " registered tools:"@;
    assert(n + tail =~= Seq::<char>::empty() + n + tail);
    assert(list[i + 1] == short_entry(tools[i]));
    assert(list[i + 1].spans[1].text == tools[i].name);
    assert(list[i + 1].spans[2].text == " — "@ + first_line(tools[i].description));
}

proof fn lemma_long_list_grows(tools: Seq<ToolDefView>, all: nat, i: int)
    requires
        0 <= i <= tools.len(),
    ensures
        long_list(tools.take(i), all).is_prefix_of(long_list(tools, all)),
    decreases tools.len() - i,
{
    if i < tools.len() {
        lemma_long_list_grows(tools, all, i + 1);
        let a = long_list(tools.take(i), all);
        let b = long_list(tools.take(i + 1), all);
        let c = long_list(tools, all);
        assert(tools.take(i + 1).drop_last() =~= tools.take(i));
        assert(a =~= b.subrange(0, a.len() as int));
        assert(a =~= c.subrange(0, a.len() as int)) by {
            assert(b == c.subrange(0, b.len() as int));
            assert forall|k: int| 0 <= k < a.len() implies a[k] == c[k] by {
                assert(b[k] == c[k]);
            }
        }
    } else {
        assert(tools.take(i) =~= tools);
        let c = long_list(tools, all);
        assert(c =~= c.subrange(0, c.len() as int));
    }
}

/// Every tool is in the long list with all that is said of it: its name, each line
/// of its description, and each line of the schema of its parameters.
pub proof fn law_every_tool_is_described(tools: Seq<ToolDefView>, i: int)
    requires
        0 <= i < tools.len(),
    ensures
        ({
            let list = long_list(tools, tools.len());
            let about = text::lines(tools[i].description);
            let schema = text::lines(json::pretty(tools[i].parameters));
            exists|at: int|
                {
                    &&& 0 < at && at + 1 + about.len() + schema.len() <= list.len()
                    &&& shows(#[trigger] list[at], tools[i].name)
                    &&& forall|k: int|
                        0 <= k < about.len() ==> shows(
                            list[at + 1 + k],
                            "    "@ + #[trigger] about[k],
                        )
                    &&& forall|k: int|
                        0 <= k < schema.len() ==> shows(
                            list[at + 1 + about.len() + k],
                            "    "@ + #[trigger] schema[k],
                        )
                }
        }),
{
    let all = tools.len();
    let list = long_list(tools, all);
    let about = text::lines(tools[i].description);
    let schema = text::lines(json::pretty(tools[i].parameters));
    let before = long_list(tools.take(i), all);
    let upto = long_list(tools.take(i + 1), all);
    let entry = long_entry(tools[i], json::pretty(tools[i].parameters));
    assert(tools.take(i + 1).drop_last() =~= tools.take(i));
    assert(tools.take(i + 1).last() == tools[i]);
    assert(upto == before + entry);
    lemma_long_list_grows(tools, all, i + 1);
    assert forall|k: int| 0 <= k < entry.len() implies list[before.len() + k] == entry[k] by {
        assert(upto == list.subrange(0, upto.len() as int));
        assert(upto[before.len() + k] == entry[k]);
    }
    let at = before.len() + 1int;
    assert(list[before.len() + 1int] == entry[1]);
    assert(entry[1].spans[1].text == tools[i].name);
    assert forall|k: int| 0 <= k < about.len() implies shows(
        list[at + 1 + k],
        "    "@ + #[trigger] about[k],
    ) by {
        assert(list[before.len() + (2 + k)] == entry[2 + k]);
        assert(entry[2 + k] == indented(about[k]));
        assert(entry[2 + k].spans[0].text == "    "@ + about[k]);
    }
    assert forall|k: int| 0 <= k < schema.len() implies shows(
        list[at + 1 + about.len() + k],
        "    "@ + #[trigger] schema[k],
    ) by {
        assert(list[before.len() + (2 + about.len() + k)] == entry[2 + about.len() + k]);
        assert(entry[2 + about.len() + k] == indented(schema[k]));
        assert(entry[2 + about.len() + k].spans[0].text == "    "@ + schema[k]);
    }
    assert(upto.len() <= list.len());
}

} // verus!
