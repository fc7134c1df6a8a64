//! The progress summary that a run leaves when it reaches its limit of
//! iterations.
use crate::text::{self, contains_string, copy_str, decimal_usize, join_strings, str_eq};
use crate::types::{self, copy_opt};
use vstd::prelude::*;

verus! {

/// One execution of a tool.
#[derive(Debug, PartialEq, Eq)]
pub struct ToolRecord {
    /// Name of the tool.
    pub tool_name: String,
    /// Whether it succeeded.
    pub success: bool,
    /// Why it failed.
    pub error: Option<String>,
}

/// What a record says.
#[verifier::ext_equal]
pub struct RecordView {
    pub tool_name: Seq<char>,
    pub success: bool,
    pub error: Option<Seq<char>>,
}

impl View for ToolRecord {
    type V = RecordView;

    open spec fn view(&self) -> RecordView {
        RecordView {
            tool_name: self.tool_name@,
            success: self.success,
            error: types::opt_view(self.error),
        }
    }
}

impl Clone for ToolRecord {
    fn clone(&self) -> (r: Self)
        ensures
            r@ == self@,
    {
        ToolRecord {
            tool_name: copy_str(&self.tool_name),
            success: self.success,
            error: copy_opt(&self.error),
        }
    }
}

/// What a list of records says.
pub open spec fn records_view(h: Seq<ToolRecord>) -> Seq<RecordView> {
    h.map_values(|r: ToolRecord| r@)
}

/// A list with an element appended, unless it is there already.
pub open spec fn push_new<A>(s: Seq<A>, a: A) -> Seq<A> {
    if s.contains(a) {
        s
    } else {
        s.push(a)
    }
}

/// The names of the tools with the given outcome, each once, in the order of
/// their first occurrence.
pub open spec fn names_with(h: Seq<RecordView>, success: bool) -> Seq<Seq<char>>
    decreases h.len(),
{
    if h.len() == 0 {
        Seq::empty()
    } else {
        let before = names_with(h.drop_last(), success);
        if h.last().success == success {
            push_new(before, h.last().tool_name)
        } else {
            before
        }
    }
}

/// Why a call failed, where nothing is said about it.
pub open spec fn reason(r: RecordView) -> Seq<char> {
    match r.error {
        Some(e) => e,
        None => "unknown error"@,
    }
}

/// The failures, as tool name and reason, each pair once, in the order of
/// their first occurrence.
pub open spec fn failures(h: Seq<RecordView>) -> Seq<(Seq<char>, Seq<char>)>
    decreases h.len(),
{
    if h.len() == 0 {
        Seq::empty()
    } else {
        let before = failures(h.drop_last());
        if !h.last().success {
            push_new(before, (h.last().tool_name, reason(h.last())))
        } else {
            before
        }
    }
}

/// A list of lines, or a note that there is none.
pub open spec fn or_none(lines: Seq<Seq<char>>) -> Seq<Seq<char>> {
    if lines.len() == 0 {
        seq!["  (none)"@]
    } else {
        lines
    }
}

/// What to do next.
pub open spec fn suggestion(h: Seq<RecordView>) -> Seq<char> {
    let failed = names_with(h, false);
    if failed.len() == 0 {
        "  All tool calls succeeded. Increase max_iterations or refine the prompt to converge faster."@
    } else {
        "  Re-run with corrected arguments for: "@ + text::join(failed, ", "@) + "."@
    }
}

/// The lines of the completed tools.
pub open spec fn completed_lines(h: Seq<RecordView>) -> Seq<Seq<char>> {
    names_with(h, true).map_values(|n: Seq<char>| "- "@ + n)
}

/// The lines of the failures.
pub open spec fn failed_lines(h: Seq<RecordView>) -> Seq<Seq<char>> {
    failures(h).map_values(|f: (Seq<char>, Seq<char>)| "- "@ + f.0 + ": "@ + f.1)
}

/// The lines of the summary: what was completed, what failed, what to do next.
pub open spec fn summary_lines(max_iterations: nat, h: Seq<RecordView>) -> Seq<Seq<char>> {
    seq!["Max iterations ("@ + text::decimal(max_iterations) + ") reached."@] + seq![
        "Completed:"@,
    ] + or_none(completed_lines(h)) + seq!["Failed:"@] + or_none(failed_lines(h)) + seq![
        "Suggestion:"@,
    ] + seq![suggestion(h)]
}

/// The names of the tools with the given outcome.
fn collect_names(h: &[ToolRecord], success: bool) -> (r: Vec<String>)
    ensures
        text::views(r@) == names_with(records_view(h@), success),
{
    let mut r: Vec<String> = Vec::new();
    let mut i: usize = 0;
    assert(text::views(r@) =~= Seq::empty());
    while i < h.len()
        invariant
            i <= h@.len(),
            text::views(r@) == names_with(records_view(h@).take(i as int), success),
        decreases h@.len() - i,
    {
        proof {
            let t = records_view(h@).take(i + 1);
            assert(t.drop_last() =~= records_view(h@).take(i as int));
            assert(t.last() == h@[i as int]@);
        }
        if h[i].success == success {
            if !contains_string(&r, &h[i].tool_name) {
                let ghost before = r@;
                r.push(copy_str(&h[i].tool_name));
                assert(text::views(r@) =~= text::views(before).push(h@[i as int].tool_name@));
            }
        }
        i += 1;
    }
    assert(records_view(h@).take(h@.len() as int) =~= records_view(h@));
    r
}

/// What a pair of texts says.
pub open spec fn pairs_view(v: Seq<(String, String)>) -> Seq<(Seq<char>, Seq<char>)> {
    v.map_values(|p: (String, String)| (p.0@, p.1@))
}

/// Whether a pair of texts is one of a list.
fn contains_pair(list: &[(String, String)], a: &str, b: &str) -> (r: bool)
    ensures
        r == pairs_view(list@).contains((a@, b@)),
{
    let mut i: usize = 0;
    while i < list.len()
        invariant
            i <= list@.len(),
            forall|k: int| 0 <= k < i ==> (#[trigger] pairs_view(list@)[k]) != (a@, b@),
        decreases list@.len() - i,
    {
        assert(pairs_view(list@)[i as int] == (list@[i as int].0@, list@[i as int].1@));
        if str_eq(&list[i].0, a) && str_eq(&list[i].1, b) {
            return true;
        }
        i += 1;
    }
    false
}

/// The failures, each pair of tool name and reason once.
fn collect_failures(h: &[ToolRecord]) -> (r: Vec<(String, String)>)
    ensures
        pairs_view(r@) == failures(records_view(h@)),
{
    let mut r: Vec<(String, String)> = Vec::new();
    let mut i: usize = 0;
    assert(pairs_view(r@) =~= Seq::empty());
    while i < h.len()
        invariant
            i <= h@.len(),
            pairs_view(r@) == failures(records_view(h@).take(i as int)),
        decreases h@.len() - i,
    {
        proof {
            let t = records_view(h@).take(i + 1);
            assert(t.drop_last() =~= records_view(h@).take(i as int));
            assert(t.last() == h@[i as int]@);
        }
        if !h[i].success {
            let err = match &h[i].error {
                Some(e) => copy_str(e),
                None => copy_str("unknown error"),
            };
            if !contains_pair(&r, &h[i].tool_name, &err) {
                let ghost before = r@;
                let name = copy_str(&h[i].tool_name);
                let ghost p = (name@, err@);
                r.push((name, err));
                assert(pairs_view(r@) =~= pairs_view(before).push(p));
            }
        }
        i += 1;
    }
    assert(records_view(h@).take(h@.len() as int) =~= records_view(h@));
    r
}

/// Appends one line.
fn push_line(lines: &mut Vec<String>, line: String)
    ensures
        text::views(final(lines)@) == text::views(old(lines)@) + seq![line@],
{
    let ghost before = lines@;
    lines.push(line);
    assert(text::views(lines@) =~= text::views(before) + seq![line@]);
}

/// The progress summary of a run that reached its limit of iterations: the
/// tools that succeeded, the failures with their reasons, and what to do next.
pub fn generate_summary(max_iterations: usize, history: &[ToolRecord]) -> (r: String)
    ensures
        r@ == text::join(
            summary_lines(max_iterations as nat, records_view(history@)),
            "\n"@,
        ),
{
    let ghost h = records_view(history@);
    let mut lines: Vec<String> = Vec::new();
    let mut first = copy_str("Max iterations (");
    let n = decimal_usize(max_iterations);
    first.append(&n);
    first.append(") reached.");
    lines.push(first);
    assert(text::views(lines@) =~= seq![first@]);
    push_line(&mut lines, copy_str("Completed:"));

    let completed = collect_names(history, true);
    let ghost base1 = text::views(lines@);
    if completed.len() == 0 {
        assert(text::views(completed@).len() == 0);
        assert(completed_lines(h).len() == 0);
        push_line(&mut lines, copy_str("  (none)"));
    } else {
        let mut i: usize = 0;
        assert(base1 + completed_lines(h).take(0) =~= base1);
        while i < completed.len()
            invariant
                i <= completed@.len(),
                text::views(completed@) == names_with(h, true),
                text::views(lines@) == base1 + completed_lines(h).take(i as int),
            decreases completed@.len() - i,
        {
            let mut s = copy_str("- ");
            s.append(&completed[i]);
            proof {
                assert(text::views(completed@)[i as int] == completed@[i as int]@);
                assert(completed_lines(h)[i as int] == s@);
                assert(base1 + completed_lines(h).take(i + 1) =~= base1 + completed_lines(h).take(
                    i as int,
                ) + seq![s@]);
            }
            push_line(&mut lines, s);
            i += 1;
        }
        assert(text::views(completed@).len() == completed@.len());
        assert(completed_lines(h).take(i as int) =~= completed_lines(h));
    }
    assert(text::views(lines@) == base1 + or_none(completed_lines(h)));

    push_line(&mut lines, copy_str("Failed:"));
    let failed = collect_failures(history);
    let ghost base2 = text::views(lines@);
    if failed.len() == 0 {
        assert(pairs_view(failed@).len() == 0);
        assert(failed_lines(h).len() == 0);
        push_line(&mut lines, copy_str("  (none)"));
    } else {
        let mut i: usize = 0;
        assert(base2 + failed_lines(h).take(0) =~= base2);
        while i < failed.len()
            invariant
                i <= failed@.len(),
                pairs_view(failed@) == failures(h),
                text::views(lines@) == base2 + failed_lines(h).take(i as int),
            decreases failed@.len() - i,
        {
            let mut s = copy_str("- ");
            s.append(&failed[i].0);
            s.append(": ");
            s.append(&failed[i].1);
            proof {
                assert(pairs_view(failed@)[i as int] == (failed@[i as int].0@, failed@[i as int].1@));
                assert(failed_lines(h)[i as int] == s@);
                assert(base2 + failed_lines(h).take(i + 1) =~= base2 + failed_lines(h).take(
                    i as int,
                ) + seq![s@]);
            }
            push_line(&mut lines, s);
            i += 1;
        }
        assert(pairs_view(failed@).len() == failed@.len());
        assert(failed_lines(h).take(i as int) =~= failed_lines(h));
    }
    assert(text::views(lines@) == base2 + or_none(failed_lines(h)));

    push_line(&mut lines, copy_str("Suggestion:"));
    let failed_tools = collect_names(history, false);
    assert(text::views(failed_tools@).len() == failed_tools@.len());
    if failed_tools.len() == 0 {
        push_line(
            &mut lines,
            copy_str(
                "  All tool calls succeeded. Increase max_iterations or refine the prompt to converge faster.",
            ),
        );
    } else {
        let mut s = copy_str("  Re-run with corrected arguments for: ");
        let names = join_strings(&failed_tools, ", ");
        s.append(&names);
        s.append(".");
        push_line(&mut lines, s);
    }
    assert(text::views(lines@) =~= summary_lines(max_iterations as nat, h));
    join_strings(&lines, "\n")
}

/// A tool is listed as completed exactly where one of its executions succeeded,
/// and as failed exactly where one of them failed.
pub proof fn law_names_are_those_of_the_history(h: Seq<RecordView>, success: bool, name: Seq<char>)
    ensures
        names_with(h, success).contains(name) <==> exists|i: int|
            0 <= i < h.len() && (#[trigger] h[i]).success == success && h[i].tool_name == name,
    decreases h.len(),
{
    if h.len() > 0 {
        let t = h.drop_last();
        law_names_are_those_of_the_history(t, success, name);
        let before = names_with(t, success);
        let now = names_with(h, success);
        if h.last().success == success && !before.contains(h.last().tool_name) {
            assert(now == before.push(h.last().tool_name));
            assert(now.last() == h.last().tool_name);
            if before.contains(name) {
                let k = choose|k: int| 0 <= k < before.len() && before[k] == name;
                assert(now[k] == name);
            }
            if now.contains(name) && name != h.last().tool_name {
                let k = choose|k: int| 0 <= k < now.len() && now[k] == name;
                assert(before[k] == name);
            }
        }
        if names_with(t, success).contains(name) {
            let i = choose|i: int|
                0 <= i < t.len() && (#[trigger] t[i]).success == success && t[i].tool_name == name;
            assert(h[i] == t[i]);
        }
        if exists|i: int|
            0 <= i < h.len() && (#[trigger] h[i]).success == success && h[i].tool_name == name {
            let i = choose|i: int|
                0 <= i < h.len() && (#[trigger] h[i]).success == success && h[i].tool_name == name;
            if i < t.len() {
                assert(t[i] == h[i]);
            }
        }
    }
}

/// No tool is listed twice.
pub proof fn law_names_are_distinct(h: Seq<RecordView>, success: bool)
    ensures
        names_with(h, success).no_duplicates(),
    decreases h.len(),
{
    if h.len() > 0 {
        law_names_are_distinct(h.drop_last(), success);
    }
}

/// A failure is listed, with its reason, exactly where it happened.
pub proof fn law_failures_are_those_of_the_history(
    h: Seq<RecordView>,
    name: Seq<char>,
    why: Seq<char>,
)
    ensures
        failures(h).contains((name, why)) <==> exists|i: int|
            {
                &&& 0 <= i < h.len()
                &&& !(#[trigger] h[i]).success
                &&& h[i].tool_name == name
                &&& h[i].error == Some(why) || h[i].error is None && why == "unknown error"@
            },
    decreases h.len(),
{
    if h.len() > 0 {
        let t = h.drop_last();
        law_failures_are_those_of_the_history(t, name, why);
        let before = failures(t);
        let now = failures(h);
        let last = (h.last().tool_name, reason(h.last()));
        if !h.last().success && !before.contains(last) {
            assert(now == before.push(last));
            assert(now.last() == last);
            if before.contains((name, why)) {
                let k = choose|k: int| 0 <= k < before.len() && before[k] == (name, why);
                assert(now[k] == (name, why));
            }
            if now.contains((name, why)) && (name, why) != last {
                let k = choose|k: int| 0 <= k < now.len() && now[k] == (name, why);
                assert(before[k] == (name, why));
            }
        }
        if before.contains((name, why)) {
            let i = choose|i: int|
                {
                    &&& 0 <= i < t.len()
                    &&& !(#[trigger] t[i]).success
                    &&& t[i].tool_name == name
                    &&& t[i].error == Some(why) || t[i].error is None && why == "unknown error"@
                };
            assert(h[i] == t[i]);
        }
        if exists|i: int|
            {
                &&& 0 <= i < h.len()
                &&& !(#[trigger] h[i]).success
                &&& h[i].tool_name == name
                &&& h[i].error == Some(why) || h[i].error is None && why == "unknown error"@
            } {
            let i = choose|i: int|
                {
                    &&& 0 <= i < h.len()
                    &&& !(#[trigger] h[i]).success
                    &&& h[i].tool_name == name
                    &&& h[i].error == Some(why) || h[i].error is None && why == "unknown error"@
                };
            if i < t.len() {
                assert(t[i] == h[i]);
            } else {
                assert(h[i] == h.last());
            }
        }
    }
}

/// The summary tells of everything that ran: after its heading and the limit, a
/// line for each tool that succeeded; then a line for each failure, with the tool
/// and the reason; and what to do next, which names each tool that failed.
pub proof fn law_the_summary_tells_what_ran(max_iterations: nat, h: Seq<RecordView>, i: int)
    requires
        0 <= i < h.len(),
    ensures
        ({
            let lines = summary_lines(max_iterations, h);
            &&& lines[0] == "Max iterations ("@ + text::decimal(max_iterations) + ") reached."@
            &&& lines[1] == "Completed:"@
            &&& h[i].success ==> exists|k: int|
                2 <= k < lines.len() && #[trigger] lines[k] == "- "@ + h[i].tool_name
            &&& !h[i].success ==> exists|k: int|
                4 <= k < lines.len() && #[trigger] lines[k] == "- "@ + h[i].tool_name + ": "@ + (
                match h[i].error {
                    Some(e) => e,
                    None => "unknown error"@,
                })
            &&& !h[i].success ==> text::holds(lines.last(), h[i].tool_name)
            &&& lines[lines.len() - 2] == "Suggestion:"@
        }),
{
    let lines = summary_lines(max_iterations, h);
    let done = completed_lines(h);
    let failed = failed_lines(h);
    law_names_are_those_of_the_history(h, h[i].success, h[i].tool_name);
    if h[i].success {
        let names = names_with(h, true);
        let k = choose|k: int| 0 <= k < names.len() && names[k] == h[i].tool_name;
        assert(done[k] == "- "@ + h[i].tool_name);
        assert(lines[2 + k] == or_none(done)[k]);
    } else {
        let why = reason(h[i]);
        law_failures_are_those_of_the_history(h, h[i].tool_name, why);
        let all = failures(h);
        let k = choose|k: int| 0 <= k < all.len() && all[k] == (h[i].tool_name, why);
        assert(failed[k] == "- "@ + h[i].tool_name + ": "@ + why);
        assert(lines[3 + or_none(done).len() + k] == or_none(failed)[k]);
        let names = names_with(h, false);
        let j = choose|j: int| 0 <= j < names.len() && names[j] == h[i].tool_name;
        text::law_joining_keeps_every_part(names, ", "@, j);
        let list = text::join(names, ", "@);
        let (a, b) = choose|a: Seq<char>, b: Seq<char>|
            list == #[trigger] (a + h[i].tool_name + b);
        let head = "  Re-run with corrected arguments for: "@;
        assert(lines.last() =~= (head + a) + h[i].tool_name + (b + "."@));
    }
}

/// The summary tells of nothing else: it has as many lines as there are tools
/// that succeeded and failures that differ, besides its headings and notes.
pub proof fn law_the_summary_tells_nothing_else(max_iterations: nat, h: Seq<RecordView>)
    ensures
        ({
            let done = names_with(h, true).len();
            let failed = failures(h).len();
            summary_lines(max_iterations, h).len() == 5 + (if done == 0 {
                1
            } else {
                done
            }) + (if failed == 0 {
                1
            } else {
                failed
            })
        }),
        (forall|i: int| 0 <= i < h.len() ==> (#[trigger] h[i]).success) ==> summary_lines(
            max_iterations,
            h,
        ).last()
            == "  All tool calls succeeded. Increase max_iterations or refine the prompt to converge faster."@,
{
    if forall|i: int| 0 <= i < h.len() ==> (#[trigger] h[i]).success {
        let names = names_with(h, false);
        if names.len() > 0 {
            law_names_are_those_of_the_history(h, false, names[0]);
            assert(names.contains(names[0]));
        }
    }
}

} // verus!
