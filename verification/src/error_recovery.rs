//! Error messages that help a model to correct itself.
use crate::text::{
    self, copy_str, decimal_usize, join_range, join_strings, lines_str, to_chars,
};
use vstd::prelude::*;

verus! {

/// The least number of insertions, deletions and substitutions of characters
/// that turn one text into the other.
pub open spec fn edit_distance(a: Seq<char>, b: Seq<char>) -> nat
    decreases a.len() + b.len(),
{
    if a.len() == 0 {
        b.len()
    } else if b.len() == 0 {
        a.len()
    } else {
        let deletion = edit_distance(a.drop_last(), b) + 1;
        let insertion = edit_distance(a, b.drop_last()) + 1;
        let substitution = edit_distance(a.drop_last(), b.drop_last()) + if a.last() == b.last() {
            0nat
        } else {
            1nat
        };
        let least = if deletion <= insertion {
            deletion
        } else {
            insertion
        };
        if substitution <= least {
            substitution
        } else {
            least
        }
    }
}

/// `strsim::levenshtein`: the edit distance of two texts, counted in
/// characters.
#[verifier::external_body]
fn levenshtein(a: &str, b: &str) -> (r: usize)
    ensures
        r == edit_distance(a@, b@),
{
    strsim::levenshtein(a, b)
}

/// How many lines of a file are searched.
pub const SEARCH_LINES: usize = 500;

/// How many lines are shown before and after the closest piece.
pub const CONTEXT_LINES: usize = 3;

/// The piece of a file that is closest to a text.
#[derive(Debug, Clone, PartialEq, Eq)]
pub struct ClosestMatch {
    /// The number of its first line, from one.
    pub line: usize,
    /// The piece with the lines around it.
    pub context: String,
    /// Its edit distance to the text.
    pub distance: usize,
}

/// What a closest match says.
#[verifier::ext_equal]
pub struct MatchView {
    pub line: nat,
    pub context: Seq<char>,
    pub distance: nat,
}

impl View for ClosestMatch {
    type V = MatchView;

    open spec fn view(&self) -> MatchView {
        MatchView {
            line: self.line as nat,
            context: self.context@,
            distance: self.distance as nat,
        }
    }
}

/// Some lines of a file as a text.
pub open spec fn lines_text(lines: Seq<Seq<char>>, from: int, to: int) -> Seq<char> {
    text::join(lines.subrange(from, to), "\n"@)
}

/// The edit distance of a text to the lines of a file from index `start` on.
pub open spec fn distance_at(
    lines: Seq<Seq<char>>,
    old: Seq<char>,
    height: int,
    start: int,
) -> nat {
    edit_distance(old, lines_text(lines, start, start + height))
}

/// The first of the indexes below `n` at which the edit distance is least.
pub open spec fn best_start(
    lines: Seq<Seq<char>>,
    old: Seq<char>,
    height: int,
    n: int,
) -> int
    decreases n,
{
    if n <= 1 {
        0
    } else {
        let b = best_start(lines, old, height, n - 1);
        if distance_at(lines, old, height, n - 1) < distance_at(lines, old, height, b) {
            n - 1
        } else {
            b
        }
    }
}

/// The lesser of two numbers.
pub open spec fn least(a: int, b: int) -> int {
    if a <= b {
        a
    } else {
        b
    }
}

/// How many lines a text that is searched for has, at least one.
pub open spec fn height_of(old: Seq<char>) -> int {
    if text::lines(old).len() >= 1 {
        text::lines(old).len() as int
    } else {
        1
    }
}

/// How many lines of a file are searched.
pub open spec fn searched_lines(file: Seq<char>) -> int {
    least(text::lines(file).len() as int, SEARCH_LINES as int)
}

/// The piece of a file that is closest to a text: of as many lines as the text
/// has, among the first lines of the file, with some lines around it; or all of
/// the file where it has fewer lines than the text. There is none where one of
/// the two is empty.
pub open spec fn closest(file: Seq<char>, old: Seq<char>) -> Option<MatchView> {
    let lines = text::lines(file);
    let height = height_of(old);
    let limit = searched_lines(file);
    if file.len() == 0 || old.len() == 0 {
        None
    } else if limit < height {
        Some(MatchView { line: 1, context: file, distance: edit_distance(old, file) })
    } else {
        let start = best_start(lines, old, height, limit - height + 1);
        let from = if start >= CONTEXT_LINES {
            start - CONTEXT_LINES
        } else {
            0
        };
        let to = least(start + height + CONTEXT_LINES, lines.len() as int);
        Some(
            MatchView {
                line: (start + 1) as nat,
                context: lines_text(lines, from, to),
                distance: distance_at(lines, old, height, start),
            },
        )
    }
}

/// What an optional match says.
pub open spec fn opt_match_view(m: Option<ClosestMatch>) -> Option<MatchView> {
    match m {
        Some(m) => Some(m@),
        None => None,
    }
}

/// The index with the least distance lies in range, no index has a lesser one,
/// and no index before it has the same.
pub proof fn law_best_start_is_best(
    lines: Seq<Seq<char>>,
    old: Seq<char>,
    height: int,
    n: int,
)
    requires
        n >= 1,
    ensures
        ({
            let b = best_start(lines, old, height, n);
            &&& 0 <= b < n
            &&& forall|j: int|
                0 <= j < n ==> distance_at(lines, old, height, b) <= #[trigger] distance_at(
                    lines,
                    old,
                    height,
                    j,
                )
            &&& forall|j: int|
                0 <= j < b ==> distance_at(lines, old, height, b) < #[trigger] distance_at(
                    lines,
                    old,
                    height,
                    j,
                )
        }),
    decreases n,
{
    if n > 1 {
        law_best_start_is_best(lines, old, height, n - 1);
    }
}

/// The distance of two texts is zero exactly where they are the same.
pub proof fn law_distance_zero_means_equal(a: Seq<char>, b: Seq<char>)
    ensures
        edit_distance(a, b) == 0 <==> a == b,
    decreases a.len() + b.len(),
{
    if a.len() == 0 || b.len() == 0 {
        if edit_distance(a, b) == 0 {
            assert(a =~= b);
        }
    } else {
        law_distance_zero_means_equal(a.drop_last(), b.drop_last());
        if edit_distance(a, b) == 0 {
            assert(a =~= a.drop_last().push(a.last()));
            assert(b =~= b.drop_last().push(b.last()));
        }
    }
}

/// Where the text stands in the searched lines of the file, what is found is no
/// edit away from it.
pub proof fn law_lines_of_the_file_are_found(file: Seq<char>, old: Seq<char>, start: int)
    requires
        file.len() > 0,
        old.len() > 0,
        0 <= start <= searched_lines(file) - height_of(old),
        lines_text(text::lines(file), start, start + height_of(old)) == old,
    ensures
        closest(file, old) matches Some(m) && m.distance == 0,
{
    let n = searched_lines(file) - height_of(old) + 1;
    law_best_start_is_best(text::lines(file), old, height_of(old), n);
    assert(distance_at(text::lines(file), old, height_of(old), start) == 0) by {
        law_distance_zero_means_equal(old, old);
    }
}

/// The piece of a file that is closest to a text.
pub fn find_closest_match(file_content: &str, old_string: &str) -> (r: Option<ClosestMatch>)
    ensures
        opt_match_view(r) == closest(file_content@, old_string@),
{
    let file_chars = to_chars(file_content);
    let old_chars = to_chars(old_string);
    if file_chars.len() == 0 || old_chars.len() == 0 {
        return None;
    }
    let old_lines = lines_str(old_string);
    let height: usize = if old_lines.len() >= 1 {
        old_lines.len()
    } else {
        1
    };
    let lines = lines_str(file_content);
    let ghost all = text::lines(file_content@);
    let limit: usize = if lines.len() <= SEARCH_LINES {
        lines.len()
    } else {
        SEARCH_LINES
    };
    if limit < height {
        let distance = levenshtein(old_string, file_content);
        return Some(ClosestMatch { line: 1, context: copy_str(file_content), distance });
    }
    let n: usize = limit - height + 1;
    let mut best: usize = 0;
    let first = join_range(&lines, 0, height, "\n");
    let mut best_distance: usize = levenshtein(old_string, &first);
    let mut start: usize = 1;
    while start < n
        invariant
            1 <= start <= n,
            n == limit - height + 1,
            1 <= height <= limit <= lines@.len(),
            all == text::views(lines@),
            best == best_start(all, old_string@, height as int, start as int),
            best < start,
            best_distance == distance_at(all, old_string@, height as int, best as int),
        decreases n - start,
    {
        let piece = join_range(&lines, start, start + height, "\n");
        let distance = levenshtein(old_string, &piece);
        if distance < best_distance {
            best = start;
            best_distance = distance;
        }
        start += 1;
    }
    let from: usize = if best >= CONTEXT_LINES {
        best - CONTEXT_LINES
    } else {
        0
    };
    let to: usize = if lines.len() - best - height <= CONTEXT_LINES {
        lines.len()
    } else {
        best + height + CONTEXT_LINES
    };
    let context = join_range(&lines, from, to, "\n");
    Some(ClosestMatch { line: best + 1, context, distance: best_distance })
}

/// What is said where the text to replace is not in the file.
pub open spec fn not_found_message(
    path: Seq<char>,
    closest: Option<MatchView>,
) -> Seq<char> {
    let head = "old_string not found in '"@ + path
        + "': the text to replace does not match the file content (check whitespace/indentation and that the file was read recently)."@;
    match closest {
        Some(m) => head + "\nClosest match at line "@ + text::decimal(m.line)
            + " (Levenshtein distance "@ + text::decimal(m.distance) + "):\n"@ + m.context,
        None => head,
    }
}

/// What is said where the text to replace is not in the file: with the closest
/// piece of the file, where there is one.
pub fn format_not_found_error(path: &str, file_content: &str, old_string: &str) -> (r: String)
    ensures
        r@ == not_found_message(path@, closest(file_content@, old_string@)),
{
    let mut s = copy_str("old_string not found in '");
    s.append(path);
    s.append(
        "': the text to replace does not match the file content (check whitespace/indentation and that the file was read recently).",
    );
    match find_closest_match(file_content, old_string) {
        Some(m) => {
            s.append("\nClosest match at line ");
            let line = decimal_usize(m.line);
            s.append(&line);
            s.append(" (Levenshtein distance ");
            let distance = decimal_usize(m.distance);
            s.append(&distance);
            s.append("):\n");
            s.append(&m.context);
            s
        },
        None => s,
    }
}

/// How one tool call ended.
#[derive(Debug, Clone, PartialEq, Eq)]
pub struct ToolOutcome {
    /// Name of the tool.
    pub tool_name: String,
    /// Whether it succeeded.
    pub success: bool,
    /// Why it failed.
    pub error: Option<String>,
}

/// The line of a tool call: that it succeeded, or that it failed and why.
pub open spec fn outcome_line(o: ToolOutcome) -> Seq<char> {
    if o.success {
        "- "@ + o.tool_name@ + ": SUCCESS"@
    } else {
        "- "@ + o.tool_name@ + ": FAILED - "@ + match o.error {
            Some(e) => e@,
            None => "unknown error"@,
        }
    }
}

/// The list of the tool calls of an iteration, each with how it ended.
pub open spec fn outcomes_text(outcomes: Seq<ToolOutcome>) -> Seq<char> {
    if outcomes.len() == 0 {
        "No tool calls in this iteration."@
    } else {
        text::join(
            seq!["Tool results:"@] + outcomes.map_values(|o: ToolOutcome| outcome_line(o)),
            "\n"@,
        )
    }
}

/// The list of the tool calls of an iteration, each with how it ended.
pub fn format_tool_outcomes(outcomes: &[ToolOutcome]) -> (r: String)
    ensures
        r@ == outcomes_text(outcomes@),
{
    if outcomes.len() == 0 {
        return copy_str("No tool calls in this iteration.");
    }
    let mut lines: Vec<String> = Vec::new();
    lines.push(copy_str("Tool results:"));
    let mut i: usize = 0;
    while i < outcomes.len()
        invariant
            i <= outcomes@.len(),
            lines@.len() == i + 1,
            lines@[0]@ == "Tool results:"@,
            forall|k: int|
                1 <= k < lines@.len() ==> (#[trigger] lines@[k])@ == outcome_line(outcomes@[k - 1]),
        decreases outcomes@.len() - i,
    {
        let o = &outcomes[i];
        let mut s = copy_str("- ");
        s.append(&o.tool_name);
        if o.success {
            s.append(": SUCCESS");
        } else {
            s.append(": FAILED - ");
            match &o.error {
                Some(e) => {
                    s.append(e);
                },
                None => {
                    s.append("unknown error");
                },
            }
        }
        lines.push(s);
        i += 1;
    }
    assert(text::views(lines@) =~= seq!["Tool results:"@] + outcomes@.map_values(
        |o: ToolOutcome| outcome_line(o),
    ));
    join_strings(&lines, "\n")
}

/// What is shown of the closest piece: it is one of as many lines as the text has,
/// no other such piece among the searched lines is closer, and the first of the
/// closest is taken; it is shown with up to three lines before it and after it,
/// and under the number of its first line.
pub proof fn law_the_closest_piece_is_shown(file: Seq<char>, old: Seq<char>)
    requires
        file.len() > 0,
        old.len() > 0,
        ({
            let all = text::lines(file).len();
            text::lines(old).len() <= all && text::lines(old).len() <= 500
        }),
    ensures
        ({
            let lines = text::lines(file);
            let height = text::lines(old).len() as int;
            let limit = if lines.len() <= 500 {
                lines.len() as int
            } else {
                500
            };
            closest(file, old) matches Some(m) && exists|at: int|
                {
                    &&& 0 <= at <= limit - height
                    &&& m.line == at + 1
                    &&& m.distance == edit_distance(
                        old,
                        #[trigger] lines_text(lines, at, at + height),
                    )
                    &&& forall|j: int|
                        0 <= j <= limit - height ==> m.distance <= edit_distance(
                            old,
                            #[trigger] lines_text(lines, j, j + height),
                        )
                    &&& forall|j: int|
                        0 <= j < at ==> m.distance < edit_distance(
                            old,
                            #[trigger] lines_text(lines, j, j + height),
                        )
                    &&& m.context == text::join(
                        lines.subrange(
                            if at <= 3 {
                                0
                            } else {
                                at - 3
                            },
                            if at + height + 3 >= lines.len() {
                                lines.len() as int
                            } else {
                                at + height + 3
                            },
                        ),
                        seq!['\n'],
                    )
                }
        }),
{
    reveal_strlit("\n");
    assert("\n"@ =~= seq!['\n']);
    text::law_lines_make_up_the_text(old);
    let lines = text::lines(file);
    let height = height_of(old);
    let limit = searched_lines(file);
    law_best_start_is_best(lines, old, height, limit - height + 1);
    let at = best_start(lines, old, height, limit - height + 1);
    let m = closest(file, old)->0;
    assert(m.distance == edit_distance(old, lines_text(lines, at, at + height)));
    assert forall|j: int| 0 <= j <= limit - height implies m.distance <= edit_distance(
        old,
        #[trigger] lines_text(lines, j, j + height),
    ) by {
        assert(distance_at(lines, old, height, j) == edit_distance(
            old,
            lines_text(lines, j, j + height),
        ));
    }
    assert forall|j: int| 0 <= j < at implies m.distance < edit_distance(
        old,
        #[trigger] lines_text(lines, j, j + height),
    ) by {
        assert(distance_at(lines, old, height, j) == edit_distance(
            old,
            lines_text(lines, j, j + height),
        ));
    }
}

/// A text that is not found is answered with where it was looked for and, where
/// there is a closest piece, with that.
pub proof fn law_the_message_shows_the_piece(path: Seq<char>, m: MatchView)
    ensures
        text::holds(not_found_message(path, Some(m)), path),
        text::holds(not_found_message(path, Some(m)), m.context),
        text::holds(not_found_message(path, Some(m)), text::decimal(m.line)),
        text::holds(not_found_message(path, Some(m)), text::decimal(m.distance)),
        text::holds(not_found_message(path, None), path),
{
    let a = "old_string not found in '"@;
    let b
        = "': the text to replace does not match the file content (check whitespace/indentation and that the file was read recently)."@;
    let c = "\nClosest match at line "@;
    let l = text::decimal(m.line);
    let d = " (Levenshtein distance "@;
    let n = text::decimal(m.distance);
    let e = "):\n"@;
    let none = Seq::<char>::empty();
    let s = not_found_message(path, Some(m));
    assert(s =~= a + path + (b + c + l + d + n + e + m.context));
    assert(s =~= (a + path + b + c + l + d + n + e) + m.context + none);
    assert(s =~= (a + path + b + c) + l + (d + n + e + m.context));
    assert(s =~= (a + path + b + c + l + d) + n + (e + m.context));
    assert(not_found_message(path, None) =~= a + path + b);
}

/// Every tool call of an iteration is told, in order, with whether it succeeded,
/// and with why it failed where it did.
pub proof fn law_every_outcome_is_told(outcomes: Seq<ToolOutcome>)
    requires
        outcomes.len() > 0,
    ensures
        exists|lines: Seq<Seq<char>>|
            {
                &&& outcomes_text(outcomes) == #[trigger] text::join(lines, "\n"@)
                &&& lines.len() == outcomes.len() + 1
                &&& lines[0] == "Tool results:"@
                &&& forall|i: int|
                    0 <= i < outcomes.len() ==> {
                        &&& (#[trigger] outcomes[i]).success ==> lines[i + 1] == "- "@
                            + outcomes[i].tool_name@ + ": SUCCESS"@
                        &&& !outcomes[i].success && outcomes[i].error is Some ==> lines[i + 1]
                            == "- "@ + outcomes[i].tool_name@ + ": FAILED - "@
                            + outcomes[i].error->0@
                        &&& !outcomes[i].success && outcomes[i].error is None ==> lines[i + 1]
                            == "- "@ + outcomes[i].tool_name@ + ": FAILED - "@ + "unknown error"@
                    }
            },
{
    let lines = seq!["Tool results:"@] + outcomes.map_values(|o: ToolOutcome| outcome_line(o));
    assert(outcomes_text(outcomes) == text::join(lines, "\n"@));
    assert forall|i: int| 0 <= i < outcomes.len() implies lines[i + 1] == outcome_line(
        #[trigger] outcomes[i],
    ) by {}
}

/// One character more on one side adds at most one step; the same character more on
/// both sides adds none.
pub proof fn law_one_character_is_one_step(a: Seq<char>, b: Seq<char>, c: char)
    ensures
        edit_distance(a.push(c), b) <= edit_distance(a, b) + 1,
        edit_distance(a, b.push(c)) <= edit_distance(a, b) + 1,
        edit_distance(a.push(c), b.push(c)) <= edit_distance(a, b),
{
    assert(a.push(c).drop_last() =~= a);
    assert(b.push(c).drop_last() =~= b);
}

/// The distance is the same from either side. It is at least the difference of the
/// lengths, and at most the greater length.
pub proof fn law_distances_are_mutual(a: Seq<char>, b: Seq<char>)
    ensures
        edit_distance(a, b) == edit_distance(b, a),
        a.len() <= b.len() + edit_distance(a, b),
        edit_distance(a, b) <= a.len() || edit_distance(a, b) <= b.len(),
    decreases a.len() + b.len(),
{
    if a.len() > 0 && b.len() > 0 {
        law_distances_are_mutual(a.drop_last(), b);
        law_distances_are_mutual(a, b.drop_last());
        law_distances_are_mutual(a.drop_last(), b.drop_last());
    }
}

} // verus!
