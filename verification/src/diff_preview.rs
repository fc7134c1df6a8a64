//! The preview of a change before it is written.
use crate::text::{copy_str, str_eq, trim_str};
use crate::text;
use crate::types;
use vstd::prelude::*;

verus! {

/// Whether a change is approved, and what it is.
#[derive(Debug, Clone, PartialEq, Eq)]
pub struct ConfirmResult {
    /// Whether it may be written.
    pub approved: bool,
    /// The change as a unified diff.
    pub diff: String,
}

/// How many unchanged lines a diff shows around each change.
pub const DIFF_CONTEXT_LINES: usize = 3;

/// The unified diff of two texts, with a number of lines of context and with
/// the names of the two sides.
pub uninterp spec fn unified_diff(
    old: Seq<char>,
    new: Seq<char>,
    radius: nat,
    before: Seq<char>,
    after: Seq<char>,
) -> Seq<char>;

/// `similar::TextDiff::from_lines` and its unified diff, with the given number
/// of lines of context and the given header. The text depends on the arguments
/// alone, and there is none where nothing changed.
#[verifier::external_body]
fn line_diff(old: &str, new: &str, radius: usize, before: &str, after: &str) -> (r: String)
    requires
        radius <= usize::MAX / 2,
    ensures
        r@ == unified_diff(old@, new@, radius as nat, before@, after@),
        old@ == new@ ==> r@.len() == 0,
{
    similar::TextDiff::from_lines(old, new)
        .unified_diff()
        .context_radius(radius)
        .header(before, after)
        .to_string()
}

/// The diff of a change of a file.
pub open spec fn change_diff(path: Seq<char>, old: Seq<char>, new: Seq<char>) -> Seq<char> {
    unified_diff(
        old,
        new,
        DIFF_CONTEXT_LINES as nat,
        path + " (before)"@,
        path + " (after)"@,
    )
}

/// The diff of a change of a file, with three lines of context.
pub fn generate_diff(path: &str, old_content: &str, new_content: &str) -> (r: String)
    ensures
        r@ == change_diff(path@, old_content@, new_content@),
        old_content@ == new_content@ ==> r@.len() == 0,
{
    let mut before = copy_str(path);
    before.append(" (before)");
    let mut after = copy_str(path);
    after.append(" (after)");
    line_diff(old_content, new_content, DIFF_CONTEXT_LINES, &before, &after)
}

/// The confirmation where nobody can be asked: as configured.
pub fn confirm_non_interactive(path: &str, diff: &str, auto_approve: bool) -> (r: ConfirmResult)
    ensures
        r.approved == auto_approve,
        r.diff@ == diff@,
{
    ConfirmResult { approved: auto_approve, diff: copy_str(diff) }
}

/// Whether an answer approves a change.
pub open spec fn approves(input: Option<Seq<char>>) -> bool {
    match input {
        Some(s) => {
            let t = text::trim(s);
            t == "y"@ || t == "Y"@ || t == "yes"@ || t == "YES"@
        },
        None => false,
    }
}

/// The confirmation by the line that the user typed, or none where it could not
/// be read: `y`, `Y`, `yes` and `YES` approve, everything else does not.
pub fn confirm_interactive(diff: &str, input: &Option<String>) -> (r: ConfirmResult)
    ensures
        r.approved == approves(types::opt_view(*input)),
        r.diff@ == diff@,
{
    let approved = match input {
        Some(s) => {
            let t = trim_str(s);
            str_eq(&t, "y") || str_eq(&t, "Y") || str_eq(&t, "yes") || str_eq(&t, "YES")
        },
        None => false,
    };
    ConfirmResult { approved, diff: copy_str(diff) }
}

/// Only a plain yes approves a change: `y` or `yes`, in lower case or in upper
/// case, with whatever whitespace around it.
pub proof fn law_only_a_yes_approves(s: Seq<char>)
    ensures
        !approves(None),
        approves(Some(s)) <==> {
            let t = text::trim(s);
            ||| t == seq!['y'] || t == seq!['Y']
            ||| t == seq!['y', 'e', 's'] || t == seq!['Y', 'E', 'S']
        },
{
    reveal_strlit("y");
    reveal_strlit("Y");
    reveal_strlit("yes");
    reveal_strlit("YES");
    assert("y"@ =~= seq!['y']);
    assert("Y"@ =~= seq!['Y']);
    assert("yes"@ =~= seq!['y', 'e', 's']);
    assert("YES"@ =~= seq!['Y', 'E', 'S']);
}

/// A preview shows how the old text becomes the new one, under two different
/// headings that both begin with the path.
pub proof fn law_previews_show_the_change(path: Seq<char>, old: Seq<char>, new: Seq<char>)
    ensures
        exists|before: Seq<char>, after: Seq<char>, lines: nat|
            path.is_prefix_of(before) && path.is_prefix_of(after) && before != after && change_diff(
                path,
                old,
                new,
            ) == #[trigger] unified_diff(old, new, lines, before, after),
{
    reveal_strlit(" (before)");
    reveal_strlit(" (after)");
    let before = path + " (before)"@;
    let after = path + " (after)"@;
    assert(before.len() != after.len());
    assert(path =~= before.subrange(0, path.len() as int));
    assert(path =~= after.subrange(0, path.len() as int));
    assert(change_diff(path, old, new) == unified_diff(
        old,
        new,
        DIFF_CONTEXT_LINES as nat,
        before,
        after,
    ));
}

} // verus!
