//! The file tools: which paths may be touched, and what is done to a file that
//! is to be written or edited.
use crate::config::EnvVars;
use crate::diff_preview::{self, confirm_non_interactive, generate_diff};
use crate::encoding::{
    self, encode_content, read_with_encoding, Encoding, EncodingErrorView, ReadBytes,
};
use crate::error_recovery::{self, format_not_found_error};
use crate::sanitize::{self, sanitize_edit_content, sanitize_write_content};
use crate::text::{
    self, copy_str, count_chars, decimal_usize, from_chars, replace_chars, str_eq, to_chars,
};
use crate::validate::{self, after_rollback, Settled, ValidateError, ValidateErrorView};
use vstd::prelude::*;

verus! {

// ---------------------------------------------------------------------------
// Paths
// ---------------------------------------------------------------------------

/// An absolute path without links and without `.` and `..`.
#[derive(Debug)]
pub struct CanonicalPath {
    /// Its components, from the root of the file system on.
    pub components: Vec<Vec<u8>>,
    /// The path as it is shown.
    pub display: String,
}

/// What a canonical path says.
#[verifier::ext_equal]
pub struct PathView {
    pub components: Seq<Seq<u8>>,
    pub display: Seq<char>,
}

/// The components of a path, as sequences.
pub open spec fn components_view(v: Seq<Vec<u8>>) -> Seq<Seq<u8>> {
    v.map_values(|c: Vec<u8>| c@)
}

impl View for CanonicalPath {
    type V = PathView;

    open spec fn view(&self) -> PathView {
        PathView { components: components_view(self.components@), display: self.display@ }
    }
}

/// What the file system says of a path that is asked for.
#[derive(Debug)]
pub enum PathProbe {
    /// It exists: its canonical form, or the error of asking for that.
    Found(Result<CanonicalPath, String>),
    /// It does not exist.
    Missing {
        /// The canonical form of its parent, or the error of asking for that;
        /// none where the path has no parent.
        parent: Option<Result<CanonicalPath, String>>,
        /// The last component and the whole path below the canonical parent, as
        /// it is shown; none where the path has no last component.
        file_name: Option<(Vec<u8>, String)>,
    },
}

/// What a probe says, with the errors in place of the path.
pub open spec fn located(path: Seq<char>, probe: PathProbe) -> Result<PathView, Seq<char>> {
    match probe {
        PathProbe::Found(Ok(p)) => Ok(p@),
        PathProbe::Found(Err(e)) => Err("invalid path '"@ + path + "': "@ + e@),
        PathProbe::Missing { parent, file_name } => match parent {
            None => Err("invalid path '"@ + path + "': no parent directory"@),
            Some(Err(e)) => Err("parent directory of '"@ + path + "' does not exist: "@ + e@),
            Some(Ok(p)) => match file_name {
                None => Err("invalid path '"@ + path + "': no file name"@),
                Some(name) => Ok(
                    PathView {
                        components: p@.components.push(name.0@),
                        display: name.1@,
                    },
                ),
            },
        },
    }
}

/// The path that may be touched, or why it may not: it has to lie in the root
/// directory.
pub open spec fn allowed_path(
    path: Seq<char>,
    probe: PathProbe,
    root: Result<CanonicalPath, String>,
) -> Result<PathView, Seq<char>> {
    match located(path, probe) {
        Err(m) => Err(m),
        Ok(p) => match root {
            Err(e) => Err("failed to canonicalize root: "@ + e@),
            Ok(r) => if r@.components.is_prefix_of(p.components) {
                Ok(p)
            } else {
                Err(
                    "path '"@ + path + "' is outside the allowed root directory '"@ + r@.display
                        + "'"@,
                )
            },
        },
    }
}

/// Whether two lists of bytes are the same.
fn bytes_eq(a: &Vec<u8>, b: &Vec<u8>) -> (r: bool)
    ensures
        r == (a@ == b@),
{
    if a.len() != b.len() {
        return false;
    }
    let mut i: usize = 0;
    while i < a.len()
        invariant
            i <= a@.len() == b@.len(),
            forall|k: int| 0 <= k < i ==> a@[k] == b@[k],
        decreases a@.len() - i,
    {
        if a[i] != b[i] {
            return false;
        }
        i += 1;
    }
    assert(a@ =~= b@);
    true
}

/// Whether a path lies below another or is the same.
fn is_below(root: &Vec<Vec<u8>>, path: &Vec<Vec<u8>>) -> (r: bool)
    ensures
        r == components_view(root@).is_prefix_of(components_view(path@)),
{
    if root.len() > path.len() {
        return false;
    }
    let ghost rv = components_view(root@);
    let ghost pv = components_view(path@);
    let mut i: usize = 0;
    while i < root.len()
        invariant
            i <= root@.len() <= path@.len(),
            rv == components_view(root@),
            pv == components_view(path@),
            forall|k: int| 0 <= k < i ==> rv[k] == pv[k],
        decreases root@.len() - i,
    {
        assert(rv[i as int] == root@[i as int]@);
        assert(pv[i as int] == path@[i as int]@);
        if !bytes_eq(&root[i], &path[i]) {
            assert(pv.take(rv.len() as int)[i as int] != rv[i as int]);
            return false;
        }
        i += 1;
    }
    assert(pv.take(rv.len() as int) =~= rv);
    true
}

/// A message about a path.
fn path_message(head: &str, path: &str, tail: &str) -> (r: String)
    ensures
        r@ == head@ + path@ + tail@,
{
    let mut s = copy_str(head);
    s.append(path);
    s.append(tail);
    s
}

/// The path that may be touched: the canonical form of what is asked for, if it
/// lies in the root directory. A file that does not exist yet is taken to lie
/// in its parent.
pub fn validate_path(
    path: &str,
    probe: PathProbe,
    root: &Result<CanonicalPath, String>,
) -> (r: Result<CanonicalPath, String>)
    ensures
        match r {
            Ok(p) => allowed_path(path@, probe, *root) == Ok::<PathView, Seq<char>>(p@),
            Err(m) => allowed_path(path@, probe, *root) == Err::<PathView, Seq<char>>(m@),
        },
{
    let found = match probe {
        PathProbe::Found(Ok(p)) => p,
        PathProbe::Found(Err(e)) => {
            let mut m = path_message("invalid path '", path, "': ");
            m.append(&e);
            return Err(m);
        },
        PathProbe::Missing { parent, file_name } => match parent {
            None => {
                return Err(path_message("invalid path '", path, "': no parent directory"));
            },
            Some(Err(e)) => {
                let mut m = path_message("parent directory of '", path, "' does not exist: ");
                m.append(&e);
                return Err(m);
            },
            Some(Ok(p)) => match file_name {
                None => {
                    return Err(path_message("invalid path '", path, "': no file name"));
                },
                Some((name, display)) => {
                    let mut components = p.components;
                    let ghost before = components@;
                    components.push(name);
                    assert(components_view(components@) =~= components_view(before).push(name@));
                    CanonicalPath { components, display }
                },
            },
        },
    };
    match root {
        Err(e) => {
            let mut m = copy_str("failed to canonicalize root: ");
            m.append(e);
            Err(m)
        },
        Ok(root) => {
            if is_below(&root.components, &found.components) {
                Ok(found)
            } else {
                let mut m = path_message(
                    "path '",
                    path,
                    "' is outside the allowed root directory '",
                );
                m.append(&root.display);
                m.append("'");
                Err(m)
            }
        },
    }
}

/// No path outside of the root directory is ever touched.
pub proof fn law_allowed_paths_lie_in_the_root(
    path: Seq<char>,
    probe: PathProbe,
    root: Result<CanonicalPath, String>,
)
    ensures
        allowed_path(path, probe, root) matches Ok(p) ==> root matches Ok(r)
            && r@.components.is_prefix_of(p.components),
{
}

// ---------------------------------------------------------------------------
// Reading
// ---------------------------------------------------------------------------

/// What the tool hands back of a file: its content, or why it is not handed
/// back. A path that may not be touched is refused whatever was read.
pub open spec fn read_result(
    target: Result<String, String>,
    content: Result<String, String>,
) -> Result<Seq<char>, Seq<char>> {
    match target {
        Err(m) => Err(m@),
        Ok(display) => match content {
            Ok(s) => Ok(s@),
            Err(e) => Err("failed to read file '"@ + display@ + "': "@ + e@),
        },
    }
}

/// What the tool hands back of a file at a path that may be touched, which is
/// given as it is shown, or with why it may not be.
pub fn read_file(target: &Result<String, String>, content: Result<String, String>) -> (r: Result<
    String,
    String,
>)
    ensures
        match r {
            Ok(s) => read_result(*target, content) == Ok::<Seq<char>, Seq<char>>(s@),
            Err(m) => read_result(*target, content) == Err::<Seq<char>, Seq<char>>(m@),
        },
{
    let display = match target {
        Ok(d) => d.as_str(),
        Err(m) => {
            return Err(copy_str(m));
        },
    };
    match content {
        Ok(s) => Ok(s),
        Err(e) => {
            let mut m = path_message("failed to read file '", display, "': ");
            m.append(&e);
            Err(m)
        },
    }
}

/// What is said where the working directory is not known.
pub fn no_working_dir(e: &str) -> (r: String)
    ensures
        r@ == "failed to get current working directory: "@ + e@,
{
    let mut m = copy_str("failed to get current working directory: ");
    m.append(e);
    m
}

// ---------------------------------------------------------------------------
// Writing
// ---------------------------------------------------------------------------

/// How careful the tools are.
#[derive(Debug, Clone, Copy, PartialEq, Eq, Structural)]
pub struct ReliabilityConfig {
    /// Whether changes are approved without asking.
    pub auto_approve: bool,
    /// Whether Java files are compiled after they are written.
    pub java_check: bool,
}

impl ReliabilityConfig {
    /// As the environment variables say.
    pub fn from_env(env: &EnvVars) -> (r: Self)
        ensures
            r.auto_approve == env.approves(),
            r.java_check == env.checks_java(),
    {
        let flags = env.flags();
        ReliabilityConfig { auto_approve: flags.auto_approve, java_check: flags.java_check }
    }
}

impl Default for ReliabilityConfig {
    /// Approve, and do not compile.
    fn default() -> (r: Self)
        ensures
            r.auto_approve,
            !r.java_check,
    {
        ReliabilityConfig { auto_approve: true, java_check: false }
    }
}

/// What is to be written to a file.
#[derive(Debug)]
pub struct WritePlan {
    /// The text.
    pub content: String,
    /// The text that was there before, if the file existed.
    pub original: Option<String>,
    /// The encoding of the file.
    pub encoding: Encoding,
    /// The bytes to write.
    pub bytes: Vec<u8>,
    /// The change as a unified diff, if the file existed.
    pub diff: Option<String>,
}

/// What a plan says.
#[verifier::ext_equal]
pub struct WritePlanView {
    pub content: Seq<char>,
    pub original: Option<Seq<char>>,
    pub encoding: Encoding,
    pub bytes: Seq<u8>,
    pub diff: Option<Seq<char>>,
}

impl View for WritePlan {
    type V = WritePlanView;

    open spec fn view(&self) -> WritePlanView {
        WritePlanView {
            content: self.content@,
            original: crate::types::opt_view(self.original),
            encoding: self.encoding,
            bytes: self.bytes@,
            diff: crate::types::opt_view(self.diff),
        }
    }
}

/// What is said where a change is not approved.
pub open spec fn rejection(diff: Seq<char>) -> Seq<char> {
    "edit rejected (auto_approve=false). Proposed diff:\n"@ + diff
}

/// What is said where a file cannot be read.
pub open spec fn unreadable(display: Seq<char>, e: EncodingErrorView) -> Seq<char> {
    "failed to read file '"@ + display + "': "@ + e.message()
}

/// The plan of writing a content to a path that may be touched, which is given
/// as it is shown, or with why it may not be: the content is cleaned; a file
/// that exists keeps its encoding, and its change has to be approved; a new one
/// is written in UTF-8.
pub open spec fn write_planned(
    target: Result<String, String>,
    content: Seq<char>,
    existing: Option<ReadBytes>,
    auto_approve: bool,
) -> Result<WritePlanView, Seq<char>> {
    match target {
        Err(m) => Err(m@),
        Ok(display) => write_planned_at(display@, content, existing, auto_approve),
    }
}

/// The plan of writing a content to a path that is shown as `display`.
pub open spec fn write_planned_at(
    display: Seq<char>,
    content: Seq<char>,
    existing: Option<ReadBytes>,
    auto_approve: bool,
) -> Result<WritePlanView, Seq<char>> {
    match sanitize::sanitized(content) {
        Err(e) => Err("write content rejected by sanitizer: "@ + e.message()),
        Ok(clean) => match existing {
            None => Ok(
                WritePlanView {
                    content: clean,
                    original: None,
                    encoding: Encoding::Utf8,
                    bytes: encoding::encoded(clean, Encoding::Utf8),
                    diff: None,
                },
            ),
            Some(read) => match encoding::read_view(read) {
                Err(e) => Err(unreadable(display, e)),
                Ok((original, encoding)) => if auto_approve {
                    Ok(
                        WritePlanView {
                            content: clean,
                            original: Some(original),
                            encoding,
                            bytes: encoding::encoded(clean, encoding),
                            diff: Some(diff_preview::change_diff(display, original, clean)),
                        },
                    )
                } else {
                    Err(rejection(diff_preview::change_diff(display, original, clean)))
                },
            },
        },
    }
}

/// Refuses a change that is not approved.
pub fn approve(display: &str, diff: &str, auto_approve: bool) -> (r: Result<(), String>)
    ensures
        match r {
            Ok(_) => auto_approve,
            Err(m) => !auto_approve && m@ == rejection(diff@),
        },
{
    let confirm = confirm_non_interactive(display, diff, auto_approve);
    if confirm.approved {
        Ok(())
    } else {
        let mut m = copy_str("edit rejected (auto_approve=false). Proposed diff:\n");
        m.append(&confirm.diff);
        Err(m)
    }
}

/// What is said where a file cannot be read.
fn unreadable_message(display: &str, e: &crate::encoding::EncodingError) -> (r: String)
    ensures
        r@ == unreadable(display@, e@),
{
    let mut m = path_message("failed to read file '", display, "': ");
    let text = e.to_string();
    m.append(&text);
    m
}

/// Plans the writing of a content to a path that may be touched, which is given
/// as it is shown, or with why it may not be; and given what was read of the
/// file where it exists. What is planned is read back as it was written, where
/// the text is known to come back.
pub fn write_file(
    target: &Result<String, String>,
    content: &str,
    existing: &Option<ReadBytes>,
    cfg: ReliabilityConfig,
) -> (r: Result<WritePlan, String>)
    ensures
        match r {
            Ok(p) => write_planned(*target, content@, *existing, cfg.auto_approve) == Ok::<
                WritePlanView,
                Seq<char>,
            >(p@),
            Err(m) => write_planned(*target, content@, *existing, cfg.auto_approve) == Err::<
                WritePlanView,
                Seq<char>,
            >(m@),
        },
        r matches Ok(p) ==> encoding::comes_back(p@.content, p@.encoding, p@.bytes)
            ==> encoding::reads_as(p@.bytes, p@.content, p@.encoding),
{
    let display = match target {
        Ok(d) => d.as_str(),
        Err(m) => {
            return Err(copy_str(m));
        },
    };
    let clean = match sanitize_write_content(content) {
        Ok(s) => s,
        Err(e) => {
            let mut m = copy_str("write content rejected by sanitizer: ");
            let text = e.to_string();
            m.append(&text);
            return Err(m);
        },
    };
    match existing {
        None => {
            let bytes = encode_content(&clean, Encoding::Utf8);
            Ok(
                WritePlan {
                    content: clean,
                    original: None,
                    encoding: Encoding::Utf8,
                    bytes,
                    diff: None,
                },
            )
        },
        Some(read) => match read_with_encoding(read) {
            Err(e) => Err(unreadable_message(display, &e)),
            Ok((original, encoding)) => {
                let diff = generate_diff(display, &original, &clean);
                match approve(display, &diff, cfg.auto_approve) {
                    Err(m) => Err(m),
                    Ok(_) => {
                        let bytes = encode_content(&clean, encoding);
                        Ok(
                            WritePlan {
                                content: clean,
                                original: Some(original),
                                encoding,
                                bytes,
                                diff: Some(diff),
                            },
                        )
                    },
                }
            },
        },
    }
}

/// How the writing of the planned bytes ended.
#[derive(Debug)]
pub enum WriteOutcome {
    /// The bytes could not be written.
    Failed(String),
    /// They were written and the file passed its checks, or is new.
    Kept,
    /// They were written and the file was found to be wrong.
    Refused(ValidateError),
}

/// How the writing of the planned bytes ended, given what became of the file and
/// whether its bytes could be written back, where that was to be done.
pub fn conclude(settled: Settled, restored: &Result<(), String>) -> (r: WriteOutcome)
    ensures
        match settled {
            Settled::Keep => r is Kept,
            Settled::Restore { bytes, error } => r matches WriteOutcome::Refused(e) && e@ == (
            match restored {
                Ok(_) => error@,
                Err(e) => ValidateErrorView::Io(EncodingErrorView::Write(e@).message()),
            }),
        },
{
    match settled {
        Settled::Keep => WriteOutcome::Kept,
        Settled::Restore { bytes: _, error } => WriteOutcome::Refused(
            after_rollback(error, restored),
        ),
    }
}

/// What is said of an outcome that is no success.
pub open spec fn write_problem(
    display: Seq<char>,
    outcome: WriteOutcome,
) -> Option<Seq<char>> {
    match outcome {
        WriteOutcome::Failed(e) => Some(
            "failed to write file '"@ + display + "': "@ + EncodingErrorView::Write(e@).message(),
        ),
        WriteOutcome::Refused(e) => Some(
            "post-write validation failed for '"@ + display + "': "@ + e@.message(),
        ),
        WriteOutcome::Kept => None,
    }
}

/// The message of an outcome that is no success.
fn write_problem_message(display: &str, outcome: WriteOutcome) -> (r: Result<(), String>)
    ensures
        match write_problem(display@, outcome) {
            None => r is Ok,
            Some(p) => r matches Err(m) && m@ == p,
        },
{
    match outcome {
        WriteOutcome::Kept => Ok(()),
        WriteOutcome::Failed(e) => {
            let mut m = path_message("failed to write file '", display, "': ");
            let e = crate::encoding::EncodingError::Write(e);
            let text = e.to_string();
            m.append(&text);
            Err(m)
        },
        WriteOutcome::Refused(e) => {
            let mut m = path_message("post-write validation failed for '", display, "': ");
            let text = e.to_string();
            m.append(&text);
            Err(m)
        },
    }
}

/// What the tool hands back after a plan was carried out: the number of bytes
/// that were written, or what went wrong.
pub fn finish_write(display: &str, plan: &WritePlan, outcome: WriteOutcome) -> (r: Result<
    String,
    String,
>)
    ensures
        match write_problem(display@, outcome) {
            Some(p) => r matches Err(m) && m@ == p,
            None => r matches Ok(s) && s@ == "wrote "@ + text::decimal(plan@.bytes.len())
                + " bytes to "@ + display@,
        },
{
    match write_problem_message(display, outcome) {
        Err(m) => Err(m),
        Ok(_) => {
            let mut s = copy_str("wrote ");
            let n = decimal_usize(plan.bytes.len());
            s.append(&n);
            s.append(" bytes to ");
            s.append(display);
            Ok(s)
        },
    }
}

// ---------------------------------------------------------------------------
// Editing
// ---------------------------------------------------------------------------

/// The new text of an edit, cleaned, or why the edit is refused before the file
/// is looked at.
pub open spec fn edit_request(old: Seq<char>, new: Seq<char>) -> Result<Seq<char>, Seq<char>> {
    if old.len() == 0 {
        Err("old_string must not be empty"@)
    } else {
        match sanitize::sanitized(new) {
            Err(e) => Err("edit content rejected by sanitizer: "@ + e.message()),
            Ok(clean) => if old == clean {
                Err("old_string and new_string must differ"@)
            } else {
                Ok(clean)
            },
        }
    }
}

/// The new text of an edit, cleaned.
pub fn check_edit_request(old_string: &str, new_string: &str) -> (r: Result<String, String>)
    ensures
        match r {
            Ok(s) => edit_request(old_string@, new_string@) == Ok::<Seq<char>, Seq<char>>(s@),
            Err(m) => edit_request(old_string@, new_string@) == Err::<Seq<char>, Seq<char>>(m@),
        },
{
    let old = to_chars(old_string);
    if old.len() == 0 {
        return Err(copy_str("old_string must not be empty"));
    }
    match sanitize_edit_content(old_string, new_string) {
        Err(e) => {
            let mut m = copy_str("edit content rejected by sanitizer: ");
            let text = e.to_string();
            m.append(&text);
            Err(m)
        },
        Ok((_, clean)) => {
            if str_eq(old_string, &clean) {
                Err(copy_str("old_string and new_string must differ"))
            } else {
                Ok(clean)
            }
        },
    }
}

/// The text of a file after an edit and the number of replacements, or why the
/// edit is refused: the old text has to be there, and only once unless all of
/// its occurrences are to be replaced.
pub open spec fn edited(
    display: Seq<char>,
    content: Seq<char>,
    old: Seq<char>,
    new: Seq<char>,
    replace_all: bool,
) -> Result<(Seq<char>, nat), Seq<char>> {
    let n = text::count_from(content, old, 0);
    if n == 0 {
        Err(
            error_recovery::not_found_message(
                display,
                error_recovery::closest(content, old),
            ),
        )
    } else if !replace_all && n > 1 {
        Err(
            "old_string is ambiguous: found "@ + text::decimal(n) + " occurrences in '"@ + display
                + "'. Provide more surrounding context to make it unique, or set replace_all=true"@,
        )
    } else {
        Ok((text::replace_all(content, old, new), n))
    }
}

/// The text of a file after an edit and the number of replacements.
pub fn apply_edit(
    display: &str,
    content: &str,
    old_string: &str,
    new_string: &str,
    replace_all: bool,
) -> (r: Result<(String, usize), String>)
    requires
        old_string@.len() > 0,
    ensures
        match r {
            Ok(p) => edited(display@, content@, old_string@, new_string@, replace_all) == Ok::<
                (Seq<char>, nat),
                Seq<char>,
            >((p.0@, p.1 as nat)),
            Err(m) => edited(display@, content@, old_string@, new_string@, replace_all) == Err::<
                (Seq<char>, nat),
                Seq<char>,
            >(m@),
        },
{
    let text = to_chars(content);
    let old = to_chars(old_string);
    let new = to_chars(new_string);
    let n = count_chars(&text, &old);
    if n == 0 {
        return Err(format_not_found_error(display, content, old_string));
    }
    if !replace_all && n > 1 {
        let mut m = copy_str("old_string is ambiguous: found ");
        let count = decimal_usize(n);
        m.append(&count);
        m.append(" occurrences in '");
        m.append(display);
        m.append(
            "'. Provide more surrounding context to make it unique, or set replace_all=true",
        );
        return Err(m);
    }
    let updated = replace_chars(&text, &old, &new);
    Ok((from_chars(&updated), n))
}

/// What is to be written by an edit.
#[derive(Debug)]
pub struct EditPlan {
    /// The text after the edit.
    pub updated: String,
    /// The text before the edit.
    pub original: String,
    /// The encoding of the file.
    pub encoding: Encoding,
    /// The bytes to write.
    pub bytes: Vec<u8>,
    /// The number of replacements.
    pub count: usize,
    /// The change as a unified diff.
    pub diff: String,
}

/// What an edit plan says.
#[verifier::ext_equal]
pub struct EditPlanView {
    pub updated: Seq<char>,
    pub original: Seq<char>,
    pub encoding: Encoding,
    pub bytes: Seq<u8>,
    pub count: nat,
    pub diff: Seq<char>,
}

impl View for EditPlan {
    type V = EditPlanView;

    open spec fn view(&self) -> EditPlanView {
        EditPlanView {
            updated: self.updated@,
            original: self.original@,
            encoding: self.encoding,
            bytes: self.bytes@,
            count: self.count as nat,
            diff: self.diff@,
        }
    }
}

/// The plan of an edit of a path that may be touched, which is given as it is
/// shown, or with why it may not be: the new text is cleaned, the file keeps
/// its encoding, the old text has to be found, and the change has to be
/// approved.
pub open spec fn edit_planned(
    target: Result<String, String>,
    read: ReadBytes,
    old: Seq<char>,
    new: Seq<char>,
    replace_all: bool,
    auto_approve: bool,
) -> Result<EditPlanView, Seq<char>> {
    match edit_request(old, new) {
        Err(m) => Err(m),
        Ok(clean) => match target {
            Err(m) => Err(m@),
            Ok(display) => edit_planned_at(
                display@,
                read,
                old,
                clean,
                replace_all,
                auto_approve,
            ),
        },
    }
}

/// The plan of an edit of a path that is shown as `display`, with the new text
/// cleaned.
pub open spec fn edit_planned_at(
    display: Seq<char>,
    read: ReadBytes,
    old: Seq<char>,
    new: Seq<char>,
    replace_all: bool,
    auto_approve: bool,
) -> Result<EditPlanView, Seq<char>> {
    match encoding::read_view(read) {
        Err(e) => Err(unreadable(display, e)),
        Ok((content, encoding)) => match edited(display, content, old, new, replace_all) {
            Err(m) => Err(m),
            Ok((updated, count)) => if auto_approve {
                Ok(
                    EditPlanView {
                        updated,
                        original: content,
                        encoding,
                        bytes: encoding::encoded(updated, encoding),
                        count,
                        diff: diff_preview::change_diff(display, content, updated),
                    },
                )
            } else {
                Err(rejection(diff_preview::change_diff(display, content, updated)))
            },
        },
    }
}

/// Plans an edit of a path that may be touched, which is given as it is shown,
/// or with why it may not be; and given what was read of the file.
pub fn edit_file(
    target: &Result<String, String>,
    read: &ReadBytes,
    old_string: &str,
    new_string: &str,
    replace_all: bool,
    cfg: ReliabilityConfig,
) -> (r: Result<EditPlan, String>)
    ensures
        match r {
            Ok(p) => edit_planned(
                *target,
                *read,
                old_string@,
                new_string@,
                replace_all,
                cfg.auto_approve,
            ) == Ok::<EditPlanView, Seq<char>>(p@),
            Err(m) => edit_planned(
                *target,
                *read,
                old_string@,
                new_string@,
                replace_all,
                cfg.auto_approve,
            ) == Err::<EditPlanView, Seq<char>>(m@),
        },
        r matches Ok(p) ==> encoding::comes_back(p@.updated, p@.encoding, p@.bytes)
            ==> encoding::reads_as(p@.bytes, p@.updated, p@.encoding),
{
    let clean = match check_edit_request(old_string, new_string) {
        Err(m) => {
            return Err(m);
        },
        Ok(s) => s,
    };
    let display = match target {
        Ok(d) => d.as_str(),
        Err(m) => {
            return Err(copy_str(m));
        },
    };
    let (content, encoding) = match read_with_encoding(read) {
        Err(e) => {
            return Err(unreadable_message(display, &e));
        },
        Ok(p) => p,
    };
    let (updated, count) = match apply_edit(
        display,
        &content,
        old_string,
        &clean,
        replace_all,
    ) {
        Err(m) => {
            return Err(m);
        },
        Ok(p) => p,
    };
    let diff = generate_diff(display, &content, &updated);
    match approve(display, &diff, cfg.auto_approve) {
        Err(m) => Err(m),
        Ok(_) => {
            let bytes = encode_content(&updated, encoding);
            Ok(EditPlan { updated, original: content, encoding, bytes, count, diff })
        },
    }
}

/// What the tool hands back after the planned bytes of an edit were written.
pub fn finish_edit(display: &str, count: usize, outcome: WriteOutcome) -> (r: Result<
    String,
    String,
>)
    ensures
        match write_problem(display@, outcome) {
            Some(p) => r matches Err(m) && m@ == p,
            None => r matches Ok(s) && s@ == "replaced "@ + text::decimal(count as nat)
                + " occurrence(s) in "@ + display@,
        },
{
    match write_problem_message(display, outcome) {
        Err(m) => Err(m),
        Ok(_) => {
            let mut s = copy_str("replaced ");
            let n = decimal_usize(count);
            s.append(&n);
            s.append(" occurrence(s) in ");
            s.append(display);
            Ok(s)
        },
    }
}

/// An edit without `replace_all` that is planned replaces the one occurrence of
/// the old text, and leaves what stands before and after it as it was.
pub proof fn law_single_edit_replaces_one_place(
    display: Seq<char>,
    content: Seq<char>,
    old: Seq<char>,
    new: Seq<char>,
)
    requires
        old.len() > 0,
        edited(display, content, old, new, false) is Ok,
    ensures
        ({
            let k = text::find_from(content, old, 0)->0;
            &&& text::matches_at(content, old, k)
            &&& content == content.take(k) + old + content.skip(k + old.len())
            &&& edited(display, content, old, new, false)->Ok_0.0 == content.take(k) + new
                + content.skip(k + old.len())
            &&& edited(display, content, old, new, false)->Ok_0.1 == 1
        }),
{
    text::lemma_find_from(content, old, 0);
    let k = text::find_from(content, old, 0)->0;
    let end = k + old.len();
    assert(text::count_from(content, old, 0) == 1 + text::count_from(content, old, end));
    text::lemma_find_from(content, old, end);
    assert(text::find_from(content, old, end) is None) by {
        if let Some(j) = text::find_from(content, old, end) {
            assert(text::count_from(content, old, end) == 1 + text::count_from(
                content,
                old,
                j + old.len(),
            ));
        }
    }
    assert(text::replace_from(content, old, new, end) == content.skip(end));
    assert(content.subrange(0, k) =~= content.take(k));
    assert(content =~= content.take(k) + content.subrange(k, end) + content.skip(end));
}

/// A file keeps its encoding, whether it is written or edited.
pub proof fn law_files_keep_their_encoding(
    display: Seq<char>,
    content: Seq<char>,
    old: Seq<char>,
    new: Seq<char>,
    replace_all: bool,
    bytes: Vec<u8>,
    auto_approve: bool,
)
    ensures
        write_planned_at(display, content, Some(Ok(bytes)), auto_approve) matches Ok(p)
            ==> encoding::detected(bytes@, encoding::gbk_decoded(bytes@).1) == Some(p.encoding)
            && p.bytes == encoding::encoded(p.content, p.encoding),
        edit_planned_at(display, Ok(bytes), old, new, replace_all, auto_approve) matches Ok(p)
            ==> encoding::detected(bytes@, encoding::gbk_decoded(bytes@).1) == Some(p.encoding)
            && p.bytes == encoding::encoded(p.updated, p.encoding),
{
}

/// Whether some bytes are in UTF-8, with or without a byte order mark.
pub open spec fn whole_utf8(bytes: Seq<u8>) -> bool {
    if encoding::has_bom(bytes) {
        vstd::utf8::valid_utf8(bytes.skip(3))
    } else {
        vstd::utf8::valid_utf8(bytes)
    }
}

/// A change that fails its check leaves a file in UTF-8 as it was, byte for byte,
/// whether it was written or edited; one that passes leaves what was planned.
pub proof fn law_failed_changes_leave_the_file(
    display: Seq<char>,
    content: Seq<char>,
    old: Seq<char>,
    new: Seq<char>,
    replace_all: bool,
    before: Vec<u8>,
    auto_approve: bool,
    ext: Seq<char>,
    written: validate::Written,
    java_check: bool,
)
    requires
        whole_utf8(before@),
    ensures
        write_planned_at(display, content, Some(Ok(before)), auto_approve) matches Ok(p)
            ==> validate::settled(ext, written, p.original, p.encoding, java_check).leaves(p.bytes)
            == (if validate::problem(ext, written, p.encoding, java_check) is None {
            p.bytes
        } else {
            before@
        }),
        edit_planned_at(display, Ok(before), old, new, replace_all, auto_approve) matches Ok(p)
            ==> validate::settled(
            ext,
            written,
            Some(p.original),
            p.encoding,
            java_check,
        ).leaves(p.bytes) == (if validate::problem(ext, written, p.encoding, java_check) is None {
            p.bytes
        } else {
            before@
        }),
{
    validate::law_refused_changes_leave_the_file(
        before@,
        encoding::gbk_decoded(before@).1,
    );
}

/// What is written to a new file is read back as it was written, unless it
/// begins with a byte order mark.
pub proof fn law_new_files_are_read_back(
    display: Seq<char>,
    content: Seq<char>,
    auto_approve: bool,
    bytes: Vec<u8>,
)
    requires
        write_planned_at(display, content, None, auto_approve) matches Ok(p) && p.bytes == bytes@,
        !encoding::begins_with_mark(sanitize::sanitized(content)->Ok_0),
    ensures
        encoding::read_view(Ok(bytes)) == Ok::<(Seq<char>, Encoding), EncodingErrorView>(
            (sanitize::sanitized(content)->Ok_0, Encoding::Utf8),
        ),
{
    let clean = sanitize::sanitized(content)->Ok_0;
    encoding::law_written_encoding_is_detected(clean, encoding::gbk_decoded(bytes@).1);
    encoding::law_utf8_is_read_back(clean, Encoding::Utf8);
}

// ---------------------------------------------------------------------------
// What an edit does
// ---------------------------------------------------------------------------

/// Whether a text holds another at an index.
pub open spec fn stands(s: Seq<char>, pat: Seq<char>, i: int) -> bool {
    0 <= i && i + pat.len() <= s.len() && s.subrange(i, i + pat.len()) == pat
}

/// Some pieces of text with another text between each two of them.
pub open spec fn woven(parts: Seq<Seq<char>>, between: Seq<char>) -> Seq<char>
    decreases parts.len(),
{
    if parts.len() == 0 {
        Seq::empty()
    } else if parts.len() == 1 {
        parts[0]
    } else {
        parts[0] + between + woven(parts.skip(1), between)
    }
}

/// Whether some pieces are what is left of a text that is cut at another one
/// wherever it is met from the left: it stands in none of them, and it begins in
/// none of them before the place where it was cut out.
pub open spec fn cut_from_the_left(parts: Seq<Seq<char>>, at: Seq<char>) -> bool {
    &&& parts.len() > 0
    &&& forall|i: int, j: int|
        0 <= i < parts.len() - 1 && 0 <= j < parts[i].len() ==> !#[trigger] stands(
            parts[i] + at,
            at,
            j,
        )
    &&& forall|j: int| !#[trigger] stands(parts.last(), at, j)
}

/// The pieces of a text between the occurrences of another, from an index on.
spec fn pieces(s: Seq<char>, pat: Seq<char>, i: int) -> Seq<Seq<char>>
    decreases s.len() - i,
    when pat.len() > 0 && 0 <= i
    via pieces_decreases
{
    match text::find_from(s, pat, i) {
        Some(k) => seq![s.subrange(i, k)] + pieces(s, pat, k + pat.len()),
        None => seq![s.skip(i)],
    }
}

#[via_fn]
proof fn pieces_decreases(s: Seq<char>, pat: Seq<char>, i: int) {
    text::lemma_find_from(s, pat, i);
}

proof fn lemma_pieces_weave(s: Seq<char>, pat: Seq<char>, with: Seq<char>, i: int)
    requires
        pat.len() > 0,
        0 <= i <= s.len(),
    ensures
        pieces(s, pat, i).len() == text::count_from(s, pat, i) + 1,
        woven(pieces(s, pat, i), pat) == s.skip(i),
        woven(pieces(s, pat, i), with) == text::replace_from(s, pat, with, i),
    decreases s.len() - i,
{
    text::lemma_find_from(s, pat, i);
    let all = pieces(s, pat, i);
    match text::find_from(s, pat, i) {
        None => {},
        Some(k) => {
            let next = k + pat.len();
            lemma_pieces_weave(s, pat, with, next);
            let rest = pieces(s, pat, next);
            assert(all.skip(1) =~= rest);
            assert(all[0] == s.subrange(i, k));
            assert(s.skip(i) =~= s.subrange(i, k) + s.subrange(k, next) + s.skip(next));
        },
    }
}

/// A text that stands in a part of another stands in the whole.
proof fn lemma_stands_in_whole(s: Seq<char>, from: int, to: int, pat: Seq<char>, j: int)
    requires
        0 <= from <= to <= s.len(),
        stands(s.subrange(from, to), pat, j),
    ensures
        text::matches_at(s, pat, from + j),
{
    assert(s.subrange(from, to).subrange(j, j + pat.len()) =~= s.subrange(
        from + j,
        from + j + pat.len(),
    ));
}

proof fn lemma_pieces_cut(s: Seq<char>, pat: Seq<char>, i: int)
    requires
        pat.len() > 0,
        0 <= i <= s.len(),
    ensures
        cut_from_the_left(pieces(s, pat, i), pat),
    decreases s.len() - i,
{
    text::lemma_find_from(s, pat, i);
    let all = pieces(s, pat, i);
    match text::find_from(s, pat, i) {
        None => {
            assert(all.last() =~= s.subrange(i, s.len() as int));
            assert forall|j: int| !#[trigger] stands(all.last(), pat, j) by {
                if stands(all.last(), pat, j) {
                    lemma_stands_in_whole(s, i, s.len() as int, pat, j);
                }
            }
        },
        Some(k) => {
            let next = k + pat.len();
            lemma_pieces_cut(s, pat, next);
            let rest = pieces(s, pat, next);
            assert(all == seq![s.subrange(i, k)] + rest);
            assert(all.last() == rest.last());
            assert(s.subrange(i, k) + pat =~= s.subrange(i, next)) by {
                assert(s.subrange(k, next) == pat);
                assert(s.subrange(i, k) + s.subrange(k, next) =~= s.subrange(i, next));
            }
            assert forall|a: int, j: int|
                0 <= a < all.len() - 1 && 0 <= j < all[a].len() implies !#[trigger] stands(
                all[a] + pat,
                pat,
                j,
            ) by {
                if a == 0 {
                    if stands(all[0] + pat, pat, j) {
                        lemma_stands_in_whole(s, i, next, pat, j);
                    }
                } else {
                    assert(all[a] == rest[a - 1]);
                    assert(!stands(rest[a - 1] + pat, pat, j));
                }
            }
        },
    }
}

/// An edit replaces what it says, and nothing else: the text before the edit is
/// some pieces with the old text between them, met from the left; the text after
/// it is the same pieces with the new text between them; and as many
/// replacements are reported as there are places between the pieces, which is
/// one unless all occurrences are to be replaced.
pub proof fn law_edits_replace_every_occurrence(
    display: Seq<char>,
    content: Seq<char>,
    old: Seq<char>,
    new: Seq<char>,
    replace_all: bool,
)
    requires
        old.len() > 0,
        edited(display, content, old, new, replace_all) is Ok,
    ensures
        ({
            let (updated, count) = edited(display, content, old, new, replace_all)->Ok_0;
            &&& count > 0
            &&& !replace_all ==> count == 1
            &&& exists|parts: Seq<Seq<char>>|
                {
                    &&& #[trigger] cut_from_the_left(parts, old)
                    &&& parts.len() == count + 1
                    &&& content == woven(parts, old)
                    &&& updated == woven(parts, new)
                }
        }),
{
    lemma_pieces_weave(content, old, new, 0);
    lemma_pieces_cut(content, old, 0);
    assert(content.skip(0) =~= content);
    let parts = pieces(content, old, 0);
    assert(cut_from_the_left(parts, old));
}

/// An edit is made where the old text is there and it is plain which place is
/// meant, and only there: it is refused where the old text stands nowhere, and,
/// unless all occurrences are to be replaced, where it stands in two places that
/// do not overlap.
pub proof fn law_edits_are_made_where_they_are_plain(
    display: Seq<char>,
    content: Seq<char>,
    old: Seq<char>,
    new: Seq<char>,
    replace_all: bool,
)
    requires
        old.len() > 0,
    ensures
        edited(display, content, old, new, replace_all) is Ok <==> {
            &&& exists|i: int| #[trigger] stands(content, old, i)
            &&& replace_all || forall|i: int, j: int|
                #[trigger] stands(content, old, i) && #[trigger] stands(content, old, j) ==> j < i
                    + old.len()
        },
{
    text::lemma_find_from(content, old, 0);
    assert forall|i: int| stands(content, old, i) == text::matches_at(content, old, i) by {}
    match text::find_from(content, old, 0) {
        None => {
            assert(text::count_from(content, old, 0) == 0);
            assert forall|i: int| !#[trigger] stands(content, old, i) by {
                assert(stands(content, old, i) == text::matches_at(content, old, i));
            }
        },
        Some(k) => {
            let next = k + old.len();
            assert(stands(content, old, k));
            text::lemma_find_from(content, old, next);
            assert(text::count_from(content, old, 0) == 1 + text::count_from(content, old, next));
            match text::find_from(content, old, next) {
                None => {
                    assert(text::count_from(content, old, next) == 0);
                    assert forall|i: int, j: int|
                        #[trigger] stands(content, old, i) && #[trigger] stands(
                            content,
                            old,
                            j,
                        ) implies j < i + old.len() by {
                        assert(text::matches_at(content, old, i));
                        assert(text::matches_at(content, old, j));
                        assert(k <= i && j < next);
                    }
                },
                Some(m) => {
                    assert(text::count_from(content, old, next) == 1 + text::count_from(
                        content,
                        old,
                        m + old.len(),
                    ));
                    assert(stands(content, old, m));
                },
            }
        },
    }
}

/// What is planned for a file is the edit of its text: what is written is the
/// text of the file, with the old text replaced by the cleaned new one, in the
/// encoding that the file has.
pub proof fn law_planned_edits_change_the_file(
    target: Result<String, String>,
    bytes: Vec<u8>,
    content: Seq<char>,
    old: Seq<char>,
    new: Seq<char>,
    replace_all: bool,
    auto_approve: bool,
)
    requires
        bytes@ == vstd::utf8::encode_utf8(content),
        !encoding::has_bom(bytes@),
    ensures
        edit_planned(target, Ok(bytes), old, new, replace_all, auto_approve) matches Ok(p) ==> {
            &&& target is Ok && auto_approve
            &&& p.original == content
            &&& p.bytes == vstd::utf8::encode_utf8(p.updated)
            &&& p.count > 0
            &&& sanitize::sanitized(new) is Ok
            &&& exists|parts: Seq<Seq<char>>|
                {
                    &&& #[trigger] cut_from_the_left(parts, old)
                    &&& parts.len() == p.count + 1
                    &&& content == woven(parts, old)
                    &&& p.updated == woven(parts, sanitize::sanitized(new)->Ok_0)
                }
        },
{
    broadcast use {
        vstd::utf8::encode_utf8_valid_utf8,
        vstd::utf8::encode_utf8_decode_utf8,
    };
    if let Ok(p) = edit_planned(target, Ok(bytes), old, new, replace_all, auto_approve) {
        let clean = sanitize::sanitized(new)->Ok_0;
        law_edits_replace_every_occurrence(target->Ok_0@, content, old, clean, replace_all);
    }
}

// ---------------------------------------------------------------------------
// What is read and written
// ---------------------------------------------------------------------------

/// Which paths may be touched: one that exists, by where it really lies, and a new
/// one by where its parent really lies; both only in the root directory, or as the
/// root directory itself, component by component. The path is what is used then.
pub proof fn law_paths_in_the_root_are_allowed(
    path: Seq<char>,
    probe: PathProbe,
    root: CanonicalPath,
    found: CanonicalPath,
)
    ensures
        ({
            let inside = root@.components.len() <= found@.components.len() && forall|i: int|
                0 <= i < root@.components.len() ==> root@.components[i]
                    == #[trigger] found@.components[i];
            &&& probe == PathProbe::Found(Ok(found)) ==> (allowed_path(path, probe, Ok(root)) is Ok
                <==> inside)
            &&& probe == PathProbe::Found(Ok(found)) && inside ==> allowed_path(
                path,
                probe,
                Ok(root),
            )->Ok_0 == found@
            &&& (probe matches PathProbe::Missing { parent, file_name } && parent == Some(
                Ok::<CanonicalPath, String>(found),
            ) && file_name is Some && inside) ==> {
                let r = allowed_path(path, probe, Ok(root));
                let name = probe->file_name->0;
                &&& r is Ok
                &&& r->Ok_0.components == found@.components.push(name.0@)
                &&& r->Ok_0.display == name.1@
            }
        }),
{
    let rc = root@.components;
    let fc = found@.components;
    let inside = rc.len() <= fc.len() && forall|i: int|
        0 <= i < rc.len() ==> rc[i] == #[trigger] fc[i];
    assert(inside <==> rc.is_prefix_of(fc)) by {
        if inside {
            assert(rc =~= fc.subrange(0, rc.len() as int));
        }
        if rc.is_prefix_of(fc) {
            assert forall|i: int| 0 <= i < rc.len() implies rc[i] == #[trigger] fc[i] by {
                assert(fc.subrange(0, rc.len() as int)[i] == fc[i]);
            }
        }
    }
    if let PathProbe::Missing { parent, file_name } = probe {
        if file_name is Some && inside {
            let name = file_name->0;
            let all = fc.push(name.0@);
            assert(rc =~= all.subrange(0, rc.len() as int));
        }
    }
}

/// What is handed back of a file is its content, whole.
pub proof fn law_files_are_handed_back(display: String, content: String, e: String)
    ensures
        read_result(Ok(display), Ok(content)) == Ok::<Seq<char>, Seq<char>>(content@),
        read_result(Ok(display), Err(e)) matches Err(m) && text::holds(m, display@)
            && text::holds(m, e@),
        read_result(Err(e), Ok(content)) == Err::<Seq<char>, Seq<char>>(e@),
{
    let a = "failed to read file '"@;
    let b = "': "@;
    let none = Seq::<char>::empty();
    assert(a + display@ + b + e@ =~= a + display@ + (b + e@));
    assert(a + display@ + b + e@ =~= (a + display@ + b) + e@ + none);
}

/// What is written is what was asked for: the content from its first character on
/// that is no line break, in UTF-8 where the file is new, and in its own encoding
/// where it exists. A write is planned wherever the path may be touched, the
/// content is not broken, and the file can be read where it exists and the change
/// is approved.
pub proof fn law_writes_write_what_was_asked(
    target: Result<String, String>,
    content: Seq<char>,
    existing: Option<ReadBytes>,
    auto_approve: bool,
)
    ensures
        ({
            let plan = write_planned(target, content, existing, auto_approve);
            let readable = existing matches Some(read) ==> encoding::read_view(read) is Ok;
            &&& plan is Ok <==> {
                &&& target is Ok
                &&& sanitize::sanitized(content) is Ok
                &&& readable
                &&& existing is Some ==> auto_approve
            }
            &&& plan matches Ok(p) ==> {
                &&& exists|n: int|
                    {
                        &&& 0 <= n < content.len()
                        &&& p.content == #[trigger] content.skip(n)
                        &&& forall|k: int| 0 <= k < n ==> (#[trigger] content[k] == '\n'
                            || content[k] == '\r')
                    }
                &&& existing is None ==> {
                    &&& p.original is None
                    &&& p.encoding == Encoding::Utf8
                    &&& p.bytes == vstd::utf8::encode_utf8(p.content)
                }
                &&& existing matches Some(read) ==> {
                    let (text, encoding) = encoding::read_view(read)->Ok_0;
                    &&& p.original == Some(text)
                    &&& p.encoding == encoding
                    &&& encoding == Encoding::Utf8 ==> p.bytes == vstd::utf8::encode_utf8(
                        p.content,
                    )
                    &&& encoding == Encoding::Utf8Bom ==> p.bytes == seq![0xEFu8, 0xBBu8, 0xBFu8]
                        + vstd::utf8::encode_utf8(p.content)
                    &&& encoding == Encoding::Gbk ==> p.bytes == encoding::gbk_encoded(p.content)
                }
            }
        }),
{
    sanitize::law_cleaning_takes_leading_breaks_alone(content);
    if let Ok(p) = write_planned(target, content, existing, auto_approve) {
        let t = sanitize::sanitized(content)->Ok_0;
        assert(p.content == t);
    }
}

/// What came of a write is told: success where the file was kept, and else the
/// path and the cause.
pub proof fn law_problems_are_told(display: Seq<char>, e: String, v: ValidateError)
    ensures
        write_problem(display, WriteOutcome::Kept) is None,
        write_problem(display, WriteOutcome::Failed(e)) matches Some(m) && text::holds(m, display)
            && text::holds(m, e@),
        write_problem(display, WriteOutcome::Refused(v)) matches Some(m) && text::holds(m, display)
            && text::holds(m, v@.message()),
{
    let a = "failed to write file '"@;
    let b = "': "@;
    let none = Seq::<char>::empty();
    let w = "failed to write file: "@;
    assert(a + display + b + (w + e@) =~= a + display + (b + (w + e@)));
    assert(a + display + b + (w + e@) =~= (a + display + b + w) + e@ + none);
    let c = "post-write validation failed for '"@;
    let m = v@.message();
    assert(c + display + b + m =~= c + display + (b + m));
    assert(c + display + b + m =~= (c + display + b) + m + none);
}

/// A path that cannot be used is named in the error; so is a file that cannot be read,
/// with the cause behind it.
pub proof fn law_unusable_paths_are_named(path: Seq<char>, probe: PathProbe, e: EncodingErrorView)
    ensures
        located(path, probe) matches Err(m) ==> text::holds(m, path),
        text::holds(unreadable(path, e), path),
        e.message().is_suffix_of(unreadable(path, e)),
{
    lemma_named("invalid path '"@, path, "': "@);
    lemma_named("invalid path '"@, path, "': no parent directory"@);
    lemma_named("parent directory of '"@, path, "' does not exist: "@);
    lemma_named("invalid path '"@, path, "': no file name"@);
    lemma_named("failed to read file '"@, path, "': "@);
    text::lemma_holds_on("failed to read file '"@ + path + "': "@, e.message(), path);
    let u = unreadable(path, e);
    assert(u.subrange(u.len() - e.message().len(), u.len() as int) =~= e.message());
    match probe {
        PathProbe::Found(Err(c)) => {
            text::lemma_holds_on("invalid path '"@ + path + "': "@, c@, path);
        },
        PathProbe::Missing { parent: Some(Err(c)), file_name } => {
            text::lemma_holds_on("parent directory of '"@ + path + "' does not exist: "@, c@, path);
        },
        _ => {},
    }
}

proof fn lemma_named(head: Seq<char>, name: Seq<char>, tail: Seq<char>)
    ensures
        text::holds(head + name + tail, name),
{
}

/// An edit of a text that stands in several places is refused, unless all are meant;
/// the error tells how many there are, in which file, and how to mean all.
pub proof fn law_ambiguous_edits_are_counted(
    display: Seq<char>,
    content: Seq<char>,
    old: Seq<char>,
    new: Seq<char>,
)
    requires
        text::count_from(content, old, 0) > 1,
    ensures
        edited(display, content, old, new, true) is Ok,
        edited(display, content, old, new, false) matches Err(m) && text::holds(
            m,
            text::decimal(text::count_from(content, old, 0)),
        ) && text::holds(m, display) && text::holds(m, "replace_all=true"@),
{
    let n = text::decimal(text::count_from(content, old, 0));
    let head = "old_string is ambiguous: found "@;
    let middle = " occurrences in '"@;
    let tail =
        "'. Provide more surrounding context to make it unique, or set replace_all=true"@;
    reveal_strlit("replace_all=true");
    reveal_strlit("'. Provide more surrounding context to make it unique, or set replace_all=true");
    let way = "replace_all=true"@;
    assert(tail =~= tail.take(tail.len() - way.len()) + way);
    text::lemma_holds_ends(tail.take(tail.len() - way.len()), way);
    text::lemma_holds_ends(head + n + middle + display, tail);
    text::lemma_holds_within(head + n + middle + display + tail, tail, way);
    text::lemma_holds_ends(head, n);
    text::lemma_holds_on(head + n, middle, n);
    text::lemma_holds_on(head + n + middle, display, n);
    text::lemma_holds_on(head + n + middle + display, tail, n);
    text::lemma_holds_ends(head + n + middle, display);
    text::lemma_holds_on(head + n + middle + display, tail, display);
}

} // verus!
