//! The shell tool: which commands are answered without a shell, and what is
//! handed back of those that ran.
use crate::bytes::{self, sub_bytes, text_of};
use crate::file::no_working_dir;
use crate::json::{self, json_quote};
use crate::skills::{self, render_skill, Skills};
use crate::text::{
    self, copy_str, decimal_i32, decimal_u64, decimal_usize, from_chars, leading_whitespace,
    parse_u64, str_eq, sub_chars, to_chars, trim_chars, whitespace,
};
use vstd::prelude::*;

verus! {

/// How long a command may run, in seconds, unless the environment says
/// otherwise.
pub const BASH_TIMEOUT_SECS: u64 = 120;

/// How many bytes of an output are kept.
pub const BASH_OUTPUT_MAX_BYTES: usize = 1048576;

// ---------------------------------------------------------------------------
// Output
// ---------------------------------------------------------------------------

/// An output as a text: whole up to the limit, and else its beginning with a
/// note of how much is missing.
pub open spec fn capped(bytes: Seq<u8>) -> Seq<char> {
    if bytes.len() <= BASH_OUTPUT_MAX_BYTES {
        bytes::utf8_text(bytes)
    } else {
        bytes::utf8_text(bytes.take(BASH_OUTPUT_MAX_BYTES as int)) + "\n...[truncated "@
            + text::decimal((bytes.len() - BASH_OUTPUT_MAX_BYTES) as nat)
            + " bytes, output exceeded 1048576 bytes]"@
    }
}

/// An output as a text, cut to the limit.
pub fn truncate_output(bytes: Vec<u8>) -> (r: String)
    ensures
        r@ == capped(bytes@),
{
    if bytes.len() <= BASH_OUTPUT_MAX_BYTES {
        return text_of(&bytes);
    }
    let head = sub_bytes(&bytes, 0, BASH_OUTPUT_MAX_BYTES);
    assert(head@ =~= bytes@.take(BASH_OUTPUT_MAX_BYTES as int));
    let mut kept = text_of(&head);
    kept.append("\n...[truncated ");
    let n = decimal_usize(bytes.len() - BASH_OUTPUT_MAX_BYTES);
    kept.append(&n);
    kept.append(" bytes, output exceeded 1048576 bytes]");
    kept
}

/// The result of a command as a JSON object.
pub open spec fn output_json(exit_code: int, stdout: Seq<char>, stderr: Seq<char>) -> Seq<char> {
    "{\"exit_code\":"@ + text::decimal_int(exit_code) + ",\"stderr\":"@ + json::json_string(stderr)
        + ",\"stdout\":"@ + json::json_string(stdout) + "}"@
}

/// The result of a command as a JSON object.
fn format_output(exit_code: i32, stdout: &str, stderr: &str) -> (r: String)
    ensures
        r@ == output_json(exit_code as int, stdout@, stderr@),
{
    let mut s = copy_str("{\"exit_code\":");
    let n = decimal_i32(exit_code);
    s.append(&n);
    s.append(",\"stderr\":");
    let e = json_quote(stderr);
    s.append(&e);
    s.append(",\"stdout\":");
    let o = json_quote(stdout);
    s.append(&o);
    s.append("}");
    s
}

// ---------------------------------------------------------------------------
// Timeout
// ---------------------------------------------------------------------------

/// How long a command may run: the positive number that the variable holds, or
/// the default.
pub open spec fn timeout_of(var: Option<String>) -> nat {
    match var {
        Some(s) => match text::parse_unsigned(s@, u64::MAX as nat) {
            Some(n) => if n > 0 {
                n
            } else {
                BASH_TIMEOUT_SECS as nat
            },
            None => BASH_TIMEOUT_SECS as nat,
        },
        None => BASH_TIMEOUT_SECS as nat,
    }
}

/// How long a command may run, given the value of `COGENT_BASH_TIMEOUT_SECS`.
pub fn bash_timeout_secs(var: &Option<String>) -> (r: u64)
    ensures
        r == timeout_of(*var),
        r >= 1,
{
    match var {
        Some(s) => match parse_u64(s, u64::MAX) {
            Some(n) => if n > 0 {
                n
            } else {
                BASH_TIMEOUT_SECS
            },
            None => BASH_TIMEOUT_SECS,
        },
        None => BASH_TIMEOUT_SECS,
    }
}

// ---------------------------------------------------------------------------
// Skills by command
// ---------------------------------------------------------------------------

/// The length of the shell separator at an index: two for `&&` and `||`, one
/// for `|`, `;` and a line feed, and zero where there is none.
pub open spec fn separator_len(s: Seq<char>, i: int) -> int {
    if s[i] == '&' && i + 1 < s.len() && s[i + 1] == '&' {
        2
    } else if s[i] == '|' && i + 1 < s.len() && s[i + 1] == '|' {
        2
    } else if s[i] == '|' || s[i] == ';' || s[i] == '\n' {
        1
    } else {
        0
    }
}

/// The pieces of a command between the separators from index `i` on, the first
/// of which begins at index `start`.
pub open spec fn pieces_from(s: Seq<char>, start: int, i: int) -> Seq<Seq<char>>
    decreases s.len() - i,
{
    if i >= s.len() {
        seq![s.subrange(start, s.len() as int)]
    } else if separator_len(s, i) > 0 {
        let next = i + separator_len(s, i);
        seq![s.subrange(start, i)] + pieces_from(s, next, next)
    } else {
        pieces_from(s, start, i + 1)
    }
}

/// The texts of a list, without the whitespace around them and without those
/// that are empty then.
pub open spec fn trimmed_nonempty(pieces: Seq<Seq<char>>) -> Seq<Seq<char>>
    decreases pieces.len(),
{
    if pieces.len() == 0 {
        Seq::empty()
    } else {
        let before = trimmed_nonempty(pieces.drop_last());
        let t = text::trim(pieces.last());
        if t.len() == 0 {
            before
        } else {
            before.push(t)
        }
    }
}

/// The commands that a command line is made of.
pub open spec fn segments(s: Seq<char>) -> Seq<Seq<char>> {
    trimmed_nonempty(pieces_from(s, 0, 0))
}

proof fn lemma_trimmed_append(a: Seq<Seq<char>>, piece: Seq<char>)
    ensures
        trimmed_nonempty(a.push(piece)) == (if text::trim(piece).len() == 0 {
            trimmed_nonempty(a)
        } else {
            trimmed_nonempty(a).push(text::trim(piece))
        }),
{
    assert(a.push(piece).drop_last() =~= a);
}

/// Takes in one piece of a command.
fn push_piece(r: &mut Vec<String>, piece: &[char], Ghost(seen): Ghost<Seq<Seq<char>>>)
    requires
        text::views(old(r)@) == trimmed_nonempty(seen),
    ensures
        text::views(final(r)@) == trimmed_nonempty(seen.push(piece@)),
{
    let t = trim_chars(piece);
    proof {
        lemma_trimmed_append(seen, piece@);
    }
    if t.len() > 0 {
        let ghost before = r@;
        r.push(from_chars(&t));
        assert(text::views(r@) =~= text::views(before).push(t@));
    }
}

/// The commands that a command line is made of: what stands between `&&`, `||`,
/// `|`, `;` and line feeds, without the whitespace around it.
pub fn split_shell_segments(command: &str) -> (r: Vec<String>)
    ensures
        text::views(r@) == segments(command@),
{
    let s = to_chars(command);
    let len: usize = s.len();
    let mut r: Vec<String> = Vec::new();
    let mut start: usize = 0;
    let mut i: usize = 0;
    let ghost mut seen: Seq<Seq<char>> = Seq::empty();
    assert(text::views(r@) =~= trimmed_nonempty(seen));
    assert(seen + pieces_from(s@, 0, 0) =~= pieces_from(s@, 0, 0));
    while i < len
        invariant
            start <= i <= len == s@.len(),
            s@ == command@,
            text::views(r@) == trimmed_nonempty(seen),
            pieces_from(s@, 0, 0) == seen + pieces_from(s@, start as int, i as int),
        decreases len - i,
    {
        let c = s[i];
        let n: usize = if c == '&' && i + 1 < len && s[i + 1] == '&' {
            2
        } else if c == '|' && i + 1 < len && s[i + 1] == '|' {
            2
        } else if c == '|' || c == ';' || c == '\n' {
            1
        } else {
            0
        };
        if n > 0 {
            let piece = sub_chars(&s, start, i);
            push_piece(&mut r, &piece, Ghost(seen));
            proof {
                let rest = pieces_from(s@, i + n, i + n);
                assert(seen + (seq![piece@] + rest) =~= seen.push(piece@) + rest);
                seen = seen.push(piece@);
            }
            i = i + n;
            start = i;
        } else {
            i = i + 1;
        }
    }
    let piece = sub_chars(&s, start, len);
    push_piece(&mut r, &piece, Ghost(seen));
    assert(seen + seq![piece@] =~= seen.push(piece@));
    r
}

/// Number of characters before the first whitespace.
pub open spec fn run_len(s: Seq<char>) -> int
    decreases s.len(),
{
    if s.len() == 0 || text::is_whitespace(s[0]) {
        0
    } else {
        1 + run_len(s.skip(1))
    }
}

/// The first word of a text.
pub open spec fn first_word(s: Seq<char>) -> Seq<char> {
    let t = text::trim_start(s);
    t.take(run_len(t))
}

/// What follows the first word of a text.
pub open spec fn after_first_word(s: Seq<char>) -> Seq<char> {
    let t = text::trim_start(s);
    t.skip(run_len(t))
}

/// The first word of a text and what follows it.
fn split_word(v: &[char]) -> (r: (Vec<char>, Vec<char>))
    ensures
        r.0@ == first_word(v@),
        r.1@ == after_first_word(v@),
{
    let n = leading_whitespace(v);
    let ghost t = text::trim_start(v@);
    let mut k: usize = n;
    assert(t.skip(0) =~= t);
    while k < v.len() && !whitespace(v[k])
        invariant
            n <= k <= v@.len(),
            t == v@.skip(n as int),
            run_len(t) == (k - n) + run_len(t.skip(k - n)),
        decreases v@.len() - k,
    {
        assert(t.skip(k - n)[0] == v@[k as int]);
        assert(t.skip(k - n).skip(1) =~= t.skip(k - n + 1));
        k += 1;
    }
    assert(k < v@.len() ==> t.skip(k - n)[0] == v@[k as int]);
    assert(run_len(t.skip(k - n)) == 0);
    let word = sub_chars(v, n, k);
    let rest = sub_chars(v, k, v.len());
    assert(word@ =~= t.take(run_len(t)));
    assert(rest@ =~= t.skip(run_len(t)));
    (word, rest)
}

/// The name of the skill that the first of some commands asks for which asks
/// for one.
pub open spec fn skill_asked(commands: Seq<Seq<char>>) -> Option<Seq<char>>
    decreases commands.len(),
{
    if commands.len() == 0 {
        None
    } else if first_word(commands[0]) == "cog-skill"@ {
        Some(first_word(after_first_word(commands[0])))
    } else {
        skill_asked(commands.skip(1))
    }
}

/// The name of the skill that a command line asks for with `cog-skill`; an empty
/// name where none follows.
pub fn extract_cog_skill_name(command: &str) -> (r: Option<String>)
    ensures
        crate::types::opt_view(r) == skill_asked(segments(command@)),
{
    let commands = split_shell_segments(command);
    let ghost all = segments(command@);
    let mut i: usize = 0;
    assert(all.skip(0) =~= all);
    while i < commands.len()
        invariant
            i <= commands@.len(),
            all == segments(command@),
            all == text::views(commands@),
            skill_asked(all) == skill_asked(all.skip(i as int)),
        decreases commands@.len() - i,
    {
        let v = to_chars(&commands[i]);
        let (word, rest) = split_word(&v);
        proof {
            assert(all.skip(i as int)[0] == commands@[i as int]@);
            assert(all.skip(i as int).skip(1) =~= all.skip(i + 1));
        }
        let w = from_chars(&word);
        if str_eq(&w, "cog-skill") {
            let (name, _) = split_word(&rest);
            return Some(from_chars(&name));
        }
        i += 1;
    }
    None
}

/// The reply to a command that asks for a skill.
pub open spec fn skill_reply(skills: Skills, name: Seq<char>) -> Seq<char> {
    match skills::find_name(skills::skill_names(), name) {
        Some(i) => output_json(
            0,
            skills::rendered(skills.entries()[i].content, skills.entries()[i].auxiliary),
            Seq::empty(),
        ),
        None => output_json(1, Seq::empty(), skills::unknown_skill(name)),
    }
}

/// The reply to a command that asks for a skill with `cog-skill`; nothing for
/// any other command.
pub fn try_handle_cog_skill(skills: &Skills, command: &str) -> (r: Option<String>)
    requires
        skills.wf(),
    ensures
        match skill_asked(segments(command@)) {
            Some(name) => r matches Some(s) && s@ == skill_reply(*skills, name),
            None => r is None,
        },
{
    match extract_cog_skill_name(command) {
        None => None,
        Some(name) => {
            let empty = String::new();
            match render_skill(skills, &name) {
                Ok(content) => Some(format_output(0, &content, &empty)),
                Err(e) => Some(format_output(1, &empty, &e)),
            }
        },
    }
}

// ---------------------------------------------------------------------------
// The tool
// ---------------------------------------------------------------------------

/// What is done with a command.
#[derive(Debug)]
pub enum BashPlan {
    /// It fails with this message.
    Fail(String),
    /// It is answered with this text, without a shell.
    Reply(String),
    /// It is run by a shell, for at most so many seconds.
    Run(u64),
}

/// What is done with a command, in the working directory or with the error of
/// asking for it, given the value of `COGENT_BASH_TIMEOUT_SECS`.
pub fn plan_bash(
    skills: &Skills,
    command: &str,
    working_dir: &Result<String, String>,
    timeout_var: &Option<String>,
) -> (r: BashPlan)
    requires
        skills.wf(),
    ensures
        match working_dir {
            Err(e) => r matches BashPlan::Fail(m) && m@
                == "failed to get current working directory: "@ + e@,
            Ok(_) => match skill_asked(segments(command@)) {
                Some(name) => r matches BashPlan::Reply(s) && s@ == skill_reply(*skills, name),
                None => r matches BashPlan::Run(n) && n == timeout_of(*timeout_var),
            },
        },
{
    match working_dir {
        Err(e) => BashPlan::Fail(no_working_dir(e)),
        Ok(_) => match try_handle_cog_skill(skills, command) {
            Some(s) => BashPlan::Reply(s),
            None => BashPlan::Run(bash_timeout_secs(timeout_var)),
        },
    }
}

/// How a shell ended.
#[derive(Debug)]
pub enum ShellRun {
    /// It did not start.
    SpawnFailed(String),
    /// It ran out of time and was killed.
    TimedOut,
    /// Waiting for it failed.
    WaitFailed(String),
    /// Reading its output failed.
    StdoutFailed(String),
    /// Reading its error output failed.
    StderrFailed(String),
    /// It ended, with an exit code unless a signal ended it.
    Exited { code: Option<i32>, stdout: Vec<u8>, stderr: Vec<u8> },
}

/// The exit code that is reported.
pub open spec fn reported_code(code: Option<i32>) -> int {
    match code {
        Some(c) => c as int,
        None => -1,
    }
}

/// What the tool hands back: the JSON object of a command that ended with zero,
/// and the message of everything else.
pub open spec fn shell_result(
    command: Seq<char>,
    timeout_secs: nat,
    run: ShellRun,
) -> Result<Seq<char>, Seq<char>> {
    match run {
        ShellRun::SpawnFailed(e) => Err("failed to spawn bash command: "@ + e@),
        ShellRun::TimedOut => Err(
            "bash command timed out after "@ + text::decimal(timeout_secs) + "s: "@ + command,
        ),
        ShellRun::WaitFailed(e) => Err("failed to wait for bash command: "@ + e@),
        ShellRun::StdoutFailed(e) => Err("failed to read bash stdout: "@ + e@),
        ShellRun::StderrFailed(e) => Err("failed to read bash stderr: "@ + e@),
        ShellRun::Exited { code, stdout, stderr } => {
            let output = output_json(reported_code(code), capped(stdout@), capped(stderr@));
            if reported_code(code) == 0 {
                Ok(output)
            } else {
                Err(
                    "command exited with code "@ + text::decimal_int(reported_code(code)) + ": "@
                        + output,
                )
            }
        },
    }
}

/// A message and the error behind it.
fn with_cause(m: &str, e: &str) -> (r: String)
    ensures
        r@ == m@ + e@,
{
    let mut s = copy_str(m);
    s.append(e);
    s
}

/// What the tool hands back of a command that was given to a shell.
pub fn bash(command: &str, timeout_secs: u64, run: ShellRun) -> (r: Result<String, String>)
    ensures
        match r {
            Ok(s) => shell_result(command@, timeout_secs as nat, run) == Ok::<
                Seq<char>,
                Seq<char>,
            >(s@),
            Err(s) => shell_result(command@, timeout_secs as nat, run) == Err::<
                Seq<char>,
                Seq<char>,
            >(s@),
        },
{
    match run {
        ShellRun::SpawnFailed(e) => Err(with_cause("failed to spawn bash command: ", &e)),
        ShellRun::TimedOut => {
            let mut m = copy_str("bash command timed out after ");
            let n = decimal_u64(timeout_secs);
            m.append(&n);
            m.append("s: ");
            m.append(command);
            Err(m)
        },
        ShellRun::WaitFailed(e) => Err(with_cause("failed to wait for bash command: ", &e)),
        ShellRun::StdoutFailed(e) => Err(with_cause("failed to read bash stdout: ", &e)),
        ShellRun::StderrFailed(e) => Err(with_cause("failed to read bash stderr: ", &e)),
        ShellRun::Exited { code, stdout, stderr } => {
            let exit_code: i32 = match code {
                Some(c) => c,
                None => -1,
            };
            let out = truncate_output(stdout);
            let err = truncate_output(stderr);
            let output = format_output(exit_code, &out, &err);
            if exit_code != 0 {
                let mut m = copy_str("command exited with code ");
                let n = decimal_i32(exit_code);
                m.append(&n);
                m.append(": ");
                m.append(&output);
                Err(m)
            } else {
                Ok(output)
            }
        },
    }
}

// ---------------------------------------------------------------------------
// Laws
// ---------------------------------------------------------------------------

proof fn lemma_decimal_digits(n: nat)
    ensures
        text::all_digits(text::decimal(n)),
    decreases n,
{
    if n >= 10 {
        lemma_decimal_digits(n / 10);
    }
}

/// The notation of a number holds digits and signs alone.
proof fn lemma_number_chars(code: int)
    ensures
        text::decimal_int(code).len() > 0,
        forall|k: int|
            0 <= k < text::decimal_int(code).len() ==> ('0' <= #[trigger] text::decimal_int(
                code,
            )[k] <= '9' || text::decimal_int(code)[k] == '-'),
{
    let n = text::decimal_int(code);
    let d = text::decimal(
        if code < 0 {
            (-code) as nat
        } else {
            code as nat
        },
    );
    lemma_decimal_digits(
        if code < 0 {
            (-code) as nat
        } else {
            code as nat
        },
    );
    assert forall|k: int| 0 <= k < n.len() implies ('0' <= #[trigger] n[k] <= '9' || n[k]
        == '-') by {
        if code < 0 {
            if k > 0 {
                assert(n[k] == d[k - 1]);
                assert(text::is_digit(d[k - 1]));
            }
        } else {
            assert(text::is_digit(d[k]));
        }
    }
}

/// The object of an exit code and two outputs, member by member.
spec fn output_members(code: int, stdout: Seq<char>, stderr: Seq<char>) -> Seq<
    (Seq<char>, Seq<char>),
> {
    seq![
        ("exit_code"@, text::decimal_int(code)),
        ("stderr"@, json::json_string(stderr)),
        ("stdout"@, json::json_string(stdout)),
    ]
}

proof fn lemma_output_members(code: int, stdout: Seq<char>, stderr: Seq<char>)
    ensures
        output_json(code, stdout, stderr) == json::object_of(
            output_members(code, stdout, stderr),
        ),
{
    reveal_strlit("{\"exit_code\":");
    reveal_strlit(",\"stderr\":");
    reveal_strlit(",\"stdout\":");
    reveal_strlit("}");
    reveal_strlit("exit_code");
    reveal_strlit("stderr");
    reveal_strlit("stdout");
    json::lemma_plain_string("exit_code"@);
    json::lemma_plain_string("stderr"@);
    json::lemma_plain_string("stdout"@);
    let n = text::decimal_int(code);
    let err = json::json_string(stderr);
    let out = json::json_string(stdout);
    let members = output_members(code, stdout, stderr);
    let parts = json::keyed_all(members);
    let comma = seq![','];
    assert(parts.drop_last().drop_last() =~= seq![parts[0]]);
    assert(text::join(parts, comma) == parts[0] + comma + parts[1] + comma + parts[2]) by {
        reveal_with_fuel(text::join, 3);
        assert(parts.drop_last().last() == parts[1]);
    }
    let k1 = json::json_string("exit_code"@) + seq![':'];
    let k2 = json::json_string("stderr"@) + seq![':'];
    let k3 = json::json_string("stdout"@) + seq![':'];
    assert("{\"exit_code\":"@ =~= seq!['{'] + k1);
    assert(",\"stderr\":"@ =~= comma + k2);
    assert(",\"stdout\":"@ =~= comma + k3);
    assert("}"@ =~= seq!['}']);
    assert(output_json(code, stdout, stderr) =~= seq!['{'] + (k1 + n + comma + (k2 + err) + comma
        + (k3 + out)) + seq!['}']);
}

/// The object of an exit code and two outputs holds them under their names.
proof fn lemma_members(code: int, stdout: Seq<char>, stderr: Seq<char>)
    ensures
        json::value_member(output_json(code, stdout, stderr), "exit_code"@) == Some(
            text::decimal_int(code),
        ),
        json::text_member(output_json(code, stdout, stderr), "stdout"@) == Some(stdout),
        json::text_member(output_json(code, stdout, stderr), "stderr"@) == Some(stderr),
{
    reveal_strlit("exit_code");
    reveal_strlit("stderr");
    reveal_strlit("stdout");
    lemma_output_members(code, stdout, stderr);
    let s = output_json(code, stdout, stderr);
    let members = output_members(code, stdout, stderr);
    assert("exit_code"@.len() == 9 && "stderr"@.len() == 6 && "stdout"@.len() == 6);
    assert("stderr"@[3] != "stdout"@[3]);
    lemma_number_chars(code);
    json::lemma_passes_word(text::decimal_int(code), 0);
    json::lemma_passes_string(stderr, 0);
    json::lemma_passes_string(stdout, 0);
    assert forall|k: int| 0 <= k < members.len() implies json::passes(
        (#[trigger] members[k]).1,
        0,
    ) by {}
    json::law_objects_are_read_back(members, 0);
    json::law_objects_are_read_back(members, 1);
    json::law_objects_are_read_back(members, 2);
    json::lemma_text_member(s, "stderr"@, stderr);
    json::lemma_text_member(s, "stdout"@, stdout);
}

/// What a command wrote is handed back, each stream under its own name and
/// neither touched by the other: the result of a command that ended is an object
/// that holds the exit code, the text of the output and the text of the error
/// output, each up to the limit. It is the result itself after an exit code of
/// zero, and ends the message of the failure after any other.
pub proof fn law_both_streams_are_handed_back(
    command: Seq<char>,
    timeout_secs: nat,
    code: Option<i32>,
    stdout: Vec<u8>,
    stderr: Vec<u8>,
    out: Seq<char>,
    err: Seq<char>,
)
    requires
        stdout@ == vstd::utf8::encode_utf8(out),
        stderr@ == vstd::utf8::encode_utf8(err),
        stdout@.len() <= 1048576,
        stderr@.len() <= 1048576,
    ensures
        ({
            let r = shell_result(command, timeout_secs, ShellRun::Exited { code, stdout, stderr });
            let shown = match code {
                Some(c) => text::decimal_int(c as int),
                None => seq!['-', '1'],
            };
            exists|object: Seq<char>|
                {
                    &&& #[trigger] json::text_member(object, "stdout"@) == Some(out)
                    &&& json::text_member(object, "stderr"@) == Some(err)
                    &&& json::value_member(object, "exit_code"@) == Some(shown)
                    &&& code == Some(0i32) ==> r == Ok::<Seq<char>, Seq<char>>(object)
                    &&& code != Some(0i32) ==> r == Err::<Seq<char>, Seq<char>>(
                        "command exited with code "@ + shown + ": "@ + object,
                    )
                }
        }),
{
    bytes::law_utf8_round_trip(out);
    bytes::law_utf8_round_trip(err);
    let n = match code {
        Some(c) => c as int,
        None => -1,
    };
    let shown = match code {
        Some(c) => text::decimal_int(c as int),
        None => seq!['-', '1'],
    };
    assert(shown =~= text::decimal_int(n)) by {
        if code is None {
            assert(text::decimal(1) =~= seq!['1']);
            assert(text::decimal_int(-1) =~= seq!['-', '1']);
        }
    }
    lemma_members(n, out, err);
    let object = output_json(n, out, err);
    assert(json::text_member(object, "stdout"@) == Some(out));
}

/// The outputs of a command do not change what the other is handed back as:
/// commands that wrote the same output are handed back with the same text of it,
/// whatever else they wrote, and however long the outputs are.
pub proof fn law_streams_do_not_mix(
    command: Seq<char>,
    timeout_secs: nat,
    stdout: Vec<u8>,
    stderr: Vec<u8>,
    other: Vec<u8>,
)
    ensures
        ({
            let zero = Some(0i32);
            let a = shell_result(
                command,
                timeout_secs,
                ShellRun::Exited { code: zero, stdout, stderr },
            );
            let b = shell_result(
                command,
                timeout_secs,
                ShellRun::Exited { code: zero, stdout, stderr: other },
            );
            let c = shell_result(
                command,
                timeout_secs,
                ShellRun::Exited { code: zero, stdout: other, stderr },
            );
            &&& a is Ok && b is Ok && c is Ok
            &&& json::text_member(a->Ok_0, "stdout"@) is Some
            &&& json::text_member(a->Ok_0, "stdout"@) == json::text_member(b->Ok_0, "stdout"@)
            &&& json::text_member(a->Ok_0, "stderr"@) is Some
            &&& json::text_member(a->Ok_0, "stderr"@) == json::text_member(c->Ok_0, "stderr"@)
        }),
{
    lemma_members(0, capped(stdout@), capped(stderr@));
    lemma_members(0, capped(stdout@), capped(other@));
    lemma_members(0, capped(other@), capped(stderr@));
}

/// An output that is too long is handed back from its beginning: the text of as
/// many bytes as the limit, and after it the number of those that are missing.
pub proof fn law_long_outputs_keep_their_beginning(
    command: Seq<char>,
    timeout_secs: nat,
    stdout: Vec<u8>,
    stderr: Vec<u8>,
    head: Seq<char>,
)
    requires
        stdout@.len() > 1048576,
        stdout@.take(1048576) == vstd::utf8::encode_utf8(head),
    ensures
        ({
            let r = shell_result(
                command,
                timeout_secs,
                ShellRun::Exited { code: Some(0i32), stdout, stderr },
            );
            r is Ok && json::text_member(r->Ok_0, "stdout"@) == Some(
                head + "\n...[truncated "@ + text::decimal((stdout@.len() - 1048576) as nat)
                    + " bytes, output exceeded 1048576 bytes]"@,
            )
        }),
{
    bytes::law_utf8_round_trip(head);
    lemma_members(0, capped(stdout@), capped(stderr@));
}

/// Whether a command holds none of the characters that separators are made of.
pub open spec fn no_separator(s: Seq<char>) -> bool {
    forall|i: int|
        0 <= i < s.len() ==> (#[trigger] s[i]) != '&' && s[i] != '|' && s[i] != ';' && s[i] != '\n'
}

proof fn lemma_pieces_plain(s: Seq<char>, start: int, i: int, end: int)
    requires
        0 <= start <= i <= end <= s.len(),
        forall|k: int|
            i <= k < end ==> (#[trigger] s[k]) != '&' && s[k] != '|' && s[k] != ';' && s[k] != '\n',
    ensures
        pieces_from(s, start, i) == pieces_from(s, start, end),
    decreases end - i,
{
    if i < end {
        assert(separator_len(s, i) == 0);
        lemma_pieces_plain(s, start, i + 1, end);
    }
}

proof fn lemma_pieces_shift(s: Seq<char>, from: int, start: int, i: int)
    requires
        0 <= from,
        0 <= start <= i <= s.len() - from,
    ensures
        pieces_from(s, from + start, from + i) == pieces_from(s.skip(from), start, i),
    decreases s.len() - from - i,
{
    let t = s.skip(from);
    if i >= t.len() {
        assert(s.subrange(from + start, s.len() as int) =~= t.subrange(start, t.len() as int));
    } else {
        assert(t[i] == s[from + i]);
        if i + 1 < t.len() {
            assert(t[i + 1] == s[from + i + 1]);
        }
        assert(separator_len(t, i) == separator_len(s, from + i));
        if separator_len(t, i) > 0 {
            let next = i + separator_len(t, i);
            assert(next <= t.len());
            lemma_pieces_shift(s, from, next, next);
            assert(s.subrange(from + start, from + i) =~= t.subrange(start, i));
        } else {
            lemma_pieces_shift(s, from, start, i + 1);
        }
    }
}

proof fn lemma_trimmed_concat(a: Seq<Seq<char>>, b: Seq<Seq<char>>)
    ensures
        trimmed_nonempty(a + b) == trimmed_nonempty(a) + trimmed_nonempty(b),
    decreases b.len(),
{
    if b.len() == 0 {
        assert(a + b =~= a);
        assert(trimmed_nonempty(a) + trimmed_nonempty(b) =~= trimmed_nonempty(a));
    } else {
        lemma_trimmed_concat(a, b.drop_last());
        assert((a + b).drop_last() =~= a + b.drop_last());
        assert((a + b).last() == b.last());
        let t = text::trim(b.last());
        assert(trimmed_nonempty(a) + trimmed_nonempty(b.drop_last()).push(t) =~= (
        trimmed_nonempty(a) + trimmed_nonempty(b.drop_last())).push(t));
    }
}

/// A command line is taken apart at its separators: a command without any is one
/// command, without the whitespace around it, or none where it is blank; and what
/// stands before a separator and what stands after it are taken apart each by
/// itself, in their order.
pub proof fn law_command_lines_are_taken_apart(a: Seq<char>, sep: Seq<char>, b: Seq<char>)
    requires
        no_separator(a),
    ensures
        text::trim(a).len() > 0 ==> segments(a) == seq![text::trim(a)],
        text::trim(a).len() == 0 ==> segments(a) == Seq::<Seq<char>>::empty(),
        ({
            ||| sep == seq!['&', '&'] || sep == seq!['|', '|']
            ||| sep == seq![';'] || sep == seq!['\n']
            ||| sep == seq!['|'] && !(b.len() > 0 && b[0] == '|')
        }) ==> segments(a + sep + b) == segments(a) + segments(b),
{
    let n = a.len() as int;
    lemma_pieces_plain(a, 0, 0, n);
    assert(a.subrange(0, n) =~= a);
    assert(pieces_from(a, 0, 0) =~= seq![a]);
    let none = Seq::<Seq<char>>::empty();
    lemma_trimmed_append(none, a);
    assert(none.push(a) =~= seq![a]);
    assert(none.push(text::trim(a)) =~= seq![text::trim(a)]);
    if sep == seq!['&', '&'] || sep == seq!['|', '|'] || sep == seq![';'] || sep == seq!['\n']
        || sep == seq!['|'] && !(b.len() > 0 && b[0] == '|') {
        let s = a + sep + b;
        assert forall|k: int| 0 <= k < n implies s[k] == a[k] by {}
        lemma_pieces_plain(s, 0, 0, n);
        assert(s[n] == sep[0]);
        if sep.len() == 2 {
            assert(s[n + 1] == sep[1]);
        } else if b.len() > 0 {
            assert(s[n + 1] == b[0]);
        }
        assert(separator_len(s, n) == sep.len());
        let next = n + sep.len();
        lemma_pieces_shift(s, next, 0, 0);
        assert(s.skip(next) =~= b);
        assert(s.subrange(0, n) =~= a);
        assert(pieces_from(s, 0, 0) == seq![a] + pieces_from(b, 0, 0));
        lemma_trimmed_concat(seq![a], pieces_from(b, 0, 0));
    }
}

proof fn lemma_run_len(s: Seq<char>)
    ensures
        0 <= run_len(s) <= s.len(),
        forall|k: int| 0 <= k < run_len(s) ==> !text::is_whitespace(#[trigger] s[k]),
        run_len(s) < s.len() ==> text::is_whitespace(s[run_len(s)]),
    decreases s.len(),
{
    if s.len() > 0 && !text::is_whitespace(s[0]) {
        let t = s.skip(1);
        lemma_run_len(t);
        assert forall|k: int| 0 <= k < run_len(s) implies !text::is_whitespace(
            #[trigger] s[k],
        ) by {
            if k > 0 {
                assert(s[k] == t[k - 1]);
            }
        }
        if run_len(s) < s.len() {
            assert(s[run_len(s)] == t[run_len(t)]);
        }
    }
}

/// The first word of a command is what stands before the first whitespace after
/// it, and the whitespace before it does not count.
pub proof fn law_first_words(spaces: Seq<char>, word: Seq<char>, rest: Seq<char>)
    requires
        forall|k: int| 0 <= k < spaces.len() ==> text::is_whitespace(#[trigger] spaces[k]),
        forall|k: int| 0 <= k < word.len() ==> !text::is_whitespace(#[trigger] word[k]),
        word.len() > 0,
        rest.len() > 0 ==> text::is_whitespace(rest[0]),
    ensures
        first_word(spaces + word + rest) == word,
        after_first_word(spaces + word + rest) == rest,
{
    let s = spaces + word + rest;
    text::lemma_trim_start_skips(spaces, word + rest);
    assert(spaces + (word + rest) =~= s);
    let t = text::trim_start(s);
    assert(t == word + rest);
    lemma_run_len(t);
    assert(t[0] == word[0]);
    if run_len(t) < word.len() {
        assert(t[run_len(t)] == word[run_len(t)]);
    }
    if run_len(t) > word.len() {
        assert(t[word.len() as int] == rest[0]);
    }
    assert(t.take(word.len() as int) =~= word);
    assert(t.skip(word.len() as int) =~= rest);
}

/// A skill is asked for by the first command whose first word is `cog-skill`, and
/// its name is the word after that; a line without such a command asks for none.
pub proof fn law_skills_are_asked_for_by_name(commands: Seq<Seq<char>>)
    ensures
        match skill_asked(commands) {
            Some(name) => exists|i: int|
                {
                    &&& 0 <= i < commands.len()
                    &&& first_word(#[trigger] commands[i]) == "cog-skill"@
                    &&& name == first_word(after_first_word(commands[i]))
                    &&& forall|j: int|
                        0 <= j < i ==> first_word(#[trigger] commands[j]) != "cog-skill"@
                },
            None => forall|j: int|
                0 <= j < commands.len() ==> first_word(#[trigger] commands[j]) != "cog-skill"@,
        },
    decreases commands.len(),
{
    if commands.len() > 0 && first_word(commands[0]) != "cog-skill"@ {
        let rest = commands.skip(1);
        law_skills_are_asked_for_by_name(rest);
        match skill_asked(rest) {
            Some(name) => {
                let i = choose|i: int|
                    {
                        &&& 0 <= i < rest.len()
                        &&& first_word(#[trigger] rest[i]) == "cog-skill"@
                        &&& name == first_word(after_first_word(rest[i]))
                        &&& forall|j: int|
                            0 <= j < i ==> first_word(#[trigger] rest[j]) != "cog-skill"@
                    };
                assert(commands[i + 1] == rest[i]);
                assert forall|j: int| 0 <= j < i + 1 implies first_word(#[trigger] commands[j])
                    != "cog-skill"@ by {
                    if j > 0 {
                        assert(commands[j] == rest[j - 1]);
                    }
                }
            },
            None => {
                assert forall|j: int| 0 <= j < commands.len() implies first_word(
                    #[trigger] commands[j],
                ) != "cog-skill"@ by {
                    if j > 0 {
                        assert(commands[j] == rest[j - 1]);
                    }
                }
            },
        }
    }
}

/// A skill is handed back as if a command had printed it: its whole text as the
/// output, with an exit code of zero; and a name that is none as an error, with an
/// exit code of one.
pub proof fn law_skills_are_handed_back(skills: Skills, name: Seq<char>)
    requires
        skills.wf(),
    ensures
        skills::skill_names().contains(name) ==> exists|i: int|
            {
                &&& 0 <= i < skills::skill_names().len()
                &&& #[trigger] skills::skill_names()[i] == name
                &&& json::text_member(skill_reply(skills, name), "stdout"@) == Some(
                    text::join(
                        seq![skills.entries()[i].content] + skills.entries()[i].auxiliary,
                        "\n\n---\n\n"@,
                    ),
                )
                &&& json::value_member(skill_reply(skills, name), "exit_code"@) == Some(seq!['0'])
            },
        !skills::skill_names().contains(name) ==> {
            &&& json::value_member(skill_reply(skills, name), "exit_code"@) == Some(seq!['1'])
            &&& json::text_member(skill_reply(skills, name), "stderr"@) is Some
            &&& text::holds(json::text_member(skill_reply(skills, name), "stderr"@)->0, name)
        },
{
    skills::law_a_found_skill_has_the_name(name);
    assert(text::decimal(0) =~= seq!['0']);
    assert(text::decimal(1) =~= seq!['1']);
    match skills::find_name(skills::skill_names(), name) {
        Some(i) => {
            let e = skills.entries()[i];
            skills::law_skills_are_rendered_whole(e.content, e.auxiliary);
            lemma_members(0, skills::rendered(e.content, e.auxiliary), Seq::empty());
            assert(skills::skill_names()[i] == name);
        },
        None => {
            lemma_members(1, Seq::empty(), skills::unknown_skill(name));
            let head = "unknown skill '"@;
            let tail = "'. Available skills: "@ + text::join(skills::skill_names(), ", "@);
            assert(skills::unknown_skill(name) =~= head + name + tail);
        },
    }
}

/// A command may run as long as the variable says, in whole seconds from one on,
/// and two minutes where it says nothing of the kind.
pub proof fn law_the_variable_sets_the_time(n: u64, var: String)
    ensures
        var@ == text::decimal(n as nat) && n > 0 ==> timeout_of(Some(var)) == n,
        var@ == text::decimal(0) ==> timeout_of(Some(var)) == 120,
        var@.len() == 0 ==> timeout_of(Some(var)) == 120,
        timeout_of(None) == 120,
        timeout_of(Some(var)) >= 1,
{
    text::law_decimal_is_read_back(n as nat, u64::MAX as nat);
    text::law_decimal_is_read_back(0, u64::MAX as nat);
}

/// A command that did not end is told with why: that it ran out of time, after how
/// long and which it was, or the cause of the failure.
pub proof fn law_failed_commands_are_told(command: Seq<char>, secs: nat, e: String)
    ensures
        shell_result(command, secs, ShellRun::TimedOut) matches Err(m) && text::holds(m, command)
            && text::holds(m, text::decimal(secs)),
        shell_result(command, secs, ShellRun::SpawnFailed(e)) matches Err(m) && text::holds(m, e@),
        shell_result(command, secs, ShellRun::WaitFailed(e)) matches Err(m) && text::holds(m, e@),
        shell_result(command, secs, ShellRun::StdoutFailed(e)) matches Err(m) && text::holds(m, e@),
        shell_result(command, secs, ShellRun::StderrFailed(e)) matches Err(m) && text::holds(m, e@),
{
    let none = Seq::<char>::empty();
    let a = "bash command timed out after "@;
    let n = text::decimal(secs);
    assert(a + n + "s: "@ + command =~= a + n + ("s: "@ + command));
    assert(a + n + "s: "@ + command =~= (a + n + "s: "@) + command + none);
    assert("failed to spawn bash command: "@ + e@ =~= "failed to spawn bash command: "@ + e@
        + none);
    assert("failed to wait for bash command: "@ + e@ =~= "failed to wait for bash command: "@ + e@
        + none);
    assert("failed to read bash stdout: "@ + e@ =~= "failed to read bash stdout: "@ + e@ + none);
    assert("failed to read bash stderr: "@ + e@ =~= "failed to read bash stderr: "@ + e@ + none);
}

} // verus!
