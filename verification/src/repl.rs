//! What the session on the terminal does with each line that is typed, and with
//! the end of each turn.
use crate::error::{CogentError, ErrorView};
use crate::render::{self, span, Span, SpanView, Style};
use crate::text::{self, copy_str, from_chars, str_eq, sub_chars, to_chars, trim_chars};
use vstd::prelude::*;

verus! {

/// What came of reading a line.
#[derive(Debug)]
pub enum ReadOutcome {
    /// A line.
    Line(String),
    /// The user interrupted the reading.
    Interrupted,
    /// The input is at its end.
    Eof,
    /// The message of a failure.
    Failed(String),
}

/// What the session does next.
#[derive(Debug)]
pub enum ReplAction {
    /// Reads the next line.
    Skip,
    /// Shows something, and reads the next line.
    Show(Span),
    /// Forgets the conversation, shows something, and reads the next line.
    Clear(Span),
    /// Lists the tools, and reads the next line.
    ListTools,
    /// Hands a request to the agent.
    Prompt(String),
    /// Ends.
    Quit,
    /// Ends with an error.
    Fail(String),
}

/// What an action says.
#[verifier::ext_equal]
pub enum ReplActionView {
    Skip,
    Show(SpanView),
    Clear(SpanView),
    ListTools,
    Prompt(Seq<char>),
    Quit,
    Fail(Seq<char>),
}

impl View for ReplAction {
    type V = ReplActionView;

    open spec fn view(&self) -> ReplActionView {
        match *self {
            ReplAction::Skip => ReplActionView::Skip,
            ReplAction::Show(s) => ReplActionView::Show(s@),
            ReplAction::Clear(s) => ReplActionView::Clear(s@),
            ReplAction::ListTools => ReplActionView::ListTools,
            ReplAction::Prompt(s) => ReplActionView::Prompt(s@),
            ReplAction::Quit => ReplActionView::Quit,
            ReplAction::Fail(s) => ReplActionView::Fail(s@),
        }
    }
}

/// What a command, without its slash, asks for.
pub open spec fn command_action(command: Seq<char>) -> ReplActionView {
    if command == "exit"@ || command == "quit"@ {
        ReplActionView::Quit
    } else if command == "clear"@ {
        ReplActionView::Clear(render::piece(Style::Dimmed, "session cleared"@))
    } else if command == "tools"@ {
        ReplActionView::ListTools
    } else if command == "help"@ {
        ReplActionView::Show(
            render::piece(
                Style::Dimmed,
                "/exit — quit\n/clear — clear session\n/tools — list tools\n/help — this help"@,
            ),
        )
    } else {
        ReplActionView::Show(render::piece(Style::Yellow, "unknown command: /"@ + command))
    }
}

/// What a line asks for: nothing where it is blank, a command where it begins
/// with a slash, and an answer of the agent otherwise. Whitespace at both ends
/// does not count.
pub open spec fn line_action(s: Seq<char>) -> ReplActionView {
    let input = text::trim(s);
    if input.len() == 0 {
        ReplActionView::Skip
    } else if input[0] == '/' {
        command_action(input.skip(1))
    } else {
        ReplActionView::Prompt(input)
    }
}

/// What the session does after an attempt to read a line.
pub open spec fn action_after(outcome: ReadOutcome) -> ReplActionView {
    match outcome {
        ReadOutcome::Line(s) => line_action(s@),
        ReadOutcome::Interrupted => ReplActionView::Show(
            render::piece(Style::Dimmed, "(ctrl-c, /exit to quit)"@),
        ),
        ReadOutcome::Eof => ReplActionView::Quit,
        ReadOutcome::Failed(e) => ReplActionView::Fail("readline error: "@ + e@),
    }
}

/// What a command, without its slash, asks for.
fn on_command(command: &str) -> (r: ReplAction)
    ensures
        r@ == command_action(command@),
{
    if str_eq(command, "exit") || str_eq(command, "quit") {
        ReplAction::Quit
    } else if str_eq(command, "clear") {
        ReplAction::Clear(span(Style::Dimmed, "session cleared"))
    } else if str_eq(command, "tools") {
        ReplAction::ListTools
    } else if str_eq(command, "help") {
        ReplAction::Show(
            span(
                Style::Dimmed,
                "/exit — quit\n/clear — clear session\n/tools — list tools\n/help — this help",
            ),
        )
    } else {
        let mut s = copy_str("unknown command: /");
        s.append(command);
        ReplAction::Show(Span { style: Style::Yellow, text: s })
    }
}

/// What the session does after an attempt to read a line.
pub fn on_read(outcome: ReadOutcome) -> (r: ReplAction)
    ensures
        r@ == action_after(outcome),
{
    match outcome {
        ReadOutcome::Interrupted => ReplAction::Show(
            span(Style::Dimmed, "(ctrl-c, /exit to quit)"),
        ),
        ReadOutcome::Eof => ReplAction::Quit,
        ReadOutcome::Failed(e) => {
            let mut s = copy_str("readline error: ");
            s.append(&e);
            ReplAction::Fail(s)
        },
        ReadOutcome::Line(s) => {
            let v = to_chars(&s);
            let input = trim_chars(&v);
            if input.len() == 0 {
                ReplAction::Skip
            } else if input[0] == '/' {
                let rest = sub_chars(&input, 1, input.len());
                assert(rest@ =~= input@.skip(1));
                let command = from_chars(&rest);
                on_command(&command)
            } else {
                ReplAction::Prompt(from_chars(&input))
            }
        },
    }
}

/// What the end of a turn shows.
#[derive(Debug)]
pub enum TurnEnd {
    /// An answer.
    Answer(String),
    /// An error, after the summary of the turn where the number of iterations
    /// that it took is given.
    Error {
        /// The number of iterations, where the limit of them ended the turn.
        summary_of: Option<usize>,
        /// The message.
        notice: Span,
    },
}

/// The iterations of a turn that its limit ended.
pub open spec fn limit_reached(e: ErrorView) -> Option<nat> {
    match e {
        ErrorView::MaxIterationsExceeded(n) => Some(n),
        _ => None,
    }
}

/// What the end of a turn shows: the answer, or the error in red and, where the
/// limit of iterations ended the turn, the summary of it.
pub fn end_turn(result: &Result<String, CogentError>) -> (r: TurnEnd)
    ensures
        match *result {
            Ok(a) => r matches TurnEnd::Answer(s) && s@ == a@,
            Err(e) => r matches TurnEnd::Error { summary_of, notice } && notice@ == render::piece(
                Style::Red,
                "error: "@ + e@.message(),
            ) && limit_reached(e@) == (match summary_of {
                Some(n) => Some(n as nat),
                None => None::<nat>,
            }),
        },
{
    match result {
        Ok(a) => TurnEnd::Answer(copy_str(a)),
        Err(e) => {
            let summary_of: Option<usize> = match e {
                CogentError::MaxIterationsExceeded(n) => Some(*n),
                _ => None,
            };
            let message = e.to_string();
            let mut s = copy_str("error: ");
            s.append(&message);
            TurnEnd::Error { summary_of, notice: Span { style: Style::Red, text: s } }
        },
    }
}

/// What the program does after a turn.
#[derive(Debug)]
pub enum AfterTurn {
    /// Resets the agent and reads the next line.
    GoOn,
    /// Ends.
    Leave,
    /// Ends with an error.
    Fail(String),
}

/// What the program does after a turn. A session goes on, whether the turn ended
/// with an answer or with an error: an error is shown and ends no session. A
/// single task ends with what came of it.
pub fn after_turn(session: bool, result: &Result<String, CogentError>) -> (r: AfterTurn)
    ensures
        if session {
            r is GoOn
        } else {
            match *result {
                Ok(_) => r is Leave,
                Err(e) => r matches AfterTurn::Fail(m) && m@ == e@.message(),
            }
        },
{
    if session {
        return AfterTurn::GoOn;
    }
    match result {
        Ok(_) => AfterTurn::Leave,
        Err(e) => AfterTurn::Fail(e.to_string()),
    }
}

/// What is said of the file that a summary was written to, or could not be
/// written to.
pub fn summary_notice(path: &str, written: &Result<(), String>) -> (r: String)
    ensures
        r@ == match *written {
            Ok(_) => "(iteration summary written to "@ + path@ + ")"@,
            Err(e) => "(failed to write summary file: "@ + e@ + ")"@,
        },
{
    match written {
        Ok(_) => {
            let mut s = copy_str("(iteration summary written to ");
            s.append(path);
            s.append(")");
            s
        },
        Err(e) => {
            let mut s = copy_str("(failed to write summary file: ");
            s.append(e);
            s.append(")");
            s
        },
    }
}

/// Every line leads to exactly one of these: it is passed over, it is a command,
/// or it is handed to the agent without the whitespace at its ends; and no
/// command reaches the agent.
pub proof fn law_commands_do_not_reach_the_agent(s: Seq<char>)
    ensures
        line_action(s) matches ReplActionView::Prompt(p) ==> p == text::trim(s) && p.len() > 0
            && p[0] != '/',
        text::trim(s).len() > 0 && text::trim(s)[0] != '/' ==> line_action(s)
            == ReplActionView::Prompt(text::trim(s)),
{
}

/// What each line does: `/exit` and `/quit` end the session, `/clear` forgets the
/// conversation, `/tools` lists the tools, and every other command shows
/// something and changes nothing; a line of whitespace does nothing; and so it is
/// whatever whitespace stands around the line.
pub proof fn law_what_each_line_does(s: Seq<char>)
    ensures
        text::trim(s) == "/exit"@ || text::trim(s) == "/quit"@ <==> line_action(s) is Quit,
        text::trim(s) == "/clear"@ <==> line_action(s) is Clear,
        text::trim(s) == "/tools"@ <==> line_action(s) is ListTools,
        text::trim(s).len() == 0 <==> line_action(s) is Skip,
        text::trim(s).len() > 0 && text::trim(s)[0] != '/' <==> line_action(s) is Prompt,
        line_action(s) !is Fail,
{
    reveal_strlit("/exit");
    reveal_strlit("/quit");
    reveal_strlit("/clear");
    reveal_strlit("/tools");
    reveal_strlit("exit");
    reveal_strlit("quit");
    reveal_strlit("clear");
    reveal_strlit("tools");
    let t = text::trim(s);
    assert("/exit"@.skip(1) =~= "exit"@);
    assert("/quit"@.skip(1) =~= "quit"@);
    assert("/clear"@.skip(1) =~= "clear"@);
    assert("/tools"@.skip(1) =~= "tools"@);
    if t.len() > 0 && t[0] == '/' {
        let c = t.skip(1);
        assert(seq!['/'] + c =~= t);
        assert(seq!['/'] + "exit"@ =~= "/exit"@);
        assert(seq!['/'] + "quit"@ =~= "/quit"@);
        assert(seq!['/'] + "clear"@ =~= "/clear"@);
        assert(seq!['/'] + "tools"@ =~= "/tools"@);
        assert("exit"@.len() == 4 && "quit"@.len() == 4 && "clear"@.len() == 5 && "tools"@.len()
            == 5);
        assert("clear"@[0] != "tools"@[0]);
    }
}

/// The end of the input ends the session, an interruption does not, and a failure
/// to read ends it with its message.
pub proof fn law_what_ends_the_session(e: String)
    ensures
        action_after(ReadOutcome::Eof) is Quit,
        action_after(ReadOutcome::Interrupted) is Show,
        action_after(ReadOutcome::Failed(e)) matches ReplActionView::Fail(m) && text::holds(m, e@),
{
    assert("readline error: "@ + e@ =~= "readline error: "@ + e@ + Seq::<char>::empty());
}

/// A summary belongs to a turn that the limit of iterations ended, and to no other.
pub proof fn law_summaries_belong_to_the_limit(e: ErrorView, n: nat)
    ensures
        limit_reached(ErrorView::MaxIterationsExceeded(n)) == Some(n),
        e !is MaxIterationsExceeded ==> limit_reached(e) is None,
{
}

/// Asked for help, the session shows every command; asked for a command that there is
/// not, it says so and names it.
pub proof fn law_other_commands_are_answered(s: Seq<char>, c: Seq<char>)
    requires
        text::trim(s) == seq!['/'] + c,
        c != "exit"@ && c != "quit"@ && c != "clear"@ && c != "tools"@,
    ensures
        line_action(s) matches ReplActionView::Show(p) && if c == "help"@ {
            text::holds(p.text, "/exit"@) && text::holds(p.text, "/clear"@) && text::holds(
                p.text,
                "/tools"@,
            ) && text::holds(p.text, "/help"@)
        } else {
            text::holds(p.text, "unknown command"@) && (seq!['/'] + c).is_suffix_of(p.text)
        },
{
    let t = text::trim(s);
    assert(t[0] == '/');
    assert(t.skip(1) =~= c);
    if c == "help"@ {
        reveal_strlit(
            "/exit — quit\n/clear — clear session\n/tools — list tools\n/help — this help",
        );
        reveal_strlit("/exit");
        reveal_strlit("/clear");
        reveal_strlit("/tools");
        reveal_strlit("/help");
        let h = "/exit — quit\n/clear — clear session\n/tools — list tools\n/help — this help"@;
        assert(h =~= h.take(0) + "/exit"@ + h.skip(5));
        assert(h =~= h.take(13) + "/clear"@ + h.skip(19));
        assert(h =~= h.take(36) + "/tools"@ + h.skip(42));
        assert(h =~= h.take(56) + "/help"@ + h.skip(61));
    } else {
        reveal_strlit("unknown command: /");
        reveal_strlit("unknown command");
        let head = "unknown command: /"@;
        let none = Seq::<char>::empty();
        assert(head + c =~= none + "unknown command"@ + (seq![':', ' ', '/'] + c));
        assert((head + c).subrange(17, (head + c).len() as int) =~= seq!['/'] + c);
    }
}

} // verus!
