//! The chat session as a state machine.
//!
//! The caller performs each action (printing, reading a line, asking the
//! services) and reports what happened as the next event. No state is kept
//! from one question to the next.

use vstd::prelude::*;
use crate::error::{StartupError, TurnError, LoadError, lemma_not_found_names_path};
use crate::text::{LineKind, line_kind, trimmed, trim, classify, is_space, skip_spaces, occurs_in,
    lemma_all_spaces_skipped, lemma_trim_padded};

verus! {

/// Where the session stands.
#[derive(Clone, Copy, Debug, PartialEq, Eq, Structural)]
pub enum Phase {
    /// Loading the document and building the index.
    Initializing,
    /// The index is built; nothing was asked yet.
    Ready,
    /// Waiting for a line from the user.
    AwaitingInput,
    /// Answering a question.
    Responding,
    /// The session is over.
    Terminated,
}

/// What the caller reports back.
pub enum Event {
    /// Initialisation succeeded.
    Started,
    /// Initialisation failed.
    StartupFailed(StartupError),
    /// The last output was made.
    Proceed,
    /// The user entered this line.
    Line(String),
    /// The completion service gave this answer.
    Answered(String),
    /// The question could not be answered.
    TurnFailed(TurnError),
}

/// What the caller is to do next.
pub enum Action {
    /// Nothing: the event does not belong to the phase.
    Idle,
    /// Tell the user that the assistant is ready.
    Announce,
    /// Write the prompt and read a line.
    Prompt,
    /// Answer this question: embed it, retrieve, complete.
    Respond(String),
    /// Print this answer.
    Show(String),
    /// Print this error message to the error stream.
    Report(String),
    /// Say goodbye and leave with success.
    Farewell,
    /// Print this message and leave with failure.
    Abort(String),
}

/// An action without its text.
#[derive(Clone, Copy, Debug, PartialEq, Eq, Structural)]
pub enum ActionKind {
    Idle,
    Announce,
    Prompt,
    Respond,
    Show,
    Report,
    Farewell,
    Abort,
}

/// The outcome of one step: the next phase and the action to perform.
pub struct Step {
    pub next: Phase,
    pub action: Action,
}

impl Action {
    /// This action without its text.
    pub open spec fn kind_spec(self) -> ActionKind {
        match self {
            Action::Idle => ActionKind::Idle,
            Action::Announce => ActionKind::Announce,
            Action::Prompt => ActionKind::Prompt,
            Action::Respond(_) => ActionKind::Respond,
            Action::Show(_) => ActionKind::Show,
            Action::Report(_) => ActionKind::Report,
            Action::Farewell => ActionKind::Farewell,
            Action::Abort(_) => ActionKind::Abort,
        }
    }

    /// The text this action carries; empty where it carries none.
    pub open spec fn text_spec(self) -> Seq<char> {
        match self {
            Action::Respond(s) => s@,
            Action::Show(s) => s@,
            Action::Report(s) => s@,
            Action::Abort(s) => s@,
            _ => Seq::empty(),
        }
    }

    /// This action without its text.
    pub fn kind(&self) -> (k: ActionKind)
        ensures
            k == self.kind_spec(),
    {
        match self {
            Action::Idle => ActionKind::Idle,
            Action::Announce => ActionKind::Announce,
            Action::Prompt => ActionKind::Prompt,
            Action::Respond(_) => ActionKind::Respond,
            Action::Show(_) => ActionKind::Show,
            Action::Report(_) => ActionKind::Report,
            Action::Farewell => ActionKind::Farewell,
            Action::Abort(_) => ActionKind::Abort,
        }
    }

    /// The process exit status this action ends the session with, if it
    /// ends it: zero for a farewell, one for an abort.
    pub fn exit_status(&self) -> (code: Option<u8>)
        ensures
            code == exit_status_of(self.kind_spec()),
    {
        match self {
            Action::Farewell => Some(0u8),
            Action::Abort(_) => Some(1u8),
            _ => None,
        }
    }
}

/// The exit status that an action of this kind ends the session with.
pub open spec fn exit_status_of(kind: ActionKind) -> Option<u8> {
    match kind {
        ActionKind::Farewell => Some(0u8),
        ActionKind::Abort => Some(1u8),
        _ => None,
    }
}

/// The phase that follows `phase` on `event`.
pub open spec fn next_phase(phase: Phase, event: Event) -> Phase {
    match (phase, event) {
        (Phase::Initializing, Event::Started) => Phase::Ready,
        (Phase::Initializing, Event::StartupFailed(_)) => Phase::Terminated,
        (Phase::Ready, Event::Proceed) => Phase::AwaitingInput,
        (Phase::AwaitingInput, Event::Proceed) => Phase::AwaitingInput,
        (Phase::AwaitingInput, Event::Line(line)) => match line_kind(line@) {
            LineKind::Blank => Phase::AwaitingInput,
            LineKind::Quit => Phase::Terminated,
            LineKind::Question => Phase::Responding,
        },
        (Phase::Responding, Event::Answered(_)) => Phase::AwaitingInput,
        (Phase::Responding, Event::TurnFailed(_)) => Phase::AwaitingInput,
        _ => phase,
    }
}

/// The kind of action to perform when `event` arrives in `phase`.
pub open spec fn action_kind(phase: Phase, event: Event) -> ActionKind {
    match (phase, event) {
        (Phase::Initializing, Event::Started) => ActionKind::Announce,
        (Phase::Initializing, Event::StartupFailed(_)) => ActionKind::Abort,
        (Phase::Ready, Event::Proceed) => ActionKind::Prompt,
        (Phase::AwaitingInput, Event::Proceed) => ActionKind::Prompt,
        (Phase::AwaitingInput, Event::Line(line)) => match line_kind(line@) {
            LineKind::Blank => ActionKind::Prompt,
            LineKind::Quit => ActionKind::Farewell,
            LineKind::Question => ActionKind::Respond,
        },
        (Phase::Responding, Event::Answered(_)) => ActionKind::Show,
        (Phase::Responding, Event::TurnFailed(_)) => ActionKind::Report,
        _ => ActionKind::Idle,
    }
}

/// The text of the action to perform when `event` arrives in `phase`: the
/// trimmed question, the answer, or the error's message.
pub open spec fn action_text(phase: Phase, event: Event) -> Seq<char> {
    match (phase, event) {
        (Phase::Initializing, Event::StartupFailed(e)) => e.message_spec(),
        (Phase::AwaitingInput, Event::Line(line)) => match line_kind(line@) {
            LineKind::Question => trimmed(line@),
            _ => Seq::empty(),
        },
        (Phase::Responding, Event::Answered(answer)) => answer@,
        (Phase::Responding, Event::TurnFailed(e)) => e.message_spec(),
        _ => Seq::empty(),
    }
}

/// Advances the session by one event.
pub fn step(phase: Phase, event: Event) -> (r: Step)
    ensures
        r.next == next_phase(phase, event),
        r.action.kind_spec() == action_kind(phase, event),
        r.action.text_spec() == action_text(phase, event),
{
    match phase {
        Phase::Initializing => match event {
            Event::Started => Step { next: Phase::Ready, action: Action::Announce },
            Event::StartupFailed(e) => Step {
                next: Phase::Terminated,
                action: Action::Abort(e.message()),
            },
            _ => Step { next: phase, action: Action::Idle },
        },
        Phase::Ready => match event {
            Event::Proceed => Step { next: Phase::AwaitingInput, action: Action::Prompt },
            _ => Step { next: phase, action: Action::Idle },
        },
        Phase::AwaitingInput => match event {
            Event::Proceed => Step { next: Phase::AwaitingInput, action: Action::Prompt },
            Event::Line(line) => match classify(line.as_str()) {
                LineKind::Blank => Step { next: Phase::AwaitingInput, action: Action::Prompt },
                LineKind::Quit => Step { next: Phase::Terminated, action: Action::Farewell },
                LineKind::Question => Step {
                    next: Phase::Responding,
                    action: Action::Respond(trim(line.as_str()).to_owned()),
                },
            },
            _ => Step { next: phase, action: Action::Idle },
        },
        Phase::Responding => match event {
            Event::Answered(answer) => Step {
                next: Phase::AwaitingInput,
                action: Action::Show(answer),
            },
            Event::TurnFailed(e) => Step {
                next: Phase::AwaitingInput,
                action: Action::Report(e.message()),
            },
            _ => Step { next: phase, action: Action::Idle },
        },
        Phase::Terminated => Step { next: phase, action: Action::Idle },
    }
}

/// A line that trims to `exit` or to `quit` ends the session with a
/// farewell and exit status zero.
pub proof fn lemma_quit_words_terminate(line: String)
    requires
        trimmed(line@) == "exit"@ || trimmed(line@) == "quit"@,
    ensures
        next_phase(Phase::AwaitingInput, Event::Line(line)) == Phase::Terminated,
        action_kind(Phase::AwaitingInput, Event::Line(line)) == ActionKind::Farewell,
        exit_status_of(ActionKind::Farewell) == Some(0u8),
{
    reveal_strlit("exit");
    reveal_strlit("quit");
}

/// The word `exit` or `quit` with any white space around it ends the
/// session with a farewell.
pub proof fn lemma_padded_quit_word_terminates(before: Seq<char>, after: Seq<char>, line: String)
    requires
        forall|i: int| 0 <= i < before.len() ==> is_space(#[trigger] before[i]),
        forall|i: int| 0 <= i < after.len() ==> is_space(#[trigger] after[i]),
        line@ == before + "exit"@ + after || line@ == before + "quit"@ + after,
    ensures
        next_phase(Phase::AwaitingInput, Event::Line(line)) == Phase::Terminated,
        action_kind(Phase::AwaitingInput, Event::Line(line)) == ActionKind::Farewell,
{
    reveal_strlit("exit");
    reveal_strlit("quit");
    assert("exit"@.last() == "exit"@[3]);
    assert("quit"@.last() == "quit"@[3]);
    if line@ == before + "exit"@ + after {
        lemma_trim_padded(before, "exit"@, after);
    } else {
        lemma_trim_padded(before, "quit"@, after);
    }
    lemma_quit_words_terminate(line);
}

/// An empty line, or one of white space only, leaves the session waiting
/// for input and prompts again.
pub proof fn lemma_blank_line_reprompts(line: String)
    requires
        forall|i: int| 0 <= i < line@.len() ==> is_space(#[trigger] line@[i]),
    ensures
        next_phase(Phase::AwaitingInput, Event::Line(line)) == Phase::AwaitingInput,
        action_kind(Phase::AwaitingInput, Event::Line(line)) == ActionKind::Prompt,
{
    lemma_all_spaces_skipped(line@);
    assert(skip_spaces(line@) =~= Seq::<char>::empty());
}

/// A failed start ends the session at once, with exit status one and the
/// error's message; for a missing file that message holds the path.
pub proof fn lemma_startup_failure_is_fatal(e: StartupError)
    ensures
        next_phase(Phase::Initializing, Event::StartupFailed(e)) == Phase::Terminated,
        action_kind(Phase::Initializing, Event::StartupFailed(e)) == ActionKind::Abort,
        action_text(Phase::Initializing, Event::StartupFailed(e)) == e.message_spec(),
        exit_status_of(ActionKind::Abort) == Some(1u8),
        forall|path: String| e == StartupError::Load(LoadError::NotFound(path)) ==> occurs_in(
            action_text(Phase::Initializing, Event::StartupFailed(e)),
            #[trigger] path@,
        ),
{
    assert forall|path: String| e == StartupError::Load(LoadError::NotFound(path)) implies occurs_in(
        action_text(Phase::Initializing, Event::StartupFailed(e)),
        #[trigger] path@,
    ) by {
        lemma_not_found_names_path(path);
    }
}

/// A failed turn does not poison the session: the error is reported, the
/// user is prompted again, and the next question is taken up as any other.
pub proof fn lemma_failed_turn_recovers(e: TurnError, line: String)
    requires
        line_kind(line@) == LineKind::Question,
    ensures
        next_phase(Phase::Responding, Event::TurnFailed(e)) == Phase::AwaitingInput,
        action_kind(Phase::Responding, Event::TurnFailed(e)) == ActionKind::Report,
        action_text(Phase::Responding, Event::TurnFailed(e)) == e.message_spec(),
        next_phase(Phase::AwaitingInput, Event::Proceed) == Phase::AwaitingInput,
        action_kind(Phase::AwaitingInput, Event::Proceed) == ActionKind::Prompt,
        next_phase(Phase::AwaitingInput, Event::Line(line)) == Phase::Responding,
        action_kind(Phase::AwaitingInput, Event::Line(line)) == ActionKind::Respond,
        action_text(Phase::AwaitingInput, Event::Line(line)) == trimmed(line@),
{
}

/// Once terminated, the session stays terminated and asks for nothing.
pub proof fn lemma_terminated_is_final(event: Event)
    ensures
        next_phase(Phase::Terminated, event) == Phase::Terminated,
        action_kind(Phase::Terminated, event) == ActionKind::Idle,
{
}

} // verus!
