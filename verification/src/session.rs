//! The supervision of one script run: nothing is spawned before the user
//! has confirmed, input lines are relayed until the quit sentinel, and the
//! run ends when the child exits.

use crate::text::matches_token;
use crate::text::same_ignoring_ascii_case;
use crate::text::trim;
use vstd::prelude::*;

verus! {

/// Where a session stands.
#[derive(Clone, Copy, Debug, PartialEq, Eq, Structural)]
pub enum SessionState {
    /// The script has been shown and the user has been asked.
    Prepared,
    /// The child runs. `relay_open` says whether input is still relayed.
    Running { relay_open: bool },
    /// The child has exited, with success or not.
    Finished { success: bool },
    /// The user declined: no child was ever spawned.
    Cancelled,
}

/// What happened outside the session.
#[derive(Clone, Debug, PartialEq, Eq)]
pub enum SessionEvent {
    /// The user answered the confirmation prompt with this line.
    Answer(String),
    /// The user typed this line while the child runs.
    Line(String),
    /// A line could not be written to the child's input.
    RelayBroken,
    /// The child exited, with success or not, and with this exit code
    /// where it has one.
    ChildExited { success: bool, code: Option<i32> },
}

/// An event over sequences.
pub enum SessionEventView {
    Answer(Seq<char>),
    Line(Seq<char>),
    RelayBroken,
    ChildExited { success: bool, code: Option<i32> },
}

impl View for SessionEvent {
    type V = SessionEventView;

    open spec fn view(&self) -> SessionEventView {
        match self {
            SessionEvent::Answer(line) => SessionEventView::Answer(line@),
            SessionEvent::Line(line) => SessionEventView::Line(line@),
            SessionEvent::RelayBroken => SessionEventView::RelayBroken,
            SessionEvent::ChildExited { success, code } => SessionEventView::ChildExited {
                success: *success,
                code: *code,
            },
        }
    }
}

/// What the supervisor has to do next.
#[derive(Clone, Debug, PartialEq, Eq)]
pub enum SessionAction {
    /// Nothing.
    Nothing,
    /// Spawn the script with its output passed through and its input piped,
    /// and start relaying input lines.
    Spawn,
    /// Tell the user that the run was cancelled.
    ReportCancelled,
    /// Write this line, as it is, to the child's input.
    Forward(String),
    /// Stop relaying and close the child's input. The child keeps running.
    CloseInput,
    /// Tell the user how the run ended: with success or not, and with
    /// which exit code.
    Report { success: bool, code: Option<i32> },
}

/// An action over sequences.
pub enum SessionActionView {
    Nothing,
    Spawn,
    ReportCancelled,
    Forward(Seq<char>),
    CloseInput,
    Report { success: bool, code: Option<i32> },
}

impl View for SessionAction {
    type V = SessionActionView;

    open spec fn view(&self) -> SessionActionView {
        match self {
            SessionAction::Nothing => SessionActionView::Nothing,
            SessionAction::Spawn => SessionActionView::Spawn,
            SessionAction::ReportCancelled => SessionActionView::ReportCancelled,
            SessionAction::Forward(line) => SessionActionView::Forward(line@),
            SessionAction::CloseInput => SessionActionView::CloseInput,
            SessionAction::Report { success, code } => SessionActionView::Report {
                success: *success,
                code: *code,
            },
        }
    }
}

/// Whether `answer` confirms the run: without the white space around it, it
/// is `y` or `yes`, in either case.
pub open spec fn is_affirmative(answer: Seq<char>) -> bool {
    same_ignoring_ascii_case(trim(answer), seq!['y']) || same_ignoring_ascii_case(
        trim(answer),
        seq!['y', 'e', 's'],
    )
}

/// Whether `line` is the quit sentinel: without the white space around it,
/// it is `:q` in either case.
pub open spec fn is_quit(line: Seq<char>) -> bool {
    same_ignoring_ascii_case(trim(line), seq![':', 'q'])
}

/// Whether `answer` confirms the run.
pub fn confirms(answer: &str) -> (yes: bool)
    ensures
        yes == is_affirmative(answer@),
{
    proof {
        reveal_strlit("y");
        reveal_strlit("yes");
    }
    assert("y"@ =~= seq!['y']);
    assert("yes"@ =~= seq!['y', 'e', 's']);
    matches_token(answer, "y") || matches_token(answer, "yes")
}

/// Whether `line` is the quit sentinel.
pub fn quits(line: &str) -> (quit: bool)
    ensures
        quit == is_quit(line@),
{
    proof {
        reveal_strlit(":q");
    }
    assert(":q"@ =~= seq![':', 'q']);
    matches_token(line, ":q")
}

/// The state after `event` and the action it calls for.
pub open spec fn next(state: SessionState, event: SessionEventView) -> (
    SessionState,
    SessionActionView,
) {
    match (state, event) {
        (SessionState::Prepared, SessionEventView::Answer(answer)) => if is_affirmative(answer) {
            (SessionState::Running { relay_open: true }, SessionActionView::Spawn)
        } else {
            (SessionState::Cancelled, SessionActionView::ReportCancelled)
        },
        (SessionState::Running { relay_open: true }, SessionEventView::Line(line)) => if is_quit(
            line,
        ) {
            (SessionState::Running { relay_open: false }, SessionActionView::CloseInput)
        } else {
            (SessionState::Running { relay_open: true }, SessionActionView::Forward(line))
        },
        (SessionState::Running { relay_open: true }, SessionEventView::RelayBroken) => (
            SessionState::Running { relay_open: false },
            SessionActionView::CloseInput,
        ),
        (SessionState::Running { .. }, SessionEventView::ChildExited { success, code }) => (
            SessionState::Finished { success },
            SessionActionView::Report { success, code },
        ),
        _ => (state, SessionActionView::Nothing),
    }
}

/// Takes one event: the state it leads to and the action it calls for.
pub fn step(state: SessionState, event: SessionEvent) -> (r: (SessionState, SessionAction))
    ensures
        (r.0, r.1@) == next(state, event@),
{
    match state {
        SessionState::Prepared => match event {
            SessionEvent::Answer(answer) => {
                if confirms(answer.as_str()) {
                    (SessionState::Running { relay_open: true }, SessionAction::Spawn)
                } else {
                    (SessionState::Cancelled, SessionAction::ReportCancelled)
                }
            },
            _ => (state, SessionAction::Nothing),
        },
        SessionState::Running { relay_open } => match event {
            SessionEvent::Line(line) => {
                if !relay_open {
                    (state, SessionAction::Nothing)
                } else if quits(line.as_str()) {
                    (SessionState::Running { relay_open: false }, SessionAction::CloseInput)
                } else {
                    (SessionState::Running { relay_open: true }, SessionAction::Forward(line))
                }
            },
            SessionEvent::RelayBroken => {
                if relay_open {
                    (SessionState::Running { relay_open: false }, SessionAction::CloseInput)
                } else {
                    (state, SessionAction::Nothing)
                }
            },
            SessionEvent::ChildExited { success, code } => (
                SessionState::Finished { success },
                SessionAction::Report { success, code },
            ),
            _ => (state, SessionAction::Nothing),
        },
        _ => (state, SessionAction::Nothing),
    }
}

/// The state after a sequence of events.
pub open spec fn state_after(state: SessionState, events: Seq<SessionEventView>) -> SessionState
    decreases events.len(),
{
    if events.len() == 0 {
        state
    } else {
        next(state_after(state, events.drop_last()), events.last()).0
    }
}

/// Whether some event of the sequence, taken in turn, calls for a spawn.
pub open spec fn spawns(state: SessionState, events: Seq<SessionEventView>) -> bool
    decreases events.len(),
{
    if events.len() == 0 {
        false
    } else {
        spawns(state, events.drop_last()) || next(
            state_after(state, events.drop_last()),
            events.last(),
        ).1 == SessionActionView::Spawn
    }
}

/// A child is spawned by one event only: an affirmative answer to a
/// prepared session.
pub proof fn lemma_spawn_needs_confirmation(state: SessionState, event: SessionEventView)
    ensures
        next(state, event).1 == SessionActionView::Spawn <==> (state == SessionState::Prepared
            && event is Answer && is_affirmative(event->Answer_0)),
{
}

/// After any answer that is not affirmative the session is cancelled, and
/// whatever happens later, it stays cancelled and no child is spawned.
pub proof fn lemma_declined_never_spawns(answer: Seq<char>, later: Seq<SessionEventView>)
    requires
        !is_affirmative(answer),
    ensures
        next(SessionState::Prepared, SessionEventView::Answer(answer)) == (
            SessionState::Cancelled,
            SessionActionView::ReportCancelled,
        ),
        state_after(SessionState::Cancelled, later) == SessionState::Cancelled,
        !spawns(SessionState::Cancelled, later),
    decreases later.len(),
{
    if later.len() > 0 {
        lemma_declined_never_spawns(answer, later.drop_last());
    }
}

/// After an affirmative answer a child is spawned; while input lines come
/// in the session keeps running; and when the child exits its status is
/// what is reported and what the session ends with.
pub proof fn lemma_confirmed_runs_and_reports(
    answer: Seq<char>,
    lines: Seq<SessionEventView>,
    success: bool,
    code: Option<i32>,
)
    requires
        is_affirmative(answer),
        forall|i: int|
            0 <= i < lines.len() ==> (#[trigger] lines[i] is Line || lines[i] is RelayBroken),
    ensures
        next(SessionState::Prepared, SessionEventView::Answer(answer)) == (
            SessionState::Running { relay_open: true },
            SessionActionView::Spawn,
        ),
        state_after(SessionState::Running { relay_open: true }, lines) is Running,
        !spawns(SessionState::Running { relay_open: true }, lines),
        next(
            state_after(SessionState::Running { relay_open: true }, lines),
            SessionEventView::ChildExited { success, code },
        ) == (SessionState::Finished { success }, SessionActionView::Report { success, code }),
    decreases lines.len(),
{
    if lines.len() > 0 {
        lemma_confirmed_runs_and_reports(answer, lines.drop_last(), success, code);
    }
}

/// One run of a task's entry script.
pub struct ExecutionSession {
    script_path: String,
    state: SessionState,
}

impl ExecutionSession {
    /// The path of the script that this session is about.
    pub closed spec fn path(&self) -> Seq<char> {
        self.script_path@
    }

    /// Where the session stands.
    pub closed spec fn current(&self) -> SessionState {
        self.state
    }

    /// A session for the script at `script_path`, about to ask the user.
    pub fn new(script_path: String) -> (session: ExecutionSession)
        ensures
            session.path() == script_path@,
            session.current() == SessionState::Prepared,
    {
        ExecutionSession { script_path, state: SessionState::Prepared }
    }

    /// The path of the script.
    pub fn script_path(&self) -> (path: &String)
        ensures
            path@ == self.path(),
    {
        &self.script_path
    }

    /// Where the session stands.
    pub fn state(&self) -> (state: SessionState)
        ensures
            state == self.current(),
    {
        self.state
    }

    /// Whether the session is over: finished or cancelled.
    pub fn is_over(&self) -> (over: bool)
        ensures
            over == (self.current() is Finished || self.current() is Cancelled),
    {
        match self.state {
            SessionState::Finished { .. } => true,
            SessionState::Cancelled => true,
            _ => false,
        }
    }

    /// Takes one event and returns the action it calls for.
    pub fn handle(&mut self, event: SessionEvent) -> (action: SessionAction)
        ensures
            final(self).path() == old(self).path(),
            (final(self).current(), action@) == next(old(self).current(), event@),
    {
        let (state, action) = step(self.state, event);
        self.state = state;
        action
    }
}

} // verus!
