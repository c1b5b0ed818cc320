use deploycli::session::{
    confirms, quits, step, ExecutionSession, SessionAction, SessionEvent, SessionState,
};

fn answer(text: &str) -> SessionEvent {
    SessionEvent::Answer(String::from(text))
}

fn line(text: &str) -> SessionEvent {
    SessionEvent::Line(String::from(text))
}

#[test]
fn declined_run_is_cancelled_and_never_spawns() {
    let mut session = ExecutionSession::new(String::from("/tmp/demo-1/run.sh"));
    assert_eq!(session.state(), SessionState::Prepared);
    assert_eq!(session.handle(answer("no\n")), SessionAction::ReportCancelled);
    assert_eq!(session.state(), SessionState::Cancelled);
    assert!(session.is_over());
    let later = vec![
        answer("y\n"),
        line("echo\n"),
        SessionEvent::RelayBroken,
        SessionEvent::ChildExited { success: true, code: Some(0) },
    ];
    for event in later {
        assert_eq!(session.handle(event), SessionAction::Nothing);
        assert_eq!(session.state(), SessionState::Cancelled);
    }
}

#[test]
fn confirmed_run_spawns_and_reports_the_exit_status() {
    for (success, code) in [(true, Some(0)), (false, Some(2)), (false, None)] {
        let mut session = ExecutionSession::new(String::from("/tmp/demo-1/run.sh"));
        assert_eq!(session.handle(answer("y\n")), SessionAction::Spawn);
        assert_eq!(session.state(), SessionState::Running { relay_open: true });
        assert!(!session.is_over());
        assert_eq!(
            session.handle(SessionEvent::ChildExited { success, code }),
            SessionAction::Report { success, code }
        );
        assert_eq!(session.state(), SessionState::Finished { success });
        assert!(session.is_over());
    }
}

#[test]
fn the_answer_yes_runs_the_script() {
    let mut session = ExecutionSession::new(String::from("/tmp/demo-1/run.sh"));
    assert_eq!(session.handle(answer("yes\n")), SessionAction::Spawn);
    assert_eq!(session.handle(line(":q\n")), SessionAction::CloseInput);
    assert_eq!(
        session.handle(SessionEvent::ChildExited { success: true, code: Some(0) }),
        SessionAction::Report { success: true, code: Some(0) }
    );
    assert_eq!(session.state(), SessionState::Finished { success: true });
}

#[test]
fn only_the_affirmative_token_confirms() {
    assert!(confirms("y"));
    assert!(confirms("Y\n"));
    assert!(confirms("  y  "));
    assert!(!confirms("n"));
    assert!(!confirms("no"));
    assert!(confirms("yes"));
    assert!(confirms(" YES\r\n"));
    assert!(confirms("Yes"));
    assert!(!confirms("yess"));
    assert!(!confirms("ye"));
    assert!(!confirms("y e s"));
    assert!(!confirms(""));
    assert!(!confirms("\n"));
}

#[test]
fn lines_are_forwarded_verbatim_until_the_sentinel() {
    let running = SessionState::Running { relay_open: true };
    assert_eq!(
        step(running, line("  hello world \n")),
        (running, SessionAction::Forward(String::from("  hello world \n")))
    );
    assert_eq!(step(running, line("\n")), (running, SessionAction::Forward(String::from("\n"))));
    assert_eq!(
        step(running, line(":q\n")),
        (SessionState::Running { relay_open: false }, SessionAction::CloseInput)
    );
    assert_eq!(
        step(running, line("  :Q  \n")),
        (SessionState::Running { relay_open: false }, SessionAction::CloseInput)
    );
    assert!(quits(":q"));
    assert!(!quits(":quit"));
}

#[test]
fn closed_relay_forwards_nothing_and_the_child_still_ends_the_run() {
    let closed = SessionState::Running { relay_open: false };
    assert_eq!(step(closed, line("late\n")), (closed, SessionAction::Nothing));
    assert_eq!(step(closed, SessionEvent::RelayBroken), (closed, SessionAction::Nothing));
    assert_eq!(
        step(closed, SessionEvent::ChildExited { success: false, code: Some(3) }),
        (SessionState::Finished { success: false }, SessionAction::Report { success: false, code: Some(3) })
    );
}

#[test]
fn broken_relay_closes_the_input() {
    assert_eq!(
        step(SessionState::Running { relay_open: true }, SessionEvent::RelayBroken),
        (SessionState::Running { relay_open: false }, SessionAction::CloseInput)
    );
}

#[test]
fn events_out_of_turn_change_nothing() {
    assert_eq!(
        step(SessionState::Prepared, line("x\n")),
        (SessionState::Prepared, SessionAction::Nothing)
    );
    assert_eq!(
        step(SessionState::Prepared, SessionEvent::ChildExited { success: true, code: Some(0) }),
        (SessionState::Prepared, SessionAction::Nothing)
    );
    assert_eq!(
        step(SessionState::Running { relay_open: true }, answer("y")),
        (SessionState::Running { relay_open: true }, SessionAction::Nothing)
    );
    let finished = SessionState::Finished { success: true };
    assert_eq!(step(finished, answer("y")), (finished, SessionAction::Nothing));
    assert_eq!(
        step(finished, SessionEvent::ChildExited { success: false, code: Some(3) }),
        (finished, SessionAction::Nothing)
    );
}

#[test]
fn session_keeps_its_script_path() {
    let mut session = ExecutionSession::new(String::from("/tmp/demo-1/run.sh"));
    session.handle(answer("y"));
    assert_eq!(session.script_path(), "/tmp/demo-1/run.sh");
}
