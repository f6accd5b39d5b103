use tcp_proxy::engine::{
    acceptor_step, failure_is_fatal, run_verdict, AcceptorAction, AcceptorEvent, AcceptorPhase,
    FailureKind, RunEnd, RunError,
};

#[test]
fn fatal_failures() {
    // Only the acceptor's own failures end the run.
    assert!(failure_is_fatal(FailureKind::Bind));
    assert!(failure_is_fatal(FailureKind::Accept));
    assert!(!failure_is_fatal(FailureKind::Connect));
    assert!(!failure_is_fatal(FailureKind::Relay));
}

#[test]
fn acceptor_transitions() {
    assert_eq!(
        acceptor_step(AcceptorPhase::Binding, AcceptorEvent::BindSucceeded),
        (AcceptorPhase::Accepting, AcceptorAction::AwaitConnection)
    );
    assert_eq!(
        acceptor_step(AcceptorPhase::Binding, AcceptorEvent::BindFailed),
        (AcceptorPhase::Stopped, AcceptorAction::ReportFatal)
    );
    assert_eq!(
        acceptor_step(AcceptorPhase::Accepting, AcceptorEvent::ConnectionAccepted),
        (AcceptorPhase::Accepting, AcceptorAction::SpawnForwarder)
    );
    assert_eq!(
        acceptor_step(AcceptorPhase::Accepting, AcceptorEvent::AcceptFailed),
        (AcceptorPhase::Stopped, AcceptorAction::ReportFatal)
    );
}

#[test]
fn acceptor_loop_survives_connections() {
    // However many connections arrive, the acceptor keeps accepting.
    let mut phase = AcceptorPhase::Binding;
    let (next, _) = acceptor_step(phase, AcceptorEvent::BindSucceeded);
    phase = next;
    for _ in 0..1000 {
        let (next, action) = acceptor_step(phase, AcceptorEvent::ConnectionAccepted);
        assert_eq!(next, AcceptorPhase::Accepting);
        assert_eq!(action, AcceptorAction::SpawnForwarder);
        phase = next;
    }
}

#[test]
fn stopped_is_terminal() {
    let (phase, _) = acceptor_step(AcceptorPhase::Binding, AcceptorEvent::BindFailed);
    assert_eq!(phase, AcceptorPhase::Stopped);
    let (next, action) = acceptor_step(phase, AcceptorEvent::ConnectionAccepted);
    assert_eq!(next, AcceptorPhase::Stopped);
    assert_eq!(action, AcceptorAction::Ignore);
}

#[test]
fn run_verdicts() {
    // Shutdown ends the run successfully, whatever was in flight.
    assert_eq!(run_verdict(RunEnd::ShutdownSignalled), Ok(()));
    assert_eq!(run_verdict(RunEnd::NoAcceptors), Ok(()));
    assert_eq!(run_verdict(RunEnd::AcceptorExitedCleanly), Ok(()));
    assert_eq!(
        run_verdict(RunEnd::AcceptorStopped(FailureKind::Bind)),
        Err(RunError::AcceptorFailure(FailureKind::Bind))
    );
    assert_eq!(
        run_verdict(RunEnd::AcceptorStopped(FailureKind::Accept)),
        Err(RunError::AcceptorFailure(FailureKind::Accept))
    );
    assert_eq!(run_verdict(RunEnd::AcceptorTaskLost), Err(RunError::TaskLost));
}
