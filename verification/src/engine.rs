//! Decision rules of the forwarding engine. The surrounding host owns the
//! sockets and tasks; every choice — which failures are fatal, how an
//! acceptor reacts to an event, what a finished run returns — is made here,
//! so the policy of the engine is verified even though the I/O is not.
//!
//! Policy, in short: bind and accept errors are fatal to the whole run;
//! connect and relay errors stay local to their connection; a shutdown
//! signal ends the run successfully; a single accepted connection never
//! interrupts its acceptor's accept loop.

use vstd::prelude::*;

verus! {

/// Where in the run an operation failed.
#[derive(Clone, Copy, Debug, PartialEq, Eq, Structural)]
pub enum FailureKind {
    /// Binding a rule's listen endpoint failed.
    Bind,
    /// Accepting on a bound listener failed.
    Accept,
    /// Opening the outbound connection for one accepted client failed.
    Connect,
    /// Relaying bytes on one established connection failed.
    Relay,
}

/// Only failures of the acceptor itself cross the acceptor boundary; every
/// per-connection failure is absorbed at the connection.
pub open spec fn is_fatal_spec(k: FailureKind) -> bool {
    k == FailureKind::Bind || k == FailureKind::Accept
}

/// Decide whether a failure ends the whole run or stays local to its
/// connection.
pub fn failure_is_fatal(k: FailureKind) -> (r: bool)
    ensures
        r == is_fatal_spec(k),
{
    match k {
        FailureKind::Bind => true,
        FailureKind::Accept => true,
        FailureKind::Connect => false,
        FailureKind::Relay => false,
    }
}

/// The phase of one rule's acceptor.
#[derive(Clone, Copy, Debug, PartialEq, Eq, Structural)]
pub enum AcceptorPhase {
    /// The listen endpoint is not bound yet.
    Binding,
    /// The listener is bound and the accept loop runs.
    Accepting,
    /// The acceptor ended; only a bind or accept error brings it here.
    Stopped,
}

/// What the host observed while driving one acceptor.
#[derive(Clone, Copy, Debug, PartialEq, Eq, Structural)]
pub enum AcceptorEvent {
    /// The listen endpoint was bound.
    BindSucceeded,
    /// Binding the listen endpoint failed.
    BindFailed,
    /// One client connection was accepted.
    ConnectionAccepted,
    /// Accepting failed.
    AcceptFailed,
}

/// What the host must do next with one acceptor.
#[derive(Clone, Copy, Debug, PartialEq, Eq, Structural)]
pub enum AcceptorAction {
    /// Wait for the next client connection.
    AwaitConnection,
    /// Hand the accepted connection to a forwarder task, then wait for the
    /// next one; the acceptor never waits for the forwarder.
    SpawnForwarder,
    /// Report the acceptor's failure; by the engine's first-completion
    /// policy this ends the whole run.
    ReportFatal,
    /// Nothing: the event does not belong to this phase.
    Ignore,
}

/// One step of an acceptor: next phase and required action for an event.
pub open spec fn acceptor_step_spec(p: AcceptorPhase, e: AcceptorEvent) -> (
    AcceptorPhase,
    AcceptorAction,
) {
    match (p, e) {
        (AcceptorPhase::Binding, AcceptorEvent::BindSucceeded) => (
            AcceptorPhase::Accepting,
            AcceptorAction::AwaitConnection,
        ),
        (AcceptorPhase::Binding, AcceptorEvent::BindFailed) => (
            AcceptorPhase::Stopped,
            AcceptorAction::ReportFatal,
        ),
        (AcceptorPhase::Accepting, AcceptorEvent::ConnectionAccepted) => (
            AcceptorPhase::Accepting,
            AcceptorAction::SpawnForwarder,
        ),
        (AcceptorPhase::Accepting, AcceptorEvent::AcceptFailed) => (
            AcceptorPhase::Stopped,
            AcceptorAction::ReportFatal,
        ),
        _ => (p, AcceptorAction::Ignore),
    }
}

/// Drive one acceptor one step.
///
/// An accepted connection keeps the acceptor in `Accepting`: no single
/// connection, however it later fares, interrupts the accept loop. `Stopped`
/// is terminal.
pub fn acceptor_step(p: AcceptorPhase, e: AcceptorEvent) -> (r: (AcceptorPhase, AcceptorAction))
    ensures
        r == acceptor_step_spec(p, e),
        p == AcceptorPhase::Accepting && e == AcceptorEvent::ConnectionAccepted
            ==> r.0 == AcceptorPhase::Accepting,
        p == AcceptorPhase::Stopped ==> r.0 == AcceptorPhase::Stopped,
        r.1 == AcceptorAction::ReportFatal ==> r.0 == AcceptorPhase::Stopped,
{
    match (p, e) {
        (AcceptorPhase::Binding, AcceptorEvent::BindSucceeded) => (
            AcceptorPhase::Accepting,
            AcceptorAction::AwaitConnection,
        ),
        (AcceptorPhase::Binding, AcceptorEvent::BindFailed) => (
            AcceptorPhase::Stopped,
            AcceptorAction::ReportFatal,
        ),
        (AcceptorPhase::Accepting, AcceptorEvent::ConnectionAccepted) => (
            AcceptorPhase::Accepting,
            AcceptorAction::SpawnForwarder,
        ),
        (AcceptorPhase::Accepting, AcceptorEvent::AcceptFailed) => (
            AcceptorPhase::Stopped,
            AcceptorAction::ReportFatal,
        ),
        _ => (p, AcceptorAction::Ignore),
    }
}

/// How one run of the engine came to its end.
#[derive(Clone, Copy, Debug, PartialEq, Eq, Structural)]
pub enum RunEnd {
    /// The external shutdown signal fired.
    ShutdownSignalled,
    /// No rules were configured, so there was nothing to wait for.
    NoAcceptors,
    /// The first acceptor task to finish had stopped on a failure.
    AcceptorStopped(FailureKind),
    /// The first acceptor task to finish returned without a failure.
    AcceptorExitedCleanly,
    /// The first acceptor task to finish was itself lost (it panicked or
    /// was cancelled), so its result never arrived.
    AcceptorTaskLost,
}

/// What a finished run reports to its caller.
#[derive(Clone, Copy, Debug, PartialEq, Eq, Structural)]
pub enum RunError {
    /// An acceptor stopped on the contained failure.
    AcceptorFailure(FailureKind),
    /// An acceptor task was lost without delivering a result.
    TaskLost,
}

/// The result a run must return for each way of ending: shutdown, an empty
/// rule list and a clean acceptor exit succeed; everything else is the
/// fatal error of the whole run.
pub open spec fn run_verdict_spec(end: RunEnd) -> Result<(), RunError> {
    match end {
        RunEnd::ShutdownSignalled => Ok(()),
        RunEnd::NoAcceptors => Ok(()),
        RunEnd::AcceptorStopped(k) => Err(RunError::AcceptorFailure(k)),
        RunEnd::AcceptorExitedCleanly => Ok(()),
        RunEnd::AcceptorTaskLost => Err(RunError::TaskLost),
    }
}

/// Turn the first completion the engine observed into the run's result.
pub fn run_verdict(end: RunEnd) -> (r: Result<(), RunError>)
    ensures
        r == run_verdict_spec(end),
        end == RunEnd::ShutdownSignalled ==> r is Ok,
        r is Err ==> end !== RunEnd::ShutdownSignalled && end !== RunEnd::NoAcceptors,
{
    match end {
        RunEnd::ShutdownSignalled => Ok(()),
        RunEnd::NoAcceptors => Ok(()),
        RunEnd::AcceptorStopped(k) => Err(RunError::AcceptorFailure(k)),
        RunEnd::AcceptorExitedCleanly => Ok(()),
        RunEnd::AcceptorTaskLost => Err(RunError::TaskLost),
    }
}

/// The acceptor and the failure policy agree: an acceptor reports fatally
/// exactly on the events whose failure kinds `is_fatal_spec` marks fatal —
/// a failed bind or a failed accept — and never on anything a connection
/// does, whose failure kinds are never fatal.
pub proof fn lemma_policies_agree(p: AcceptorPhase, e: AcceptorEvent)
    ensures
        acceptor_step_spec(p, e).1 == AcceptorAction::ReportFatal ==> (e
            == AcceptorEvent::BindFailed && is_fatal_spec(FailureKind::Bind)) || (e
            == AcceptorEvent::AcceptFailed && is_fatal_spec(FailureKind::Accept)),
        !is_fatal_spec(FailureKind::Connect) && !is_fatal_spec(FailureKind::Relay),
{
}

} // verus!
