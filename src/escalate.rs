//! Graceful-then-forced termination of a process tree, as a state machine.
//!
//! The driver performs each action (signal the tree, sleep and check the root) and
//! reports what came of it; the machine decides what follows. With no grace period the
//! tree is force-killed at once. Otherwise it is sent the graceful signal, given time to
//! exit, checked every `SLEEP_STEP_MS`, and whatever survives the grace period, or the
//! root's disappearance, is force-killed from a fresh snapshot of the process table.

use crate::process::{Signal, SLEEP_STEP_MS};
use vstd::prelude::*;

verus! {

#[derive(Debug, PartialEq, Eq, Structural, Clone, Copy)]
pub enum EscalationPhase {
    /// The first signal has been asked for.
    Started,
    /// The graceful signal was sent; the tree is being given time to exit.
    Waiting,
    /// The forced signal has been asked for.
    Forcing,
    /// Nothing is left to do.
    Finished,
}

/// What the driver is to do next.
#[derive(Debug, PartialEq, Eq, Structural, Clone, Copy)]
pub enum EscalationAction {
    /// Signal the tree, from a fresh snapshot of the process table.
    SignalTree(Signal),
    /// Send the forced signal to the tree, from a fresh snapshot of the process table,
    /// and to every process the graceful signal was sent to, in the tree or not by now.
    ForceTree,
    /// Sleep this many milliseconds, then send the graceful signal to the root again to
    /// learn whether it is still there.
    SleepThenProbe(u64),
    /// Termination is complete.
    Done,
}

/// What came of the last action.
#[derive(Debug, PartialEq, Eq, Structural, Clone, Copy)]
pub enum EscalationEvent {
    /// The tree was signalled (or force-killed); this many processes were targeted.
    TreeSignalled(usize),
    /// The root was probed after a sleep: whether the signal still reached it, and the
    /// milliseconds since the graceful signal was sent.
    Probed { root_alive: bool, elapsed_ms: u64 },
}

/// One termination of a process tree.
#[derive(Debug, PartialEq, Eq, Structural, Clone, Copy)]
pub struct Escalation {
    pub grace_ms: Option<u64>,
    pub include_root: bool,
    pub phase: EscalationPhase,
}

/// The signal a termination starts with: graceful when there is a grace period.
pub open spec fn first_signal(grace_ms: Option<u64>) -> Signal {
    if grace_ms.is_some() {
        Signal::SIGTERM
    } else {
        Signal::SIGKILL
    }
}

impl Escalation {
    /// Only a termination with a grace period ever waits.
    pub open spec fn wf(self) -> bool {
        self.phase == EscalationPhase::Waiting ==> self.grace_ms.is_some()
    }

    /// The action a termination in this state waits on.
    pub open spec fn pending(self) -> EscalationAction {
        match self.phase {
            EscalationPhase::Started => EscalationAction::SignalTree(first_signal(self.grace_ms)),
            EscalationPhase::Waiting => EscalationAction::SleepThenProbe(SLEEP_STEP_MS),
            EscalationPhase::Forcing => EscalationAction::ForceTree,
            EscalationPhase::Finished => EscalationAction::Done,
        }
    }

    /// The state and action that follow `event`. An event that does not answer the
    /// pending action changes nothing.
    pub open spec fn next(self, event: EscalationEvent) -> (Escalation, EscalationAction) {
        let forcing = Escalation { phase: EscalationPhase::Forcing, ..self };
        let waiting = Escalation { phase: EscalationPhase::Waiting, ..self };
        let finished = Escalation { phase: EscalationPhase::Finished, ..self };
        match (self.phase, event) {
            (EscalationPhase::Started, EscalationEvent::TreeSignalled(n)) => match self.grace_ms {
                Some(g) if n > 0 || self.include_root => if g > 0 {
                    (waiting, waiting.pending())
                } else {
                    (forcing, forcing.pending())
                },
                _ => (finished, EscalationAction::Done),
            },
            (EscalationPhase::Waiting, EscalationEvent::Probed { root_alive, elapsed_ms }) => match self.grace_ms {
                Some(g) if root_alive && elapsed_ms < g => (waiting, waiting.pending()),
                _ => (forcing, forcing.pending()),
            },
            (EscalationPhase::Forcing, EscalationEvent::TreeSignalled(_)) => (finished, EscalationAction::Done),
            _ => (self, self.pending()),
        }
    }

    /// Starts terminating a tree: with the graceful signal when there is a grace
    /// period, else with the forced one.
    pub fn start(grace_ms: Option<u64>, include_root: bool) -> (r: (Escalation, EscalationAction))
        ensures
            r.0 == (Escalation { grace_ms, include_root, phase: EscalationPhase::Started }),
            r.0.wf(),
            r.1 == r.0.pending(),
            r.1 == EscalationAction::SignalTree(first_signal(grace_ms)),
    {
        let e = Escalation { grace_ms, include_root, phase: EscalationPhase::Started };
        let signal = match grace_ms {
            Some(_) => Signal::SIGTERM,
            None => Signal::SIGKILL,
        };
        (e, EscalationAction::SignalTree(signal))
    }

    /// Takes in what came of the last action and says what to do next.
    pub fn step(&mut self, event: EscalationEvent) -> (r: EscalationAction)
        ensures
            (*final(self), r) == old(self).next(event),
            old(self).wf() ==> final(self).wf(),
    {
        match (self.phase, event) {
            (EscalationPhase::Started, EscalationEvent::TreeSignalled(n)) => {
                match self.grace_ms {
                    Some(g) => {
                        if n > 0 || self.include_root {
                            if g > 0 {
                                self.phase = EscalationPhase::Waiting;
                                EscalationAction::SleepThenProbe(SLEEP_STEP_MS)
                            } else {
                                self.phase = EscalationPhase::Forcing;
                                EscalationAction::ForceTree
                            }
                        } else {
                            self.phase = EscalationPhase::Finished;
                            EscalationAction::Done
                        }
                    },
                    None => {
                        self.phase = EscalationPhase::Finished;
                        EscalationAction::Done
                    },
                }
            },
            (EscalationPhase::Waiting, EscalationEvent::Probed { root_alive, elapsed_ms }) => {
                let keep_waiting = match self.grace_ms {
                    Some(g) => root_alive && elapsed_ms < g,
                    None => false,
                };
                if keep_waiting {
                    EscalationAction::SleepThenProbe(SLEEP_STEP_MS)
                } else {
                    self.phase = EscalationPhase::Forcing;
                    EscalationAction::ForceTree
                }
            },
            (EscalationPhase::Forcing, EscalationEvent::TreeSignalled(_)) => {
                self.phase = EscalationPhase::Finished;
                EscalationAction::Done
            },
            (EscalationPhase::Started, _) => {
                match self.grace_ms {
                    Some(_) => EscalationAction::SignalTree(Signal::SIGTERM),
                    None => EscalationAction::SignalTree(Signal::SIGKILL),
                }
            },
            (EscalationPhase::Waiting, _) => EscalationAction::SleepThenProbe(SLEEP_STEP_MS),
            (EscalationPhase::Forcing, _) => EscalationAction::ForceTree,
            (EscalationPhase::Finished, _) => EscalationAction::Done,
        }
    }
}

/// Without a grace period the first signal is the forced one, and once it is sent the
/// termination is over: nothing waits.
pub proof fn lemma_no_grace_is_immediate(include_root: bool, targets: usize)
    ensures
        ({
            let e = Escalation { grace_ms: None, include_root, phase: EscalationPhase::Started };
            &&& e.pending() == EscalationAction::SignalTree(Signal::SIGKILL)
            &&& e.next(EscalationEvent::TreeSignalled(targets)).1 == EscalationAction::Done
        }),
{
}

/// While the tree is given time, a check made once the grace period has passed, or one
/// that finds the root gone, always leads to the forced signal, for the fresh tree and
/// for every process that was sent the graceful one; after it the termination is over.
pub proof fn lemma_forced_after_grace(e: Escalation, root_alive: bool, elapsed_ms: u64, targets: usize)
    requires
        e.phase == EscalationPhase::Waiting,
        e.grace_ms.is_some(),
        elapsed_ms >= e.grace_ms.unwrap() || !root_alive,
    ensures
        ({
            let (f, a) = e.next(EscalationEvent::Probed { root_alive, elapsed_ms });
            &&& a == EscalationAction::ForceTree
            &&& f.next(EscalationEvent::TreeSignalled(targets)) == (
                Escalation { phase: EscalationPhase::Finished, ..e },
                EscalationAction::Done,
            )
        }),
{
}

/// Every wait is one step of `SLEEP_STEP_MS`, and only a termination with a grace
/// period ever waits. Each step keeps that so.
pub proof fn lemma_waits_are_steps(e: Escalation, event: EscalationEvent, ms: u64)
    requires
        e.wf(),
        e.next(event).1 == EscalationAction::SleepThenProbe(ms),
    ensures
        e.next(event).0.wf(),
        ms == SLEEP_STEP_MS,
        e.next(event).0.phase == EscalationPhase::Waiting,
        e.grace_ms.is_some(),
{
}

} // verus!
