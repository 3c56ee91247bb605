//! The process-supervision state machine: decides when to fork a worker,
//! how long to wait before a restart, and when to shut down. The shell
//! performs the forking, waiting, sleeping and signalling; every decision
//! is made here.

use vstd::prelude::*;

verus! {

/// The smallest restart delay, in milliseconds.
pub const MIN_SLEEP_MS: u64 = 50;

/// Where the supervisor stands.
#[derive(Clone, Copy, Debug, PartialEq, Eq, Structural)]
pub enum SupervisorPhase {
    /// A worker must be started.
    StartingChild,
    /// A worker with this process id is being awaited.
    MonitoringChild(i32),
    /// A termination request was received; no more workers are started.
    ShuttingDown,
}

/// What the shell must do next.
#[derive(Clone, Copy, Debug, PartialEq, Eq, Structural)]
pub enum SupervisorStep {
    /// Sleep this many milliseconds, then fork a worker.
    Fork { delay_ms: u64 },
    /// Exit the supervision loop.
    Stop,
}

/// The supervisor: its phase and the current restart delay, which doubles
/// on every crash inside the delay window and resets once a worker outlives
/// the window.
pub struct Supervisor {
    pub phase: SupervisorPhase,
    pub sleep_ms: u64,
}

impl Supervisor {
    pub open spec fn wf(self) -> bool {
        self.sleep_ms >= MIN_SLEEP_MS
    }

    pub fn new() -> (r: Supervisor)
        ensures
            r.wf(),
            r.phase == SupervisorPhase::StartingChild,
            r.sleep_ms == MIN_SLEEP_MS,
    {
        Supervisor { phase: SupervisorPhase::StartingChild, sleep_ms: MIN_SLEEP_MS }
    }

    /// A signal arrived: it is forwarded to the awaited worker, if any; a
    /// termination signal moves the supervisor to its terminal phase, any
    /// other starts a fresh worker.
    pub fn on_signal(&mut self, is_terminate: bool) -> (forward_to: Option<i32>)
        ensures
            forward_to == (match old(self).phase {
                SupervisorPhase::MonitoringChild(pid) => Some(pid),
                _ => None::<i32>,
            }),
            final(self).phase == if is_terminate {
                SupervisorPhase::ShuttingDown
            } else {
                SupervisorPhase::StartingChild
            },
            final(self).sleep_ms == old(self).sleep_ms,
    {
        let forward_to = match self.phase {
            SupervisorPhase::MonitoringChild(pid) => Some(pid),
            _ => None,
        };
        self.phase = if is_terminate {
            SupervisorPhase::ShuttingDown
        } else {
            SupervisorPhase::StartingChild
        };
        forward_to
    }

    /// Decides the next step at the top of the supervision loop. Reaching
    /// the top while a worker was being monitored means that worker died
    /// inside the current delay window: the shell must sleep the current
    /// delay and the delay doubles, saturating at the largest delay that
    /// fits. In the terminal phase the loop stops; otherwise a worker is
    /// forked at once.
    pub fn next_step(&mut self) -> (step: SupervisorStep)
        requires
            old(self).wf(),
        ensures
            final(self).wf(),
            final(self).phase == old(self).phase,
            step == (match old(self).phase {
                SupervisorPhase::StartingChild => SupervisorStep::Fork { delay_ms: 0u64 },
                SupervisorPhase::MonitoringChild(_) => SupervisorStep::Fork {
                    delay_ms: old(self).sleep_ms,
                },
                SupervisorPhase::ShuttingDown => SupervisorStep::Stop,
            }),
            final(self).sleep_ms == (match old(self).phase {
                SupervisorPhase::MonitoringChild(_) => if 2 * old(self).sleep_ms <= u64::MAX {
                    2 * old(self).sleep_ms
                } else {
                    u64::MAX as int
                },
                _ => old(self).sleep_ms as int,
            }),
    {
        match self.phase {
            SupervisorPhase::StartingChild => SupervisorStep::Fork { delay_ms: 0 },
            SupervisorPhase::MonitoringChild(_) => {
                let delay = self.sleep_ms;
                if self.sleep_ms <= u64::MAX / 2 {
                    self.sleep_ms = 2 * self.sleep_ms;
                } else {
                    self.sleep_ms = u64::MAX;
                }
                SupervisorStep::Fork { delay_ms: delay }
            },
            SupervisorPhase::ShuttingDown => SupervisorStep::Stop,
        }
    }

    /// A worker was forked and is now monitored.
    pub fn on_child_forked(&mut self, pid: i32)
        ensures
            final(self).phase == SupervisorPhase::MonitoringChild(pid),
            final(self).sleep_ms == old(self).sleep_ms,
    {
        self.phase = SupervisorPhase::MonitoringChild(pid);
    }

    /// The awaited worker exited. A worker that outlived the current delay
    /// window is considered healthy, so the delay resets to its minimum;
    /// one that crashed early leaves the grown delay in place.
    pub fn on_child_exited(&mut self, survived_past_delay: bool)
        requires
            old(self).wf(),
        ensures
            final(self).wf(),
            final(self).phase == old(self).phase,
            final(self).sleep_ms == if survived_past_delay {
                MIN_SLEEP_MS as int
            } else {
                old(self).sleep_ms as int
            },
    {
        if survived_past_delay {
            self.sleep_ms = MIN_SLEEP_MS;
        }
    }
}

} // verus!
