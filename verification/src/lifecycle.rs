//! The scheduler's lifecycle: a state machine that decides, for each
//! external event, what the driving loop must do next. It performs one
//! eager reconciliation at startup, keeps at most one tick in flight,
//! stops issuing ticks once interrupted, lets an in-flight tick finish,
//! and only then shuts down. A tick that failed is reported with the same
//! completion event as a successful one: errors never terminate the
//! scheduler, only an interrupt does.

use vstd::prelude::*;

verus! {

/// Where the scheduler stands.
pub enum Phase {
    /// Created, not yet started.
    Idle,
    /// Ticking on the fixed cadence.
    Running,
    /// Interrupted; waiting for the in-flight tick, if any, to finish.
    ShuttingDown,
    /// Terminal: resources may be released.
    Stopped,
}

/// What the outside world reports to the scheduler.
pub enum Event {
    /// The process asked the scheduler to start.
    Start,
    /// The fixed interval elapsed.
    TickDue,
    /// The tick that was in flight completed (successfully or not).
    TickFinished,
    /// An external interrupt asked for shutdown.
    Interrupt,
}

/// What the driving loop must do in response.
pub enum Action {
    /// Run one reconciliation tick now.
    RunTick,
    /// Release the entity source and stop the loop.
    Shutdown,
    /// Nothing; keep waiting.
    Wait,
}

/// The scheduler's state: its phase, and whether a tick is in flight.
pub struct Lifecycle {
    /// Current phase. Treat as read-only: `on_event` is the only intended
    /// writer.
    pub phase: Phase,
    /// Whether a tick has been issued and not yet reported finished.
    pub tick_in_flight: bool,
}

/// The state after `s` handles `ev`.
pub open spec fn next_state(s: Lifecycle, ev: Event) -> Lifecycle {
    match ev {
        Event::Start => if s.phase is Idle {
            Lifecycle { phase: Phase::Running, tick_in_flight: true }
        } else {
            s
        },
        Event::TickDue => if s.phase is Running && !s.tick_in_flight {
            Lifecycle { phase: Phase::Running, tick_in_flight: true }
        } else {
            s
        },
        Event::TickFinished => if s.tick_in_flight {
            Lifecycle {
                phase: if s.phase is ShuttingDown {
                    Phase::Stopped
                } else {
                    s.phase
                },
                tick_in_flight: false,
            }
        } else {
            s
        },
        Event::Interrupt => if s.phase is Running {
            if s.tick_in_flight {
                Lifecycle { phase: Phase::ShuttingDown, tick_in_flight: true }
            } else {
                Lifecycle { phase: Phase::Stopped, tick_in_flight: false }
            }
        } else if s.phase is Idle {
            Lifecycle { phase: Phase::Stopped, tick_in_flight: false }
        } else {
            s
        },
    }
}

/// What `s` asks the driving loop to do on `ev`.
pub open spec fn action_of(s: Lifecycle, ev: Event) -> Action {
    match ev {
        Event::Start => if s.phase is Idle {
            Action::RunTick
        } else {
            Action::Wait
        },
        Event::TickDue => if s.phase is Running && !s.tick_in_flight {
            Action::RunTick
        } else {
            Action::Wait
        },
        Event::TickFinished => if s.tick_in_flight && s.phase is ShuttingDown {
            Action::Shutdown
        } else {
            Action::Wait
        },
        Event::Interrupt => if (s.phase is Running && !s.tick_in_flight) || s.phase is Idle {
            Action::Shutdown
        } else {
            Action::Wait
        },
    }
}

impl Lifecycle {
    /// The state invariant: a tick can only be in flight while running or
    /// draining for shutdown.
    pub open spec fn wf(&self) -> bool {
        self.tick_in_flight ==> (self.phase is Running || self.phase is ShuttingDown)
    }

    /// A scheduler that has not started yet.
    pub fn new() -> (s: Lifecycle)
        ensures
            s.wf(),
            s.phase is Idle,
            !s.tick_in_flight,
    {
        Lifecycle { phase: Phase::Idle, tick_in_flight: false }
    }

    /// Handles one event: moves to the next state and says what to do.
    pub fn on_event(&mut self, ev: Event) -> (act: Action)
        requires
            old(self).wf(),
        ensures
            final(self).wf(),
            *final(self) == next_state(*old(self), ev),
            act == action_of(*old(self), ev),
    {
        match ev {
            Event::Start => {
                if matches!(self.phase, Phase::Idle) {
                    self.phase = Phase::Running;
                    self.tick_in_flight = true;
                    Action::RunTick
                } else {
                    Action::Wait
                }
            },
            Event::TickDue => {
                if matches!(self.phase, Phase::Running) && !self.tick_in_flight {
                    self.tick_in_flight = true;
                    Action::RunTick
                } else {
                    Action::Wait
                }
            },
            Event::TickFinished => {
                if self.tick_in_flight {
                    self.tick_in_flight = false;
                    if matches!(self.phase, Phase::ShuttingDown) {
                        self.phase = Phase::Stopped;
                        Action::Shutdown
                    } else {
                        Action::Wait
                    }
                } else {
                    Action::Wait
                }
            },
            Event::Interrupt => {
                if matches!(self.phase, Phase::Running) {
                    if self.tick_in_flight {
                        self.phase = Phase::ShuttingDown;
                        Action::Wait
                    } else {
                        self.phase = Phase::Stopped;
                        Action::Shutdown
                    }
                } else if matches!(self.phase, Phase::Idle) {
                    self.phase = Phase::Stopped;
                    Action::Shutdown
                } else {
                    Action::Wait
                }
            },
        }
    }
}

/// At most one tick in flight: a tick is only launched when none is, and
/// launching it marks it in flight.
pub proof fn lemma_at_most_one_tick(s: Lifecycle, ev: Event)
    requires
        s.wf(),
    ensures
        action_of(s, ev) is RunTick ==> !s.tick_in_flight && next_state(s, ev).tick_in_flight,
{
}

/// Cooperative cancellation: once the scheduler is draining or stopped, no
/// event can make it launch another tick, and it never leaves those
/// phases except to stop.
pub proof fn lemma_no_tick_after_interrupt(s: Lifecycle, ev: Event)
    requires
        s.phase is ShuttingDown || s.phase is Stopped,
    ensures
        !(action_of(s, ev) is RunTick),
        next_state(s, ev).phase is ShuttingDown || next_state(s, ev).phase is Stopped,
{
}

/// Stopped is terminal: no event moves the scheduler out of it or makes
/// it do anything.
pub proof fn lemma_stopped_is_terminal(s: Lifecycle, ev: Event)
    requires
        s.phase is Stopped,
        !s.tick_in_flight,
    ensures
        next_state(s, ev) == s,
        action_of(s, ev) is Wait,
{
}

} // verus!
