use osmon::lifecycle::{Action, Event, Lifecycle, Phase};

#[test]
fn eager_tick_on_start() {
    let mut s = Lifecycle::new();
    assert!(matches!(s.phase, Phase::Idle));
    let act = s.on_event(Event::Start);
    assert!(matches!(act, Action::RunTick));
    assert!(matches!(s.phase, Phase::Running));
    assert!(s.tick_in_flight);
}

#[test]
fn at_most_one_tick_in_flight() {
    let mut s = Lifecycle::new();
    s.on_event(Event::Start);
    // the first tick has not finished: the cadence must wait
    let act = s.on_event(Event::TickDue);
    assert!(matches!(act, Action::Wait));
    s.on_event(Event::TickFinished);
    let act = s.on_event(Event::TickDue);
    assert!(matches!(act, Action::RunTick));
}

#[test]
fn interrupt_waits_for_inflight_tick() {
    let mut s = Lifecycle::new();
    s.on_event(Event::Start);
    let act = s.on_event(Event::Interrupt);
    assert!(matches!(act, Action::Wait));
    assert!(matches!(s.phase, Phase::ShuttingDown));
    // no new tick is issued while draining
    let act = s.on_event(Event::TickDue);
    assert!(matches!(act, Action::Wait));
    // the in-flight tick completes: only now shut down
    let act = s.on_event(Event::TickFinished);
    assert!(matches!(act, Action::Shutdown));
    assert!(matches!(s.phase, Phase::Stopped));
}

#[test]
fn interrupt_between_ticks_stops_immediately() {
    let mut s = Lifecycle::new();
    s.on_event(Event::Start);
    s.on_event(Event::TickFinished);
    let act = s.on_event(Event::Interrupt);
    assert!(matches!(act, Action::Shutdown));
    assert!(matches!(s.phase, Phase::Stopped));
}

#[test]
fn interrupt_before_start_stops() {
    let mut s = Lifecycle::new();
    let act = s.on_event(Event::Interrupt);
    assert!(matches!(act, Action::Shutdown));
    assert!(matches!(s.phase, Phase::Stopped));
}

#[test]
fn failed_tick_does_not_stop_the_scheduler() {
    let mut s = Lifecycle::new();
    s.on_event(Event::Start);
    // the tick reports completion whether it succeeded or failed
    let act = s.on_event(Event::TickFinished);
    assert!(matches!(act, Action::Wait));
    assert!(matches!(s.phase, Phase::Running));
    // and the cadence goes on
    let act = s.on_event(Event::TickDue);
    assert!(matches!(act, Action::RunTick));
}

#[test]
fn stopped_is_terminal() {
    let mut s = Lifecycle::new();
    s.on_event(Event::Interrupt);
    for ev in [Event::Start, Event::TickDue, Event::TickFinished, Event::Interrupt] {
        let act = s.on_event(ev);
        assert!(matches!(act, Action::Wait));
        assert!(matches!(s.phase, Phase::Stopped));
    }
}
