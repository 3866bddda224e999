use midi_buttons::action::Action;
use midi_buttons::poller::CycleReadings;
use midi_buttons::poller::DebouncePhase;
use midi_buttons::poller::Dispatch;
use midi_buttons::poller::LineLevel;
use midi_buttons::poller::LineReading;
use midi_buttons::poller::Poller;
use midi_buttons::store::MidiConfig;

fn asserted() -> LineReading {
    LineReading::Level(LineLevel::Asserted)
}

fn deasserted() -> LineReading {
    LineReading::Level(LineLevel::Deasserted)
}

fn only_next(r: LineReading) -> CycleReadings {
    CycleReadings {
        next: r,
        previous: deasserted(),
        custom: deasserted(),
    }
}

#[test]
fn held_line_dispatches_once_per_dead_time_window() {
    // Poll interval 50 ms, dead time 200 ms, line held asserted for 1000 ms:
    // a dispatch opens a 200 ms window, the cycle that ends the window only
    // re-arms, and the next cycle fires again. Expected dispatch times are
    // 0, 250, 500 and 750 ms: one dispatch per dead-time window, not one per
    // poll cycle (which would be 20).
    let cfg = MidiConfig::new();
    let mut p = Poller::new(200);
    let mut dispatch_times: Vec<u64> = Vec::new();
    for i in 0..20u64 {
        let t = i * 50;
        let out = p.poll_cycle(t, only_next(asserted()), &cfg);
        for d in &out {
            assert_eq!(d.action, Action::Next);
            dispatch_times.push(t);
        }
    }
    assert_eq!(dispatch_times, vec![0, 250, 500, 750]);
}

#[test]
fn momentary_press_dispatches_exactly_once() {
    // Asserted in a single poll cycle, deasserted ever after: one dispatch.
    let cfg = MidiConfig::new();
    let mut p = Poller::new(200);
    let mut count = 0;
    for i in 0..12u64 {
        let r = if i == 0 { asserted() } else { deasserted() };
        let out = p.poll_cycle(i * 50, only_next(r), &cfg);
        count += out.len();
    }
    assert_eq!(count, 1);
}

#[test]
fn two_actions_same_cycle_dispatch_in_fixed_order() {
    let cfg = MidiConfig::new();
    let mut p = Poller::new(200);
    let readings = CycleReadings {
        next: asserted(),
        previous: asserted(),
        custom: deasserted(),
    };
    let out = p.poll_cycle(0, readings, &cfg);
    let actions: Vec<Action> = out.iter().map(|d| d.action).collect();
    assert_eq!(actions, vec![Action::Next, Action::Previous]);
}

#[test]
fn all_actions_asserted_dispatch_in_fixed_order() {
    let cfg = MidiConfig::new();
    let mut p = Poller::new(200);
    let out = p.poll_cycle(0, CycleReadings::uniform(asserted()), &cfg);
    let actions: Vec<Action> = out.iter().map(|d| d.action).collect();
    assert_eq!(actions, vec![Action::Next, Action::Previous, Action::Custom]);
}

#[test]
fn sink_failure_does_not_block_the_next_window() {
    // The poller's transitions take no input from the sink: a dispatch whose
    // send failed still opens the dead-time window, and once the window has
    // elapsed the held line dispatches again.
    let cfg = MidiConfig::new();
    let mut p = Poller::new(200);
    let out = p.poll_cycle(0, only_next(asserted()), &cfg);
    assert_eq!(out.len(), 1);
    drop(out); // the simulated sink fails; the poller never hears of it
    assert!(p.poll_cycle(50, only_next(asserted()), &cfg).is_empty());
    assert!(p.poll_cycle(100, only_next(asserted()), &cfg).is_empty());
    assert!(p.poll_cycle(150, only_next(asserted()), &cfg).is_empty());
    // t = 200 reaches the deadline: re-arm only.
    assert!(p.poll_cycle(200, only_next(asserted()), &cfg).is_empty());
    // The next cycle dispatches again for the same action.
    let again = p.poll_cycle(250, only_next(asserted()), &cfg);
    assert_eq!(again.len(), 1);
    assert_eq!(again[0].action, Action::Next);
}

#[test]
fn read_error_skips_the_cycle_and_stays_armed() {
    let cfg = MidiConfig::new();
    let mut p = Poller::new(200);
    let out = p.poll_cycle(0, only_next(LineReading::ReadError), &cfg);
    assert!(out.is_empty());
    assert_eq!(p.next_line.phase, DebouncePhase::Idle);
    // The error affected that cycle only: the next asserted read fires.
    let out = p.poll_cycle(50, only_next(asserted()), &cfg);
    assert_eq!(out.len(), 1);
}

#[test]
fn dispatch_carries_the_configured_payload() {
    let mut cfg = MidiConfig::new();
    cfg.set("custom", "F0 7E 7F 06 01 F7".to_string()).unwrap();
    let snapshot = cfg.get_snapshot();
    let mut p = Poller::new(200);
    let readings = CycleReadings {
        next: deasserted(),
        previous: deasserted(),
        custom: asserted(),
    };
    let out: Vec<Dispatch> = p.poll_cycle(0, readings, &snapshot);
    assert_eq!(out.len(), 1);
    assert_eq!(out[0].action, Action::Custom);
    assert_eq!(out[0].payload.as_str(), "F0 7E 7F 06 01 F7");
}

#[test]
fn dead_time_ignores_releases_and_reasserts() {
    // Within the window the level is ignored entirely; after it, Idle simply
    // re-evaluates the raw level, no edge needed.
    let cfg = MidiConfig::new();
    let mut p = Poller::new(200);
    assert_eq!(p.poll_cycle(0, only_next(asserted()), &cfg).len(), 1);
    assert!(p.poll_cycle(60, only_next(deasserted()), &cfg).is_empty());
    assert!(p.poll_cycle(120, only_next(asserted()), &cfg).is_empty());
    assert!(p.poll_cycle(199, only_next(asserted()), &cfg).is_empty());
    assert!(p.poll_cycle(210, only_next(deasserted()), &cfg).is_empty());
    assert_eq!(p.next_line.phase, DebouncePhase::Idle);
    assert_eq!(p.poll_cycle(260, only_next(asserted()), &cfg).len(), 1);
}
