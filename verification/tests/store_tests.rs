use midi_buttons::action::Action;
use midi_buttons::store::InvalidAction;
use midi_buttons::store::MidiConfig;

#[test]
fn defaults_at_startup() {
    let c = MidiConfig::new();
    assert_eq!(c.get(Action::Next).as_str(), "C0 01");
    assert_eq!(c.get(Action::Previous).as_str(), "C0 00");
    assert_eq!(c.get(Action::Custom).as_str(), "C0 7F");
}

#[test]
fn set_updates_one_entry_and_snapshot_sees_it() {
    let mut c = MidiConfig::new();
    let r = c.set("next", "B0 10 7F".to_string());
    assert!(r.is_ok());
    let snap = c.get_snapshot();
    assert_eq!(snap.get(Action::Next).as_str(), "B0 10 7F");
    assert_eq!(snap.get(Action::Previous).as_str(), "C0 00");
    assert_eq!(snap.get(Action::Custom).as_str(), "C0 7F");
}

#[test]
fn set_each_action_by_its_name() {
    let mut c = MidiConfig::new();
    assert!(c.set("next", "01".to_string()).is_ok());
    assert!(c.set("previous", "02".to_string()).is_ok());
    assert!(c.set("custom", "03".to_string()).is_ok());
    assert_eq!(c.get(Action::Next).as_str(), "01");
    assert_eq!(c.get(Action::Previous).as_str(), "02");
    assert_eq!(c.get(Action::Custom).as_str(), "03");
}

#[test]
fn set_unknown_action_fails_and_changes_nothing() {
    let mut c = MidiConfig::new();
    let r = c.set("volume", "C0 02".to_string());
    assert_eq!(r, Err(InvalidAction));
    assert_eq!(c.get(Action::Next).as_str(), "C0 01");
    assert_eq!(c.get(Action::Previous).as_str(), "C0 00");
    assert_eq!(c.get(Action::Custom).as_str(), "C0 7F");
}

#[test]
fn set_is_case_sensitive() {
    let mut c = MidiConfig::new();
    assert_eq!(c.set("Next", "C0 02".to_string()), Err(InvalidAction));
    assert_eq!(c.get(Action::Next).as_str(), "C0 01");
}

#[test]
fn sequential_sets_both_succeed_last_wins() {
    // Two clients submitting one after the other (the store's guard, held by
    // the surrounding program, serializes truly concurrent calls into exactly
    // this picture, in one order or the other).
    let mut c = MidiConfig::new();
    assert!(c.set("custom", "C0 10".to_string()).is_ok());
    assert!(c.set("custom", "C0 20".to_string()).is_ok());
    // The entry is the second write in full, never a mix of the two.
    assert_eq!(c.get(Action::Custom).as_str(), "C0 20");
    assert_eq!(c.get(Action::Next).as_str(), "C0 01");
    assert_eq!(c.get(Action::Previous).as_str(), "C0 00");
}

#[test]
fn snapshot_is_a_copy_not_a_view() {
    let mut c = MidiConfig::new();
    let snap = c.get_snapshot();
    assert!(c.set("next", "FF".to_string()).is_ok());
    assert_eq!(snap.get(Action::Next).as_str(), "C0 01");
    assert_eq!(c.get(Action::Next).as_str(), "FF");
}

#[test]
fn action_names_round_trip() {
    let actions = midi_buttons::action::action_order();
    assert_eq!(actions, vec![Action::Next, Action::Previous, Action::Custom]);
    for a in actions {
        assert_eq!(Action::from_name(a.name()), Some(a));
    }
    assert_eq!(Action::from_name("nex"), None);
    assert_eq!(Action::from_name(""), None);
}
