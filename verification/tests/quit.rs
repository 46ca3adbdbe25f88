use termecho::event::{DecodedEvent, KeyKind, KeyStroke};
use termecho::quit::{QuitTracker, QUIT_KEY};

fn press(c: char) -> KeyStroke {
    KeyStroke { kind: KeyKind::Press, character: Some(c) }
}

fn key_event(stroke: KeyStroke) -> Option<DecodedEvent> {
    Some(DecodedEvent { key: Some(stroke), text: String::from("key") })
}

#[test]
fn quit_key_is_q() {
    assert_eq!(QUIT_KEY, 'q');
}

#[test]
fn new_tracker_counts_zero() {
    let tracker = QuitTracker::new();
    assert_eq!(tracker.count(), 0);
    assert!(!tracker.should_quit());
}

#[test]
fn quit_other_quit_leaves_one() {
    let mut tracker = QuitTracker::new();
    tracker.record(press('q'));
    tracker.record(press('a'));
    tracker.record(press('q'));
    assert_eq!(tracker.count(), 1);
    assert!(!tracker.should_quit());
}

#[test]
fn quit_quit_counts_two_and_ends() {
    let mut tracker = QuitTracker::new();
    tracker.record(press('q'));
    assert_eq!(tracker.count(), 1);
    assert!(!tracker.should_quit());
    tracker.record(press('q'));
    assert_eq!(tracker.count(), 2);
    assert!(tracker.should_quit());
}

#[test]
fn release_of_quit_key_is_ignored() {
    let mut tracker = QuitTracker::new();
    tracker.record(press('q'));
    tracker.record(KeyStroke { kind: KeyKind::Release, character: Some('q') });
    assert_eq!(tracker.count(), 1);
    tracker.record(press('q'));
    assert_eq!(tracker.count(), 2);
}

#[test]
fn repeat_of_quit_key_is_ignored() {
    let mut tracker = QuitTracker::new();
    tracker.record(KeyStroke { kind: KeyKind::Repeat, character: Some('q') });
    assert_eq!(tracker.count(), 0);
    tracker.record(press('q'));
    tracker.record(KeyStroke { kind: KeyKind::Repeat, character: Some('q') });
    tracker.record(KeyStroke { kind: KeyKind::Repeat, character: Some('q') });
    assert_eq!(tracker.count(), 1);
    assert!(!tracker.should_quit());
}

#[test]
fn release_of_another_key_does_not_reset() {
    let mut tracker = QuitTracker::new();
    tracker.record(press('q'));
    tracker.record(KeyStroke { kind: KeyKind::Release, character: Some('a') });
    tracker.record(KeyStroke { kind: KeyKind::Repeat, character: None });
    assert_eq!(tracker.count(), 1);
}

#[test]
fn press_of_key_without_character_resets() {
    let mut tracker = QuitTracker::new();
    tracker.record(press('q'));
    tracker.record(KeyStroke { kind: KeyKind::Press, character: None });
    assert_eq!(tracker.count(), 0);
}

#[test]
fn uppercase_q_is_another_key() {
    let mut tracker = QuitTracker::new();
    tracker.record(press('q'));
    tracker.record(press('Q'));
    assert_eq!(tracker.count(), 0);
}

#[test]
fn third_press_counts_on() {
    let mut tracker = QuitTracker::new();
    tracker.record(press('q'));
    tracker.record(press('q'));
    tracker.record(press('q'));
    assert_eq!(tracker.count(), 3);
    assert!(tracker.should_quit());
    tracker.record(press('x'));
    assert_eq!(tracker.count(), 0);
    assert!(!tracker.should_quit());
}

#[test]
fn events_without_key_leave_the_count() {
    let mut tracker = QuitTracker::new();
    tracker.observe(&key_event(press('q')));
    assert_eq!(tracker.count(), 1);
    tracker.observe(&None);
    assert_eq!(tracker.count(), 1);
    tracker.observe(&Some(DecodedEvent { key: None, text: String::from("FocusGained") }));
    assert_eq!(tracker.count(), 1);
    tracker.observe(&key_event(press('q')));
    assert_eq!(tracker.count(), 2);
    assert!(tracker.should_quit());
}

#[test]
fn observed_key_events_follow_the_same_rule() {
    let mut tracker = QuitTracker::new();
    tracker.observe(&key_event(press('q')));
    tracker.observe(&key_event(press('a')));
    tracker.observe(&key_event(press('q')));
    assert_eq!(tracker.count(), 1);
    tracker.observe(&key_event(KeyStroke { kind: KeyKind::Release, character: Some('q') }));
    assert_eq!(tracker.count(), 1);
    assert!(!tracker.should_quit());
}
