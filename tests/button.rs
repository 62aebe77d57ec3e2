use panel_protocol::button::{Active, Button, ButtonEvent, Debouncer};
use panel_protocol::debouncer;

#[test]
fn active_low_button_reports_press_then_release() {
    let pin = Debouncer::new(Active::Low, 1, 3000);
    let mut button = Button::new(pin);
    assert!(!button.is_pressed());
    assert_eq!(button.poll(true), None);
    assert_eq!(button.poll(true), None);
    assert_eq!(button.poll(true), Some(ButtonEvent::Press));
    assert!(button.is_pressed());
    assert_eq!(button.poll(true), None);
    assert_eq!(button.poll(false), None);
    assert_eq!(button.poll(false), None);
    assert_eq!(button.poll(false), Some(ButtonEvent::Release));
    assert!(!button.is_pressed());
}

#[test]
fn bounces_shorter_than_window_are_ignored() {
    let mut pin = Debouncer::new(Active::Low, 30, 3000);
    for _ in 0..89 {
        pin.poll(true);
        assert!(!pin.is_pressed());
        pin.poll(false);
    }
    for _ in 0..89 {
        pin.poll(true);
    }
    assert!(!pin.is_pressed());
    for _ in 0..2 {
        pin.poll(true);
    }
    assert!(pin.is_pressed());
}

#[test]
fn active_high_debouncer_starts_released() {
    let mut pin = Debouncer::new(Active::High, 1, 2000);
    assert!(!pin.is_pressed());
    pin.poll(false);
    assert!(!pin.is_pressed());
    pin.poll(false);
    assert!(pin.is_pressed());
}

#[test]
fn level_debouncer_follows_pin() {
    let mut pin = debouncer::Debouncer::new(debouncer::Active::High, 2, 1000);
    assert!(pin.is_low());
    pin.update(false);
    assert!(pin.is_low());
    pin.update(false);
    assert!(pin.is_high());
    pin.update(false);
    pin.update(true);
    assert!(pin.is_high());
    pin.update(true);
    assert!(pin.is_low());
}

#[test]
fn level_debouncer_active_low_starts_high() {
    let pin = debouncer::Debouncer::new(debouncer::Active::Low, 30, 3000);
    assert!(pin.is_high());
    assert!(!pin.is_low());
}
