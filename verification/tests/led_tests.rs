use mac_led_tray::effects::{Effect, EffectAction};
use mac_led_tray::led::{read_state, LedState, LedUpdate};

#[test]
fn starts_on_at_full_brightness() {
    let s = LedState::new();
    assert!(s.is_on());
    assert_eq!(s.brightness(), 0xff);
    assert_eq!(s.last_on_brightness(), 0xff);
    assert!(!s.effect_running());
    assert_eq!(read_state(Some(&s)), (true, 0xff));
}

#[test]
fn no_state_reads_off() {
    assert_eq!(read_state(None), (false, 0));
}

#[test]
fn set_brightness_turns_on_and_remembers() {
    let mut s = LedState::new();
    assert_eq!(s.set_brightness(40), LedUpdate { stop_effect: false, value: 40 });
    assert_eq!(read_state(Some(&s)), (true, 40));
    assert_eq!(s.last_on_brightness(), 40);
}

#[test]
fn zero_brightness_turns_off_and_keeps_last() {
    let mut s = LedState::new();
    s.set_brightness(40);
    assert_eq!(s.set_brightness(0), LedUpdate { stop_effect: false, value: 0 });
    assert_eq!(read_state(Some(&s)), (false, 0));
    assert_eq!(s.last_on_brightness(), 40);
    assert_eq!(s.set_on(true), LedUpdate { stop_effect: false, value: 40 });
    assert_eq!(read_state(Some(&s)), (true, 40));
}

#[test]
fn off_then_on_restores_brightness() {
    let mut s = LedState::new();
    s.set_brightness(99);
    assert_eq!(s.set_on(false), LedUpdate { stop_effect: false, value: 0 });
    assert_eq!(read_state(Some(&s)), (false, 0));
    assert_eq!(s.set_on(true), LedUpdate { stop_effect: false, value: 99 });
    assert_eq!(read_state(Some(&s)), (true, 99));
}

#[test]
fn effects_are_stopped_by_manual_changes() {
    let mut s = LedState::new();
    let (stop_previous, mut runner) = s.start_effect(Effect::Blink);
    assert!(!stop_previous);
    assert!(s.effect_running());
    assert_eq!(runner.next(false), EffectAction::Write(0xff));
    let (stop_previous, _) = s.start_effect(Effect::Sos);
    assert!(stop_previous);
    assert_eq!(s.set_brightness(10), LedUpdate { stop_effect: true, value: 10 });
    assert!(!s.effect_running());
    assert_eq!(s.set_brightness(11), LedUpdate { stop_effect: false, value: 11 });
}

#[test]
fn clear_effect_restores_manual_state() {
    let mut s = LedState::new();
    s.set_brightness(77);
    let _ = s.start_effect(Effect::Strobe);
    assert_eq!(s.clear_effect(), LedUpdate { stop_effect: true, value: 77 });
    s.set_on(false);
    let _ = s.start_effect(Effect::Pulse);
    assert_eq!(s.clear_effect(), LedUpdate { stop_effect: true, value: 0 });
    assert_eq!(s.clear_effect(), LedUpdate { stop_effect: false, value: 0 });
}

#[test]
fn stop_effect_reports_running_effect() {
    let mut s = LedState::new();
    assert!(!s.stop_effect());
    let _ = s.start_effect(Effect::Blink);
    assert!(s.stop_effect());
    assert!(!s.stop_effect());
    assert_eq!(read_state(Some(&s)), (true, 0xff));
}
