use mac_led_tray::effects::{effect_cycle, Effect, EffectAction, EffectRunner, EffectStep};

/// Runs `effect` with the flag down for `n` decisions.
fn trace(effect: Effect, n: usize) -> Vec<EffectAction> {
    let mut r = EffectRunner::new(effect);
    (0..n).map(|_| r.next(false)).collect()
}

/// Merges consecutive sleeps, to compare with the effect's plain timing.
fn merged(actions: &[EffectAction]) -> Vec<EffectAction> {
    let mut out: Vec<EffectAction> = Vec::new();
    for a in actions {
        match (out.last_mut(), a) {
            (Some(EffectAction::Sleep(t)), EffectAction::Sleep(ms)) => *t += ms,
            _ => out.push(*a),
        }
    }
    out
}

#[test]
fn blink_cycles() {
    assert_eq!(effect_cycle(Effect::Blink), vec![EffectStep::Write(255), EffectStep::Wait(500), EffectStep::Write(0), EffectStep::Wait(500)]);
    assert_eq!(effect_cycle(Effect::BlinkFast), vec![EffectStep::Write(255), EffectStep::Wait(120), EffectStep::Write(0), EffectStep::Wait(120)]);
    assert_eq!(effect_cycle(Effect::Strobe), vec![EffectStep::Write(255), EffectStep::Wait(45), EffectStep::Write(0), EffectStep::Wait(45)]);
    assert_eq!(effect_cycle(Effect::Pulse), vec![EffectStep::WriteWave, EffectStep::Pause(40)]);
}

#[test]
fn sos_cycle_timing() {
    let c = effect_cycle(Effect::Sos);
    assert_eq!(c.len(), 39);
    let total: u64 = c
        .iter()
        .map(|s| match s {
            EffectStep::Wait(ms) | EffectStep::Pause(ms) => *ms,
            _ => 0,
        })
        .sum();
    assert_eq!(total, 6120);
    assert_eq!(c[12], EffectStep::Wait(360));
    assert_eq!(c[38], EffectStep::Wait(1080));
    assert_eq!(c[14], EffectStep::Wait(540));
}

#[test]
fn blink_sleeps_in_slices() {
    let t = trace(Effect::Blink, 60);
    assert_eq!(t[0], EffectAction::Write(255));
    assert!(t[1..26].iter().all(|a| *a == EffectAction::Sleep(20)));
    assert_eq!(t[26], EffectAction::Write(0));
    assert_eq!(merged(&t)[..4], [EffectAction::Write(255), EffectAction::Sleep(500), EffectAction::Write(0), EffectAction::Sleep(500)]);
}

#[test]
fn strobe_last_slice_is_short() {
    let t = trace(Effect::Strobe, 5);
    assert_eq!(
        t,
        vec![EffectAction::Write(255), EffectAction::Sleep(20), EffectAction::Sleep(20), EffectAction::Sleep(5), EffectAction::Write(0)]
    );
}

#[test]
fn sos_trace_matches_cycle() {
    let t = merged(&trace(Effect::Sos, 400));
    let expected_on = [180u64, 180, 180, 540, 540, 540, 180, 180, 180];
    let mut i = 0;
    for on in expected_on {
        assert_eq!(t[i], EffectAction::Write(255));
        assert_eq!(t[i + 1], EffectAction::Sleep(on));
        assert_eq!(t[i + 2], EffectAction::Write(0));
        i += 4;
    }
    // dark time between letters and after the word
    assert_eq!(t[11], EffectAction::Sleep(540));
    assert_eq!(t[23], EffectAction::Sleep(540));
    assert_eq!(t[35], EffectAction::Sleep(1260));
    assert_eq!(t[36], EffectAction::Write(255));
}

#[test]
fn pulse_phases_wrap() {
    let t = trace(Effect::Pulse, 104);
    for k in 0..52u64 {
        assert_eq!(t[2 * k as usize], EffectAction::WriteWave(k % 50));
        assert_eq!(t[2 * k as usize + 1], EffectAction::Sleep(40));
    }
}

#[test]
fn stop_before_start_finishes() {
    let mut r = EffectRunner::new(Effect::Blink);
    assert_eq!(r.next(true), EffectAction::Finished);
    assert!(r.is_finished());
    assert_eq!(r.next(false), EffectAction::Finished);
}

#[test]
fn stop_during_wait_finishes() {
    let mut r = EffectRunner::new(Effect::Blink);
    assert_eq!(r.next(false), EffectAction::Write(255));
    assert_eq!(r.next(false), EffectAction::Sleep(20));
    assert_eq!(r.next(true), EffectAction::Finished);
    assert_eq!(r.next(false), EffectAction::Finished);
}

#[test]
fn writes_ignore_the_flag() {
    let mut r = EffectRunner::new(Effect::Pulse);
    assert_eq!(r.next(false), EffectAction::WriteWave(0));
    // the pause is not cut short, the flag is read at the next cycle
    assert_eq!(r.next(true), EffectAction::Sleep(40));
    assert_eq!(r.next(true), EffectAction::Finished);
}

#[test]
fn stop_at_end_of_wait_finishes() {
    let mut r = EffectRunner::new(Effect::Strobe);
    assert_eq!(r.next(false), EffectAction::Write(255));
    assert_eq!(r.next(false), EffectAction::Sleep(20));
    assert_eq!(r.next(false), EffectAction::Sleep(20));
    assert_eq!(r.next(false), EffectAction::Sleep(5));
    assert_eq!(r.next(true), EffectAction::Finished);
}
