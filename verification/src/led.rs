//! The tray's manual LED state: on or off, the brightness shown, the last
//! brightness the LED was on at, and whether an effect is running.
//!
//! Every manual change stops a running effect and writes the LED; this
//! module decides the new state and what to do, and the program does it.

use vstd::prelude::*;

use crate::effects::{Effect, EffectRunner, RunnerView, cycle_of};

verus! {

/// The mathematical form of a [`LedState`].
pub struct LedView {
    pub is_on: bool,
    pub brightness: u8,
    pub last_on_brightness: u8,
    pub effect_running: bool,
}

impl LedView {
    /// The state the tray keeps: the LED is on exactly when its brightness
    /// is not zero, an LED that is on shows the brightness it was last on
    /// at, and that brightness is never zero.
    pub open spec fn wf(self) -> bool {
        &&& self.is_on == (self.brightness > 0)
        &&& self.is_on ==> self.brightness == self.last_on_brightness
        &&& self.last_on_brightness > 0
    }
}

/// What to do after a manual change.
#[derive(Clone, Copy, Debug, PartialEq, Eq, Structural)]
pub struct LedUpdate {
    /// Raise the stop flag of the running effect.
    pub stop_effect: bool,
    /// Then write this level to the LED.
    pub value: u8,
}

/// The state at start-up: on at full brightness, no effect.
pub open spec fn initial_led() -> LedView {
    LedView { is_on: true, brightness: 0xff, last_on_brightness: 0xff, effect_running: false }
}

/// Stopping the effect, if one runs; returns whether one did.
pub open spec fn after_stop_effect(s: LedView) -> (LedView, bool) {
    (LedView { effect_running: false, ..s }, s.effect_running)
}

/// Starting an effect after stopping any that runs.
pub open spec fn after_start_effect(s: LedView) -> (LedView, bool) {
    (LedView { effect_running: true, ..s }, s.effect_running)
}

/// Ending the effect and showing the manual state again.
pub open spec fn after_clear_effect(s: LedView) -> (LedView, LedUpdate) {
    (
        LedView { effect_running: false, ..s },
        LedUpdate {
            stop_effect: s.effect_running,
            value: if s.is_on {
                s.brightness
            } else {
                0
            },
        },
    )
}

/// Setting the brightness: zero turns the LED off, anything else turns it on
/// and is remembered as the brightness to come back to.
pub open spec fn after_set_brightness(s: LedView, value: u8) -> (LedView, LedUpdate) {
    (
        LedView {
            is_on: value > 0,
            brightness: value,
            last_on_brightness: if value > 0 {
                value
            } else {
                s.last_on_brightness
            },
            effect_running: false,
        },
        LedUpdate { stop_effect: s.effect_running, value },
    )
}

/// Switching on (at the last brightness, full if there is none) or off.
pub open spec fn after_set_on(s: LedView, on: bool) -> (LedView, LedUpdate) {
    if on {
        let v: u8 = if s.last_on_brightness == 0 {
            0xff
        } else {
            s.last_on_brightness
        };
        (
            LedView { is_on: true, brightness: v, effect_running: false, ..s },
            LedUpdate { stop_effect: s.effect_running, value: v },
        )
    } else {
        (
            LedView { is_on: false, brightness: 0, effect_running: false, ..s },
            LedUpdate { stop_effect: s.effect_running, value: 0 },
        )
    }
}

/// What the UI shows: whether the LED is on and its brightness; off at zero
/// when there is no state yet.
pub open spec fn shown(s: Option<LedView>) -> (bool, u8) {
    match s {
        Some(v) => (v.is_on, v.brightness),
        None => (false, 0),
    }
}

/// The tray's LED state.
pub struct LedState {
    is_on: bool,
    brightness: u8,
    last_on_brightness: u8,
    effect_running: bool,
}

impl View for LedState {
    type V = LedView;

    closed spec fn view(&self) -> LedView {
        LedView {
            is_on: self.is_on,
            brightness: self.brightness,
            last_on_brightness: self.last_on_brightness,
            effect_running: self.effect_running,
        }
    }
}

impl LedState {
    #[verifier::type_invariant]
    closed spec fn inv(self) -> bool {
        self@.wf()
    }

    /// The state at start-up.
    pub fn new() -> (s: LedState)
        ensures
            s@ == initial_led(),
            s@.wf(),
    {
        LedState { is_on: true, brightness: 0xff, last_on_brightness: 0xff, effect_running: false }
    }

    /// Whether the LED is on.
    pub fn is_on(&self) -> (r: bool)
        ensures
            r == self@.is_on,
            self@.wf(),
    {
        proof {
            use_type_invariant(self);
        }
        self.is_on
    }

    /// The brightness shown.
    pub fn brightness(&self) -> (r: u8)
        ensures
            r == self@.brightness,
            self@.wf(),
    {
        proof {
            use_type_invariant(self);
        }
        self.brightness
    }

    /// The brightness the LED was last on at.
    pub fn last_on_brightness(&self) -> (r: u8)
        ensures
            r == self@.last_on_brightness,
            self@.wf(),
    {
        proof {
            use_type_invariant(self);
        }
        self.last_on_brightness
    }

    /// Whether an effect runs.
    pub fn effect_running(&self) -> (r: bool)
        ensures
            r == self@.effect_running,
            self@.wf(),
    {
        proof {
            use_type_invariant(self);
        }
        self.effect_running
    }

    /// Stops the running effect, if any; returns whether its stop flag is to
    /// be raised.
    pub fn stop_effect(&mut self) -> (stop: bool)
        ensures
            (final(self)@, stop) == after_stop_effect(old(self)@),
            final(self)@.wf(),
    {
        proof {
            use_type_invariant(&*self);
        }
        let stop = self.effect_running;
        self.effect_running = false;
        stop
    }

    /// Starts `effect` after stopping any that runs: whether the old stop
    /// flag is to be raised, and the runner of the new effect.
    pub fn start_effect(&mut self, effect: Effect) -> (r: (bool, EffectRunner))
        ensures
            (final(self)@, r.0) == after_start_effect(old(self)@),
            r.1@ == (RunnerView {
                cycle: cycle_of(effect),
                pos: 0,
                remaining: 0,
                waiting: false,
                at_head: true,
                phase: 0,
                finished: false,
            }),
            final(self)@.wf(),
    {
        proof {
            use_type_invariant(&*self);
        }
        let stop = self.effect_running;
        self.effect_running = true;
        (stop, EffectRunner::new(effect))
    }

    /// Ends the effect and restores the LED to the manual state.
    pub fn clear_effect(&mut self) -> (u: LedUpdate)
        ensures
            (final(self)@, u) == after_clear_effect(old(self)@),
            final(self)@.wf(),
    {
        proof {
            use_type_invariant(&*self);
        }
        let stop = self.effect_running;
        self.effect_running = false;
        let value = if self.is_on {
            self.brightness
        } else {
            0
        };
        LedUpdate { stop_effect: stop, value }
    }

    /// Sets the brightness from the slider.
    pub fn set_brightness(&mut self, value: u8) -> (u: LedUpdate)
        ensures
            (final(self)@, u) == after_set_brightness(old(self)@, value),
            final(self)@.wf(),
    {
        proof {
            use_type_invariant(&*self);
        }
        let stop = self.effect_running;
        let last = if value > 0 {
            value
        } else {
            self.last_on_brightness
        };
        *self = LedState {
            is_on: value > 0,
            brightness: value,
            last_on_brightness: last,
            effect_running: false,
        };
        LedUpdate { stop_effect: stop, value }
    }

    /// Switches the LED on or off from the switch.
    pub fn set_on(&mut self, on: bool) -> (u: LedUpdate)
        ensures
            (final(self)@, u) == after_set_on(old(self)@, on),
            final(self)@.wf(),
    {
        proof {
            use_type_invariant(&*self);
        }
        let stop = self.effect_running;
        let last = self.last_on_brightness;
        if on {
            let v: u8 = if last == 0 {
                0xff
            } else {
                last
            };
            *self = LedState {
                is_on: true,
                brightness: v,
                last_on_brightness: last,
                effect_running: false,
            };
            LedUpdate { stop_effect: stop, value: v }
        } else {
            *self = LedState {
                is_on: false,
                brightness: 0,
                last_on_brightness: last,
                effect_running: false,
            };
            LedUpdate { stop_effect: stop, value: 0 }
        }
    }
}

/// What the UI shows of the state, if there is one (`read_state`).
pub fn read_state(state: Option<&LedState>) -> (r: (bool, u8))
    ensures
        r == shown(
            match state {
                Some(s) => Some(s@),
                None => None,
            },
        ),
{
    match state {
        Some(s) => (s.is_on(), s.brightness()),
        None => (false, 0),
    }
}

/// Every change keeps the state consistent.
pub proof fn lemma_changes_keep_state_consistent(s: LedView, value: u8, on: bool)
    requires
        s.wf(),
    ensures
        initial_led().wf(),
        after_stop_effect(s).0.wf(),
        after_start_effect(s).0.wf(),
        after_clear_effect(s).0.wf(),
        after_set_brightness(s, value).0.wf(),
        after_set_on(s, on).0.wf(),
{
}

/// A manual change stops any running effect and writes exactly the
/// brightness the state then shows, so the LED shows the manual state.
pub proof fn lemma_manual_change_shows_state(s: LedView, value: u8, on: bool)
    requires
        s.wf(),
    ensures
        !after_clear_effect(s).0.effect_running,
        after_clear_effect(s).1.stop_effect == s.effect_running,
        after_clear_effect(s).1.value == after_clear_effect(s).0.brightness,
        !after_set_brightness(s, value).0.effect_running,
        after_set_brightness(s, value).1.stop_effect == s.effect_running,
        after_set_brightness(s, value).1.value == after_set_brightness(s, value).0.brightness,
        !after_set_on(s, on).0.effect_running,
        after_set_on(s, on).1.stop_effect == s.effect_running,
        after_set_on(s, on).1.value == after_set_on(s, on).0.brightness,
{
}

/// Switching on always lights the LED, at the brightness it was last on at.
pub proof fn lemma_switch_on_lights(s: LedView)
    requires
        s.wf(),
    ensures
        after_set_on(s, true).0.brightness == s.last_on_brightness,
        after_set_on(s, true).0.brightness > 0,
{
}

/// Switching off and on again brings back the brightness the LED was on at.
pub proof fn lemma_off_then_on_restores(s: LedView)
    requires
        s.wf(),
        s.is_on,
    ensures
        after_set_on(after_set_on(s, false).0, true).0.brightness == s.brightness,
        after_set_on(after_set_on(s, false).0, true).0.is_on,
        after_set_on(after_set_on(s, false).0, true).1.value == s.brightness,
{
}

/// After the slider sets a brightness, the UI shows it, and shows the LED on
/// exactly when it is not zero.
pub proof fn lemma_set_brightness_shown(s: LedView, value: u8)
    requires
        s.wf(),
    ensures
        shown(Some(after_set_brightness(s, value).0)) == (value > 0, value),
{
}

/// Setting the brightness to zero and back on brings back the brightness
/// that was last set.
pub proof fn lemma_zero_then_on_restores(s: LedView, value: u8)
    requires
        s.wf(),
        value > 0,
    ensures
        after_set_on(after_set_brightness(after_set_brightness(s, value).0, 0).0, true).0.brightness
            == value,
{
}

/// Ending an effect touches nothing but the effect: whether the LED is on,
/// its brightness and the brightness it comes back to stay as they were, the
/// UI shows the same, and switching or setting afterwards writes what it
/// would have written had no effect run.
pub proof fn lemma_clear_keeps_manual_state(s: LedView, on: bool, value: u8)
    requires
        s.wf(),
    ensures
        after_clear_effect(s).0.is_on == s.is_on,
        after_clear_effect(s).0.brightness == s.brightness,
        after_clear_effect(s).0.last_on_brightness == s.last_on_brightness,
        !after_clear_effect(s).0.effect_running,
        shown(Some(after_clear_effect(s).0)) == shown(Some(s)),
        after_set_on(after_clear_effect(s).0, on).1.value == after_set_on(s, on).1.value,
        after_set_on(after_clear_effect(s).0, on).0 == after_set_on(s, on).0,
        after_set_brightness(after_clear_effect(s).0, value).0 == after_set_brightness(s, value).0,
{
}

/// Effects do not change the manual state: starting or stopping one keeps
/// whether the LED is on, its brightness and the brightness it comes back to.
pub proof fn lemma_effects_keep_manual_state(s: LedView)
    requires
        s.wf(),
    ensures
        after_start_effect(s).0.is_on == s.is_on,
        after_start_effect(s).0.brightness == s.brightness,
        after_start_effect(s).0.last_on_brightness == s.last_on_brightness,
        after_start_effect(s).0.effect_running,
        after_stop_effect(s).0.is_on == s.is_on,
        after_stop_effect(s).0.brightness == s.brightness,
        after_stop_effect(s).0.last_on_brightness == s.last_on_brightness,
        !after_stop_effect(s).0.effect_running,
{
}

/// Whatever effects were started and cleared between them, switching off and
/// on again brings back the brightness the LED was on at.
pub proof fn lemma_off_effect_clear_on_restores(s: LedView)
    requires
        s.wf(),
        s.is_on,
    ensures
        after_set_on(
            after_clear_effect(after_start_effect(after_set_on(s, false).0).0).0,
            true,
        ).1.value == s.brightness,
{
}

/// The switch shows what it was set to: switched off the LED reads off at
/// zero, switched on it reads on at the brightness it was last on at.
pub proof fn lemma_switch_shown(s: LedView, on: bool)
    requires
        s.wf(),
    ensures
        shown(Some(after_set_on(s, on).0)) == (on, if on { s.last_on_brightness } else { 0u8 }),
        after_set_on(s, on).0.last_on_brightness == s.last_on_brightness,
{
}

/// At start-up the LED reads on at full brightness, with no effect.
pub proof fn lemma_starts_on_full()
    ensures
        shown(Some(initial_led())) == (true, 255u8),
        shown(None) == (false, 0u8),
        !initial_led().effect_running,
        initial_led().wf(),
{
}

} // verus!
