//! LED effects: blinking, strobing, a sine pulse and SOS in Morse code.
//!
//! An effect repeats a cycle of steps until its stop flag is raised. The
//! [`EffectRunner`] decides, one call at a time, what the effect thread does
//! next; the thread performs the action (an LED write or a sleep) and hands
//! back the stop flag it read before the call.
//!
//! Waits that may be cut short are slept in slices of at most
//! [`SLEEP_SLICE_MS`], with the flag read before each slice and once more at
//! the end, so that a raised flag ends the effect within one slice. The flag
//! is read at the start of every cycle too. The writes themselves never look
//! at the flag. Where two reads of the flag would follow each other with no
//! action in between, one read stands for both.

use vstd::prelude::*;

verus! {

/// Longest single sleep of a wait that a stop may cut short.
pub const SLEEP_SLICE_MS: u64 = 20;

/// Half period of [`Effect::Blink`].
pub const BLINK_MS: u64 = 500;

/// Half period of [`Effect::BlinkFast`].
pub const BLINK_FAST_MS: u64 = 120;

/// Half period of [`Effect::Strobe`].
pub const STROBE_MS: u64 = 45;

/// Steps in one period of [`Effect::Pulse`].
pub const PULSE_STEPS: u64 = 50;

/// Time per step of [`Effect::Pulse`].
pub const PULSE_STEP_MS: u64 = 40;

/// The Morse time unit of [`Effect::Sos`]: a dot, and the gap inside a letter.
pub const SOS_DOT_MS: u64 = 180;

/// A dash: three units.
pub const SOS_DASH_MS: u64 = 540;

/// The dark time between two letters: three units.
pub const SOS_LETTER_GAP_MS: u64 = 540;

/// The dark time between two words: seven units.
pub const SOS_WORD_GAP_MS: u64 = 1260;

/// Full brightness.
pub const LED_FULL: u8 = 0xff;

/// LED off.
pub const LED_OFF: u8 = 0;

/// The effects the tray offers.
#[derive(Clone, Copy, Debug, PartialEq, Eq, Structural)]
pub enum Effect {
    Blink,
    BlinkFast,
    Pulse,
    Sos,
    Strobe,
}

/// One step of an effect's cycle.
#[derive(Clone, Copy, Debug, PartialEq, Eq, Structural)]
pub enum EffectStep {
    /// Set the LED to this level.
    Write(u8),
    /// Set the LED to the pulse level of the current phase.
    WriteWave,
    /// Sleep this many milliseconds in one go; a stop does not cut it short.
    Pause(u64),
    /// Sleep this many milliseconds; a stop cuts it short.
    Wait(u64),
}

/// What the effect thread does next.
#[derive(Clone, Copy, Debug, PartialEq, Eq, Structural)]
pub enum EffectAction {
    /// Write this level to the LED.
    Write(u8),
    /// Write the pulse level of this phase (`0 <= phase < PULSE_STEPS`).
    WriteWave(u64),
    /// Sleep this many milliseconds.
    Sleep(u64),
    /// The effect is over.
    Finished,
}

/// One on/off pulse: light for `on`, dark for `off`.
pub open spec fn flash(on: u64, off: u64) -> Seq<EffectStep> {
    seq![EffectStep::Write(LED_FULL), EffectStep::Wait(on), EffectStep::Write(LED_OFF), EffectStep::Wait(off)]
}

/// A Morse letter of three equal marks of length `mark`.
pub open spec fn morse_letter(mark: u64) -> Seq<EffectStep> {
    flash(mark, SOS_DOT_MS) + flash(mark, SOS_DOT_MS) + flash(mark, SOS_DOT_MS)
}

/// One cycle of SOS: S, O, S. The gap after a letter's last mark is one
/// unit already, so the waits after a letter and after the word top it up
/// to the letter gap and the word gap.
pub open spec fn sos_cycle() -> Seq<EffectStep> {
    morse_letter(SOS_DOT_MS) + seq![EffectStep::Wait((SOS_LETTER_GAP_MS - SOS_DOT_MS) as u64)]
        + morse_letter(SOS_DASH_MS) + seq![
        EffectStep::Wait((SOS_LETTER_GAP_MS - SOS_DOT_MS) as u64),
    ] + morse_letter(SOS_DOT_MS) + seq![EffectStep::Wait((SOS_WORD_GAP_MS - SOS_DOT_MS) as u64)]
}

/// One cycle of each effect.
pub open spec fn cycle_of(effect: Effect) -> Seq<EffectStep> {
    match effect {
        Effect::Blink => flash(BLINK_MS, BLINK_MS),
        Effect::BlinkFast => flash(BLINK_FAST_MS, BLINK_FAST_MS),
        Effect::Strobe => flash(STROBE_MS, STROBE_MS),
        Effect::Pulse => seq![EffectStep::WriteWave, EffectStep::Pause(PULSE_STEP_MS)],
        Effect::Sos => sos_cycle(),
    }
}

/// A cycle a runner can repeat: not empty, and every wait takes time.
pub open spec fn runnable_cycle(cycle: Seq<EffectStep>) -> bool {
    &&& cycle.len() > 0
    &&& forall|i: int| 0 <= i < cycle.len() ==> (#[trigger] cycle[i] matches EffectStep::Wait(ms) ==> ms > 0)
}

fn push_flash(v: &mut Vec<EffectStep>, on: u64, off: u64)
    ensures
        final(v)@ == old(v)@ + flash(on, off),
{
    v.push(EffectStep::Write(LED_FULL));
    v.push(EffectStep::Wait(on));
    v.push(EffectStep::Write(LED_OFF));
    v.push(EffectStep::Wait(off));
    assert(v@ =~= old(v)@ + flash(on, off));
}

fn push_letter(v: &mut Vec<EffectStep>, mark: u64)
    ensures
        final(v)@ == old(v)@ + morse_letter(mark),
{
    push_flash(v, mark, SOS_DOT_MS);
    push_flash(v, mark, SOS_DOT_MS);
    push_flash(v, mark, SOS_DOT_MS);
    assert(v@ =~= old(v)@ + morse_letter(mark));
}

/// One cycle of `effect` (what `run_effect` dispatches to).
pub fn effect_cycle(effect: Effect) -> (v: Vec<EffectStep>)
    ensures
        v@ == cycle_of(effect),
{
    let mut v: Vec<EffectStep> = Vec::new();
    match effect {
        Effect::Blink => push_flash(&mut v, BLINK_MS, BLINK_MS),
        Effect::BlinkFast => push_flash(&mut v, BLINK_FAST_MS, BLINK_FAST_MS),
        Effect::Strobe => push_flash(&mut v, STROBE_MS, STROBE_MS),
        Effect::Pulse => {
            v.push(EffectStep::WriteWave);
            v.push(EffectStep::Pause(PULSE_STEP_MS));
        },
        Effect::Sos => {
            push_letter(&mut v, SOS_DOT_MS);
            v.push(EffectStep::Wait(SOS_LETTER_GAP_MS - SOS_DOT_MS));
            push_letter(&mut v, SOS_DASH_MS);
            v.push(EffectStep::Wait(SOS_LETTER_GAP_MS - SOS_DOT_MS));
            push_letter(&mut v, SOS_DOT_MS);
            v.push(EffectStep::Wait(SOS_WORD_GAP_MS - SOS_DOT_MS));
        },
    }
    assert(v@ =~= cycle_of(effect));
    v
}

pub proof fn lemma_cycles_runnable(effect: Effect)
    ensures
        runnable_cycle(cycle_of(effect)),
{
    let c = cycle_of(effect);
    assert forall|i: int| 0 <= i < c.len() implies (#[trigger] c[i] matches EffectStep::Wait(ms)
        ==> ms > 0) by {
        if effect == Effect::Sos {
            let a = morse_letter(SOS_DOT_MS);
            let b = morse_letter(SOS_DASH_MS);
            assert(flash(SOS_DOT_MS, SOS_DOT_MS).len() == 4);
            assert(a.len() == 12);
            assert(b.len() == 12);
            assert(c.len() == 39);
        }
    }
}

/// Where a runner stands.
pub struct RunnerView {
    /// The cycle being repeated.
    pub cycle: Seq<EffectStep>,
    /// The step in progress or next.
    pub pos: int,
    /// Time left of the wait in progress.
    pub remaining: u64,
    /// Whether a wait is in progress.
    pub waiting: bool,
    /// Whether the flag is to be read before the next cycle starts.
    pub at_head: bool,
    /// The pulse phase, advanced once per cycle.
    pub phase: u64,
    /// Whether the effect is over.
    pub finished: bool,
}

impl RunnerView {
    /// A runner state that the transitions keep.
    pub open spec fn wf(self) -> bool {
        &&& runnable_cycle(self.cycle)
        &&& 0 <= self.pos < self.cycle.len()
        &&& self.phase < PULSE_STEPS
        &&& self.at_head ==> self.pos == 0
        &&& self.waiting ==> !self.at_head && self.cycle[self.pos] is Wait
    }
}

/// The slice of a wait to sleep next.
pub open spec fn slice(ms: u64) -> u64 {
    if ms < SLEEP_SLICE_MS {
        ms
    } else {
        SLEEP_SLICE_MS
    }
}

/// The state after the step at `s.pos` is done.
pub open spec fn advance(s: RunnerView) -> RunnerView {
    if s.pos + 1 == s.cycle.len() {
        RunnerView { pos: 0, at_head: true, phase: ((s.phase + 1) % (PULSE_STEPS as int)) as u64, ..s }
    } else {
        RunnerView { pos: s.pos + 1, at_head: false, ..s }
    }
}

/// The runner after a stop.
pub open spec fn finish(s: RunnerView) -> RunnerView {
    RunnerView { finished: true, waiting: false, ..s }
}

/// Starts the step at `s.pos`.
pub open spec fn begin_step(s: RunnerView, stopped: bool) -> (RunnerView, EffectAction) {
    match s.cycle[s.pos] {
        EffectStep::Write(v) => (advance(s), EffectAction::Write(v)),
        EffectStep::WriteWave => (advance(s), EffectAction::WriteWave(s.phase)),
        EffectStep::Pause(ms) => (advance(s), EffectAction::Sleep(ms)),
        EffectStep::Wait(ms) => if stopped {
            (finish(s), EffectAction::Finished)
        } else {
            (
                RunnerView { waiting: true, remaining: (ms - slice(ms)) as u64, ..s },
                EffectAction::Sleep(slice(ms)),
            )
        },
    }
}

/// Starts the next step, first reading the flag if a cycle is to begin.
pub open spec fn at_boundary(s: RunnerView, stopped: bool) -> (RunnerView, EffectAction) {
    if s.at_head {
        if stopped {
            (finish(s), EffectAction::Finished)
        } else {
            begin_step(RunnerView { at_head: false, ..s }, stopped)
        }
    } else {
        begin_step(s, stopped)
    }
}

/// One decision of the runner, given the stop flag read before it.
pub open spec fn runner_next(s: RunnerView, stopped: bool) -> (RunnerView, EffectAction) {
    if s.finished {
        (s, EffectAction::Finished)
    } else if s.waiting {
        if stopped {
            (finish(s), EffectAction::Finished)
        } else if s.remaining > 0 {
            (
                RunnerView { remaining: (s.remaining - slice(s.remaining)) as u64, ..s },
                EffectAction::Sleep(slice(s.remaining)),
            )
        } else {
            at_boundary(advance(RunnerView { waiting: false, ..s }), false)
        }
    } else {
        at_boundary(s, stopped)
    }
}

/// The runner of one effect, repeating its cycle until stopped.
pub struct EffectRunner {
    cycle: Vec<EffectStep>,
    pos: usize,
    remaining: u64,
    waiting: bool,
    at_head: bool,
    phase: u64,
    finished: bool,
}

impl View for EffectRunner {
    type V = RunnerView;

    closed spec fn view(&self) -> RunnerView {
        RunnerView {
            cycle: self.cycle@,
            pos: self.pos as int,
            remaining: self.remaining,
            waiting: self.waiting,
            at_head: self.at_head,
            phase: self.phase,
            finished: self.finished,
        }
    }
}

impl EffectRunner {
    #[verifier::type_invariant]
    closed spec fn inv(self) -> bool {
        self@.wf()
    }

    /// A runner about to start `effect`: the flag is read before the first
    /// cycle, and the pulse starts at phase 0.
    pub fn new(effect: Effect) -> (r: EffectRunner)
        ensures
            r@ == (RunnerView {
                cycle: cycle_of(effect),
                pos: 0,
                remaining: 0,
                waiting: false,
                at_head: true,
                phase: 0,
                finished: false,
            }),
            r@.wf(),
    {
        proof {
            lemma_cycles_runnable(effect);
        }
        EffectRunner {
            cycle: effect_cycle(effect),
            pos: 0,
            remaining: 0,
            waiting: false,
            at_head: true,
            phase: 0,
            finished: false,
        }
    }

    fn advanced(&self) -> (r: (usize, bool, u64))
        requires
            self@.wf(),
        ensures
            r.0 == advance(self@).pos,
            r.1 == advance(self@).at_head,
            r.2 == advance(self@).phase,
            r.1 ==> r.0 == 0,
    {
        if self.pos == self.cycle.len() - 1 {
            (0, true, (self.phase + 1) % PULSE_STEPS)
        } else {
            (self.pos + 1, false, self.phase)
        }
    }

    /// Decides the next action, given the stop flag read just before.
    pub fn next(&mut self, stopped: bool) -> (action: EffectAction)
        ensures
            (final(self)@, action) == runner_next(old(self)@, stopped),
            final(self)@.wf(),
    {
        proof {
            use_type_invariant(&*self);
        }
        if self.finished {
            return EffectAction::Finished;
        }
        let mut stopped = stopped;
        if self.waiting {
            if stopped {
                self.finished = true;
                self.waiting = false;
                return EffectAction::Finished;
            }
            if self.remaining > 0 {
                let c = if self.remaining < SLEEP_SLICE_MS {
                    self.remaining
                } else {
                    SLEEP_SLICE_MS
                };
                self.remaining = self.remaining - c;
                return EffectAction::Sleep(c);
            }
            let (p, h, ph) = self.advanced();
            self.waiting = false;
            self.pos = p;
            self.at_head = h;
            self.phase = ph;
            stopped = false;
        }
        if self.at_head {
            if stopped {
                self.finished = true;
                return EffectAction::Finished;
            }
            self.at_head = false;
        }
        let step = self.cycle[self.pos];
        match step {
            EffectStep::Write(v) => {
                let (p, h, ph) = self.advanced();
                self.set_position(p, h, ph);
                EffectAction::Write(v)
            },
            EffectStep::WriteWave => {
                let phase = self.phase;
                let (p, h, ph) = self.advanced();
                self.set_position(p, h, ph);
                EffectAction::WriteWave(phase)
            },
            EffectStep::Pause(ms) => {
                let (p, h, ph) = self.advanced();
                self.set_position(p, h, ph);
                EffectAction::Sleep(ms)
            },
            EffectStep::Wait(ms) => {
                if stopped {
                    self.finished = true;
                    return EffectAction::Finished;
                }
                let c = if ms < SLEEP_SLICE_MS {
                    ms
                } else {
                    SLEEP_SLICE_MS
                };
                self.remaining = ms - c;
                self.waiting = true;
                EffectAction::Sleep(c)
            },
        }
    }

    fn set_position(&mut self, pos: usize, at_head: bool, phase: u64)
        requires
            pos < old(self)@.cycle.len(),
            phase < PULSE_STEPS,
            at_head ==> pos == 0,
            !old(self)@.waiting,
            !old(self)@.at_head,
        ensures
            final(self)@ == (RunnerView { pos: pos as int, at_head, phase, ..old(self)@ }),
    {
        proof {
            use_type_invariant(&*self);
        }
        self.pos = pos;
        self.at_head = at_head;
        self.phase = phase;
    }

    /// Whether the effect is over.
    pub fn is_finished(&self) -> (r: bool)
        ensures
            r == self@.finished,
    {
        self.finished
    }
}

/// A stopped effect stays stopped, and the runner answers `Finished` exactly
/// when it is over.
pub proof fn lemma_stop_is_final(s: RunnerView, stopped: bool)
    requires
        s.wf(),
    ensures
        s.finished ==> runner_next(s, stopped) == (s, EffectAction::Finished),
        (runner_next(s, stopped).1 == EffectAction::Finished) == runner_next(s, stopped).0.finished,
        runner_next(s, stopped).0.wf(),
{
}

/// A raised stop flag ends the effect at every point where the flag is
/// read: during a wait, at the start of a cycle, and before a wait begins.
pub proof fn lemma_stop_is_honoured(s: RunnerView)
    requires
        s.wf(),
        s.waiting || s.at_head || s.cycle[s.pos] is Wait,
    ensures
        runner_next(s, true).1 == EffectAction::Finished,
        runner_next(s, true).0.finished,
{
}

/// Every sleep of a wait is one slice: more than nothing and at most
/// `SLEEP_SLICE_MS`, so a stop is seen within one slice.
pub proof fn lemma_wait_slices(s: RunnerView, stopped: bool)
    requires
        s.wf(),
        runner_next(s, stopped).0.waiting,
        runner_next(s, stopped).1 matches EffectAction::Sleep(_),
    ensures
        runner_next(s, stopped).1 matches EffectAction::Sleep(c) && 0 < c <= SLEEP_SLICE_MS,
{
    let c = s.cycle;
    let t = advance(RunnerView { waiting: false, ..s });
    if !s.finished && s.waiting && !stopped && s.remaining == 0 {
        assert(c[t.pos] matches EffectStep::Wait(ms) ==> ms > 0);
    }
    if !s.finished && !s.waiting {
        assert(c[s.pos] matches EffectStep::Wait(ms) ==> ms > 0);
    }
}

/// The time that an action sleeps.
pub open spec fn sleep_of(a: EffectAction) -> int {
    match a {
        EffectAction::Sleep(ms) => ms as int,
        _ => 0,
    }
}

/// The runner after `n` decisions with the flag down, and the time slept
/// meanwhile.
pub open spec fn run_free(s: RunnerView, n: nat) -> (RunnerView, int)
    decreases n,
{
    if n == 0 {
        (s, 0)
    } else {
        let (t, a) = runner_next(s, false);
        let (u, total) = run_free(t, (n - 1) as nat);
        (u, total + sleep_of(a))
    }
}

/// How many slices a wait of `ms` takes.
pub open spec fn slices(ms: int) -> nat {
    ((ms + SLEEP_SLICE_MS - 1) / (SLEEP_SLICE_MS as int)) as nat
}

proof fn lemma_rest_of_wait(s: RunnerView)
    requires
        s.wf(),
        s.waiting,
        !s.finished,
    ensures
        run_free(s, slices(s.remaining as int)) == (RunnerView { remaining: 0, ..s }, s.remaining as int),
    decreases s.remaining,
{
    if s.remaining == 0 {
        assert(slices(0) == 0);
        assert(s == RunnerView { remaining: 0, ..s });
    } else {
        let r = s.remaining as int;
        let t = RunnerView { remaining: (s.remaining - slice(s.remaining)) as u64, ..s };
        assert(runner_next(s, false) == (t, EffectAction::Sleep(slice(s.remaining))));
        lemma_rest_of_wait(t);
        assert(slices(r) == 1 + slices(t.remaining as int));
        assert(RunnerView { remaining: 0, ..t } == RunnerView { remaining: 0, ..s });
    }
}

/// A wait that no stop cuts short is slept in full: starting a `Wait(ms)`
/// with the flag down, the runner sleeps exactly `ms` in its slices and
/// then reads the flag once more before moving on.
pub proof fn lemma_wait_slept_in_full(s: RunnerView, ms: u64)
    requires
        s.wf(),
        !s.finished,
        !s.waiting,
        !s.at_head,
        s.cycle[s.pos] == EffectStep::Wait(ms),
    ensures
        run_free(s, slices(ms as int)) == (RunnerView { waiting: true, remaining: 0, ..s }, ms as int),
{
    assert(ms > 0);
    let t = RunnerView { waiting: true, remaining: (ms - slice(ms)) as u64, ..s };
    assert(runner_next(s, false) == (t, EffectAction::Sleep(slice(ms))));
    lemma_rest_of_wait(t);
    assert(slices(ms as int) == 1 + slices(t.remaining as int));
    assert(RunnerView { remaining: 0, ..t } == RunnerView { waiting: true, remaining: 0, ..s });
}

/// Mark `i` of letter `k` of an SOS cycle: light for a dash in the middle
/// letter and a dot in the others, then one dot of darkness.
pub open spec fn sos_mark_at(c: Seq<EffectStep>, k: int, i: int) -> bool {
    &&& c[13 * k + 4 * i] == EffectStep::Write(LED_FULL)
    &&& c[13 * k + 4 * i + 1] == EffectStep::Wait(
        if k == 1 {
            SOS_DASH_MS
        } else {
            SOS_DOT_MS
        },
    )
    &&& c[13 * k + 4 * i + 2] == EffectStep::Write(LED_OFF)
    &&& c[13 * k + 4 * i + 3] == EffectStep::Wait(SOS_DOT_MS)
}

/// SOS keeps Morse timing: a dash and the gap between letters are three
/// dots, the gap between words seven; each mark is followed by one dot of
/// darkness, topped up to the letter gap after a letter and to the word gap
/// after the word.
pub proof fn lemma_sos_is_morse()
    ensures
        SOS_DASH_MS == 3 * SOS_DOT_MS,
        SOS_LETTER_GAP_MS == 3 * SOS_DOT_MS,
        SOS_WORD_GAP_MS == 7 * SOS_DOT_MS,
        cycle_of(Effect::Sos).len() == 39,
        forall|k: int, i: int| 0 <= k < 3 && 0 <= i < 3 ==> #[trigger] sos_mark_at(cycle_of(Effect::Sos), k, i),
        cycle_of(Effect::Sos)[12] == EffectStep::Wait((SOS_LETTER_GAP_MS - SOS_DOT_MS) as u64),
        cycle_of(Effect::Sos)[25] == EffectStep::Wait((SOS_LETTER_GAP_MS - SOS_DOT_MS) as u64),
        cycle_of(Effect::Sos)[38] == EffectStep::Wait((SOS_WORD_GAP_MS - SOS_DOT_MS) as u64),
{
    let c = cycle_of(Effect::Sos);
    let dot = morse_letter(SOS_DOT_MS);
    let dash = morse_letter(SOS_DASH_MS);
    let f1 = flash(SOS_DOT_MS, SOS_DOT_MS);
    let f3 = flash(SOS_DASH_MS, SOS_DOT_MS);
    assert(dot =~= f1 + f1 + f1);
    assert(dash =~= f3 + f3 + f3);
    assert(dot.len() == 12 && dash.len() == 12);
    assert(c.len() == 39);
    assert forall|k: int, i: int| 0 <= k < 3 && 0 <= i < 3 implies #[trigger] sos_mark_at(c, k, i) by {
        let letter = if k == 1 {
            dash
        } else {
            dot
        };
        let f = if k == 1 {
            f3
        } else {
            f1
        };
        assert(letter =~= f + f + f);
        assert forall|j: int| 0 <= j < 4 implies c[13 * k + 4 * i + j] == #[trigger] f[j] by {
            assert(c[13 * k + 4 * i + j] == letter[4 * i + j]);
            assert(letter[4 * i + j] == f[j]);
        }
    }
}

/// The pulse writes its phases in turn, 0 to `PULSE_STEPS - 1` and over
/// again, each followed by one uncut pause of `PULSE_STEP_MS`, and reads the
/// flag before each.
pub proof fn lemma_pulse_steps(s: RunnerView)
    requires
        s.wf(),
        !s.finished,
        s.at_head,
        s.cycle == cycle_of(Effect::Pulse),
    ensures
        runner_next(s, false).1 == EffectAction::WriteWave(s.phase),
        runner_next(runner_next(s, false).0, false).1 == EffectAction::Sleep(PULSE_STEP_MS),
        runner_next(runner_next(s, false).0, false).0 == (RunnerView {
            phase: ((s.phase + 1) % (PULSE_STEPS as int)) as u64,
            ..s
        }),
{
}

/// While the stop flag stays down an effect never ends: every decision of
/// an unfinished runner with the flag down is an action, not `Finished`, and
/// leaves the runner unfinished, with its cycle unchanged.
pub proof fn lemma_runs_until_stopped(s: RunnerView)
    requires
        s.wf(),
        !s.finished,
    ensures
        runner_next(s, false).1 != EffectAction::Finished,
        !runner_next(s, false).0.finished,
        runner_next(s, false).0.cycle == s.cycle,
        runner_next(s, false).0.wf(),
{
}

/// However many decisions are made with the flag down, the runner is still
/// running its effect.
pub proof fn lemma_never_finishes_unstopped(s: RunnerView, n: nat)
    requires
        s.wf(),
        !s.finished,
    ensures
        !run_free(s, n).0.finished,
        run_free(s, n).0.wf(),
        run_free(s, n).0.cycle == s.cycle,
    decreases n,
{
    if n > 0 {
        lemma_runs_until_stopped(s);
        lemma_never_finishes_unstopped(runner_next(s, false).0, (n - 1) as nat);
    }
}

/// Each decision made outside a wait performs the cycle's current step: a
/// write step writes its level, a pause sleeps its time, a wait starts with
/// its first slice; and no decision writes a level the cycle does not hold.
pub proof fn lemma_actions_follow_cycle(s: RunnerView, stopped: bool)
    requires
        s.wf(),
        !s.finished,
        !s.waiting,
        !stopped,
    ensures
        match s.cycle[s.pos] {
            EffectStep::Write(v) => runner_next(s, stopped).1 == EffectAction::Write(v),
            EffectStep::WriteWave => runner_next(s, stopped).1 == EffectAction::WriteWave(s.phase),
            EffectStep::Pause(ms) => runner_next(s, stopped).1 == EffectAction::Sleep(ms),
            EffectStep::Wait(ms) => runner_next(s, stopped).1 == EffectAction::Sleep(
                if ms < SLEEP_SLICE_MS {
                    ms
                } else {
                    SLEEP_SLICE_MS
                },
            ),
        },
{
}

/// The flashing effects light the LED at full brightness and darken it for
/// equal times: half a second for Blink, 120 ms for Blink Fast, 45 ms for
/// Strobe; the pulse writes its wave and pauses 40 ms, fifty steps a period.
pub proof fn lemma_flash_timings(effect: Effect)
    ensures
        effect == Effect::Blink ==> cycle_of(effect) == seq![
            EffectStep::Write(255u8),
            EffectStep::Wait(500u64),
            EffectStep::Write(0u8),
            EffectStep::Wait(500u64),
        ],
        effect == Effect::BlinkFast ==> cycle_of(effect) == seq![
            EffectStep::Write(255u8),
            EffectStep::Wait(120u64),
            EffectStep::Write(0u8),
            EffectStep::Wait(120u64),
        ],
        effect == Effect::Strobe ==> cycle_of(effect) == seq![
            EffectStep::Write(255u8),
            EffectStep::Wait(45u64),
            EffectStep::Write(0u8),
            EffectStep::Wait(45u64),
        ],
        effect == Effect::Pulse ==> cycle_of(effect) == seq![
            EffectStep::WriteWave,
            EffectStep::Pause(40u64),
        ],
        PULSE_STEPS == 50,
        SLEEP_SLICE_MS == 20,
{
}

} // verus!
