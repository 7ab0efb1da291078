//! Interrupts of a training run. The first asks the run to stop at the next step. A second one
//! shortly after it ends the process at once.
use vstd::prelude::*;

use crate::text;

verus! {

/// The exit code of an interrupted run.
pub const INTERRUPTED_EXIT_CODE: i32 = 130;

/// How long after an interrupt another one ends the process, in milliseconds.
pub const SECOND_INTERRUPT_GRACE_MS: u64 = 2_000;

/// Whether a stop is asked for, and when the last signal came.
#[derive(Debug, Clone, Copy, PartialEq, Eq, Structural)]
pub struct InterruptState {
    pub requested: bool,
    /// One more than the milliseconds at which the last signal came. Zero stands for none.
    pub last_signal_plus_one: u64,
}

/// What to do about a signal.
#[derive(Debug, Clone, PartialEq, Eq)]
pub enum SignalAction {
    /// Tell the user that the run stops at the next step.
    Announce { message: String },
    /// Tell the user and end the process.
    Exit { message: String, code: i32 },
    /// Nothing more: the stop is asked for again.
    Continue,
}

/// A state with no interrupt.
pub open spec fn quiet() -> InterruptState {
    InterruptState { requested: false, last_signal_plus_one: 0 }
}

/// One more than a time, as far as it can be counted.
pub open spec fn marker(now_ms: u64) -> u64 {
    if now_ms == u64::MAX {
        u64::MAX
    } else {
        (now_ms + 1) as u64
    }
}

/// Whether a signal at `now_ms` comes shortly after the last one.
pub open spec fn comes_shortly_after(last_signal_plus_one: u64, now_ms: u64) -> bool {
    last_signal_plus_one != 0 && now_ms - (last_signal_plus_one - 1) <= SECOND_INTERRUPT_GRACE_MS
}

/// What the user is told about a first interrupt.
pub open spec fn stop_text(signal: i32) -> Seq<char> {
    "\nInterrupt received (signal "@ + signal_chars(signal)
        + "); saving checkpoint at the next step boundary. Send the signal again within 2s to abort immediately."@
}

/// A signal number in decimal notation.
pub open spec fn signal_chars(signal: i32) -> Seq<char> {
    if signal < 0 {
        "-"@ + text::decimal((-signal) as nat)
    } else {
        text::decimal(signal as nat)
    }
}

fn signal_text(signal: i32) -> (s: String)
    ensures
        s@ == signal_chars(signal),
{
    if signal < 0 {
        let mut s = "-".to_owned();
        let magnitude: i64 = -(signal as i64);
        s.append(text::u64_text(magnitude as u64).as_str());
        s
    } else {
        text::u64_text(signal as u64)
    }
}

impl Default for InterruptState {
    fn default() -> (state: InterruptState)
        ensures
            state == quiet(),
    {
        InterruptState { requested: false, last_signal_plus_one: 0 }
    }
}

/// Whether a stop is asked for.
pub fn interrupt_requested(state: &InterruptState) -> (yes: bool)
    ensures
        yes == state.requested,
{
    state.requested
}

/// Asks for a stop, as a first signal would. What counts as a second signal is untouched: this
/// never ends the process.
pub fn request_interrupt(state: &mut InterruptState)
    ensures
        *final(state) == (InterruptState { requested: true, ..*old(state) }),
{
    state.requested = true;
}

/// Forgets every interrupt.
pub fn reset_interrupt(state: &mut InterruptState)
    ensures
        *final(state) == quiet(),
{
    state.requested = false;
    state.last_signal_plus_one = 0;
}

/// Takes a signal in. The first, and one that comes long after the last, ask for a stop. One that
/// comes shortly after the last ends the process.
pub fn handle_signal(state: &mut InterruptState, signal: i32, now_ms: u64) -> (action: SignalAction)
    ensures
        final(state).last_signal_plus_one == marker(now_ms),
        comes_shortly_after(old(state).last_signal_plus_one, now_ms) ==> {
            &&& final(state).requested == old(state).requested
            &&& action matches SignalAction::Exit { message, code } && code == INTERRUPTED_EXIT_CODE
                && message@
                == "Second interrupt within 2s — exiting immediately without saving."@
        },
        !comes_shortly_after(old(state).last_signal_plus_one, now_ms) ==> {
            &&& final(state).requested
            &&& if old(state).last_signal_plus_one == 0 {
                action matches SignalAction::Announce { message } && message@ == stop_text(signal)
            } else {
                action == SignalAction::Continue
            }
        },
{
    let previous: u64 = state.last_signal_plus_one;
    state.last_signal_plus_one = now_ms.saturating_add(1);
    if previous == 0 {
        state.requested = true;
        let mut message = "\nInterrupt received (signal ".to_owned();
        message.append(signal_text(signal).as_str());
        message.append(
            "); saving checkpoint at the next step boundary. Send the signal again within 2s to abort immediately.",
        );
        return SignalAction::Announce { message };
    }
    let previous_ms: u64 = previous - 1;
    let elapsed_ms: u64 = now_ms.saturating_sub(previous_ms);
    if elapsed_ms <= SECOND_INTERRUPT_GRACE_MS {
        return SignalAction::Exit {
            message: "Second interrupt within 2s — exiting immediately without saving.".to_owned(),
            code: INTERRUPTED_EXIT_CODE,
        };
    }
    state.requested = true;
    SignalAction::Continue
}

/// After a reset nothing is asked for, and the next signal counts as a first one: a run that was
/// stopped does not stop the next one.
pub proof fn law_reset_forgets(now_ms: u64)
    ensures
        !quiet().requested,
        !comes_shortly_after(quiet().last_signal_plus_one, now_ms),
{
}

/// A stop that was asked for by other means than a signal leaves the next signal a first one.
pub proof fn law_request_is_no_signal(before: InterruptState, now_ms: u64)
    ensures
        comes_shortly_after(
            (InterruptState { requested: true, ..before }).last_signal_plus_one,
            now_ms,
        ) == comes_shortly_after(before.last_signal_plus_one, now_ms),
{
}

/// A second signal within two seconds of the last ends the process, and a later one does not.
pub proof fn law_two_seconds_of_grace(first_ms: u64, second_ms: u64)
    requires
        first_ms <= second_ms,
        first_ms < u64::MAX,
    ensures
        comes_shortly_after(marker(first_ms), second_ms) <==> second_ms - first_ms <= 2_000,
{
}

/// The user is told the number of the signal, whatever it is.
pub proof fn law_signals_are_told_by_number(signal: i32)
    ensures
        signal >= 0 ==> signal_chars(signal) == text::decimal(signal as nat),
        signal < 0 ==> signal_chars(signal) == seq!['-'] + text::decimal((-signal) as nat),
        ("\nInterrupt received (signal "@ + signal_chars(signal)).is_prefix_of(stop_text(signal)),
{
    reveal_strlit("-");
    assert("-"@ == seq!['-']);
}

} // verus!
