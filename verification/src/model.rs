//! The timekeeping state machine.  One call of [`Model::update`] is one
//! tick: it maps the current mode and the optional clicked button to
//! the next mode, time readings, skin selection and flags, exactly as
//! the transition table [`tick_spec`] states.

use vstd::prelude::*;
use crate::error::Error;
use crate::state::{
    clock_sample_ok, hms_in_range, resolve_skin, ticked_cents, ticked_saved, ticked_time,
    wt_in_range, wt_value, Button, State, StopwatchMode, WatchMode, WatchTime,
};

verus! {

/// The zero reading.
pub open spec fn zero_time() -> WatchTime {
    WatchTime { hours: 0, minutes: 0, seconds: 0, cents: 0 }
}

/// The outcome of a tick that only requests quitting: the quit flag is
/// set, the skin-changed flag is cleared, and nothing else moves.
pub open spec fn quit_tick(s: State) -> State {
    State { quit_request: true, change_skin_request: false, ..s }
}

/// The outcome of a tick that lands in clock mode showing the wall
/// clock reading `now`: the clock skin is resolved against `now`, and
/// the skin-changed flag reports whether the selection moved.
pub open spec fn clock_tick(s: State, now: WatchTime) -> State {
    let id = resolve_skin(s.clock_events@, now, s.default_clock_skin_id);
    State {
        watch_mode: WatchMode::Clock,
        current_clock_time: now,
        current_skin_id: id,
        change_skin_request: id != s.current_skin_id,
        ..s
    }
}

/// The outcome of a tick that lands in a stopwatch mode with reading
/// `t` and sub-second carry `saved`: the stopwatch skin is resolved
/// against `t`, and the skin-changed flag reports whether the
/// selection moved.
pub open spec fn stopwatch_tick(s: State, mode: WatchMode, t: WatchTime, saved: u64) -> State {
    let id = resolve_skin(s.stopwatch_events@, t, s.default_stopwatch_skin_id);
    State {
        watch_mode: mode,
        current_stopwatch_time: t,
        saved_micros: saved,
        current_skin_id: id,
        change_skin_request: id != s.current_skin_id,
        ..s
    }
}

/// A tick resampled the wall clock: the machine lands in clock mode on
/// some in-range sample, recorded in the post state itself.
pub open spec fn clock_resampled(pre: State, post: State) -> bool {
    &&& clock_sample_ok(post.current_clock_time)
    &&& post == clock_tick(pre, post.current_clock_time)
}

/// The transition table: state and button before a tick against the
/// state after it.
///
/// | Mode before        | Button    | After                                              |
/// |--------------------|-----------|----------------------------------------------------|
/// | any                | Quit      | unchanged, quit requested                          |
/// | Clock              | Switch    | Stopwatch(Stopped), stopwatch skin                 |
/// | Clock              | otherwise | Clock resampled, clock skin                        |
/// | Stopwatch(Running) | none      | time accumulates `dt`, stopwatch skin              |
/// | Stopwatch(Stopped) | none      | unchanged, stopwatch skin                          |
/// | Stopwatch(any)     | Switch    | Clock resampled, clock skin                        |
/// | Stopwatch(Running) | StartStop | Stopwatch(Stopped), stopwatch skin                 |
/// | Stopwatch(Stopped) | StartStop | Stopwatch(Running), stopwatch skin                 |
/// | Stopwatch(any)     | Reset     | time and carry zeroed, stopwatch skin              |
pub open spec fn tick_spec(pre: State, post: State) -> bool {
    match pre.clicked_btn {
        Some(Button::Quit) => post == quit_tick(pre),
        Some(Button::Switch) => match pre.watch_mode {
            WatchMode::Clock => post == stopwatch_tick(
                pre,
                WatchMode::Stopwatch(StopwatchMode::Stopped),
                pre.current_stopwatch_time,
                pre.saved_micros,
            ),
            WatchMode::Stopwatch(_) => clock_resampled(pre, post),
        },
        Some(Button::StartStop) => match pre.watch_mode {
            WatchMode::Clock => clock_resampled(pre, post),
            WatchMode::Stopwatch(StopwatchMode::Running) => post == stopwatch_tick(
                pre,
                WatchMode::Stopwatch(StopwatchMode::Stopped),
                pre.current_stopwatch_time,
                pre.saved_micros,
            ),
            WatchMode::Stopwatch(StopwatchMode::Stopped) => post == stopwatch_tick(
                pre,
                WatchMode::Stopwatch(StopwatchMode::Running),
                pre.current_stopwatch_time,
                pre.saved_micros,
            ),
        },
        Some(Button::Reset) => match pre.watch_mode {
            WatchMode::Clock => clock_resampled(pre, post),
            WatchMode::Stopwatch(_) => post == stopwatch_tick(
                pre,
                pre.watch_mode,
                zero_time(),
                0,
            ),
        },
        None => match pre.watch_mode {
            WatchMode::Clock => clock_resampled(pre, post),
            WatchMode::Stopwatch(StopwatchMode::Running) => post == stopwatch_tick(
                pre,
                pre.watch_mode,
                ticked_time(pre.current_stopwatch_time, pre.saved_micros, pre.dt_micros),
                ticked_saved(pre.saved_micros, pre.dt_micros),
            ),
            WatchMode::Stopwatch(StopwatchMode::Stopped) => post == stopwatch_tick(
                pre,
                pre.watch_mode,
                pre.current_stopwatch_time,
                pre.saved_micros,
            ),
        },
    }
}

/// The running-tick precondition: accumulating needs the stopwatch
/// reading's whole-unit fields in range, so normalization cannot
/// overflow.
pub open spec fn tick_ok(pre: State) -> bool {
    pre.watch_mode == WatchMode::Stopwatch(StopwatchMode::Running) && pre.clicked_btn is None
        ==> hms_in_range(pre.current_stopwatch_time)
}

/// Accumulation monotonicity, at the machine's level: across one
/// running tick with no button, the stopwatch reading never decreases
/// — whatever the elapsed time was — and every condition here is
/// re-established, so the guarantee chains tick over tick.  It asks
/// that the centisecond field be coupled to the sub-second carry, as
/// every reset and every running tick leaves them, and that the tick
/// stay short of the 100-hour wrap.
pub proof fn lemma_tick_monotonic(pre: State, post: State)
    requires
        tick_spec(pre, post),
        pre.watch_mode == WatchMode::Stopwatch(StopwatchMode::Running),
        pre.clicked_btn is None,
        wt_in_range(pre.current_stopwatch_time),
        pre.current_stopwatch_time.cents == pre.saved_micros / 10_000,
        ((pre.current_stopwatch_time.hours * 60 + pre.current_stopwatch_time.minutes) * 60
            + pre.current_stopwatch_time.seconds) * 100 + ticked_cents(
            pre.saved_micros,
            pre.dt_micros,
        ) < 36_000_000,
    ensures
        wt_value(post.current_stopwatch_time) >= wt_value(pre.current_stopwatch_time),
        post.watch_mode == pre.watch_mode,
        post.clicked_btn == pre.clicked_btn,
        wt_in_range(post.current_stopwatch_time),
        post.current_stopwatch_time.cents == post.saved_micros / 10_000,
{
    crate::state::lemma_running_tick_monotonic(
        pre.current_stopwatch_time,
        pre.saved_micros,
        pre.dt_micros,
    );
}

/// The per-tick driver of a [`State`].
#[derive(Debug, Clone, PartialEq)]
pub struct Model {}

impl Default for Model {
    fn default() -> (r: Self)
        ensures
            r == (Model {}),
    {
        Model {}
    }
}

impl Model {
    /// A fresh driver.
    pub fn new() -> (r: Self)
        ensures
            r == (Model {}),
    {
        Model {}
    }

    /// Select the stopwatch skin for the current stopwatch reading,
    /// raising the skin-changed flag when the selection moves.
    fn update_stopwatch_skin_id(&self, state: &mut State)
        ensures
            *final(state) == (State {
                current_skin_id: resolve_skin(
                    old(state).stopwatch_events@,
                    old(state).current_stopwatch_time,
                    old(state).default_stopwatch_skin_id,
                ),
                change_skin_request: old(state).change_skin_request || resolve_skin(
                    old(state).stopwatch_events@,
                    old(state).current_stopwatch_time,
                    old(state).default_stopwatch_skin_id,
                ) != old(state).current_skin_id,
                ..*old(state)
            }),
    {
        let skin_id = state.find_skin_id_from_stopwatch_events();

        if state.current_skin_id != skin_id {
            state.change_skin_request = true;
            state.current_skin_id = skin_id;
        }
    }

    /// Select the clock skin for the current clock reading, raising
    /// the skin-changed flag when the selection moves.
    fn update_clock_skin_id(&self, state: &mut State)
        ensures
            *final(state) == (State {
                current_skin_id: resolve_skin(
                    old(state).clock_events@,
                    old(state).current_clock_time,
                    old(state).default_clock_skin_id,
                ),
                change_skin_request: old(state).change_skin_request || resolve_skin(
                    old(state).clock_events@,
                    old(state).current_clock_time,
                    old(state).default_clock_skin_id,
                ) != old(state).current_skin_id,
                ..*old(state)
            }),
    {
        let skin_id = state.find_skin_id_from_clock_events();

        if state.current_skin_id != skin_id {
            state.change_skin_request = true;
            state.current_skin_id = skin_id;
        }
    }

    /// Enter the machine once at startup: clear the button, the
    /// elapsed time and the flags, raise the skin-changed flag so the
    /// first frame loads a skin, and resolve the skin of whichever
    /// mode is active — resampling the wall clock first in clock mode,
    /// so no frame is drawn with stale digits.
    pub fn init(&mut self, state: &mut State) -> (r: Result<(), Error>)
        ensures
            r is Ok,
            *final(self) == *old(self),
            old(state).watch_mode is Stopwatch ==> *final(state) == (State {
                clicked_btn: None,
                dt_micros: 0,
                quit_request: false,
                change_skin_request: true,
                current_skin_id: resolve_skin(
                    old(state).stopwatch_events@,
                    old(state).current_stopwatch_time,
                    old(state).default_stopwatch_skin_id,
                ),
                ..*old(state)
            }),
            old(state).watch_mode is Clock ==> {
                &&& clock_sample_ok(final(state).current_clock_time)
                &&& *final(state) == (State {
                    clicked_btn: None,
                    dt_micros: 0,
                    quit_request: false,
                    change_skin_request: true,
                    current_clock_time: final(state).current_clock_time,
                    current_skin_id: resolve_skin(
                        old(state).clock_events@,
                        final(state).current_clock_time,
                        old(state).default_clock_skin_id,
                    ),
                    ..*old(state)
                })
            },
    {
        state.clicked_btn = None;
        state.dt_micros = 0;
        state.quit_request = false;
        state.change_skin_request = true;

        match state.watch_mode {
            WatchMode::Stopwatch(..) => {
                self.update_stopwatch_skin_id(state);
                Ok(())
            },
            WatchMode::Clock => {
                state.set_clock();
                self.update_clock_skin_id(state);
                Ok(())
            },
        }
    }

    /// Clear the one-shot button and the skin-changed flag before a
    /// tick's input is gathered.
    pub fn preproc(&mut self, state: &mut State) -> (r: Result<(), Error>)
        ensures
            r is Ok,
            *final(self) == *old(self),
            *final(state) == (State {
                clicked_btn: None,
                change_skin_request: false,
                ..*old(state)
            }),
    {
        state.clicked_btn = None;
        state.change_skin_request = false;

        Ok(())
    }

    /// One tick: recompute the skin-changed flag from scratch and step
    /// the state by the transition table.
    pub fn update(&mut self, state: &mut State) -> (r: Result<(), Error>)
        requires
            tick_ok(*old(state)),
        ensures
            r is Ok,
            *final(self) == *old(self),
            tick_spec(*old(state), *final(state)),
    {
        state.change_skin_request = false;

        match state.watch_mode {
            WatchMode::Stopwatch(stopwatch_mode) => self.update_stopwatch_mode(
                state,
                stopwatch_mode,
            ),
            WatchMode::Clock => self.update_clock_mode(state),
        }
    }

    /// Dispatch a stopwatch tick to the running or stopped handler.
    fn update_stopwatch_mode(
        &mut self,
        state: &mut State,
        stopwatch_mode: StopwatchMode,
    ) -> (r: Result<(), Error>)
        requires
            old(state).watch_mode == WatchMode::Stopwatch(stopwatch_mode),
            old(state).change_skin_request == false,
            tick_ok(*old(state)),
        ensures
            r is Ok,
            *final(self) == *old(self),
            tick_spec(*old(state), *final(state)),
    {
        match stopwatch_mode {
            StopwatchMode::Running => self.update_stopwatch_running_mode(state),
            StopwatchMode::Stopped => self.update_stopwatch_stopped_mode(state),
        }
    }

    /// A running stopwatch tick: accumulate on no button, and obey
    /// Switch, StartStop, Reset and Quit.
    fn update_stopwatch_running_mode(&mut self, state: &mut State) -> (r: Result<(), Error>)
        requires
            old(state).watch_mode == WatchMode::Stopwatch(StopwatchMode::Running),
            old(state).change_skin_request == false,
            tick_ok(*old(state)),
        ensures
            r is Ok,
            *final(self) == *old(self),
            tick_spec(*old(state), *final(state)),
    {
        match state.clicked_btn {
            Some(btn_mode) => match btn_mode {
                Button::Switch => {
                    state.set_clock();
                    self.update_clock_skin_id(state);

                    state.watch_mode = WatchMode::Clock;

                    Ok(())
                },
                Button::StartStop => {
                    self.update_stopwatch_skin_id(state);

                    state.watch_mode = WatchMode::Stopwatch(StopwatchMode::Stopped);

                    Ok(())
                },
                Button::Reset => {
                    state.current_stopwatch_time = WatchTime::default();
                    state.saved_micros = 0;

                    self.update_stopwatch_skin_id(state);

                    Ok(())
                },
                Button::Quit => self.quick_button_clicked(state),
            },
            None => {
                state.add_stopwatch_time();
                self.update_stopwatch_skin_id(state);

                Ok(())
            },
        }
    }

    /// A stopped stopwatch tick: the reading is frozen; Switch,
    /// StartStop, Reset and Quit are obeyed.
    fn update_stopwatch_stopped_mode(&mut self, state: &mut State) -> (r: Result<(), Error>)
        requires
            old(state).watch_mode == WatchMode::Stopwatch(StopwatchMode::Stopped),
            old(state).change_skin_request == false,
        ensures
            r is Ok,
            *final(self) == *old(self),
            tick_spec(*old(state), *final(state)),
    {
        match state.clicked_btn {
            Some(btn_mode) => match btn_mode {
                Button::Switch => {
                    state.set_clock();
                    self.update_clock_skin_id(state);

                    state.watch_mode = WatchMode::Clock;

                    Ok(())
                },
                Button::StartStop => {
                    self.update_stopwatch_skin_id(state);

                    state.watch_mode = WatchMode::Stopwatch(StopwatchMode::Running);

                    Ok(())
                },
                Button::Reset => {
                    state.current_stopwatch_time = WatchTime::default();
                    state.saved_micros = 0;

                    self.update_stopwatch_skin_id(state);

                    Ok(())
                },
                Button::Quit => self.quick_button_clicked(state),
            },
            None => {
                self.update_stopwatch_skin_id(state);

                Ok(())
            },
        }
    }

    /// A clock tick: Switch hands over to the stopped stopwatch, Quit
    /// requests quitting, and any other input just resamples the wall
    /// clock.
    fn update_clock_mode(&mut self, state: &mut State) -> (r: Result<(), Error>)
        requires
            old(state).watch_mode == WatchMode::Clock,
            old(state).change_skin_request == false,
        ensures
            r is Ok,
            *final(self) == *old(self),
            tick_spec(*old(state), *final(state)),
    {
        match state.clicked_btn {
            Some(btn_mode) => match btn_mode {
                Button::Switch => {
                    self.update_stopwatch_skin_id(state);

                    state.watch_mode = WatchMode::Stopwatch(StopwatchMode::Stopped);

                    Ok(())
                },
                Button::Quit => self.quick_button_clicked(state),
                _ => {
                    state.set_clock();

                    self.update_clock_skin_id(state);

                    Ok(())
                },
            },
            None => {
                state.set_clock();

                self.update_clock_skin_id(state);

                Ok(())
            },
        }
    }

    /// The quit button was clicked: request quitting and touch nothing
    /// else.
    fn quick_button_clicked(&mut self, state: &mut State) -> (r: Result<(), Error>)
        ensures
            r is Ok,
            *final(self) == *old(self),
            *final(state) == (State { quit_request: true, ..*old(state) }),
    {
        state.quit_request = true;

        Ok(())
    }
}

} // verus!

