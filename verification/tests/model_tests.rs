use anipwatch::model::Model;
use anipwatch::state::{Button, State, StopwatchMode, WatchMode, WatchTime};

#[test]
fn clock_test_1() {
    let mut state = State::default();
    state.watch_mode = WatchMode::Clock;

    let mut model = Model::new();

    assert!(model.update(&mut state).is_ok());
    let mut stop_time = state.current_clock_time.clone();
    stop_time.seconds += 2;
    stop_time.normalize();

    assert!(state.current_clock_time < stop_time);

    loop {
        if state.current_clock_time >= stop_time {
            state.clicked_btn = Some(Button::Quit);
        }

        assert!(model.update(&mut state).is_ok());
        if state.quit_request {
            break;
        }
    }

    assert!(state.current_clock_time >= stop_time);
}

#[test]
fn stopwatch_running_test_1() {
    let mut state = State::default();
    state.watch_mode = WatchMode::Stopwatch(StopwatchMode::Running);

    state.dt_micros = ((0.01f32 as f64) * 1_000_000.0) as u64;

    let mut model = Model::new();

    assert!(state.current_stopwatch_time.seconds < 1);

    loop {
        if state.current_stopwatch_time.seconds >= 1 {
            state.clicked_btn = Some(Button::Quit);
        }

        assert!(model.update(&mut state).is_ok());
        if state.quit_request {
            break;
        }
    }

    assert!(state.current_stopwatch_time.seconds >= 1);
}

#[test]
fn stopwatch_stopped_test_1() {
    let mut state = State::default();
    state.watch_mode = WatchMode::Stopwatch(StopwatchMode::Stopped);

    state.dt_micros = ((0.01f32 as f64) * 1_000_000.0) as u64;
    let check = state.current_stopwatch_time.clone();

    let mut model = Model::new();

    let mut count: usize = 0;

    loop {
        if count >= 100 {
            state.clicked_btn = Some(Button::Quit);
        }

        assert!(model.update(&mut state).is_ok());
        if state.quit_request {
            break;
        }

        count += 1;
    }

    assert_eq!(state.current_stopwatch_time, check);
}

#[test]
fn model_test_1() {
    let mut state = State::default();
    state.watch_mode = WatchMode::Clock;

    let mut model = Model::new();

    let check = WatchTime::default();
    assert_eq!(state.current_clock_time, check);

    assert!(model.update(&mut state).is_ok());
    assert_ne!(state.current_clock_time, check);

    state.clicked_btn = Some(Button::Switch);
    assert!(model.update(&mut state).is_ok());
    state.clicked_btn = None;

    assert_eq!(state.watch_mode, WatchMode::Stopwatch(StopwatchMode::Stopped));
    assert_eq!(state.current_stopwatch_time, check);

    state.dt_micros = ((0.1f32 as f64) * 1_000_000.0) as u64;
    assert!(model.update(&mut state).is_ok());
    assert!(model.update(&mut state).is_ok());
    assert!(model.update(&mut state).is_ok());
    assert!(model.update(&mut state).is_ok());
    assert_eq!(state.current_stopwatch_time, check);

    state.clicked_btn = Some(Button::StartStop);
    assert!(model.update(&mut state).is_ok());
    state.clicked_btn = None;

    assert_eq!(state.watch_mode, WatchMode::Stopwatch(StopwatchMode::Running));
    assert_eq!(state.current_stopwatch_time, check);

    assert!(model.update(&mut state).is_ok());
    assert!(model.update(&mut state).is_ok());
    assert!(model.update(&mut state).is_ok());
    assert!(model.update(&mut state).is_ok());
    assert!(state.current_stopwatch_time > check);
    let check_2 = state.current_stopwatch_time.clone();

    state.clicked_btn = Some(Button::Reset);
    assert!(model.update(&mut state).is_ok());
    state.clicked_btn = None;
    assert_eq!(state.current_stopwatch_time, check);

    assert!(model.update(&mut state).is_ok());
    assert!(model.update(&mut state).is_ok());
    assert!(model.update(&mut state).is_ok());
    assert!(model.update(&mut state).is_ok());
    assert!(state.current_stopwatch_time > check);
    assert_eq!(state.current_stopwatch_time, check_2);

    state.clicked_btn = Some(Button::StartStop);
    assert!(model.update(&mut state).is_ok());
    state.clicked_btn = None;

    assert!(model.update(&mut state).is_ok());
    assert!(model.update(&mut state).is_ok());
    assert!(model.update(&mut state).is_ok());
    assert!(model.update(&mut state).is_ok());
    assert_eq!(state.current_stopwatch_time, check_2);

    state.clicked_btn = Some(Button::Switch);
    assert!(model.update(&mut state).is_ok());
    state.clicked_btn = None;

    assert_eq!(state.watch_mode, WatchMode::Clock);

    assert!(model.update(&mut state).is_ok());
    assert_ne!(state.current_clock_time, check);
    assert_eq!(state.current_stopwatch_time, check_2);

    state.clicked_btn = Some(Button::StartStop);
    assert!(model.update(&mut state).is_ok());
    state.clicked_btn = None;

    assert_ne!(state.current_clock_time, check);

    state.clicked_btn = Some(Button::Reset);
    assert!(model.update(&mut state).is_ok());
    state.clicked_btn = None;

    assert_ne!(state.current_clock_time, check);
    assert_eq!(state.current_stopwatch_time, check_2);

    state.clicked_btn = Some(Button::Switch);
    assert!(model.update(&mut state).is_ok());
    state.clicked_btn = None;

    assert_eq!(state.watch_mode, WatchMode::Stopwatch(StopwatchMode::Stopped));
    assert_eq!(state.current_stopwatch_time, check_2);

    assert!(!state.quit_request);

    state.clicked_btn = Some(Button::Quit);
    assert!(model.update(&mut state).is_ok());
    state.clicked_btn = None;

    assert!(state.quit_request);
}

#[test]
fn switch_run_reset_quit_scenario() {
    let mut state = State::default();
    state.watch_mode = WatchMode::Clock;

    let mut model = Model::new();
    let zero = WatchTime::default();

    state.clicked_btn = Some(Button::Switch);
    assert!(model.update(&mut state).is_ok());
    state.clicked_btn = Some(Button::StartStop);
    assert!(model.update(&mut state).is_ok());
    state.clicked_btn = None;

    state.dt_micros = ((0.1f32 as f64) * 1_000_000.0) as u64;
    for _ in 0..4 {
        assert!(model.update(&mut state).is_ok());
    }
    assert!(state.current_stopwatch_time > zero);

    state.clicked_btn = Some(Button::Reset);
    assert!(model.update(&mut state).is_ok());
    state.clicked_btn = None;
    assert_eq!(state.current_stopwatch_time, zero);
    assert_eq!(state.saved_micros, 0);

    let before_quit = state.current_stopwatch_time.clone();
    state.clicked_btn = Some(Button::Quit);
    assert!(model.update(&mut state).is_ok());
    state.clicked_btn = None;

    assert!(state.quit_request);
    assert_eq!(state.current_stopwatch_time, before_quit);
}

#[test]
fn init_resolves_skin_and_clears_flags() {
    let mut state = State::default();
    state.watch_mode = WatchMode::Stopwatch(StopwatchMode::Stopped);
    state.default_stopwatch_skin_id = 77;
    state.quit_request = true;
    state.clicked_btn = Some(Button::Reset);

    let mut model = Model::new();
    assert!(model.init(&mut state).is_ok());

    assert!(state.clicked_btn.is_none());
    assert!(!state.quit_request);
    assert!(state.change_skin_request);
    assert_eq!(state.current_skin_id, 77);
    assert_eq!(state.dt_micros, 0);
}

#[test]
fn preproc_clears_button_and_flag() {
    let mut state = State::default();
    state.clicked_btn = Some(Button::Switch);
    state.change_skin_request = true;

    let mut model = Model::new();
    assert!(model.preproc(&mut state).is_ok());

    assert!(state.clicked_btn.is_none());
    assert!(!state.change_skin_request);
}

#[test]
fn skin_change_flag_follows_selection() {
    let mut state = State::default();
    state.watch_mode = WatchMode::Stopwatch(StopwatchMode::Stopped);
    state.default_stopwatch_skin_id = 5;
    state.stopwatch_events = vec![anipwatch::state::SkinSwitchEvent {
        skin_id: 9,
        from_time: WatchTime { hours: 0, minutes: 0, seconds: 1, cents: 0 },
    }];
    state.init();

    let mut model = Model::new();

    // Below the threshold the default is selected: a change from id 0.
    assert!(model.update(&mut state).is_ok());
    assert!(state.change_skin_request);
    assert_eq!(state.current_skin_id, 5);

    // Same selection again: no change reported.
    assert!(model.update(&mut state).is_ok());
    assert!(!state.change_skin_request);
    assert_eq!(state.current_skin_id, 5);

    // Past the threshold the event's skin wins and the flag rises.
    state.current_stopwatch_time = WatchTime { hours: 0, minutes: 0, seconds: 2, cents: 0 };
    assert!(model.update(&mut state).is_ok());
    assert!(state.change_skin_request);
    assert_eq!(state.current_skin_id, 9);
}

#[test]
fn running_updates_never_turn_back() {
    let mut state = State::default();
    state.watch_mode = WatchMode::Stopwatch(StopwatchMode::Running);

    let mut model = Model::new();

    let deltas_micros: [u64; 6] = [0, 16_000, 9_999, 1, 1_000_000, 333];
    let mut previous = state.current_stopwatch_time.to_u128();
    for dt in deltas_micros.iter() {
        state.dt_micros = *dt;
        assert!(model.update(&mut state).is_ok());
        let now = state.current_stopwatch_time.to_u128();
        assert!(now >= previous);
        previous = now;
    }
}
