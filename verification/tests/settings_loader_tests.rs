use anipwatch::error::Error;
use anipwatch::hash::fnv_1a_64;
use anipwatch::settings::{EventElement, TimeElement};
use anipwatch::settings_loader::{EventError, LoadError, SettingsLoader};
use anipwatch::state::{StopwatchMode, WatchMode, WatchTime};

fn event(name: &str, cents: u32, seconds: u32, minutes: u32, hours: u32) -> EventElement {
    EventElement {
        skin_name: name.to_string(),
        from: TimeElement { centiseconds: cents, seconds, minutes, hours },
    }
}

#[test]
fn default_mode_recognizes_both_modes() {
    assert_eq!(
        SettingsLoader::load_default_mode("stopwatch").unwrap(),
        WatchMode::Stopwatch(StopwatchMode::Stopped)
    );
    assert_eq!(SettingsLoader::load_default_mode("clock").unwrap(), WatchMode::Clock);
}

#[test]
fn default_mode_rejects_unknown_string() {
    match SettingsLoader::load_default_mode("Clock!") {
        Err(Error::LoadError(LoadError::InvalidDefaultMode(s))) => {
            assert_eq!(s, "Clock!");
        },
        _ => panic!("an unknown default mode must be rejected"),
    }
}

#[test]
fn valid_events_convert_in_order() {
    let events = vec![event("Skin1!", 0, 1, 2, 3), event("Skin2!", 8, 9, 10, 11)];

    let converted = SettingsLoader::load_stopwatch_events(&events).unwrap();

    assert_eq!(converted.len(), 2);
    assert_eq!(converted[0].skin_id, fnv_1a_64(b"Skin1!"));
    assert_eq!(
        converted[0].from_time,
        WatchTime { hours: 3, minutes: 2, seconds: 1, cents: 0 }
    );
    assert_eq!(converted[1].skin_id, fnv_1a_64(b"Skin2!"));
    assert_eq!(
        converted[1].from_time,
        WatchTime { hours: 11, minutes: 10, seconds: 9, cents: 8 }
    );

    let converted_clock = SettingsLoader::load_clock_events(&events).unwrap();
    assert_eq!(converted_clock[1].skin_id, fnv_1a_64(b"Skin2!"));
}

#[test]
fn out_of_range_centiseconds_rejected() {
    let events = vec![event("A", 100, 0, 0, 0)];
    match SettingsLoader::load_stopwatch_events(&events) {
        Err(Error::LoadError(LoadError::StopwatchEventError(EventError::Centiseconds(100)))) => {},
        _ => panic!("centiseconds above 99 must be rejected"),
    }
}

#[test]
fn out_of_range_seconds_rejected() {
    let events = vec![event("A", 99, 60, 0, 0)];
    match SettingsLoader::load_stopwatch_events(&events) {
        Err(Error::LoadError(LoadError::StopwatchEventError(EventError::Seconds(60)))) => {},
        _ => panic!("seconds above 59 must be rejected"),
    }
}

#[test]
fn out_of_range_minutes_rejected() {
    let events = vec![event("A", 0, 0, 60, 0)];
    match SettingsLoader::load_clock_events(&events) {
        Err(Error::LoadError(LoadError::ClockEventError(EventError::Minutes(60)))) => {},
        _ => panic!("minutes above 59 must be rejected"),
    }
}

#[test]
fn out_of_range_hours_rejected() {
    let events = vec![event("A", 0, 0, 0, 100)];
    match SettingsLoader::load_clock_events(&events) {
        Err(Error::LoadError(LoadError::ClockEventError(EventError::Hours(100)))) => {},
        _ => panic!("hours above 99 must be rejected"),
    }
}

#[test]
fn first_offending_event_is_reported() {
    let events = vec![
        event("Good", 1, 2, 3, 4),
        event("BadSeconds", 0, 77, 0, 0),
        event("BadHours", 0, 0, 0, 200),
    ];
    match SettingsLoader::load_stopwatch_events(&events) {
        Err(Error::LoadError(LoadError::StopwatchEventError(EventError::Seconds(77)))) => {},
        _ => panic!("the first offending event decides the error"),
    }
}
