use anipwatch::save_data::SaveData;
use anipwatch::state::{StopwatchMode, WatchMode, WatchTime};

#[test]
fn save_data_test() {
    let stopwatch_time = WatchTime { hours: 10, minutes: 20, seconds: 30, cents: 40 };
    let saved_time: f32 = 0.003;

    let mut save_data_1 = SaveData::from_variables(
        WatchMode::Clock,
        stopwatch_time,
        saved_time.to_bits(),
    );

    let mut buf = Vec::<u8>::new();

    save_data_1.write_bytes(&mut buf);

    let save_data_2 = SaveData::from_bytes(&buf).unwrap();

    assert_eq!(save_data_2, save_data_1);
}

#[test]
fn round_trip_restores_fields_exactly() {
    let time = WatchTime { hours: 99, minutes: 59, seconds: 59, cents: 99 };
    let bits: u32 = 0.75f32.to_bits();

    let mut save_data = SaveData::from_variables(WatchMode::Clock, time, bits);
    let mut buf = Vec::<u8>::new();
    save_data.write_bytes(&mut buf);

    let restored = SaveData::from_bytes(&buf).unwrap();
    assert_eq!(restored.watch_mode, WatchMode::Clock);
    assert_eq!(restored.stopwatch_time, time);
    assert_eq!(restored.saved_time_bits, bits);
    assert_eq!(f32::from_bits(restored.saved_time_bits), 0.75f32);
}

#[test]
fn round_trip_degrades_running_to_stopped() {
    let time = WatchTime { hours: 1, minutes: 2, seconds: 3, cents: 4 };

    for mode in [
        WatchMode::Stopwatch(StopwatchMode::Running),
        WatchMode::Stopwatch(StopwatchMode::Stopped),
    ] {
        let mut save_data = SaveData::from_variables(mode, time.clone(), 0);
        let mut buf = Vec::<u8>::new();
        save_data.write_bytes(&mut buf);

        let restored = SaveData::from_bytes(&buf).unwrap();
        assert_eq!(restored.watch_mode, WatchMode::Stopwatch(StopwatchMode::Stopped));
        assert_eq!(restored.stopwatch_time, time);
    }
}

#[test]
fn encoding_is_deterministic() {
    let time = WatchTime { hours: 4, minutes: 5, seconds: 6, cents: 7 };

    let mut a = SaveData::from_variables(WatchMode::Clock, time.clone(), 42);
    let mut b = SaveData::from_variables(WatchMode::Clock, time, 42);

    let mut buf_a = Vec::<u8>::new();
    let mut buf_b = vec![0xffu8; 300];
    a.write_bytes(&mut buf_a);
    b.write_bytes(&mut buf_b);

    assert_eq!(buf_a, buf_b);
    assert_eq!(buf_a.len(), 128);
}

#[test]
fn truncated_record_returns_none() {
    let time = WatchTime { hours: 10, minutes: 20, seconds: 30, cents: 40 };
    let mut save_data = SaveData::from_variables(WatchMode::Clock, time, 0);
    let mut buf = Vec::<u8>::new();
    save_data.write_bytes(&mut buf);

    // Cut inside the reading entry: the parse fails as a whole.
    assert!(SaveData::from_bytes(&buf[..100]).is_none());
    // Cut inside the mode entry.
    assert!(SaveData::from_bytes(&buf[..20]).is_none());
    // Cut inside the very first header.
    assert!(SaveData::from_bytes(&buf[..3]).is_none());
    assert!(SaveData::from_bytes(&[]).is_none());
}

#[test]
fn missing_entry_returns_none() {
    // A well-formed list holding only the mode entry: no reading, no value.
    let time = WatchTime { hours: 0, minutes: 0, seconds: 0, cents: 0 };
    let mut save_data = SaveData::from_variables(WatchMode::Clock, time, 0);
    let mut buf = Vec::<u8>::new();
    save_data.write_bytes(&mut buf);

    // Keep the first entry (40 bytes) and close the list with an empty atom.
    let mut only_mode = buf[..40].to_vec();
    only_mode.extend_from_slice(&[0, 0, 0, 0]);
    assert!(SaveData::from_bytes(&only_mode).is_none());
}

#[test]
fn garbage_returns_none() {
    assert!(SaveData::from_bytes(&[0x00, 0x00, 0x00, 0x00]).is_none());
    assert!(SaveData::from_bytes(&[0xff, 0xff, 0xff, 0xff, 0x01, 0x02]).is_none());
    assert!(SaveData::from_bytes(b"not a save file at all").is_none());
}
