//! Compatibility checks against the library that defined the save
//! format and the name hash: records we write are byte-identical to
//! records built with it, and records it builds read back through us.

use anipwatch::hash;
use anipwatch::save_data::{
    SaveData, SYMBOL_CLOCK, SYMBOL_STOPWATCH, SYMBOL_STOPWATCH_TIME, SYMBOL_WATCH_MODE,
};
use anipwatch::state::{StopwatchMode, WatchMode, WatchTime};

use chobitlibs::chobit_hash::fnv_1a_64;
use chobitlibs::chobit_sexpr::{ChobitSexpr, ChobitSexprBuf};

#[test]
fn fnv_matches_reference() {
    let samples: [&[u8]; 6] = [
        b"",
        b"a",
        b"watch_mode",
        b"Skin1!",
        b"Default-Stopwatch-Skin!",
        b"Hello Alice! My name is Bob!",
    ];
    for s in samples.iter() {
        assert_eq!(hash::fnv_1a_64(s), fnv_1a_64(s));
    }
}

#[test]
fn symbols_match_reference_hashes() {
    assert_eq!(SYMBOL_WATCH_MODE, fnv_1a_64(b"watch_mode"));
    assert_eq!(SYMBOL_STOPWATCH, fnv_1a_64(b"stopwatch"));
    assert_eq!(SYMBOL_CLOCK, fnv_1a_64(b"clock"));
    assert_eq!(SYMBOL_STOPWATCH_TIME, fnv_1a_64(b"stopwatch_time"));
}

/// Build the record with chobitlibs's own list builder.
fn build_reference_record(
    mode_symbol: u64,
    time: &WatchTime,
    saved_time: f32,
) -> Vec<u8> {
    let mode_sexpr = {
        let list = ChobitSexprBuf::new().build_list();
        let tag = ChobitSexprBuf::new().push_u64(fnv_1a_64(b"watch_mode"));
        let list = list.push_item(tag.as_sexpr());
        let sym = ChobitSexprBuf::new().push_u64(mode_symbol);
        let list = list.push_item(sym.as_sexpr());
        list.finish()
    };

    let time_sexpr = {
        let list = ChobitSexprBuf::new().build_list();
        let tag = ChobitSexprBuf::new().push_u64(fnv_1a_64(b"stopwatch_time"));
        let list = list.push_item(tag.as_sexpr());
        let list = list.push_item(ChobitSexprBuf::new().push_u32(time.hours).as_sexpr());
        let list = list.push_item(ChobitSexprBuf::new().push_u32(time.minutes).as_sexpr());
        let list = list.push_item(ChobitSexprBuf::new().push_u32(time.seconds).as_sexpr());
        let list = list.push_item(ChobitSexprBuf::new().push_u32(time.cents).as_sexpr());
        let list = list.push_item(ChobitSexprBuf::new().push_f32(saved_time).as_sexpr());
        list.finish()
    };

    let top = ChobitSexprBuf::new()
        .build_list()
        .push_item(mode_sexpr.as_sexpr())
        .push_item(time_sexpr.as_sexpr())
        .finish();

    top.as_sexpr().as_bytes().to_vec()
}

#[test]
fn encoding_matches_reference_builder() {
    let time = WatchTime { hours: 10, minutes: 20, seconds: 30, cents: 40 };
    let saved_time: f32 = 0.003;

    let mut ours = Vec::<u8>::new();
    SaveData::from_variables(WatchMode::Clock, time.clone(), saved_time.to_bits())
        .write_bytes(&mut ours);
    let reference = build_reference_record(fnv_1a_64(b"clock"), &time, saved_time);
    assert_eq!(ours, reference);

    let mut ours_running = Vec::<u8>::new();
    SaveData::from_variables(
        WatchMode::Stopwatch(StopwatchMode::Running),
        time.clone(),
        saved_time.to_bits(),
    )
        .write_bytes(&mut ours_running);
    let reference_stopwatch = build_reference_record(fnv_1a_64(b"stopwatch"), &time, saved_time);
    assert_eq!(ours_running, reference_stopwatch);
}

#[test]
fn reference_built_record_decodes() {
    let time = WatchTime { hours: 1, minutes: 2, seconds: 3, cents: 4 };
    let bytes = build_reference_record(fnv_1a_64(b"stopwatch"), &time, 0.5);

    let restored = SaveData::from_bytes(&bytes).unwrap();
    assert_eq!(restored.watch_mode, WatchMode::Stopwatch(StopwatchMode::Stopped));
    assert_eq!(restored.stopwatch_time, time);
    assert_eq!(f32::from_bits(restored.saved_time_bits), 0.5);
}

#[test]
fn reference_reader_reads_our_record() {
    let time = WatchTime { hours: 11, minutes: 22, seconds: 33, cents: 44 };
    let mut bytes = Vec::<u8>::new();
    SaveData::from_variables(WatchMode::Clock, time, 0.25f32.to_bits()).write_bytes(&mut bytes);

    let sexpr = ChobitSexpr::new(bytes.as_slice());
    let mut seen_mode: Option<u64> = None;
    let mut seen_time: Option<(u32, u32, u32, u32, f32)> = None;

    for elm in sexpr.iter() {
        let (car, cdr) = elm.car_cdr().unwrap();
        match car.read_u64().unwrap() {
            tag if tag == fnv_1a_64(b"watch_mode") => {
                seen_mode = Some(cdr.car().unwrap().read_u64().unwrap());
            },
            tag if tag == fnv_1a_64(b"stopwatch_time") => {
                let (hours_sexpr, cdr) = cdr.car_cdr().unwrap();
                let hours = hours_sexpr.read_u32().unwrap();
                let (minutes_sexpr, cdr) = cdr.car_cdr().unwrap();
                let minutes = minutes_sexpr.read_u32().unwrap();
                let (seconds_sexpr, cdr) = cdr.car_cdr().unwrap();
                let seconds = seconds_sexpr.read_u32().unwrap();
                let (cents_sexpr, cdr) = cdr.car_cdr().unwrap();
                let cents = cents_sexpr.read_u32().unwrap();
                let saved = cdr.car().unwrap().read_f32().unwrap();
                seen_time = Some((hours, minutes, seconds, cents, saved));
            },
            _ => panic!("unexpected tag in our record"),
        }
    }

    assert_eq!(seen_mode, Some(fnv_1a_64(b"clock")));
    assert_eq!(seen_time, Some((11, 22, 33, 44, 0.25f32)));
}

#[test]
fn unknown_tag_returns_none() {
    // A record whose only entry is tagged with a foreign symbol.
    let entry = {
        let list = ChobitSexprBuf::new().build_list();
        let tag = ChobitSexprBuf::new().push_u64(fnv_1a_64(b"unknown_tag"));
        let list = list.push_item(tag.as_sexpr());
        let payload = ChobitSexprBuf::new().push_u64(7);
        let list = list.push_item(payload.as_sexpr());
        list.finish()
    };
    let top = ChobitSexprBuf::new().build_list().push_item(entry.as_sexpr()).finish();

    assert!(SaveData::from_bytes(top.as_sexpr().as_bytes()).is_none());
}
