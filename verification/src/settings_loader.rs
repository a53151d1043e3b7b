//! Validation of configured settings records: threshold events are
//! range-checked and turned into skin-switch events, and the default
//! mode string is recognized.  Out-of-range or unknown values are
//! startup errors, reported exactly; nothing is silently clamped.

use vstd::prelude::*;
use crate::error::Error;
use crate::hash::{skin_id_of_name, skin_id_spec};
use crate::settings::{EventElement, TimeElement};
use crate::state::{SkinSwitchEvent, StopwatchMode, WatchMode, WatchTime};

verus! {

/// A threshold event failed validation: the named field carries the
/// offending value.
#[derive(Debug, Clone, Copy, PartialEq, Eq, Structural)]
pub enum EventError {
    Centiseconds(u32),
    Seconds(u32),
    Minutes(u32),
    Hours(u32),
}

/// A settings record could not be loaded.
#[derive(Debug, Clone, PartialEq)]
pub enum LoadError {
    StopwatchEventError(EventError),
    ClockEventError(EventError),
    TextureNotFound(String),
    InvalidDefaultMode(String),
    CorruptedSaveData(String),
}

/// A configured threshold is acceptable: centiseconds and hours up to
/// 99, seconds and minutes up to 59.
pub open spec fn time_elem_ok(t: TimeElement) -> bool {
    t.centiseconds <= 99 && t.seconds <= 59 && t.minutes <= 59 && t.hours <= 99
}

/// The error reported for a bad threshold: the first offending field,
/// checked in the order centiseconds, seconds, minutes, hours.
pub open spec fn time_elem_error(t: TimeElement) -> EventError {
    if t.centiseconds > 99 {
        EventError::Centiseconds(t.centiseconds)
    } else if t.seconds > 59 {
        EventError::Seconds(t.seconds)
    } else if t.minutes > 59 {
        EventError::Minutes(t.minutes)
    } else {
        EventError::Hours(t.hours)
    }
}

/// The reading a validated threshold stands for.
pub open spec fn wt_of_elem(t: TimeElement) -> WatchTime {
    WatchTime { hours: t.hours, minutes: t.minutes, seconds: t.seconds, cents: t.centiseconds }
}

/// Every threshold of the list is acceptable.
pub open spec fn all_times_ok(events: Seq<EventElement>) -> bool {
    forall|i: int| 0 <= i < events.len() ==> time_elem_ok(#[trigger] events[i].from)
}

/// The index of the first unacceptable threshold.
pub open spec fn first_invalid(events: Seq<EventElement>) -> int
    decreases events.len(),
{
    if events.len() == 0 {
        0
    } else if !time_elem_ok(events[0].from) {
        0
    } else {
        1 + first_invalid(events.skip(1))
    }
}

/// What a valid event list converts to: each skin name hashed into its
/// id, each threshold taken field by field.
pub open spec fn events_converted(events: Seq<EventElement>) -> Seq<SkinSwitchEvent> {
    events.map_values(
        |e: EventElement| SkinSwitchEvent {
            skin_id: skin_id_spec(e.skin_name@),
            from_time: wt_of_elem(e.from),
        },
    )
}

/// A prefix of acceptable thresholds followed by an unacceptable one
/// pins down `first_invalid`.
proof fn lemma_first_invalid_at(events: Seq<EventElement>, i: int)
    requires
        0 <= i < events.len(),
        forall|j: int| 0 <= j < i ==> time_elem_ok(#[trigger] events[j].from),
        !time_elem_ok(events[i].from),
    ensures
        !all_times_ok(events),
        first_invalid(events) == i,
    decreases i,
{
    if i > 0 {
        assert forall|j: int| 0 <= j < i - 1 implies time_elem_ok(
            #[trigger] events.skip(1)[j].from,
        ) by {
            assert(events.skip(1)[j] == events[j + 1]);
        }
        assert(events.skip(1)[i - 1] == events[i]);
        lemma_first_invalid_at(events.skip(1), i - 1);
    }
}

/// The shared validation scan behind the two event loaders.
fn convert_events(events: &Vec<EventElement>) -> (r: Result<Vec<SkinSwitchEvent>, EventError>)
    ensures
        all_times_ok(events@) ==> (r matches Ok(v) && v@ == events_converted(events@)),
        !all_times_ok(events@) ==> (r matches Err(e) && e == time_elem_error(
            events@[first_invalid(events@)].from,
        )),
{
    let mut out: Vec<SkinSwitchEvent> = Vec::new();
    let mut i: usize = 0;
    while i < events.len()
        invariant
            0 <= i <= events@.len(),
            out@.len() == i,
            forall|j: int| 0 <= j < i ==> time_elem_ok(#[trigger] events@[j].from),
            forall|j: int| 0 <= j < i ==> out@[j] == events_converted(events@)[j],
        decreases events@.len() - i,
    {
        let elm = &events[i];
        let skin_id = skin_id_of_name(elm.skin_name.as_str());

        let cents = elm.from.centiseconds;
        if cents > 99 {
            proof {
                lemma_first_invalid_at(events@, i as int);
            }
            return Err(EventError::Centiseconds(cents));
        }
        let seconds = elm.from.seconds;
        if seconds > 59 {
            proof {
                lemma_first_invalid_at(events@, i as int);
            }
            return Err(EventError::Seconds(seconds));
        }
        let minutes = elm.from.minutes;
        if minutes > 59 {
            proof {
                lemma_first_invalid_at(events@, i as int);
            }
            return Err(EventError::Minutes(minutes));
        }
        let hours = elm.from.hours;
        if hours > 99 {
            proof {
                lemma_first_invalid_at(events@, i as int);
            }
            return Err(EventError::Hours(hours));
        }

        out.push(
            SkinSwitchEvent {
                skin_id,
                from_time: WatchTime { hours, minutes, seconds, cents },
            },
        );
        i = i + 1;
    }
    proof {
        assert(out@ =~= events_converted(events@));
    }
    Ok(out)
}

/// The settings loader: pure validation of already-parsed records.
pub struct SettingsLoader;

impl SettingsLoader {
    /// Recognize the configured default mode: `"stopwatch"` starts a
    /// stopped stopwatch, `"clock"` a clock; anything else is a
    /// startup error naming the string.
    pub fn load_default_mode(mode: &str) -> (r: Result<WatchMode, Error>)
        ensures
            mode@ == "stopwatch"@ ==> (r matches Ok(m) && m == WatchMode::Stopwatch(
                StopwatchMode::Stopped,
            )),
            mode@ == "clock"@ ==> (r matches Ok(m) && m == WatchMode::Clock),
            mode@ != "stopwatch"@ && mode@ != "clock"@ ==> (r matches Err(e)
                && e matches Error::LoadError(le) && le matches LoadError::InvalidDefaultMode(s)
                && s@ == mode@),
    {
        proof {
            reveal_strlit("stopwatch");
            reveal_strlit("clock");
            assert("stopwatch"@.len() == 9);
            assert("clock"@.len() == 5);
        }
        let owned = mode.to_owned();
        if owned == "stopwatch".to_owned() {
            Ok(WatchMode::Stopwatch(StopwatchMode::Stopped))
        } else if owned == "clock".to_owned() {
            Ok(WatchMode::Clock)
        } else {
            Err(Error::LoadError(LoadError::InvalidDefaultMode(owned)))
        }
    }

    /// Validate and convert the stopwatch threshold list.  With every
    /// threshold in range, the converted list is returned in order;
    /// otherwise the error names the first offending field of the
    /// first offending event.
    pub fn load_stopwatch_events(events: &Vec<EventElement>) -> (r: Result<
        Vec<SkinSwitchEvent>,
        Error,
    >)
        ensures
            all_times_ok(events@) ==> (r matches Ok(v) && v@ == events_converted(events@)),
            !all_times_ok(events@) ==> (r matches Err(e) && e matches Error::LoadError(le)
                && le == LoadError::StopwatchEventError(
                time_elem_error(events@[first_invalid(events@)].from),
            )),
    {
        match convert_events(events) {
            Ok(v) => Ok(v),
            Err(e) => Err(Error::LoadError(LoadError::StopwatchEventError(e))),
        }
    }

    /// Validate and convert the clock threshold list, exactly as the
    /// stopwatch list but reporting under the clock's error variant.
    pub fn load_clock_events(events: &Vec<EventElement>) -> (r: Result<
        Vec<SkinSwitchEvent>,
        Error,
    >)
        ensures
            all_times_ok(events@) ==> (r matches Ok(v) && v@ == events_converted(events@)),
            !all_times_ok(events@) ==> (r matches Err(e) && e matches Error::LoadError(le)
                && le == LoadError::ClockEventError(
                time_elem_error(events@[first_invalid(events@)].from),
            )),
    {
        match convert_events(events) {
            Ok(v) => Ok(v),
            Err(e) => Err(Error::LoadError(LoadError::ClockEventError(e))),
        }
    }
}

} // verus!
