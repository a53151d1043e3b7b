//! Watch state: time readings, their packing, normalization and total
//! order; the modes, buttons and skin-switch events; and the mutable
//! state record the state machine works on.

use vstd::prelude::*;
use vstd::arithmetic::div_mod::{
    lemma_fundamental_div_mod, lemma_fundamental_div_mod_converse, lemma_div_denominator,
    lemma_div_is_ordered,
};
use chrono::Timelike;

verus! {

/// A wall-clock or stopwatch reading: hours, minutes, seconds and
/// centiseconds, each stored in its own field.
///
/// The fields order a reading lexicographically, hours first.  A reading
/// is *in range* ([`wt_in_range`]) when every field is below its carrying
/// base; [`WatchTime::normalize`] restores that invariant by carrying
/// overflow upward and wrapping hours at 100.
#[derive(Debug, Clone, Copy, PartialEq, Eq, Structural)]
pub struct WatchTime {
    pub hours: u32,
    pub minutes: u32,
    pub seconds: u32,
    pub cents: u32,
}

/// The value of a reading as one integer, fields packed in priority
/// order hours > minutes > seconds > centiseconds, 32 bits each.
pub open spec fn wt_value(t: WatchTime) -> int {
    t.hours * 0x1000000000000000000000000
        + t.minutes * 0x10000000000000000
        + t.seconds * 0x100000000
        + t.cents
}

/// Every field is below its carrying base.
pub open spec fn wt_in_range(t: WatchTime) -> bool {
    t.cents < 100 && t.seconds < 60 && t.minutes < 60 && t.hours < 100
}

/// A reading counted out in centiseconds (its distance from zero).
pub open spec fn total_cents(t: WatchTime) -> int {
    ((t.hours * 60 + t.minutes) * 60 + t.seconds) * 100 + t.cents
}

/// The unique in-range reading whose distance from zero is `n`
/// centiseconds.
pub open spec fn wt_of_total(n: int) -> WatchTime
    recommends
        0 <= n < 36_000_000,
{
    WatchTime {
        hours: (n / 360_000) as u32,
        minutes: ((n / 6_000) % 60) as u32,
        seconds: ((n / 100) % 60) as u32,
        cents: (n % 100) as u32,
    }
}

/// What normalization computes: the in-range reading at the same
/// distance from zero, modulo the 100-hour wrap.
pub open spec fn norm_spec(t: WatchTime) -> WatchTime {
    wt_of_total(total_cents(t) % 36_000_000)
}

/// The conditions under which [`WatchTime::normalize`] carries without
/// exceeding `u32`.  Any in-range reading, and any reading whose fields
/// are small (such as a validated threshold), satisfies them.
pub open spec fn norm_ok(t: WatchTime) -> bool {
    &&& t.seconds + t.cents / 100 <= u32::MAX
    &&& t.minutes + (t.seconds + t.cents / 100) / 60 <= u32::MAX
    &&& t.hours + (t.minutes + (t.seconds + t.cents / 100) / 60) / 60 <= u32::MAX
}

/// Lexicographic comparison of two readings, hours first.
pub open spec fn wt_lex_lt(a: WatchTime, b: WatchTime) -> bool {
    ||| a.hours < b.hours
    ||| (a.hours == b.hours && a.minutes < b.minutes)
    ||| (a.hours == b.hours && a.minutes == b.minutes && a.seconds < b.seconds)
    ||| (a.hours == b.hours && a.minutes == b.minutes && a.seconds == b.seconds
        && a.cents < b.cents)
}

impl WatchTime {
    /// The packed 128-bit value of the reading; comparing two packed
    /// values compares wall-clock distance directly.
    pub fn to_u128(&self) -> (r: u128)
        ensures
            r == wt_value(*self),
    {
        let r = ((self.hours as u128) << 96)
            | ((self.minutes as u128) << 64)
            | ((self.seconds as u128) << 32)
            | (self.cents as u128);
        proof {
            let h = self.hours as u128;
            let m = self.minutes as u128;
            let s = self.seconds as u128;
            let c = self.cents as u128;
            assert((h << 96) | (m << 64) | (s << 32) | c == h
                * 0x1000000000000000000000000 + m * 0x10000000000000000 + s * 0x100000000
                + c) by (bit_vector)
                requires
                    h < 0x100000000,
                    m < 0x100000000,
                    s < 0x100000000,
                    c < 0x100000000,
            ;
        }
        r
    }

    /// Carry centisecond overflow into seconds, seconds into minutes,
    /// minutes into hours, and wrap hours at 100: afterwards the reading
    /// is in range and its distance from zero is unchanged modulo 100
    /// hours.
    pub fn normalize(&mut self)
        requires
            norm_ok(*old(self)),
        ensures
            *final(self) == norm_spec(*old(self)),
            wt_in_range(*final(self)),
    {
        self.seconds = self.seconds + self.cents / 100;
        self.minutes = self.minutes + self.seconds / 60;
        self.hours = self.hours + self.minutes / 60;

        self.cents = self.cents % 100;
        self.minutes = self.minutes % 60;
        self.seconds = self.seconds % 60;
        self.hours = self.hours % 100;

        proof {
            lemma_normalize_carries(
                old(self).hours as int,
                old(self).minutes as int,
                old(self).seconds as int,
                old(self).cents as int,
            );
        }
    }
}

impl Default for WatchTime {
    /// The zero reading.
    fn default() -> (r: Self)
        ensures
            r == (WatchTime { hours: 0, minutes: 0, seconds: 0, cents: 0 }),
    {
        WatchTime { hours: 0, minutes: 0, seconds: 0, cents: 0 }
    }
}

/// The arithmetic behind [`WatchTime::normalize`]: carrying digit by
/// digit lands on the in-range decomposition of the total distance.
proof fn lemma_normalize_carries(h: int, m: int, s: int, c: int)
    requires
        h >= 0,
        m >= 0,
        s >= 0,
        c >= 0,
    ensures
        ({
            let total = ((h * 60 + m) * 60 + s) * 100 + c;
            let s1 = s + c / 100;
            let m1 = m + s1 / 60;
            let h1 = h + m1 / 60;
            &&& 0 <= total % 36_000_000 < 36_000_000
            &&& total % 36_000_000 % 100 == c % 100
            &&& total % 36_000_000 / 100 % 60 == s1 % 60
            &&& total % 36_000_000 / 6_000 % 60 == m1 % 60
            &&& total % 36_000_000 / 360_000 == h1 % 100
        }),
{
    let total = ((h * 60 + m) * 60 + s) * 100 + c;
    let s1 = s + c / 100;
    let m1 = m + s1 / 60;
    let h1 = h + m1 / 60;

    lemma_fundamental_div_mod(c, 100);
    lemma_fundamental_div_mod(s1, 60);
    lemma_fundamental_div_mod(m1, 60);
    lemma_fundamental_div_mod(h1, 100);

    // Rewrite the total digit by digit around the carried fields.
    assert(total == ((h * 60 + m) * 60 + s1) * 100 + c % 100);
    assert(total == ((h * 60 + m1) * 60 + s1 % 60) * 100 + c % 100);
    assert(total == ((h1 * 60 + m1 % 60) * 60 + s1 % 60) * 100 + c % 100);

    let rem = (h1 % 100) * 360_000 + (m1 % 60) * 6_000 + (s1 % 60) * 100 + c % 100;
    assert(total == (h1 / 100) * 36_000_000 + rem);
    assert(0 <= rem < 36_000_000);

    lemma_fundamental_div_mod_converse(total, 36_000_000, h1 / 100, rem);
    assert(total % 36_000_000 == rem);

    let q100 = (h1 % 100) * 3_600 + (m1 % 60) * 60 + s1 % 60;
    lemma_fundamental_div_mod_converse(rem, 100, q100, c % 100);
    assert(rem % 100 == c % 100);
    assert(rem / 100 == q100);

    let q6000 = (h1 % 100) * 60 + m1 % 60;
    lemma_fundamental_div_mod_converse(q100, 60, q6000, s1 % 60);
    assert(q100 % 60 == s1 % 60);
    assert(q100 / 60 == q6000);

    lemma_div_denominator(rem, 100, 60);
    assert(rem / 6_000 == q6000);

    lemma_fundamental_div_mod_converse(q6000, 60, h1 % 100, m1 % 60);
    assert(q6000 % 60 == m1 % 60);
    assert(q6000 / 60 == h1 % 100);

    lemma_div_denominator(rem, 6_000, 60);
    assert(rem / 360_000 == h1 % 100);
}

/// An in-range reading is exactly the decomposition of its distance
/// from zero, which is below 100 hours.
pub proof fn lemma_total_cents_inverse(t: WatchTime)
    requires
        wt_in_range(t),
    ensures
        0 <= total_cents(t) < 36_000_000,
        wt_of_total(total_cents(t)) == t,
{
    let total = total_cents(t);
    let q100 = (t.hours * 60 + t.minutes) * 60 + t.seconds;
    lemma_fundamental_div_mod_converse(total, 100, q100, t.cents as int);
    let q6000 = t.hours * 60 + t.minutes;
    lemma_fundamental_div_mod_converse(q100, 60, q6000, t.seconds as int);
    lemma_div_denominator(total, 100, 60);
    lemma_fundamental_div_mod_converse(q6000, 60, t.hours as int, t.minutes as int);
    lemma_div_denominator(total, 6_000, 60);
    assert(wt_of_total(total) == t);
}

/// Normalizing never moves an in-range reading.
pub proof fn lemma_normalize_in_range_identity(t: WatchTime)
    requires
        wt_in_range(t),
    ensures
        norm_spec(t) == t,
{
    lemma_total_cents_inverse(t);
    lemma_fundamental_div_mod_converse(total_cents(t), 36_000_000, 0, total_cents(t));
}

/// The result of normalization is always in range.
pub proof fn lemma_norm_spec_in_range(t: WatchTime)
    ensures
        wt_in_range(norm_spec(t)),
{
    lemma_normalize_carries(t.hours as int, t.minutes as int, t.seconds as int, t.cents as int);
}

/// Normalization is idempotent: a second pass returns exactly the
/// reading the first pass produced.
pub proof fn lemma_normalize_idempotent(t: WatchTime)
    ensures
        norm_spec(norm_spec(t)) == norm_spec(t),
{
    lemma_norm_spec_in_range(t);
    lemma_normalize_in_range_identity(norm_spec(t));
}

/// The packed comparison agrees with the lexicographic field order,
/// hours dominating minutes dominating seconds dominating centiseconds.
pub proof fn lemma_value_order_is_lex(a: WatchTime, b: WatchTime)
    ensures
        wt_value(a) < wt_value(b) <==> wt_lex_lt(a, b),
        wt_value(a) == wt_value(b) <==> a == b,
{
    assert(a.minutes * 0x10000000000000000 + a.seconds * 0x100000000 + a.cents
        < 0x1000000000000000000000000);
    assert(b.minutes * 0x10000000000000000 + b.seconds * 0x100000000 + b.cents
        < 0x1000000000000000000000000);
    assert(a.seconds * 0x100000000 + a.cents < 0x10000000000000000);
    assert(b.seconds * 0x100000000 + b.cents < 0x10000000000000000);
}

impl PartialOrd for WatchTime {
    /// Readings compare by their packed values.
    fn partial_cmp(&self, other: &Self) -> (r: Option<core::cmp::Ordering>) {
        let a = self.to_u128();
        let b = other.to_u128();
        if a < b {
            Some(core::cmp::Ordering::Less)
        } else if a == b {
            Some(core::cmp::Ordering::Equal)
        } else {
            Some(core::cmp::Ordering::Greater)
        }
    }
}

impl vstd::std_specs::cmp::PartialOrdSpecImpl for WatchTime {
    open spec fn obeys_partial_cmp_spec() -> bool {
        true
    }

    open spec fn partial_cmp_spec(&self, other: &Self) -> Option<core::cmp::Ordering> {
        if wt_value(*self) < wt_value(*other) {
            Some(core::cmp::Ordering::Less)
        } else if wt_value(*self) == wt_value(*other) {
            Some(core::cmp::Ordering::Equal)
        } else {
            Some(core::cmp::Ordering::Greater)
        }
    }
}

/// The operating mode: a stopwatch (running or stopped) or a clock.
#[derive(Debug, Clone, Copy, PartialEq, Eq, Structural)]
pub enum WatchMode {
    Stopwatch(StopwatchMode),
    Clock,
}

/// Whether the stopwatch is accumulating time.
#[derive(Debug, Clone, Copy, PartialEq, Eq, Structural)]
pub enum StopwatchMode {
    Running,
    Stopped,
}

/// The four buttons a user can click, at most one per tick.
#[derive(Debug, Clone, Copy, PartialEq, Eq, Structural)]
pub enum Button {
    Switch,
    StartStop,
    Reset,
    Quit,
}

/// One step of the time-to-skin mapping: from `from_time` on, the skin
/// named by `skin_id` is the one to show.
#[derive(Debug, Clone, Copy, PartialEq, Eq, Structural)]
pub struct SkinSwitchEvent {
    pub skin_id: u64,
    pub from_time: WatchTime,
}

impl Default for SkinSwitchEvent {
    /// Skin zero from time zero.
    fn default() -> (r: Self)
        ensures
            r == (SkinSwitchEvent {
                skin_id: 0,
                from_time: WatchTime { hours: 0, minutes: 0, seconds: 0, cents: 0 },
            }),
    {
        SkinSwitchEvent {
            skin_id: 0,
            from_time: WatchTime { hours: 0, minutes: 0, seconds: 0, cents: 0 },
        }
    }
}

/// Event thresholds never increase along the list.
pub open spec fn sorted_desc(events: Seq<SkinSwitchEvent>) -> bool {
    forall|i: int, j: int|
        0 <= i < j < events.len() ==> wt_value(#[trigger] events[i].from_time) >= wt_value(
            #[trigger] events[j].from_time,
        )
}

/// The skin id of the first event whose threshold is at or below `t`,
/// or `default_id` when no event qualifies.  On a list sorted by
/// descending threshold the first such event carries the greatest
/// qualifying threshold.
pub open spec fn resolve_skin(events: Seq<SkinSwitchEvent>, t: WatchTime, default_id: u64) -> u64
    decreases events.len(),
{
    if events.len() == 0 {
        default_id
    } else if wt_value(events[0].from_time) <= wt_value(t) {
        events[0].skin_id
    } else {
        resolve_skin(events.skip(1), t, default_id)
    }
}

/// Every event of the list, its threshold normalized.
pub open spec fn normalized_events(events: Seq<SkinSwitchEvent>) -> Seq<SkinSwitchEvent> {
    events.map_values(
        |e: SkinSwitchEvent| SkinSwitchEvent { from_time: norm_spec(e.from_time), ..e },
    )
}

/// Insert an event into a descending list at its stable position:
/// after every event whose threshold is at least as large, so an
/// equal-threshold event already in the list keeps precedence.
pub open spec fn insert_desc(sorted: Seq<SkinSwitchEvent>, e: SkinSwitchEvent) -> Seq<
    SkinSwitchEvent,
>
    decreases sorted.len(),
{
    if sorted.len() == 0 {
        seq![e]
    } else if wt_value(sorted[0].from_time) >= wt_value(e.from_time) {
        seq![sorted[0]] + insert_desc(sorted.skip(1), e)
    } else {
        seq![e] + sorted
    }
}

/// The stable descending sort of an event list: each event inserted in
/// turn at its stable position.  This pins re-ordering completely —
/// in particular, events with equal thresholds keep their relative
/// order, so ties in the time-to-skin mapping resolve as configured.
pub open spec fn sort_desc_spec(events: Seq<SkinSwitchEvent>) -> Seq<SkinSwitchEvent>
    decreases events.len(),
{
    if events.len() == 0 {
        Seq::empty()
    } else {
        insert_desc(sort_desc_spec(events.drop_last()), events.last())
    }
}

/// The stable position, walked out: with everything before `p` at or
/// above the new threshold and the entry at `p` (if any) below it,
/// inserting stably is inserting at `p`.
proof fn lemma_insert_desc_at(s: Seq<SkinSwitchEvent>, e: SkinSwitchEvent, p: int)
    requires
        0 <= p <= s.len(),
        forall|k: int|
            0 <= k < p ==> wt_value(#[trigger] s[k].from_time) >= wt_value(e.from_time),
        p < s.len() ==> wt_value(s[p].from_time) < wt_value(e.from_time),
    ensures
        insert_desc(s, e) == s.insert(p, e),
    decreases p,
{
    if p == 0 {
        if s.len() == 0 {
            assert(insert_desc(s, e) =~= s.insert(0, e));
        } else {
            assert(insert_desc(s, e) =~= s.insert(0, e));
        }
    } else {
        assert forall|k: int| 0 <= k < p - 1 implies wt_value(
            #[trigger] s.skip(1)[k].from_time,
        ) >= wt_value(e.from_time) by {
            assert(s.skip(1)[k] == s[k + 1]);
        }
        if p - 1 < s.skip(1).len() {
            assert(s.skip(1)[p - 1] == s[p]);
        }
        lemma_insert_desc_at(s.skip(1), e, p - 1);
        assert(seq![s[0]] + s.skip(1).insert(p - 1, e) =~= s.insert(p, e));
    }
}

/// The stable sort leaves a sorted list alone.
proof fn lemma_sort_desc_spec_sorted_identity(events: Seq<SkinSwitchEvent>)
    requires
        sorted_desc(events),
    ensures
        sort_desc_spec(events) == events,
    decreases events.len(),
{
    if events.len() == 0 {
        assert(sort_desc_spec(events) =~= events);
    } else {
        let front = events.drop_last();
        assert forall|i: int, j: int| 0 <= i < j < front.len() implies wt_value(
            #[trigger] front[i].from_time,
        ) >= wt_value(#[trigger] front[j].from_time) by {
            assert(front[i] == events[i] && front[j] == events[j]);
        }
        lemma_sort_desc_spec_sorted_identity(front);
        assert forall|k: int| 0 <= k < front.len() implies wt_value(
            #[trigger] front[k].from_time,
        ) >= wt_value(events.last().from_time) by {
            assert(front[k] == events[k]);
        }
        lemma_insert_desc_at(front, events.last(), front.len() as int);
        assert(front.insert(front.len() as int, events.last()) =~= events);
    }
}

/// Preprocessing is one-time: on lists that are already normalized and
/// sorted — as every list leaving [`State::init`] is — another pass
/// returns them unchanged.
pub proof fn lemma_init_pass_identity(events: Seq<SkinSwitchEvent>)
    requires
        forall|i: int| 0 <= i < events.len() ==> wt_in_range(#[trigger] events[i].from_time),
        sorted_desc(events),
    ensures
        normalized_events(events) == events,
        sort_desc_spec(normalized_events(events)) == events,
{
    assert forall|i: int| 0 <= i < events.len() implies normalized_events(events)[i] == events[i]
    by {
        lemma_normalize_in_range_identity(events[i].from_time);
    }
    assert(normalized_events(events) =~= events);
    lemma_sort_desc_spec_sorted_identity(events);
}

/// On a descending list, the resolved skin belongs to an event whose
/// threshold is the greatest one at or below `t`; when every threshold
/// lies above `t`, the default is resolved.
pub proof fn lemma_resolve_picks_greatest(events: Seq<SkinSwitchEvent>, t: WatchTime, default_id: u64)
    requires
        sorted_desc(events),
    ensures
        (exists|i: int|
            0 <= i < events.len() && wt_value(#[trigger] events[i].from_time) <= wt_value(t))
            ==> (exists|i: int|
            {
                &&& 0 <= i < events.len()
                &&& wt_value(#[trigger] events[i].from_time) <= wt_value(t)
                &&& resolve_skin(events, t, default_id) == events[i].skin_id
                &&& forall|j: int|
                    0 <= j < events.len() && wt_value(#[trigger] events[j].from_time) <= wt_value(t)
                        ==> wt_value(events[j].from_time) <= wt_value(events[i].from_time)
            }),
        (forall|i: int|
            0 <= i < events.len() ==> wt_value(#[trigger] events[i].from_time) > wt_value(t))
            ==> resolve_skin(events, t, default_id) == default_id,
    decreases events.len(),
{
    if events.len() > 0 {
        if wt_value(events[0].from_time) <= wt_value(t) {
            assert forall|j: int|
                0 <= j < events.len() && wt_value(#[trigger] events[j].from_time) <= wt_value(t)
                implies wt_value(events[j].from_time) <= wt_value(events[0].from_time) by {}
        } else {
            let rest = events.skip(1);
            lemma_resolve_picks_greatest(rest, t, default_id);
            if exists|i: int|
                0 <= i < events.len() && wt_value(#[trigger] events[i].from_time) <= wt_value(t) {
                let i = choose|i: int|
                    0 <= i < events.len() && wt_value(#[trigger] events[i].from_time) <= wt_value(
                        t,
                    );
                assert(rest[i - 1] == events[i]);
                let w = choose|w: int|
                    {
                        &&& 0 <= w < rest.len()
                        &&& wt_value(#[trigger] rest[w].from_time) <= wt_value(t)
                        &&& resolve_skin(rest, t, default_id) == rest[w].skin_id
                        &&& forall|j: int|
                            0 <= j < rest.len() && wt_value(#[trigger] rest[j].from_time)
                                <= wt_value(t) ==> wt_value(rest[j].from_time) <= wt_value(
                                rest[w].from_time,
                            )
                    };
                assert(events[w + 1] == rest[w]);
                assert forall|j: int|
                    0 <= j < events.len() && wt_value(#[trigger] events[j].from_time) <= wt_value(
                        t,
                    ) implies wt_value(events[j].from_time) <= wt_value(
                    events[w + 1].from_time,
                ) by {
                    assert(rest[j - 1] == events[j]);
                }
                assert({
                    &&& 0 <= w + 1 < events.len()
                    &&& wt_value(events[w + 1].from_time) <= wt_value(t)
                    &&& resolve_skin(events, t, default_id) == events[w + 1].skin_id
                });
            }
        }
    }
}

/// The whole-unit fields of a reading are in range; the centisecond
/// field is free.  This is all the stopwatch accumulator needs of a
/// reading, since it overwrites the centiseconds anyway.
pub open spec fn hms_in_range(t: WatchTime) -> bool {
    t.seconds < 60 && t.minutes < 60 && t.hours < 100
}

/// What a wall-clock sample satisfies: time-of-day fields in range,
/// with centiseconds reaching up to 199 during a leap second.
pub open spec fn clock_sample_ok(t: WatchTime) -> bool {
    t.hours < 24 && t.minutes < 60 && t.seconds < 60 && t.cents < 200
}

/// The accumulator after one running tick, before truncation: the
/// sub-second carry plus the elapsed microseconds, saturating at the
/// top of `u64`.
pub open spec fn ticked_sum(saved: u64, dt: u64) -> int {
    if saved + dt <= u64::MAX {
        saved + dt
    } else {
        u64::MAX as int
    }
}

/// The centisecond count written into the reading by a running tick,
/// saturating at the top of `u32`.
pub open spec fn ticked_cents(saved: u64, dt: u64) -> u32 {
    if ticked_sum(saved, dt) / 10_000 <= u32::MAX {
        (ticked_sum(saved, dt) / 10_000) as u32
    } else {
        u32::MAX
    }
}

/// The sub-second carry kept for the next tick.
pub open spec fn ticked_saved(saved: u64, dt: u64) -> u64 {
    (ticked_sum(saved, dt) % 1_000_000) as u64
}

/// The stopwatch reading after one running tick: the centisecond field
/// is overwritten with the carried count and the reading normalized.
pub open spec fn ticked_time(t: WatchTime, saved: u64, dt: u64) -> WatchTime {
    norm_spec(WatchTime { cents: ticked_cents(saved, dt), ..t })
}

/// Everything the state machine reads and writes: the mode, the two
/// time readings, the one-shot button, the per-tick flags, the selected
/// skin, and the two sorted threshold lists.
///
/// Hosts measure elapsed time in (possibly fractional) seconds; here
/// the elapsed time and the sub-second carry are whole microseconds
/// (`dt_micros`, `saved_micros`), which the host derives at its edge.
#[derive(Debug, Clone, PartialEq)]
pub struct State {
    pub watch_mode: WatchMode,
    pub clicked_btn: Option<Button>,
    pub dt_micros: u64,
    pub button_is_pressed: bool,
    pub quit_request: bool,
    pub current_stopwatch_time: WatchTime,
    pub current_clock_time: WatchTime,
    pub change_skin_request: bool,
    pub current_skin_id: u64,
    pub saved_micros: u64,
    pub default_stopwatch_skin_id: u64,
    pub default_clock_skin_id: u64,
    pub stopwatch_events: Vec<SkinSwitchEvent>,
    pub clock_events: Vec<SkinSwitchEvent>,
}

impl Default for State {
    /// A clock at time zero with no events, no flags and no button.
    fn default() -> (r: Self)
        ensures
            r.watch_mode == WatchMode::Clock,
            r.clicked_btn is None,
            r.dt_micros == 0,
            r.button_is_pressed == false,
            r.quit_request == false,
            r.current_stopwatch_time == (WatchTime { hours: 0, minutes: 0, seconds: 0, cents: 0 }),
            r.current_clock_time == (WatchTime { hours: 0, minutes: 0, seconds: 0, cents: 0 }),
            r.change_skin_request == false,
            r.current_skin_id == 0,
            r.saved_micros == 0,
            r.default_stopwatch_skin_id == 0,
            r.default_clock_skin_id == 0,
            r.stopwatch_events@ == Seq::<SkinSwitchEvent>::empty(),
            r.clock_events@ == Seq::<SkinSwitchEvent>::empty(),
    {
        State {
            watch_mode: WatchMode::Clock,
            clicked_btn: None,
            dt_micros: 0,
            button_is_pressed: false,
            quit_request: false,
            current_stopwatch_time: WatchTime::default(),
            current_clock_time: WatchTime::default(),
            change_skin_request: false,
            current_skin_id: 0,
            saved_micros: 0,
            default_stopwatch_skin_id: 0,
            default_clock_skin_id: 0,
            stopwatch_events: Vec::new(),
            clock_events: Vec::new(),
        }
    }
}

/// Relies on chrono's `Local::now` and its `Timelike` getters: `hour()`
/// is below 24, `minute()` and `second()` below 60, and `nanosecond()`
/// below 2_000_000_000 (a value of 1_000_000_000 or more stands for a
/// leap second).
#[verifier::external_body]
fn local_now_hmsn() -> (r: (u32, u32, u32, u32))
    ensures
        r.0 < 24,
        r.1 < 60,
        r.2 < 60,
        r.3 < 2_000_000_000,
{
    let now = chrono::Local::now();
    (now.hour(), now.minute(), now.second(), now.nanosecond())
}

impl State {
    /// One-time preprocessing after the threshold lists are filled in:
    /// normalize every threshold, then sort each list by descending
    /// threshold, stably.  The resulting lists are pinned exactly —
    /// [`sort_desc_spec`] of the normalized input — so equal-threshold
    /// events keep their configured order, and a second pass provably
    /// changes nothing ([`lemma_init_pass_identity`]).  Nothing else
    /// changes.
    pub fn init(&mut self)
        requires
            forall|i: int|
                0 <= i < old(self).stopwatch_events@.len() ==> norm_ok(
                    #[trigger] old(self).stopwatch_events@[i].from_time,
                ),
            forall|i: int|
                0 <= i < old(self).clock_events@.len() ==> norm_ok(
                    #[trigger] old(self).clock_events@[i].from_time,
                ),
        ensures
            final(self).stopwatch_events@ == sort_desc_spec(
                normalized_events(old(self).stopwatch_events@),
            ),
            final(self).clock_events@ == sort_desc_spec(
                normalized_events(old(self).clock_events@),
            ),
            sorted_desc(final(self).stopwatch_events@),
            sorted_desc(final(self).clock_events@),
            forall|i: int|
                0 <= i < final(self).stopwatch_events@.len() ==> wt_in_range(
                    #[trigger] final(self).stopwatch_events@[i].from_time,
                ),
            forall|i: int|
                0 <= i < final(self).clock_events@.len() ==> wt_in_range(
                    #[trigger] final(self).clock_events@[i].from_time,
                ),
            final(self).stopwatch_events@.to_multiset() == normalized_events(
                old(self).stopwatch_events@,
            ).to_multiset(),
            final(self).clock_events@.to_multiset() == normalized_events(
                old(self).clock_events@,
            ).to_multiset(),
            *final(self) == (State {
                stopwatch_events: final(self).stopwatch_events,
                clock_events: final(self).clock_events,
                ..*old(self)
            }),
    {
        normalize_events(&mut self.stopwatch_events);
        normalize_events(&mut self.clock_events);
        sort_events_desc(&mut self.stopwatch_events);
        sort_events_desc(&mut self.clock_events);
        proof {
            lemma_events_of_normalized_in_range(
                self.stopwatch_events@,
                normalized_events(old(self).stopwatch_events@),
                old(self).stopwatch_events@,
            );
            lemma_events_of_normalized_in_range(
                self.clock_events@,
                normalized_events(old(self).clock_events@),
                old(self).clock_events@,
            );
        }
    }

    /// The skin owed to the current stopwatch reading: the first event
    /// of the stopwatch list whose threshold it reaches, or the
    /// stopwatch default.
    pub fn find_skin_id_from_stopwatch_events(&self) -> (r: u64)
        ensures
            r == resolve_skin(
                self.stopwatch_events@,
                self.current_stopwatch_time,
                self.default_stopwatch_skin_id,
            ),
    {
        find_skin_id(
            &self.stopwatch_events,
            &self.current_stopwatch_time,
            self.default_stopwatch_skin_id,
        )
    }

    /// The skin owed to the current clock reading: the first event of
    /// the clock list whose threshold it reaches, or the clock default.
    pub fn find_skin_id_from_clock_events(&self) -> (r: u64)
        ensures
            r == resolve_skin(
                self.clock_events@,
                self.current_clock_time,
                self.default_clock_skin_id,
            ),
    {
        find_skin_id(&self.clock_events, &self.current_clock_time, self.default_clock_skin_id)
    }

    /// One running tick: add the elapsed microseconds to the sub-second
    /// carry, overwrite the centisecond field with the carried count,
    /// normalize, and keep only the sub-second remainder of the carry.
    /// Truncating, never rounding: the display may lag the carry by a
    /// fraction of a centisecond but never runs ahead of it.
    pub fn add_stopwatch_time(&mut self)
        requires
            hms_in_range(old(self).current_stopwatch_time),
        ensures
            *final(self) == (State {
                current_stopwatch_time: ticked_time(
                    old(self).current_stopwatch_time,
                    old(self).saved_micros,
                    old(self).dt_micros,
                ),
                saved_micros: ticked_saved(old(self).saved_micros, old(self).dt_micros),
                ..*old(self)
            }),
            wt_in_range(final(self).current_stopwatch_time),
            final(self).saved_micros < 1_000_000,
    {
        let sum: u64 = if self.saved_micros <= u64::MAX - self.dt_micros {
            self.saved_micros + self.dt_micros
        } else {
            u64::MAX
        };
        let q: u64 = sum / 10_000;
        self.current_stopwatch_time.cents = if q <= 0xffff_ffff {
            q as u32
        } else {
            u32::MAX
        };
        proof {
            lemma_div_is_ordered(
                self.current_stopwatch_time.cents as int,
                u32::MAX as int,
                100,
            );
            lemma_div_is_ordered(
                self.current_stopwatch_time.seconds + self.current_stopwatch_time.cents / 100,
                60 + u32::MAX / 100,
                60,
            );
            lemma_div_is_ordered(
                self.current_stopwatch_time.minutes + (self.current_stopwatch_time.seconds
                    + self.current_stopwatch_time.cents / 100) / 60,
                60 + (60 + u32::MAX / 100) / 60,
                60,
            );
        }
        self.current_stopwatch_time.normalize();
        self.saved_micros = sum % 1_000_000;
        proof {
            lemma_norm_spec_in_range(
                WatchTime {
                    cents: ticked_cents(old(self).saved_micros, old(self).dt_micros),
                    ..old(self).current_stopwatch_time
                },
            );
        }
    }

    /// Resample the wall clock into the clock reading; nothing else
    /// changes.  Which sample comes back depends on the machine's
    /// clock, so only its field ranges are promised here; what any
    /// given sample turns into is pinned by [`clock_time_of_sample`].
    pub fn set_clock(&mut self)
        ensures
            clock_sample_ok(final(self).current_clock_time),
            *final(self) == (State {
                current_clock_time: final(self).current_clock_time,
                ..*old(self)
            }),
    {
        let (h, m, s, n) = local_now_hmsn();
        self.current_clock_time = clock_time_of_sample(h, m, s, n);
    }
}

/// The clock reading a wall-clock sample stands for: the three
/// time-of-day fields as sampled, the nanoseconds truncated to
/// centiseconds.
pub fn clock_time_of_sample(hours: u32, minutes: u32, seconds: u32, nanoseconds: u32) -> (t:
    WatchTime)
    ensures
        t == (WatchTime { hours, minutes, seconds, cents: nanoseconds / 10_000_000 }),
{
    WatchTime { hours, minutes, seconds, cents: nanoseconds / 10_000_000 }
}

/// The shared scan behind the two skin lookups.
fn find_skin_id(events: &Vec<SkinSwitchEvent>, t: &WatchTime, default_id: u64) -> (r: u64)
    ensures
        r == resolve_skin(events@, *t, default_id),
{
    let tv = t.to_u128();
    proof {
        assert(events@.skip(0) =~= events@);
    }
    let mut i: usize = 0;
    while i < events.len()
        invariant
            0 <= i <= events@.len(),
            tv == wt_value(*t),
            resolve_skin(events@.skip(i as int), *t, default_id) == resolve_skin(
                events@,
                *t,
                default_id,
            ),
        decreases events@.len() - i,
    {
        let ev = events[i];
        proof {
            assert(events@.skip(i as int)[0] == events@[i as int]);
        }
        if ev.from_time.to_u128() <= tv {
            return ev.skin_id;
        }
        proof {
            assert(events@.skip(i as int).skip(1) =~= events@.skip(i as int + 1));
        }
        i = i + 1;
    }
    proof {
        assert(events@.skip(i as int) =~= Seq::<SkinSwitchEvent>::empty());
    }
    default_id
}

/// Normalize every threshold of the list in place.
fn normalize_events(events: &mut Vec<SkinSwitchEvent>)
    requires
        forall|i: int|
            0 <= i < old(events)@.len() ==> norm_ok(#[trigger] old(events)@[i].from_time),
    ensures
        final(events)@ == normalized_events(old(events)@),
{
    let ghost orig = events@;
    let mut i: usize = 0;
    while i < events.len()
        invariant
            0 <= i <= orig.len(),
            events@.len() == orig.len(),
            forall|j: int| i <= j < orig.len() ==> events@[j] == orig[j],
            forall|j: int|
                0 <= j < i ==> events@[j] == (SkinSwitchEvent {
                    from_time: norm_spec(orig[j].from_time),
                    ..orig[j]
                }),
            forall|j: int| 0 <= j < orig.len() ==> norm_ok(#[trigger] orig[j].from_time),
        decreases orig.len() - i,
    {
        let mut e = events[i];
        proof {
            assert(events@[i as int] == orig[i as int]);
            assert(norm_ok(orig[i as int].from_time));
        }
        e.from_time.normalize();
        events[i] = e;
        i = i + 1;
    }
    proof {
        assert(events@ =~= normalized_events(orig));
    }
}

/// The decomposition of a sub-100-hour centisecond count is in range
/// and counts back out to the same total.
pub proof fn lemma_wt_of_total_fields(n: int)
    requires
        0 <= n < 36_000_000,
    ensures
        wt_in_range(wt_of_total(n)),
        total_cents(wt_of_total(n)) == n,
{
    lemma_div_is_ordered(n, 35_999_999, 360_000);
    lemma_fundamental_div_mod(n, 100);
    lemma_fundamental_div_mod(n / 100, 60);
    lemma_div_denominator(n, 100, 60);
    lemma_fundamental_div_mod(n / 6_000, 60);
    lemma_div_denominator(n, 6_000, 60);
}

/// For in-range readings the packed order and the centisecond count
/// order are the same order.
pub proof fn lemma_order_by_total(a: WatchTime, b: WatchTime)
    requires
        wt_in_range(a),
        wt_in_range(b),
    ensures
        wt_value(a) < wt_value(b) <==> total_cents(a) < total_cents(b),
        wt_value(a) == wt_value(b) <==> total_cents(a) == total_cents(b),
{
    lemma_value_order_is_lex(a, b);
    lemma_value_order_is_lex(b, a);
    if wt_lex_lt(a, b) {
        assert(total_cents(a) < total_cents(b));
    }
    if wt_lex_lt(b, a) {
        assert(total_cents(b) < total_cents(a));
    }
}

/// One running tick never turns the stopwatch back: with the
/// centisecond field coupled to the sub-second carry, as every reset
/// and every running tick leaves it, and short of the 100-hour wrap,
/// the reading after the tick is at least the reading before it —
/// whatever the elapsed time was.  The coupling is re-established, so
/// the guarantee carries from tick to tick.
pub proof fn lemma_running_tick_monotonic(t: WatchTime, saved: u64, dt: u64)
    requires
        wt_in_range(t),
        t.cents == saved / 10_000,
        ((t.hours * 60 + t.minutes) * 60 + t.seconds) * 100 + ticked_cents(saved, dt)
            < 36_000_000,
    ensures
        wt_value(ticked_time(t, saved, dt)) >= wt_value(t),
        wt_in_range(ticked_time(t, saved, dt)),
        ticked_time(t, saved, dt).cents == ticked_saved(saved, dt) / 10_000,
{
    let sum = ticked_sum(saved, dt);
    let tc = ticked_cents(saved, dt);
    let base = ((t.hours * 60 + t.minutes) * 60 + t.seconds) * 100;
    let pre = WatchTime { cents: tc, ..t };

    // The carried count never falls below the centiseconds shown.
    lemma_div_is_ordered(saved as int, sum, 10_000);
    assert(tc >= t.cents);

    // No saturation: a saturated count would overshoot 100 hours.
    assert(sum / 10_000 <= u32::MAX);

    // The tick's reading is the plain decomposition of base + tc.
    assert(total_cents(pre) == base + tc);
    lemma_fundamental_div_mod_converse(base + tc, 36_000_000, 0, base + tc);
    assert(ticked_time(t, saved, dt) == wt_of_total(base + tc));
    lemma_wt_of_total_fields(base + tc);

    // Monotonicity, via the count order.
    assert(total_cents(t) == base + t.cents);
    lemma_order_by_total(t, ticked_time(t, saved, dt));

    // The new centisecond field is the carry's centisecond part again.
    let a = sum / 1_000_000;
    let r = sum % 1_000_000;
    lemma_fundamental_div_mod(sum, 1_000_000);
    lemma_fundamental_div_mod(r, 10_000);
    lemma_div_is_ordered(r, 999_999, 10_000);
    lemma_fundamental_div_mod_converse(sum, 10_000, a * 100 + r / 10_000, r % 10_000);
    lemma_fundamental_div_mod_converse(a * 100 + r / 10_000, 100, a, r / 10_000);
    assert(tc % 100 == r / 10_000);
    assert(ticked_time(t, saved, dt).cents == (base + tc) % 100);
    lemma_fundamental_div_mod_converse(
        base + tc,
        100,
        (t.hours * 60 + t.minutes) * 60 + t.seconds + tc / 100,
        tc as int % 100,
    );
    lemma_fundamental_div_mod(tc as int, 100);
}

/// Rearranging a list of normalized events only exposes in-range
/// thresholds: every event of the rearrangement is one of the
/// normalized events, whose threshold normalization put in range.
proof fn lemma_events_of_normalized_in_range(
    rearranged: Seq<SkinSwitchEvent>,
    normed: Seq<SkinSwitchEvent>,
    orig: Seq<SkinSwitchEvent>,
)
    requires
        normed == normalized_events(orig),
        rearranged.to_multiset() == normed.to_multiset(),
    ensures
        forall|i: int|
            0 <= i < rearranged.len() ==> wt_in_range(#[trigger] rearranged[i].from_time),
{
    broadcast use vstd::seq_lib::group_to_multiset_ensures;

    assert forall|i: int| 0 <= i < rearranged.len() implies wt_in_range(
        #[trigger] rearranged[i].from_time,
    ) by {
        let e = rearranged[i];
        assert(rearranged.contains(e));
        assert(normed.to_multiset().count(e) > 0);
        assert(normed.contains(e));
        let j = choose|j: int| 0 <= j < normed.len() && normed[j] == e;
        lemma_norm_spec_in_range(orig[j].from_time);
    }
}

/// Sort the list by descending threshold, stably: the result is
/// exactly [`sort_desc_spec`] of the input.
fn sort_events_desc(events: &mut Vec<SkinSwitchEvent>)
    ensures
        final(events)@ == sort_desc_spec(old(events)@),
        final(events)@.len() == old(events)@.len(),
        sorted_desc(final(events)@),
        final(events)@.to_multiset() == old(events)@.to_multiset(),
{
    broadcast use vstd::seq_lib::group_to_multiset_ensures;

    let ghost orig = events@;
    let mut out: Vec<SkinSwitchEvent> = Vec::new();
    proof {
        assert(orig.subrange(0, 0) =~= Seq::<SkinSwitchEvent>::empty());
    }
    let mut i: usize = 0;
    while i < events.len()
        invariant
            events@ == orig,
            0 <= i <= orig.len(),
            out@.len() == i,
            sorted_desc(out@),
            out@ == sort_desc_spec(orig.subrange(0, i as int)),
            out@.to_multiset() == orig.subrange(0, i as int).to_multiset(),
        decreases orig.len() - i,
    {
        let e = events[i];
        let ev = e.from_time.to_u128();
        let ghost out_before = out@;
        let mut p: usize = 0;
        while p < out.len() && out[p].from_time.to_u128() >= ev
            invariant
                0 <= p <= out@.len(),
                out@ == out_before,
                ev == wt_value(e.from_time),
                forall|k: int|
                    0 <= k < p ==> wt_value(#[trigger] out@[k].from_time) >= wt_value(e.from_time),
            decreases out@.len() - p,
        {
            p = p + 1;
        }
        out.insert(p, e);
        proof {
            assert forall|k1: int, k2: int| 0 <= k1 < k2 < out@.len() implies wt_value(
                #[trigger] out@[k1].from_time,
            ) >= wt_value(#[trigger] out@[k2].from_time) by {
                if k1 < p && k2 > p {
                    assert(out@[k1] == out_before[k1]);
                    assert(out@[k2] == out_before[k2 - 1]);
                }
            }
            lemma_insert_desc_at(out_before, e, p as int);
            assert(orig.subrange(0, i + 1).drop_last() =~= orig.subrange(0, i as int));
            assert(orig.subrange(0, i + 1).last() == orig[i as int]);
            assert(out@ == sort_desc_spec(orig.subrange(0, i + 1)));
            vstd::seq_lib::to_multiset_insert(out_before, p as int, e);
            orig.subrange(0, i as int).to_multiset_ensures();
            assert(orig.subrange(0, i as int).push(orig[i as int]).to_multiset()
                =~= orig.subrange(0, i as int).to_multiset().insert(orig[i as int]));
            assert(orig.subrange(0, i + 1) =~= orig.subrange(0, i as int).push(orig[i as int]));
            assert(out@.to_multiset() == orig.subrange(0, i + 1).to_multiset());
        }
        i = i + 1;
    }
    proof {
        assert(orig.subrange(0, orig.len() as int) =~= orig);
    }
    *events = out;
}

} // verus!
