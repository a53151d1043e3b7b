//! The persistent-state codec: the subset of watch state that survives
//! a restart — the mode and the stopwatch reading with its sub-second
//! carry — written to and read back from a compact self-describing
//! binary form.
//!
//! Every value in the byte form is a tagged node: a 4-byte
//! little-endian header whose top bit tells a pair (head and tail)
//! from an atom (raw payload bytes), and whose low 31 bits give the
//! head's or payload's size.  A list is a chain of pairs ended by an
//! empty atom.  The record is a two-entry list — the mode under
//! [`SYMBOL_WATCH_MODE`], the reading under
//! [`SYMBOL_STOPWATCH_TIME`] — with every field addressed by a 64-bit
//! symbol, the FNV-1a hash of its name, so the form needs no string
//! table.
//!
//! Decoding never fails the host: any malformed, truncated or foreign
//! byte sequence yields "no value", and the caller falls back to
//! defaults ([`decoded_save`] states exactly which sequences yield
//! which values).

use vstd::prelude::*;
use vstd::arithmetic::div_mod::{
    lemma_fundamental_div_mod, lemma_fundamental_div_mod_converse, lemma_div_denominator,
    lemma_div_is_ordered,
};
use crate::state::{StopwatchMode, WatchMode, WatchTime};

verus! {

/// The FNV-1a hash of `"watch_mode"`, tagging the mode entry.
pub const SYMBOL_WATCH_MODE: u64 = 0x88e8983b3a4ae222;

/// The FNV-1a hash of `"stopwatch"`, naming a stopwatch mode.
pub const SYMBOL_STOPWATCH: u64 = 0x73d0846b19b8efe8;

/// The FNV-1a hash of `"clock"`, naming the clock mode.
pub const SYMBOL_CLOCK: u64 = 0x9e8c579513934bbd;

/// The FNV-1a hash of `"stopwatch_time"`, tagging the reading entry.
pub const SYMBOL_STOPWATCH_TIME: u64 = 0xd32cee6f88098a34;

/// A 32-bit value as four little-endian bytes.  Kept opaque so byte
/// sequences built from many values stay small terms; the byte-level
/// definition matters only to [`push_le32`] and the read-back lemma.
#[verifier::opaque]
pub open spec fn le32(v: u32) -> Seq<u8> {
    seq![
        (v % 0x100) as u8,
        ((v / 0x100) % 0x100) as u8,
        ((v / 0x10000) % 0x100) as u8,
        ((v / 0x1000000) % 0x100) as u8,
    ]
}

/// A 64-bit value as eight little-endian bytes.
pub open spec fn le64(v: u64) -> Seq<u8> {
    le32((v % 0x100000000) as u32) + le32((v / 0x100000000) as u32)
}

/// The value of a sequence's first four bytes, read little-endian.
pub open spec fn le32_val(b: Seq<u8>) -> int
    recommends
        b.len() >= 4,
{
    b[0] + b[1] * 0x100 + b[2] * 0x10000 + b[3] * 0x1000000
}

/// The value of a sequence's first eight bytes, read little-endian.
pub open spec fn le64_val(b: Seq<u8>) -> int
    recommends
        b.len() >= 8,
{
    le32_val(b) + le32_val(b.skip(4)) * 0x100000000
}

/// Four little-endian bytes are four bytes.
pub broadcast proof fn lemma_le32_len(v: u32)
    ensures
        (#[trigger] le32(v)).len() == 4,
{
    reveal(le32);
}

/// Reading four little-endian bytes back gives the value written.
proof fn lemma_le32_val_of_le32(v: u32)
    ensures
        le32_val(le32(v)) == v,
{
    reveal(le32);
    lemma_fundamental_div_mod(v as int, 0x100);
    lemma_fundamental_div_mod(v as int / 0x100, 0x100);
    lemma_div_denominator(v as int, 0x100, 0x100);
    lemma_fundamental_div_mod(v as int / 0x10000, 0x100);
    lemma_div_denominator(v as int, 0x10000, 0x100);
    lemma_div_is_ordered(v as int, u32::MAX as int, 0x1000000);
    lemma_fundamental_div_mod_converse(
        v as int / 0x1000000,
        0x100,
        0,
        v as int / 0x1000000,
    );
}

/// Reading eight little-endian bytes back gives the value written.
proof fn lemma_le64_val_of_le64(v: u64)
    ensures
        le64_val(le64(v)) == v,
{
    broadcast use lemma_le32_len;

    let lo = (v % 0x100000000) as u32;
    let hi = (v / 0x100000000) as u32;
    assert(le64(v).skip(4) =~= le32(hi));
    lemma_le32_val_of_le32(lo);
    lemma_le32_val_of_le32(hi);
    lemma_fundamental_div_mod(v as int, 0x100000000);
}

/// The header of a pair node whose head takes `car_len` bytes.
pub open spec fn cons_hdr(car_len: int) -> Seq<u8>
    recommends
        0 <= car_len < 0x80000000,
{
    le32((0x80000000 + car_len) as u32)
}

/// An atom node holding a 32-bit value.
pub open spec fn atom_u32(v: u32) -> Seq<u8> {
    le32(4) + le32(v)
}

/// An atom node holding a 64-bit value.
pub open spec fn atom_u64(v: u64) -> Seq<u8> {
    le32(8) + le64(v)
}

/// The empty atom that ends every list.
pub open spec fn nil_sexpr() -> Seq<u8> {
    le32(0)
}

/// One list link: a pair node carrying `x` as its head; the bytes that
/// follow are the list's tail.
pub open spec fn list_item(x: Seq<u8>) -> Seq<u8>
    recommends
        x.len() < 0x80000000,
{
    cons_hdr(x.len() as int) + x
}

/// The symbol a mode is stored under.  The running/stopped distinction
/// is deliberately not persisted: both stopwatch sub-modes store the
/// same symbol, and a restored stopwatch always starts stopped.
pub open spec fn mode_symbol(mode: WatchMode) -> u64 {
    match mode {
        WatchMode::Stopwatch(_) => SYMBOL_STOPWATCH,
        WatchMode::Clock => SYMBOL_CLOCK,
    }
}

/// The mode a stored symbol restores to.
pub open spec fn degraded_mode(mode: WatchMode) -> WatchMode {
    match mode {
        WatchMode::Stopwatch(_) => WatchMode::Stopwatch(StopwatchMode::Stopped),
        WatchMode::Clock => WatchMode::Clock,
    }
}

/// The mode entry: a two-element list of the tag symbol and the mode
/// symbol.
pub open spec fn mode_section(mode: WatchMode) -> Seq<u8> {
    list_item(atom_u64(SYMBOL_WATCH_MODE)) + list_item(atom_u64(mode_symbol(mode)))
        + nil_sexpr()
}

/// The reading entry: a six-element list of the tag symbol, the four
/// time fields, and the sub-second carry bits.
pub open spec fn time_section(t: WatchTime, saved_bits: u32) -> Seq<u8> {
    list_item(atom_u64(SYMBOL_STOPWATCH_TIME)) + list_item(atom_u32(t.hours)) + list_item(
        atom_u32(t.minutes),
    ) + list_item(atom_u32(t.seconds)) + list_item(atom_u32(t.cents)) + list_item(
        atom_u32(saved_bits),
    ) + nil_sexpr()
}

/// The whole record: a two-entry list of the mode entry and the
/// reading entry.  Encoding is deterministic: equal values give
/// byte-identical records.
pub open spec fn encoded_save(mode: WatchMode, t: WatchTime, saved_bits: u32) -> Seq<u8> {
    list_item(mode_section(mode)) + list_item(time_section(t, saved_bits)) + nil_sexpr()
}

/// Append a 32-bit value, little-endian.
fn push_le32(buf: &mut Vec<u8>, v: u32)
    ensures
        final(buf)@ == old(buf)@ + le32(v),
{
    buf.push((v % 0x100) as u8);
    buf.push(((v / 0x100) % 0x100) as u8);
    buf.push(((v / 0x10000) % 0x100) as u8);
    buf.push(((v / 0x1000000) % 0x100) as u8);
    proof {
        reveal(le32);
        assert(buf@ =~= old(buf)@ + le32(v));
    }
}

/// Append a 64-bit value, little-endian.
fn push_le64(buf: &mut Vec<u8>, v: u64)
    ensures
        final(buf)@ == old(buf)@ + le64(v),
{
    broadcast use lemma_le32_len;

    push_le32(buf, (v % 0x100000000) as u32);
    push_le32(buf, (v / 0x100000000) as u32);
    proof {
        assert(buf@ =~= old(buf)@ + le64(v));
    }
}

/// The persisted subset of watch state: the mode (running degraded to
/// stopped), the stopwatch reading, and the sub-second carry as the
/// raw bits of the host's 32-bit float — carried through untouched so
/// repeated save/load cycles cannot drift.
///
/// Equality compares the mode and the reading only: the carry is
/// continuous state, no resume discriminator.
#[derive(Debug, Clone)]
pub struct SaveData {
    pub watch_mode: WatchMode,
    pub stopwatch_time: WatchTime,
    pub saved_time_bits: u32,
}

impl PartialEq for SaveData {
    fn eq(&self, other: &Self) -> (r: bool) {
        self.watch_mode == other.watch_mode && self.stopwatch_time == other.stopwatch_time
    }
}

impl vstd::std_specs::cmp::PartialEqSpecImpl for SaveData {
    open spec fn obeys_eq_spec() -> bool {
        true
    }

    open spec fn eq_spec(&self, other: &Self) -> bool {
        self.watch_mode == other.watch_mode && self.stopwatch_time == other.stopwatch_time
    }
}

impl SaveData {
    /// Package the values to persist.
    pub fn from_variables(
        watch_mode: WatchMode,
        stopwatch_time: WatchTime,
        saved_time_bits: u32,
    ) -> (r: Self)
        ensures
            r == (SaveData { watch_mode, stopwatch_time, saved_time_bits }),
    {
        SaveData { watch_mode, stopwatch_time, saved_time_bits }
    }

    /// Serialize the record into `buf`, replacing its contents with
    /// exactly the bytes of [`encoded_save`].
    #[verifier::rlimit(60)]
    pub fn write_bytes(&mut self, buf: &mut Vec<u8>)
        ensures
            *final(self) == *old(self),
            final(buf)@ == encoded_save(
                old(self).watch_mode,
                old(self).stopwatch_time,
                old(self).saved_time_bits,
            ),
    {
        broadcast use lemma_le32_len;

        let mode_symbol_value: u64 = match self.watch_mode {
            WatchMode::Stopwatch(..) => SYMBOL_STOPWATCH,
            WatchMode::Clock => SYMBOL_CLOCK,
        };

        buf.clear();

        // The mode entry: 36 bytes behind its list header.
        push_le32(buf, 0x80000024);
        push_le32(buf, 0x8000000c);
        push_le32(buf, 8);
        push_le64(buf, SYMBOL_WATCH_MODE);
        push_le32(buf, 0x8000000c);
        push_le32(buf, 8);
        push_le64(buf, mode_symbol_value);
        push_le32(buf, 0);

        // The reading entry: 80 bytes behind its list header.
        push_le32(buf, 0x80000050);
        push_le32(buf, 0x8000000c);
        push_le32(buf, 8);
        push_le64(buf, SYMBOL_STOPWATCH_TIME);
        push_le32(buf, 0x80000008);
        push_le32(buf, 4);
        push_le32(buf, self.stopwatch_time.hours);
        push_le32(buf, 0x80000008);
        push_le32(buf, 4);
        push_le32(buf, self.stopwatch_time.minutes);
        push_le32(buf, 0x80000008);
        push_le32(buf, 4);
        push_le32(buf, self.stopwatch_time.seconds);
        push_le32(buf, 0x80000008);
        push_le32(buf, 4);
        push_le32(buf, self.stopwatch_time.cents);
        push_le32(buf, 0x80000008);
        push_le32(buf, 4);
        push_le32(buf, self.saved_time_bits);
        push_le32(buf, 0);

        // The end of the top-level list.
        push_le32(buf, 0);

        proof {
            assert(buf@ =~= encoded_save(
                self.watch_mode,
                self.stopwatch_time,
                self.saved_time_bits,
            ));
        }
    }
}

/// Split a byte sequence as a pair node: the head and the tail, or
/// nothing if the sequence does not start with a complete pair header
/// whose head fits.
pub open spec fn split_cons(b: Seq<u8>) -> Option<(Seq<u8>, Seq<u8>)> {
    if b.len() >= 4 && le32_val(b) >= 0x80000000 && le32_val(b) - 0x80000000 <= b.len() - 4 {
        let size = le32_val(b) - 0x80000000;
        Some((b.subrange(4, 4 + size), b.subrange(4 + size, b.len() as int)))
    } else {
        None
    }
}

/// Read a byte sequence as an atom holding exactly a 32-bit value.
pub open spec fn read_u32_atom(b: Seq<u8>) -> Option<u32> {
    if b.len() >= 8 && le32_val(b) == 4 {
        Some(le32_val(b.skip(4)) as u32)
    } else {
        None
    }
}

/// Read a byte sequence as an atom holding exactly a 64-bit value.
pub open spec fn read_u64_atom(b: Seq<u8>) -> Option<u64> {
    if b.len() >= 12 && le32_val(b) == 8 {
        Some(le64_val(b.skip(4)) as u64)
    } else {
        None
    }
}

/// Parse a mode entry's payload: its first element must be an atom
/// naming a known mode; a stored stopwatch restores as stopped.
pub open spec fn parse_mode(b: Seq<u8>) -> Option<WatchMode> {
    match split_cons(b) {
        Some((car, _)) => match read_u64_atom(car) {
            Some(sym) => if sym == SYMBOL_STOPWATCH {
                Some(WatchMode::Stopwatch(StopwatchMode::Stopped))
            } else if sym == SYMBOL_CLOCK {
                Some(WatchMode::Clock)
            } else {
                None
            },
            None => None,
        },
        None => None,
    }
}

/// Parse a reading entry's payload: four 32-bit fields — hours,
/// minutes, seconds, centiseconds — then the carry bits.
pub open spec fn parse_time(b: Seq<u8>) -> Option<(WatchTime, u32)> {
    match split_cons(b) {
        Some((c1, r1)) => match read_u32_atom(c1) {
            Some(hours) => match split_cons(r1) {
                Some((c2, r2)) => match read_u32_atom(c2) {
                    Some(minutes) => match split_cons(r2) {
                        Some((c3, r3)) => match read_u32_atom(c3) {
                            Some(seconds) => match split_cons(r3) {
                                Some((c4, r4)) => match read_u32_atom(c4) {
                                    Some(cents) => match split_cons(r4) {
                                        Some((c5, _)) => match read_u32_atom(c5) {
                                            Some(bits) => Some(
                                                (
                                                    WatchTime { hours, minutes, seconds, cents },
                                                    bits,
                                                ),
                                            ),
                                            None => None,
                                        },
                                        None => None,
                                    },
                                    None => None,
                                },
                                None => None,
                            },
                            None => None,
                        },
                        None => None,
                    },
                    None => None,
                },
                None => None,
            },
            None => None,
        },
        None => None,
    }
}

/// Walk the top-level list.  Each entry is a pair whose head is a
/// 64-bit tag atom: a recognized tag replaces that part of the result
/// (a later entry wins); an unrecognized tag, or an entry that is no
/// tagged pair, rejects the whole record.  The walk ends at the first
/// node that is no pair; the record is accepted only if both parts
/// were seen and parsed.
pub open spec fn scan_entries(
    b: Seq<u8>,
    wm: Option<WatchMode>,
    st: Option<(WatchTime, u32)>,
) -> Option<(WatchMode, WatchTime, u32)>
    decreases b.len(),
{
    match split_cons(b) {
        None => match (wm, st) {
            (Some(m), Some((t, bits))) => Some((m, t, bits)),
            _ => None,
        },
        Some((entry, rest)) => match split_cons(entry) {
            None => None,
            Some((tag_car, tag_cdr)) => match read_u64_atom(tag_car) {
                None => None,
                Some(tag) => if tag == SYMBOL_WATCH_MODE {
                    scan_entries(rest, parse_mode(tag_cdr), st)
                } else if tag == SYMBOL_STOPWATCH_TIME {
                    scan_entries(rest, wm, parse_time(tag_cdr))
                } else {
                    None
                },
            },
        },
    }
}

/// What a byte sequence decodes to, if anything.
pub open spec fn decoded_save(b: Seq<u8>) -> Option<(WatchMode, WatchTime, u32)> {
    scan_entries(b, None, None)
}

/// Concatenation reassociates: the grouping of a byte sequence built
/// from pieces does not matter.
proof fn lemma_add_assoc(a: Seq<u8>, b: Seq<u8>, c: Seq<u8>)
    ensures
        (a + b) + c == a + (b + c),
{
    assert((a + b) + c =~= a + (b + c));
}

/// A list link splits into exactly the head it carries and the bytes
/// that follow.
proof fn lemma_split_list_item(x: Seq<u8>, rest: Seq<u8>)
    requires
        x.len() < 0x80000000,
    ensures
        split_cons(list_item(x) + rest) == Some((x, rest)),
{
    broadcast use lemma_le32_len;

    let b = list_item(x) + rest;
    let hv = (0x80000000 + x.len()) as u32;
    lemma_le32_val_of_le32(hv);
    assert(le32_val(b) == le32_val(le32(hv)));
    assert(b.subrange(4, 4 + x.len() as int) =~= x);
    assert(b.subrange(4 + x.len() as int, b.len() as int) =~= rest);
}

/// A 32-bit atom reads back the value it holds.
proof fn lemma_read_u32_of_atom(v: u32)
    ensures
        read_u32_atom(atom_u32(v)) == Some(v),
{
    broadcast use lemma_le32_len;

    let b = atom_u32(v);
    lemma_le32_val_of_le32(4);
    assert(le32_val(b) == le32_val(le32(4)));
    assert(b.skip(4) =~= le32(v));
    lemma_le32_val_of_le32(v);
}

/// A 64-bit atom reads back the value it holds.
proof fn lemma_read_u64_of_atom(v: u64)
    ensures
        read_u64_atom(atom_u64(v)) == Some(v),
{
    broadcast use lemma_le32_len;

    let b = atom_u64(v);
    lemma_le32_val_of_le32(8);
    assert(le32_val(b) == le32_val(le32(8)));
    assert(b.skip(4) =~= le64(v));
    lemma_le64_val_of_le64(v);
}

/// The list terminator is no pair: walking a list stops at it.
proof fn lemma_split_nil()
    ensures
        split_cons(nil_sexpr()) is None,
{
    broadcast use lemma_le32_len;

    lemma_le32_val_of_le32(0);
}

/// The mode entry parses back to the degraded mode.
proof fn lemma_mode_entry(mode: WatchMode)
    ensures
        split_cons(mode_section(mode)) == Some(
            (
                atom_u64(SYMBOL_WATCH_MODE),
                list_item(atom_u64(mode_symbol(mode))) + nil_sexpr(),
            ),
        ),
        read_u64_atom(atom_u64(SYMBOL_WATCH_MODE)) == Some(SYMBOL_WATCH_MODE),
        parse_mode(list_item(atom_u64(mode_symbol(mode))) + nil_sexpr()) == Some(
            degraded_mode(mode),
        ),
{
    broadcast use lemma_le32_len;

    let m_tag = atom_u64(SYMBOL_WATCH_MODE);
    let m_cdr = list_item(atom_u64(mode_symbol(mode))) + nil_sexpr();
    lemma_add_assoc(
        list_item(m_tag),
        list_item(atom_u64(mode_symbol(mode))),
        nil_sexpr(),
    );
    lemma_split_list_item(m_tag, m_cdr);
    lemma_read_u64_of_atom(SYMBOL_WATCH_MODE);
    lemma_split_list_item(atom_u64(mode_symbol(mode)), nil_sexpr());
    lemma_read_u64_of_atom(mode_symbol(mode));
}

/// The reading entry parses back to the reading and the carry bits.
proof fn lemma_time_entry(t: WatchTime, bits: u32)
    ensures
        ({
            let t_cdr = list_item(atom_u32(t.hours)) + (list_item(atom_u32(t.minutes)) + (
            list_item(atom_u32(t.seconds)) + (list_item(atom_u32(t.cents)) + (list_item(
                atom_u32(bits),
            ) + nil_sexpr()))));
            &&& split_cons(time_section(t, bits)) == Some(
                (atom_u64(SYMBOL_STOPWATCH_TIME), t_cdr),
            )
            &&& read_u64_atom(atom_u64(SYMBOL_STOPWATCH_TIME)) == Some(SYMBOL_STOPWATCH_TIME)
            &&& parse_time(t_cdr) == Some((t, bits))
        }),
{
    broadcast use lemma_le32_len;

    let t_tag = atom_u64(SYMBOL_STOPWATCH_TIME);
    let j1 = list_item(atom_u32(t.hours));
    let j2 = list_item(atom_u32(t.minutes));
    let j3 = list_item(atom_u32(t.seconds));
    let j4 = list_item(atom_u32(t.cents));
    let j5 = list_item(atom_u32(bits));
    let t_cdr = j1 + (j2 + (j3 + (j4 + (j5 + nil_sexpr()))));
    let a1 = list_item(t_tag) + j1;
    let a2 = a1 + j2;
    let a3 = a2 + j3;
    let a4 = a3 + j4;
    lemma_add_assoc(a4, j5, nil_sexpr());
    lemma_add_assoc(a3, j4, j5 + nil_sexpr());
    lemma_add_assoc(a2, j3, j4 + (j5 + nil_sexpr()));
    lemma_add_assoc(a1, j2, j3 + (j4 + (j5 + nil_sexpr())));
    lemma_add_assoc(list_item(t_tag), j1, j2 + (j3 + (j4 + (j5 + nil_sexpr()))));
    assert(time_section(t, bits) == list_item(t_tag) + t_cdr);
    lemma_split_list_item(t_tag, t_cdr);
    lemma_read_u64_of_atom(SYMBOL_STOPWATCH_TIME);
    lemma_split_list_item(atom_u32(t.hours), j2 + (j3 + (j4 + (j5 + nil_sexpr()))));
    lemma_read_u32_of_atom(t.hours);
    lemma_split_list_item(atom_u32(t.minutes), j3 + (j4 + (j5 + nil_sexpr())));
    lemma_read_u32_of_atom(t.minutes);
    lemma_split_list_item(atom_u32(t.seconds), j4 + (j5 + nil_sexpr()));
    lemma_read_u32_of_atom(t.seconds);
    lemma_split_list_item(atom_u32(t.cents), j5 + nil_sexpr());
    lemma_read_u32_of_atom(t.cents);
    lemma_split_list_item(atom_u32(bits), nil_sexpr());
    lemma_read_u32_of_atom(bits);
    assert(WatchTime {
        hours: t.hours,
        minutes: t.minutes,
        seconds: t.seconds,
        cents: t.cents,
    } == t);
}

/// One walk step over an entry tagged as the mode entry: the walk
/// carries the parsed mode on.
proof fn lemma_scan_step_mode(
    b: Seq<u8>,
    entry: Seq<u8>,
    tag_car: Seq<u8>,
    tag_cdr: Seq<u8>,
    rest: Seq<u8>,
    m: Option<WatchMode>,
    wm: Option<WatchMode>,
    st: Option<(WatchTime, u32)>,
)
    requires
        split_cons(b) == Some((entry, rest)),
        split_cons(entry) == Some((tag_car, tag_cdr)),
        read_u64_atom(tag_car) == Some(SYMBOL_WATCH_MODE),
        parse_mode(tag_cdr) == m,
    ensures
        scan_entries(b, wm, st) == scan_entries(rest, m, st),
{
}

/// One walk step over an entry tagged as the reading entry: the walk
/// carries the parsed reading on.
proof fn lemma_scan_step_time(
    b: Seq<u8>,
    entry: Seq<u8>,
    tag_car: Seq<u8>,
    tag_cdr: Seq<u8>,
    rest: Seq<u8>,
    p: Option<(WatchTime, u32)>,
    wm: Option<WatchMode>,
    st: Option<(WatchTime, u32)>,
)
    requires
        split_cons(b) == Some((entry, rest)),
        split_cons(entry) == Some((tag_car, tag_cdr)),
        read_u64_atom(tag_car) == Some(SYMBOL_STOPWATCH_TIME),
        parse_time(tag_cdr) == p,
    ensures
        scan_entries(b, wm, st) == scan_entries(rest, wm, p),
{
}

/// The walk ends where no pair starts, accepting a complete result.
proof fn lemma_scan_finish(b: Seq<u8>, m: WatchMode, t: WatchTime, bits: u32)
    requires
        split_cons(b) is None,
    ensures
        scan_entries(b, Some(m), Some((t, bits))) == Some((m, t, bits)),
{
}

/// Round trip: decoding an encoded record gives back the reading and
/// the carry bits exactly, and the mode up to the one deliberate loss
/// — a running stopwatch restores as stopped.
#[verifier::rlimit(100)]
#[verifier::spinoff_prover]
pub proof fn lemma_save_round_trip(mode: WatchMode, t: WatchTime, bits: u32)
    ensures
        decoded_save(encoded_save(mode, t, bits)) == Some((degraded_mode(mode), t, bits)),
{
    broadcast use lemma_le32_len;

    let b = encoded_save(mode, t, bits);
    let ms = mode_section(mode);
    let ts = time_section(t, bits);
    let rest1 = list_item(ts) + nil_sexpr();
    let dm = degraded_mode(mode);
    let m_cdr = list_item(atom_u64(mode_symbol(mode))) + nil_sexpr();
    let t_cdr = list_item(atom_u32(t.hours)) + (list_item(atom_u32(t.minutes)) + (list_item(
        atom_u32(t.seconds),
    ) + (list_item(atom_u32(t.cents)) + (list_item(atom_u32(bits)) + nil_sexpr()))));

    lemma_add_assoc(list_item(ms), list_item(ts), nil_sexpr());
    assert(b == list_item(ms) + rest1);
    lemma_split_list_item(ms, rest1);
    lemma_mode_entry(mode);
    lemma_scan_step_mode(
        b,
        ms,
        atom_u64(SYMBOL_WATCH_MODE),
        m_cdr,
        rest1,
        Some(dm),
        None,
        None,
    );

    lemma_split_list_item(ts, nil_sexpr());
    lemma_time_entry(t, bits);
    lemma_scan_step_time(
        rest1,
        ts,
        atom_u64(SYMBOL_STOPWATCH_TIME),
        t_cdr,
        nil_sexpr(),
        Some((t, bits)),
        Some(dm),
        None,
    );

    lemma_split_nil();
    lemma_scan_finish(nil_sexpr(), dm, t, bits);
}

/// Strict rejection: a record whose first entry is tagged with any
/// unrecognized symbol decodes to nothing, whatever the entry carries
/// and whatever follows it.
pub proof fn lemma_unknown_tag_rejected(tag: u64, payload: Seq<u8>, rest: Seq<u8>)
    requires
        tag != SYMBOL_WATCH_MODE,
        tag != SYMBOL_STOPWATCH_TIME,
        payload.len() + 16 < 0x80000000,
    ensures
        decoded_save(list_item(list_item(atom_u64(tag)) + payload) + rest) is None,
{
    broadcast use lemma_le32_len;

    let entry = list_item(atom_u64(tag)) + payload;
    lemma_split_list_item(entry, rest);
    lemma_split_list_item(atom_u64(tag), payload);
    lemma_read_u64_of_atom(tag);
}

/// Truncation is rejected: a prefix of an encoded record that ends
/// anywhere before the final list terminator decodes to nothing.
#[verifier::spinoff_prover]
pub proof fn lemma_truncated_rejected(mode: WatchMode, t: WatchTime, bits: u32, k: int)
    requires
        0 <= k < encoded_save(mode, t, bits).len() - 4,
    ensures
        decoded_save(encoded_save(mode, t, bits).take(k)) is None,
{
    broadcast use lemma_le32_len;

    let b = encoded_save(mode, t, bits);
    let ms = mode_section(mode);
    let ts = time_section(t, bits);
    let rest1 = list_item(ts) + nil_sexpr();
    lemma_add_assoc(list_item(ms), list_item(ts), nil_sexpr());
    assert(b == list_item(ms) + rest1);
    lemma_split_list_item(ms, rest1);
    lemma_split_list_item(ts, nil_sexpr());
    // The two list headers, recovered from the splits they make.
    assert(b.subrange(4, 4 + (le32_val(b) - 0x80000000)) == ms);
    assert(le32_val(b) == 0x80000000 + 36);
    assert(le32_val(rest1) == 0x80000000 + 80);
    let p = b.take(k);
    if k < 4 {
        assert(split_cons(p) is None);
    } else {
        assert(le32_val(p) == le32_val(b));
        if k < 40 {
            // The mode entry itself is cut: its 36 bytes do not fit.
            assert(split_cons(p) is None);
        } else {
            let car = p.subrange(4, 40);
            let cdr = p.subrange(40, k);
            assert(car =~= b.subrange(4, 40));
            assert(split_cons(p) == Some((ms, cdr)));
            lemma_mode_entry(mode);
            lemma_scan_step_mode(
                p,
                ms,
                atom_u64(SYMBOL_WATCH_MODE),
                list_item(atom_u64(mode_symbol(mode))) + nil_sexpr(),
                cdr,
                Some(degraded_mode(mode)),
                None,
                None,
            );
            // The reading entry is cut: whatever of it remains, no
            // complete pair starts at its header.
            if k - 40 < 4 {
                assert(split_cons(cdr) is None);
            } else {
                assert(cdr[0] == rest1[0] && cdr[1] == rest1[1] && cdr[2] == rest1[2] && cdr[3]
                    == rest1[3]);
                assert(le32_val(cdr) == le32_val(rest1));
                assert(k - 40 - 4 < 80);
                assert(split_cons(cdr) is None);
            }
        }
    }
}

/// Read the 32-bit value at `pos`, little-endian.
fn get_le32(bytes: &[u8], pos: usize) -> (r: u32)
    requires
        pos + 4 <= bytes@.len(),
    ensures
        r == le32_val(bytes@.subrange(pos as int, pos as int + 4)),
{
    let b0 = bytes[pos] as u32;
    let b1 = bytes[pos + 1] as u32;
    let b2 = bytes[pos + 2] as u32;
    let b3 = bytes[pos + 3] as u32;
    b0 + b1 * 0x100 + b2 * 0x10000 + b3 * 0x1000000
}

/// Split the window `[lo, hi)` as a pair node, returning the boundary
/// between head and tail.
fn try_split_cons(bytes: &[u8], lo: usize, hi: usize) -> (r: Option<usize>)
    requires
        lo <= hi <= bytes@.len(),
    ensures
        match split_cons(bytes@.subrange(lo as int, hi as int)) {
            Some((car, cdr)) => {
                &&& r matches Some(mid)
                &&& lo + 4 <= mid <= hi
                &&& car == bytes@.subrange(lo as int + 4, mid as int)
                &&& cdr == bytes@.subrange(mid as int, hi as int)
            },
            None => r is None,
        },
{
    let ghost w = bytes@.subrange(lo as int, hi as int);
    if hi - lo < 4 {
        return None;
    }
    let v = get_le32(bytes, lo);
    proof {
        assert(le32_val(w) == le32_val(bytes@.subrange(lo as int, lo as int + 4)));
    }
    if v < 0x80000000 {
        return None;
    }
    let size = (v - 0x80000000) as usize;
    if size > hi - lo - 4 {
        return None;
    }
    proof {
        assert(w.subrange(4, 4 + size as int) =~= bytes@.subrange(
            lo as int + 4,
            lo as int + 4 + size as int,
        ));
        assert(w.subrange(4 + size as int, w.len() as int) =~= bytes@.subrange(
            lo as int + 4 + size as int,
            hi as int,
        ));
    }
    Some(lo + 4 + size)
}

/// Read the window `[lo, hi)` as an atom holding a 32-bit value.
fn try_read_u32_atom(bytes: &[u8], lo: usize, hi: usize) -> (r: Option<u32>)
    requires
        lo <= hi <= bytes@.len(),
    ensures
        r == read_u32_atom(bytes@.subrange(lo as int, hi as int)),
{
    let ghost w = bytes@.subrange(lo as int, hi as int);
    if hi - lo < 8 {
        return None;
    }
    let v = get_le32(bytes, lo);
    proof {
        assert(le32_val(w) == le32_val(bytes@.subrange(lo as int, lo as int + 4)));
    }
    if v != 4 {
        return None;
    }
    let payload = get_le32(bytes, lo + 4);
    proof {
        assert(w.skip(4) =~= bytes@.subrange(lo as int + 4, hi as int));
        assert(le32_val(w.skip(4)) == le32_val(bytes@.subrange(lo as int + 4, lo as int + 8)));
        assert(0 <= le32_val(w.skip(4)) < 0x100000000);
    }
    Some(payload)
}

/// Read the window `[lo, hi)` as an atom holding a 64-bit value.
fn try_read_u64_atom(bytes: &[u8], lo: usize, hi: usize) -> (r: Option<u64>)
    requires
        lo <= hi <= bytes@.len(),
    ensures
        r == read_u64_atom(bytes@.subrange(lo as int, hi as int)),
{
    let ghost w = bytes@.subrange(lo as int, hi as int);
    if hi - lo < 12 {
        return None;
    }
    let v = get_le32(bytes, lo);
    proof {
        assert(le32_val(w) == le32_val(bytes@.subrange(lo as int, lo as int + 4)));
    }
    if v != 8 {
        return None;
    }
    let low = get_le32(bytes, lo + 4);
    let high = get_le32(bytes, lo + 8);
    let r: u64 = low as u64 + (high as u64) * 0x100000000;
    proof {
        let p = w.skip(4);
        assert(p =~= bytes@.subrange(lo as int + 4, hi as int));
        assert(le32_val(p) == le32_val(bytes@.subrange(lo as int + 4, lo as int + 8)));
        assert(p.skip(4) =~= bytes@.subrange(lo as int + 8, hi as int));
        assert(le32_val(p.skip(4)) == le32_val(bytes@.subrange(lo as int + 8, lo as int + 12)));
        assert(0 <= le32_val(p) < 0x100000000);
        assert(0 <= le32_val(p.skip(4)) < 0x100000000);
    }
    Some(r)
}

/// Parse a mode entry's payload in the window `[lo, hi)`.
fn parse_mode_x(bytes: &[u8], lo: usize, hi: usize) -> (r: Option<WatchMode>)
    requires
        lo <= hi <= bytes@.len(),
    ensures
        r == parse_mode(bytes@.subrange(lo as int, hi as int)),
{
    match try_split_cons(bytes, lo, hi) {
        None => None,
        Some(mid) => match try_read_u64_atom(bytes, lo + 4, mid) {
            None => None,
            Some(sym) => if sym == SYMBOL_STOPWATCH {
                Some(WatchMode::Stopwatch(StopwatchMode::Stopped))
            } else if sym == SYMBOL_CLOCK {
                Some(WatchMode::Clock)
            } else {
                None
            },
        },
    }
}

/// Parse a reading entry's payload in the window `[lo, hi)`.
fn parse_time_x(bytes: &[u8], lo: usize, hi: usize) -> (r: Option<(WatchTime, u32)>)
    requires
        lo <= hi <= bytes@.len(),
    ensures
        r == parse_time(bytes@.subrange(lo as int, hi as int)),
{
    let mid1 = match try_split_cons(bytes, lo, hi) {
        None => {
            return None;
        },
        Some(m) => m,
    };
    let hours = match try_read_u32_atom(bytes, lo + 4, mid1) {
        None => {
            return None;
        },
        Some(v) => v,
    };
    let mid2 = match try_split_cons(bytes, mid1, hi) {
        None => {
            return None;
        },
        Some(m) => m,
    };
    let minutes = match try_read_u32_atom(bytes, mid1 + 4, mid2) {
        None => {
            return None;
        },
        Some(v) => v,
    };
    let mid3 = match try_split_cons(bytes, mid2, hi) {
        None => {
            return None;
        },
        Some(m) => m,
    };
    let seconds = match try_read_u32_atom(bytes, mid2 + 4, mid3) {
        None => {
            return None;
        },
        Some(v) => v,
    };
    let mid4 = match try_split_cons(bytes, mid3, hi) {
        None => {
            return None;
        },
        Some(m) => m,
    };
    let cents = match try_read_u32_atom(bytes, mid3 + 4, mid4) {
        None => {
            return None;
        },
        Some(v) => v,
    };
    let mid5 = match try_split_cons(bytes, mid4, hi) {
        None => {
            return None;
        },
        Some(m) => m,
    };
    let bits = match try_read_u32_atom(bytes, mid4 + 4, mid5) {
        None => {
            return None;
        },
        Some(v) => v,
    };
    Some((WatchTime { hours, minutes, seconds, cents }, bits))
}

impl SaveData {
    /// Decode a record from raw bytes, exactly as [`decoded_save`]
    /// states: the restored values on a well-formed record, nothing on
    /// any other input — corrupted or foreign save data never faults.
    pub fn from_bytes(bytes: &[u8]) -> (r: Option<SaveData>)
        ensures
            match decoded_save(bytes@) {
                Some((m, t, bits)) => {
                    &&& r matches Some(sd)
                    &&& sd.watch_mode == m
                    &&& sd.stopwatch_time == t
                    &&& sd.saved_time_bits == bits
                },
                None => r is None,
            },
    {
        let n = bytes.len();
        let mut pos: usize = 0;
        let mut wm: Option<WatchMode> = None;
        let mut st: Option<(WatchTime, u32)> = None;

        proof {
            assert(bytes@.subrange(0, n as int) =~= bytes@);
        }

        loop
            invariant
                pos <= n,
                n == bytes@.len(),
                scan_entries(bytes@.subrange(pos as int, n as int), wm, st) == decoded_save(
                    bytes@,
                ),
            ensures
                split_cons(bytes@.subrange(pos as int, n as int)) is None,
                scan_entries(bytes@.subrange(pos as int, n as int), wm, st) == decoded_save(
                    bytes@,
                ),
            decreases n - pos,
        {
            let mid = match try_split_cons(bytes, pos, n) {
                None => {
                    break;
                },
                Some(m) => m,
            };
            let mid2 = match try_split_cons(bytes, pos + 4, mid) {
                None => {
                    return None;
                },
                Some(m) => m,
            };
            let tag = match try_read_u64_atom(bytes, pos + 8, mid2) {
                None => {
                    return None;
                },
                Some(t) => t,
            };
            if tag == SYMBOL_WATCH_MODE {
                wm = parse_mode_x(bytes, mid2, mid);
            } else if tag == SYMBOL_STOPWATCH_TIME {
                st = parse_time_x(bytes, mid2, mid);
            } else {
                return None;
            }
            pos = mid;
        }

        match (wm, st) {
            (Some(m), Some((t, bits))) => Some(
                SaveData { watch_mode: m, stopwatch_time: t, saved_time_bits: bits },
            ),
            _ => None,
        }
    }
}

} // verus!
