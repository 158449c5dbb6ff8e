//! Timeline reconstruction, track metadata extraction, and onset filtering:
//! one forward pass over a track's raw events.
//!
//! Absolute time is an integer numerator over the document's time denominator
//! (see [`time_denominator`]). In timecode mode every tick is worth
//! `fps_denom(fps)` numerator units; in metrical mode a tick is worth the
//! current tempo (microseconds per beat), or nothing while no tempo is known.

use vstd::prelude::*;

use crate::events::{doc_wf, event_wf, fps_denom, fps_numer, timing_wf, EventKind, Fps,
    MidiDocument, Timing, TrackEvent};
use crate::process::ProcessError;
use crate::scene::{auths_match, cn_matches, contains_note, ControlledNotes, Note};
use crate::text::{decode_utf8, utf8_of};

verus! {

/// Upper bound on every time numerator the library computes: no track can
/// exceed it because each event advances time by less than 2^52 (a 28-bit
/// tick delta times a 24-bit step) and a track holds fewer than 2^64 events.
pub const TIME_NUM_MAX: u128 = 0x100000000000000000000000000000;

/// Upper bound on how far one event can advance a track's time numerator.
pub const EVENT_ADVANCE_MAX: u128 = 0x10000000000000;

/// Denominator shared by every time numerator of a document: time in seconds
/// is `numerator / time_denominator(timing)`.
pub open spec fn spec_time_denominator(t: Timing) -> int {
    match t {
        Timing::Metrical { ticks_per_beat } => 1_000_000 * ticks_per_beat,
        Timing::Timecode { fps, subframes } => fps_numer(fps) * subframes,
    }
}

/// Executable form of [`spec_time_denominator`].
pub fn time_denominator(t: &Timing) -> (r: u64)
    requires
        timing_wf(*t),
    ensures
        r == spec_time_denominator(*t),
        r >= 1,
{
    match t {
        Timing::Metrical { ticks_per_beat } => 1_000_000u64 * (*ticks_per_beat as u64),
        Timing::Timecode { fps, subframes } => {
            let n: u64 = match fps {
                Fps::Fps24 => 24,
                Fps::Fps25 => 25,
                Fps::Fps29 => 30000,
                Fps::Fps30 => 30,
            };
            n * (*subframes as u64)
        },
    }
}

/// Descriptive metadata of one track: each field holds the text of the last
/// corresponding descriptive event seen so far.
pub ghost struct TrackMeta {
    pub track_name: Option<Seq<char>>,
    pub device_name: Option<Seq<char>>,
    pub instrument_name: Option<Seq<char>>,
    pub program_name: Option<Seq<char>>,
}

/// Metadata before any descriptive event.
pub open spec fn empty_meta() -> TrackMeta {
    TrackMeta { track_name: None, device_name: None, instrument_name: None, program_name: None }
}

/// Mathematical model of a [`CompleteNote`]: an onset kept for a machine,
/// with its time numerator delta since the machine's previous kept onset of
/// the same track.
pub ghost struct OnsetModel {
    pub delta: int,
    pub note: Note,
}

/// The full state of the single forward pass over one track, evaluated for
/// one machine.
pub ghost struct TrackScan {
    /// Absolute time numerator at the current event.
    pub time: int,
    /// Numerator units per tick; 0 while no tick length is known.
    pub step: int,
    /// Metadata accumulated so far (last write wins).
    pub meta: TrackMeta,
    /// Pitch of the last onset that was not suppressed as a repeat.
    pub prev_pitch: Option<Note>,
    /// Time numerator of the last onset kept for the machine.
    pub prev_matched: int,
    /// Onsets kept for the machine so far, in order.
    pub notes: Seq<OnsetModel>,
    /// Whether a descriptive event carried bytes that are not valid text.
    pub failed: bool,
}

/// Numerator units per tick before any event: the frame-rate fraction's
/// denominator under timecode, the document's default tempo (if any) under
/// metrical timing.
pub open spec fn initial_step(t: Timing, default_tempo: Option<u32>) -> int {
    match t {
        Timing::Timecode { fps, subframes } => fps_denom(fps),
        Timing::Metrical { ticks_per_beat } => match default_tempo {
            Some(us) => us as int,
            None => 0,
        },
    }
}

/// Scan state at the start of a track.
pub open spec fn scan_init(t: Timing, default_tempo: Option<u32>) -> TrackScan {
    TrackScan {
        time: 0,
        step: initial_step(t, default_tempo),
        meta: empty_meta(),
        prev_pitch: None,
        prev_matched: 0,
        notes: Seq::empty(),
        failed: false,
    }
}

/// One step of the pass: advance time by the event's tick delta at the
/// current tick worth, then apply the event. A tempo event under metrical
/// timing changes the tick worth for the events after it; a descriptive event
/// overwrites its metadata field (or fails the track if its bytes are not
/// valid text); an onset is suppressed as a repeat iff its delta since the
/// last kept onset is not positive and its pitch equals the last
/// non-suppressed pitch, and is otherwise kept iff some rule of the machine
/// authorizes it against the track's current name.
pub open spec fn scan_step(
    t: Timing,
    auths: Seq<ControlledNotes>,
    track_number: u32,
    st: TrackScan,
    e: TrackEvent,
) -> TrackScan {
    if st.failed {
        st
    } else {
        let time2 = st.time + e.delta_ticks * st.step;
        match e.kind {
            EventKind::Tempo(us) => TrackScan {
                time: time2,
                step: match t {
                    Timing::Metrical { .. } => us as int,
                    Timing::Timecode { .. } => st.step,
                },
                ..st
            },
            EventKind::TrackName(b) => match utf8_of(b@) {
                Some(s) => TrackScan {
                    time: time2,
                    meta: TrackMeta { track_name: Some(s), ..st.meta },
                    ..st
                },
                None => TrackScan { failed: true, ..st },
            },
            EventKind::DeviceName(b) => match utf8_of(b@) {
                Some(s) => TrackScan {
                    time: time2,
                    meta: TrackMeta { device_name: Some(s), ..st.meta },
                    ..st
                },
                None => TrackScan { failed: true, ..st },
            },
            EventKind::InstrumentName(b) => match utf8_of(b@) {
                Some(s) => TrackScan {
                    time: time2,
                    meta: TrackMeta { instrument_name: Some(s), ..st.meta },
                    ..st
                },
                None => TrackScan { failed: true, ..st },
            },
            EventKind::ProgramName(b) => match utf8_of(b@) {
                Some(s) => TrackScan {
                    time: time2,
                    meta: TrackMeta { program_name: Some(s), ..st.meta },
                    ..st
                },
                None => TrackScan { failed: true, ..st },
            },
            EventKind::NoteOn { channel, key } => {
                let pitch = Note { track: track_number, channel, note: key };
                let delta = time2 - st.prev_matched;
                let repeated = delta <= 0 && st.prev_pitch == Some(pitch);
                if repeated {
                    TrackScan { time: time2, ..st }
                } else if auths_match(auths, pitch, st.meta.track_name) {
                    TrackScan {
                        time: time2,
                        prev_pitch: Some(pitch),
                        prev_matched: time2,
                        notes: st.notes.push(OnsetModel { delta, note: pitch }),
                        ..st
                    }
                } else {
                    TrackScan { time: time2, prev_pitch: Some(pitch), ..st }
                }
            },
            EventKind::Other => TrackScan { time: time2, ..st },
        }
    }
}

/// Scan state after the first `n` events of a track.
pub open spec fn scan_events(
    t: Timing,
    default_tempo: Option<u32>,
    auths: Seq<ControlledNotes>,
    track_number: u32,
    events: Seq<TrackEvent>,
    n: int,
) -> TrackScan
    decreases n,
{
    if n <= 0 {
        scan_init(t, default_tempo)
    } else {
        scan_step(t, auths, track_number, scan_events(t, default_tempo, auths, track_number, events, n - 1), events[n - 1])
    }
}

/// Scan state after a whole track.
pub open spec fn scan_track(
    t: Timing,
    default_tempo: Option<u32>,
    auths: Seq<ControlledNotes>,
    track_number: u32,
    events: Seq<TrackEvent>,
) -> TrackScan {
    scan_events(t, default_tempo, auths, track_number, events, events.len() as int)
}

/// The tempo of the first tempo event among `events`, if any.
pub open spec fn find_first_tempo(events: Seq<TrackEvent>) -> Option<u32>
    decreases events.len(),
{
    if events.len() == 0 {
        None
    } else {
        match events[0].kind {
            EventKind::Tempo(us) => Some(us),
            _ => find_first_tempo(events.drop_first()),
        }
    }
}

/// The document's default tempo: the first tempo event of track 0, if any.
pub open spec fn default_tempo_of(doc: MidiDocument) -> Option<u32> {
    find_first_tempo(doc.tracks@[0]@)
}

/// Sum of the deltas of the kept onsets belonging to track `t`.
pub open spec fn track_delta_sum(notes: Seq<OnsetModel>, t: int) -> int
    decreases notes.len(),
{
    if notes.len() == 0 {
        0
    } else {
        track_delta_sum(notes.drop_last(), t) + if notes.last().note.track == t {
            notes.last().delta
        } else {
            0
        }
    }
}

/// Bounds that every reachable scan state satisfies: the step fits the tempo
/// width, time never exceeds what `n` events can advance, the last kept time
/// never passes the clock, every kept onset belongs to this track with a
/// non-negative delta, and the kept deltas sum to the last kept time.
pub open spec fn scan_invariant(st: TrackScan, track_number: u32, n: int) -> bool {
    &&& 0 <= st.step < 0x100_0000
    &&& 0 <= st.prev_matched <= st.time
    &&& st.time <= n * (EVENT_ADVANCE_MAX as int)
    &&& forall|k: int|
        0 <= k < st.notes.len() ==> (#[trigger] st.notes[k]).note.track == track_number
            && 0 <= st.notes[k].delta
    &&& track_delta_sum(st.notes, track_number as int) == st.prev_matched
}

/// A default tempo read out of a well-formed track fits the tempo width.
pub proof fn lemma_find_first_tempo_wf(events: Seq<TrackEvent>)
    requires
        forall|k: int| 0 <= k < events.len() ==> event_wf(#[trigger] events[k]),
    ensures
        match find_first_tempo(events) {
            Some(us) => us < 0x100_0000,
            None => true,
        },
    decreases events.len(),
{
    if events.len() > 0 {
        match events[0].kind {
            EventKind::Tempo(us) => {
                assert(event_wf(events[0]));
            },
            _ => {
                assert(forall|k: int|
                    0 <= k < events.drop_first().len() ==> event_wf(
                        #[trigger] events.drop_first()[k],
                    ));
                lemma_find_first_tempo_wf(events.drop_first());
            },
        }
    }
}

/// Every reachable scan state of a well-formed track satisfies
/// [`scan_invariant`].
pub proof fn lemma_scan_invariant(
    t: Timing,
    default_tempo: Option<u32>,
    auths: Seq<ControlledNotes>,
    track_number: u32,
    events: Seq<TrackEvent>,
    n: int,
)
    requires
        0 <= n <= events.len(),
        timing_wf(t),
        forall|k: int| 0 <= k < events.len() ==> event_wf(#[trigger] events[k]),
        match default_tempo {
            Some(us) => us < 0x100_0000,
            None => true,
        },
    ensures
        scan_invariant(scan_events(t, default_tempo, auths, track_number, events, n), track_number, n),
    decreases n,
{
    if n <= 0 {
        let st = scan_init(t, default_tempo);
        assert(st.notes =~= Seq::<OnsetModel>::empty());
    } else {
        lemma_scan_invariant(t, default_tempo, auths, track_number, events, n - 1);
        let st = scan_events(t, default_tempo, auths, track_number, events, n - 1);
        let e = events[n - 1];
        let st2 = scan_step(t, auths, track_number, st, e);
        assert(event_wf(e));
        if !st.failed {
            assert(e.delta_ticks * st.step <= EVENT_ADVANCE_MAX) by (nonlinear_arith)
                requires
                    0 <= e.delta_ticks < 0x1000_0000,
                    0 <= st.step < 0x100_0000,
                    EVENT_ADVANCE_MAX == 0x10000000000000,
            ;
            assert(0 <= e.delta_ticks * st.step) by (nonlinear_arith)
                requires
                    0 <= e.delta_ticks,
                    0 <= st.step,
            ;
            let time2 = st.time + e.delta_ticks * st.step;
            assert(time2 <= n * (EVENT_ADVANCE_MAX as int)) by {
                assert(st.time <= (n - 1) * (EVENT_ADVANCE_MAX as int));
            };
            match e.kind {
                EventKind::NoteOn { channel, key } => {
                    let pitch = Note { track: track_number, channel, note: key };
                    let delta = time2 - st.prev_matched;
                    let repeated = delta <= 0 && st.prev_pitch == Some(pitch);
                    if !repeated && auths_match(auths, pitch, st.meta.track_name) {
                        let m = OnsetModel { delta, note: pitch };
                        assert(st2.notes == st.notes.push(m));
                        assert(st2.notes.drop_last() =~= st.notes);
                        assert(st2.notes.last() == m);
                        assert(track_delta_sum(st2.notes, track_number as int) == st.prev_matched
                            + delta);
                    }
                },
                _ => {},
            }
        } else {
            assert((n - 1) * (EVENT_ADVANCE_MAX as int) <= n * (EVENT_ADVANCE_MAX as int));
        }
    }
}

/// The authorization rules behind a borrowed rule list.
pub open spec fn auths_of(s: Seq<&ControlledNotes>) -> Seq<ControlledNotes> {
    s.map_values(|r: &ControlledNotes| *r)
}

/// The kept onsets of the first `up_to` tracks, in track order and, within a
/// track, chronological order.
pub open spec fn tracks_notes_model(
    t: Timing,
    default_tempo: Option<u32>,
    auths: Seq<ControlledNotes>,
    tracks: Seq<Vec<TrackEvent>>,
    up_to: int,
) -> Seq<OnsetModel>
    decreases up_to,
{
    if up_to <= 0 {
        Seq::empty()
    } else {
        tracks_notes_model(t, default_tempo, auths, tracks, up_to - 1) + scan_track(
            t,
            default_tempo,
            auths,
            (up_to - 1) as u32,
            tracks[up_to - 1]@,
        ).notes
    }
}

/// Whether track `i` of the document scans without a text-decoding failure.
/// Failure does not depend on the authorization rules
/// (see [`lemma_scan_auths_independent`]), so the empty rule list stands here.
pub open spec fn track_ok(doc: MidiDocument, i: int) -> bool {
    !scan_track(doc.timing, default_tempo_of(doc), Seq::empty(), i as u32, doc.tracks@[i]@).failed
}

/// The first track (from `i` on) holding invalid descriptive text, if any.
pub open spec fn first_failed_from(doc: MidiDocument, i: int) -> Option<int>
    decreases doc.tracks@.len() - i,
{
    if i < 0 || i >= doc.tracks@.len() {
        None
    } else if !track_ok(doc, i) {
        Some(i)
    } else {
        first_failed_from(doc, i + 1)
    }
}

/// The first track of the document holding invalid descriptive text, if any.
pub open spec fn first_failed_track(doc: MidiDocument) -> Option<int> {
    first_failed_from(doc, 0)
}

/// Scanning consults the authorization rules only to decide which onsets are
/// kept: time, tick worth, metadata, the repeat-suppression pitch and failure
/// are the same under any two rule lists. In particular one machine's
/// kept-onset times never influence another machine's track state.
pub proof fn lemma_scan_auths_independent(
    t: Timing,
    default_tempo: Option<u32>,
    auths1: Seq<ControlledNotes>,
    auths2: Seq<ControlledNotes>,
    track_number: u32,
    events: Seq<TrackEvent>,
    n: int,
)
    ensures
        ({
            let a = scan_events(t, default_tempo, auths1, track_number, events, n);
            let b = scan_events(t, default_tempo, auths2, track_number, events, n);
            a.time == b.time && a.step == b.step && a.meta == b.meta && a.prev_pitch
                == b.prev_pitch && a.failed == b.failed
        }),
    decreases n,
{
    if n > 0 {
        lemma_scan_auths_independent(t, default_tempo, auths1, auths2, track_number, events, n - 1);
    }
}

/// If every track before `t` scans cleanly and track `t` does not, then `t`
/// is the first failed track.
pub proof fn lemma_first_failed_some(doc: MidiDocument, t: int)
    requires
        0 <= t < doc.tracks@.len(),
        !track_ok(doc, t),
        forall|i: int| 0 <= i < t ==> track_ok(doc, i),
    ensures
        first_failed_track(doc) == Some(t),
{
    lemma_first_failed_from(doc, 0, t);
}

proof fn lemma_first_failed_from(doc: MidiDocument, i: int, t: int)
    requires
        0 <= i <= t < doc.tracks@.len(),
        !track_ok(doc, t),
        forall|k: int| i <= k < t ==> track_ok(doc, k),
    ensures
        first_failed_from(doc, i) == Some(t),
    decreases t - i,
{
    if i < t {
        lemma_first_failed_from(doc, i + 1, t);
    }
}

/// If every track scans cleanly, no track is the first failed one.
pub proof fn lemma_first_failed_none(doc: MidiDocument)
    requires
        forall|i: int| 0 <= i < doc.tracks@.len() ==> track_ok(doc, i),
    ensures
        first_failed_track(doc) is None,
{
    lemma_first_failed_none_from(doc, 0);
}

proof fn lemma_first_failed_none_from(doc: MidiDocument, i: int)
    requires
        0 <= i,
        forall|k: int| i <= k < doc.tracks@.len() ==> track_ok(doc, k),
    ensures
        first_failed_from(doc, i) is None,
    decreases doc.tracks@.len() - i,
{
    if i < doc.tracks@.len() {
        lemma_first_failed_none_from(doc, i + 1);
    }
}

/// Deltas sum segment by segment.
pub proof fn lemma_track_delta_sum_concat(a: Seq<OnsetModel>, b: Seq<OnsetModel>, t: int)
    ensures
        track_delta_sum(a + b, t) == track_delta_sum(a, t) + track_delta_sum(b, t),
    decreases b.len(),
{
    if b.len() == 0 {
        assert(a + b =~= a);
    } else {
        lemma_track_delta_sum_concat(a, b.drop_last(), t);
        assert((a + b).drop_last() =~= a + b.drop_last());
        assert((a + b).last() == b.last());
    }
}

/// Onsets of tracks other than `t` contribute nothing to `t`'s delta sum.
pub proof fn lemma_track_delta_sum_other(notes: Seq<OnsetModel>, t: int)
    requires
        forall|k: int| 0 <= k < notes.len() ==> (#[trigger] notes[k]).note.track != t,
    ensures
        track_delta_sum(notes, t) == 0,
    decreases notes.len(),
{
    if notes.len() > 0 {
        lemma_track_delta_sum_other(notes.drop_last(), t);
    }
}

/// The kept onsets of a well-formed document are bounded: every onset belongs
/// to a track before `up_to` with a non-negative delta, and each track's
/// deltas sum to at most [`TIME_NUM_MAX`].
pub proof fn lemma_tracks_notes_model_wf(
    t: Timing,
    default_tempo: Option<u32>,
    auths: Seq<ControlledNotes>,
    tracks: Seq<Vec<TrackEvent>>,
    up_to: int,
)
    requires
        0 <= up_to <= tracks.len() <= 0xFFFF_FFFF,
        timing_wf(t),
        forall|i: int, k: int|
            0 <= i < tracks.len() && 0 <= k < tracks[i]@.len() ==> event_wf(
                #[trigger] tracks[i]@[k],
            ),
        match default_tempo {
            Some(us) => us < 0x100_0000,
            None => true,
        },
        forall|i: int| 0 <= i < tracks.len() ==> (#[trigger] tracks[i]@).len()
            <= 0xFFFF_FFFF_FFFF_FFFFu64,
    ensures
        ({
            let m = tracks_notes_model(t, default_tempo, auths, tracks, up_to);
            &&& forall|k: int|
                0 <= k < m.len() ==> (#[trigger] m[k]).note.track < up_to && 0 <= m[k].delta
                    <= TIME_NUM_MAX
            &&& forall|tr: int| #![trigger track_delta_sum(m, tr)]
                0 <= track_delta_sum(m, tr) <= TIME_NUM_MAX
        }),
    decreases up_to,
{
    assert(0xFFFF_FFFF_FFFF_FFFFu64 * (EVENT_ADVANCE_MAX as int) <= TIME_NUM_MAX)
        by (nonlinear_arith)
        requires
            EVENT_ADVANCE_MAX == 0x10000000000000,
            TIME_NUM_MAX == 0x100000000000000000000000000000,
    ;
    let m = tracks_notes_model(t, default_tempo, auths, tracks, up_to);
    if up_to <= 0 {
        assert forall|tr: int| 0 <= #[trigger] track_delta_sum(m, tr) <= TIME_NUM_MAX by {
            lemma_track_delta_sum_other(m, tr);
        };
    } else {
        lemma_tracks_notes_model_wf(t, default_tempo, auths, tracks, up_to - 1);
        let prev = tracks_notes_model(t, default_tempo, auths, tracks, up_to - 1);
        let tn = (up_to - 1) as u32;
        let events = tracks[up_to - 1]@;
        let st = scan_track(t, default_tempo, auths, tn, events);
        lemma_scan_invariant(t, default_tempo, auths, tn, events, events.len() as int);
        assert(st.time <= events.len() * (EVENT_ADVANCE_MAX as int));
        assert(events.len() * (EVENT_ADVANCE_MAX as int) <= 0xFFFF_FFFF_FFFF_FFFFu64
            * (EVENT_ADVANCE_MAX as int)) by (nonlinear_arith)
            requires
                events.len() <= 0xFFFF_FFFF_FFFF_FFFFu64,
                EVENT_ADVANCE_MAX == 0x10000000000000,
        ;
        assert(track_delta_sum(st.notes, tn as int) == st.prev_matched);
        assert forall|k: int|
            0 <= k < m.len() implies (#[trigger] m[k]).note.track < up_to && 0 <= m[k].delta
            <= TIME_NUM_MAX by {
            if k < prev.len() {
                assert(m[k] == prev[k]);
            } else {
                assert(m[k] == st.notes[k - prev.len()]);
                lemma_delta_le_sum(st.notes, k - prev.len(), tn as int);
                assert(m[k].delta <= track_delta_sum(st.notes, tn as int));
            }
        };
        assert forall|tr: int| 0 <= #[trigger] track_delta_sum(m, tr) <= TIME_NUM_MAX by {
            lemma_track_delta_sum_concat(prev, st.notes, tr);
            if tr == tn as int {
                assert(forall|k: int|
                    0 <= k < prev.len() ==> (#[trigger] prev[k]).note.track != tr);
                lemma_track_delta_sum_other(prev, tr);
            } else {
                assert(forall|k: int|
                    0 <= k < st.notes.len() ==> (#[trigger] st.notes[k]).note.track != tr);
                lemma_track_delta_sum_other(st.notes, tr);
                lemma_track_delta_sum_nonneg(st.notes, tr);
            }
        };
    }
}

/// One onset's delta never exceeds its track's delta sum.
pub proof fn lemma_delta_le_sum(notes: Seq<OnsetModel>, k: int, t: int)
    requires
        0 <= k < notes.len(),
        notes[k].note.track == t,
        forall|i: int| 0 <= i < notes.len() ==> 0 <= (#[trigger] notes[i]).delta,
    ensures
        notes[k].delta <= track_delta_sum(notes, t),
    decreases notes.len(),
{
    lemma_track_delta_sum_nonneg(notes.drop_last(), t);
    if k == notes.len() - 1 {
    } else {
        lemma_delta_le_sum(notes.drop_last(), k, t);
    }
}

/// With non-negative deltas, a prefix's delta sum never exceeds the whole
/// sequence's.
pub proof fn lemma_track_delta_sum_take(notes: Seq<OnsetModel>, i: int, t: int)
    requires
        0 <= i <= notes.len(),
        forall|k: int| 0 <= k < notes.len() ==> 0 <= (#[trigger] notes[k]).delta,
    ensures
        track_delta_sum(notes.take(i), t) <= track_delta_sum(notes, t),
    decreases notes.len(),
{
    if i == notes.len() {
        assert(notes.take(i) =~= notes);
    } else {
        assert(notes.take(i) =~= notes.drop_last().take(i));
        lemma_track_delta_sum_take(notes.drop_last(), i, t);
    }
}

/// A delta sum of non-negative deltas is non-negative.
pub proof fn lemma_track_delta_sum_nonneg(notes: Seq<OnsetModel>, t: int)
    requires
        forall|i: int| 0 <= i < notes.len() ==> 0 <= (#[trigger] notes[i]).delta,
    ensures
        0 <= track_delta_sum(notes, t),
    decreases notes.len(),
{
    if notes.len() > 0 {
        lemma_track_delta_sum_nonneg(notes.drop_last(), t);
    }
}

/// Descriptive metadata of one track, as accumulated by the pass: each field
/// holds the text of the last corresponding descriptive event (last write
/// wins, no history kept).
#[derive(Debug)]
pub struct TrackInfo {
    pub track_number: u32,
    pub track_name: Option<String>,
    pub device_name: Option<String>,
    pub instrument_name: Option<String>,
    pub program_name: Option<String>,
}

/// The character sequence behind an optional string.
pub open spec fn opt_text_view(s: Option<String>) -> Option<Seq<char>> {
    match s {
        Some(x) => Some(x@),
        None => None,
    }
}

impl View for TrackInfo {
    type V = TrackMeta;

    open spec fn view(&self) -> TrackMeta {
        TrackMeta {
            track_name: opt_text_view(self.track_name),
            device_name: opt_text_view(self.device_name),
            instrument_name: opt_text_view(self.instrument_name),
            program_name: opt_text_view(self.program_name),
        }
    }
}

impl TrackInfo {
    /// Fresh metadata for track `track_number`: no descriptive event seen yet.
    pub fn new(track_number: u32) -> (r: TrackInfo)
        ensures
            r@ == empty_meta(),
            r.track_number == track_number,
    {
        TrackInfo {
            track_number,
            track_name: None,
            device_name: None,
            instrument_name: None,
            program_name: None,
        }
    }
}

/// An onset kept for a machine: its pitch and its time numerator delta since
/// the machine's previous kept onset of the same track.
#[derive(Clone, Copy, Debug, PartialEq, Eq, Structural)]
pub struct CompleteNote {
    pub delta: u128,
    pub note: Note,
}

impl View for CompleteNote {
    type V = OnsetModel;

    open spec fn view(&self) -> OnsetModel {
        OnsetModel { delta: self.delta as int, note: self.note }
    }
}

impl CompleteNote {
    /// The output form of this onset, before the assigner rewrites its delta.
    pub fn into_output_note(&self) -> (r: crate::director_data::Note)
        requires
            self.delta <= TIME_NUM_MAX,
        ensures
            r@.delta == self@.delta,
            r.track == self.note.track,
            r.channel == self.note.channel,
            r.note == self.note.note,
    {
        crate::director_data::Note {
            delta: self.delta as i128,
            track: self.note.track,
            channel: self.note.channel,
            note: self.note.note,
        }
    }
}

/// The models of a sequence of kept onsets.
pub open spec fn onset_models(notes: Seq<CompleteNote>) -> Seq<OnsetModel> {
    notes.map_values(|cn: CompleteNote| cn@)
}

/// Whether one authorization rule permits this onset, judged against the
/// track's current name metadata.
pub fn note_matches_controlled_notes(
    controlled_notes: &ControlledNotes,
    complete_note: &CompleteNote,
    track_info: &TrackInfo,
) -> (r: bool)
    ensures
        r == cn_matches(*controlled_notes, complete_note.note, track_info@.track_name),
{
    match controlled_notes {
        ControlledNotes::Notes(notes) => contains_note(notes, complete_note.note),
        ControlledNotes::TrackByName(name) => match &track_info.track_name {
            Some(track_name) => track_name.eq(name),
            None => false,
        },
    }
}

/// Whether any rule of the machine permits this onset.
fn machine_matches_note(
    machine_notes: &Vec<&ControlledNotes>,
    complete_note: &CompleteNote,
    track_info: &TrackInfo,
) -> (r: bool)
    ensures
        r == auths_match(auths_of(machine_notes@), complete_note.note, track_info@.track_name),
{
    let ghost auths = auths_of(machine_notes@);
    let mut i: usize = 0;
    while i < machine_notes.len()
        invariant
            0 <= i <= machine_notes@.len(),
            auths == auths_of(machine_notes@),
            forall|k: int|
                0 <= k < i ==> !cn_matches(#[trigger] auths[k], complete_note.note,
                track_info@.track_name),
        decreases machine_notes@.len() - i,
    {
        if note_matches_controlled_notes(machine_notes[i], complete_note, track_info) {
            assert(cn_matches(auths[i as int], complete_note.note, track_info@.track_name));
            return true;
        }
        i = i + 1;
    }
    false
}

/// The first tempo event of track 0, if any: the document's default tempo
/// under metrical timing.
pub fn find_default_us_per_beat(doc: &MidiDocument) -> (r: Option<u32>)
    requires
        doc.tracks@.len() >= 1,
    ensures
        r == default_tempo_of(*doc),
{
    let track: &Vec<TrackEvent> = &doc.tracks[0];
    let n = track.len();
    let mut i: usize = 0;
    proof {
        assert(track@.skip(0) =~= track@);
    }
    while i < n
        invariant
            0 <= i <= n,
            n == track@.len(),
            doc.tracks@.len() >= 1,
            track@ == doc.tracks@[0]@,
            find_first_tempo(doc.tracks@[0]@) == find_first_tempo(track@.skip(i as int)),
        decreases n - i,
    {
        proof {
            assert(track@.skip(i as int).len() > 0);
            assert(track@.skip(i as int)[0] == track@[i as int]);
        }
        match &track[i].kind {
            EventKind::Tempo(us) => {
                return Some(*us);
            },
            _ => {},
        }
        proof {
            assert(track@.skip(i as int).drop_first() =~= track@.skip(i as int + 1));
        }
        i = i + 1;
    }
    proof {
        assert(track@.skip(n as int) =~= Seq::<TrackEvent>::empty());
    }
    None
}

/// What a successful pass over the whole document yields for one machine:
/// every track scanned cleanly, `notes` is the machine's kept-onset stream,
/// and `metas` holds each track's final metadata.
pub open spec fn machine_notes_ok(
    doc: MidiDocument,
    auths: Seq<ControlledNotes>,
    notes: Seq<OnsetModel>,
    metas: Seq<TrackInfo>,
) -> bool {
    &&& first_failed_track(doc) is None
    &&& notes == tracks_notes_model(
        doc.timing,
        default_tempo_of(doc),
        auths,
        doc.tracks@,
        doc.tracks@.len() as int,
    )
    &&& metas.len() == doc.tracks@.len()
    &&& forall|i: int|
        0 <= i < metas.len() ==> (#[trigger] metas[i])@ == scan_track(
            doc.timing,
            default_tempo_of(doc),
            auths,
            i as u32,
            doc.tracks@[i]@,
        ).meta && metas[i].track_number == i
}

/// One pass over every track of the document, evaluated for the machine whose
/// authorization rules are `machine_notes`: rebuild time, accumulate
/// metadata, suppress repeated onsets, and keep the onsets the machine is
/// authorized to play, each with its delta since the machine's previous kept
/// onset of the same track. Fails on the first descriptive event whose bytes
/// are not valid text.
pub fn get_machine_note_events(
    doc: &MidiDocument,
    machine_notes: Vec<&ControlledNotes>,
) -> (r: Result<(Vec<CompleteNote>, Vec<TrackInfo>), ProcessError>)
    requires
        doc_wf(*doc),
        doc.tracks@.len() >= 1,
    ensures
        match r {
            Ok(p) => machine_notes_ok(*doc, auths_of(machine_notes@), onset_models(p.0@), p.1@),
            Err(e) => e matches ProcessError::InvalidText { track } && first_failed_track(*doc)
                == Some(track as int),
        },
{
    let default_us_per_beat = find_default_us_per_beat(doc);
    let ghost dt = default_tempo_of(*doc);
    let ghost auths = auths_of(machine_notes@);
    proof {
        assert(forall|k: int|
            0 <= k < doc.tracks@[0]@.len() ==> event_wf(#[trigger] doc.tracks@[0]@[k]));
        lemma_find_first_tempo_wf(doc.tracks@[0]@);
    }
    let mut notes: Vec<CompleteNote> = Vec::new();
    let mut metas: Vec<TrackInfo> = Vec::new();
    let n_tracks = doc.tracks.len();
    let mut t: usize = 0;
    while t < n_tracks
        invariant
            doc_wf(*doc),
            doc.tracks@.len() >= 1,
            n_tracks == doc.tracks@.len(),
            0 <= t <= n_tracks,
            dt == default_tempo_of(*doc),
            default_us_per_beat == dt,
            match dt {
                Some(us) => us < 0x100_0000,
                None => true,
            },
            auths == auths_of(machine_notes@),
            onset_models(notes@) == tracks_notes_model(doc.timing, dt, auths, doc.tracks@,
            t as int),
            metas@.len() == t,
            forall|i: int|
                0 <= i < t ==> (#[trigger] metas@[i])@ == scan_track(doc.timing, dt, auths,
                i as u32, doc.tracks@[i]@).meta && metas@[i].track_number == i,
            forall|i: int|
                0 <= i < t ==> !(#[trigger] scan_track(doc.timing, dt, auths, i as u32,
                doc.tracks@[i]@)).failed,
        decreases n_tracks - t,
    {
        let track: &Vec<TrackEvent> = &doc.tracks[t];
        let ghost events = track@;
        let tn = t as u32;
        let mut info = TrackInfo::new(tn);
        let mut time: u128 = 0;
        let mut step: u64 = match doc.timing {
            Timing::Timecode { fps, subframes } => match fps {
                Fps::Fps29 => 1001,
                _ => 1,
            },
            Timing::Metrical { ticks_per_beat } => match default_us_per_beat {
                Some(us) => us as u64,
                None => 0,
            },
        };
        let mut prev_pitch: Option<Note> = None;
        let mut prev_matched: u128 = 0;
        let ghost notes_before = onset_models(notes@);
        let n_events = track.len();
        let mut k: usize = 0;
        proof {
            assert(scan_events(doc.timing, dt, auths, tn, events, 0) == scan_init(doc.timing, dt));
            assert(notes_before + scan_events(doc.timing, dt, auths, tn, events, 0).notes
                =~= notes_before);
        }
        while k < n_events
            invariant
                doc_wf(*doc),
                0 <= k <= n_events,
                n_events == events.len(),
                t < doc.tracks@.len(),
                events == doc.tracks@[t as int]@,
                track@ == events,
                tn == t as u32,
                t <= 0xFFFF_FFFF,
                forall|i: int|
                    0 <= i < t ==> !(#[trigger] scan_track(doc.timing, dt, auths, i as u32,
                    doc.tracks@[i]@)).failed,
                dt == default_tempo_of(*doc),
                match dt {
                    Some(us) => us < 0x100_0000,
                    None => true,
                },
                auths == auths_of(machine_notes@),
                notes_before == tracks_notes_model(doc.timing, dt, auths, doc.tracks@, t as int),
                ({
                    let g = scan_events(doc.timing, dt, auths, tn, events, k as int);
                    &&& !g.failed
                    &&& g.time == time as int
                    &&& g.step == step as int
                    &&& g.prev_pitch == prev_pitch
                    &&& g.prev_matched == prev_matched as int
                    &&& info@ == g.meta
                    &&& info.track_number == tn
                    &&& onset_models(notes@) == notes_before + g.notes
                }),
            decreases n_events - k,
        {
            let ghost g = scan_events(doc.timing, dt, auths, tn, events, k as int);
            let ghost g2 = scan_events(doc.timing, dt, auths, tn, events, k as int + 1);
            let e: &TrackEvent = &track[k];
            proof {
                assert(g2 == scan_step(doc.timing, auths, tn, g, events[k as int]));
                lemma_scan_invariant(doc.timing, dt, auths, tn, events, k as int);
                assert(event_wf(events[k as int]));
                assert(e.delta_ticks * g.step <= EVENT_ADVANCE_MAX) by (nonlinear_arith)
                    requires
                        0 <= e.delta_ticks < 0x1000_0000,
                        0 <= g.step < 0x100_0000,
                        EVENT_ADVANCE_MAX == 0x10000000000000,
                ;
                assert(0 <= e.delta_ticks * g.step) by (nonlinear_arith)
                    requires
                        0 <= e.delta_ticks,
                        0 <= g.step,
                ;
                assert((k + 1) * (EVENT_ADVANCE_MAX as int) <= 0xFFFF_FFFF_FFFF_FFFFu64
                    * (EVENT_ADVANCE_MAX as int) && 0xFFFF_FFFF_FFFF_FFFFu64
                    * (EVENT_ADVANCE_MAX as int) <= TIME_NUM_MAX) by (nonlinear_arith)
                    requires
                        0 <= k,
                        k + 1 <= 0xFFFF_FFFF_FFFF_FFFFu64,
                        EVENT_ADVANCE_MAX == 0x10000000000000,
                        TIME_NUM_MAX == 0x100000000000000000000000000000,
                ;
                assert(g.time <= k * (EVENT_ADVANCE_MAX as int));
                assert(g.time + e.delta_ticks * g.step <= (k + 1) * (EVENT_ADVANCE_MAX as int));
            }
            let adv: u128 = (e.delta_ticks as u128) * (step as u128);
            let time2: u128 = time + adv;
            match &e.kind {
                EventKind::Tempo(us) => {
                    match doc.timing {
                        Timing::Metrical { .. } => {
                            step = *us as u64;
                        },
                        Timing::Timecode { .. } => {},
                    }
                    time = time2;
                },
                EventKind::TrackName(b) => match decode_utf8(b) {
                    Some(s) => {
                        info.track_name = Some(s);
                        time = time2;
                    },
                    None => {
                        proof {
                            lemma_scan_failed_stays(doc.timing, dt, auths, tn, events,
                                k as int + 1, events.len() as int);
                            lemma_mark_first_failed(*doc, t as int, auths);
                        }
                        return Err(ProcessError::InvalidText { track: t });
                    },
                },
                EventKind::DeviceName(b) => match decode_utf8(b) {
                    Some(s) => {
                        info.device_name = Some(s);
                        time = time2;
                    },
                    None => {
                        proof {
                            lemma_scan_failed_stays(doc.timing, dt, auths, tn, events,
                                k as int + 1, events.len() as int);
                            lemma_mark_first_failed(*doc, t as int, auths);
                        }
                        return Err(ProcessError::InvalidText { track: t });
                    },
                },
                EventKind::InstrumentName(b) => match decode_utf8(b) {
                    Some(s) => {
                        info.instrument_name = Some(s);
                        time = time2;
                    },
                    None => {
                        proof {
                            lemma_scan_failed_stays(doc.timing, dt, auths, tn, events,
                                k as int + 1, events.len() as int);
                            lemma_mark_first_failed(*doc, t as int, auths);
                        }
                        return Err(ProcessError::InvalidText { track: t });
                    },
                },
                EventKind::ProgramName(b) => match decode_utf8(b) {
                    Some(s) => {
                        info.program_name = Some(s);
                        time = time2;
                    },
                    None => {
                        proof {
                            lemma_scan_failed_stays(doc.timing, dt, auths, tn, events,
                                k as int + 1, events.len() as int);
                            lemma_mark_first_failed(*doc, t as int, auths);
                        }
                        return Err(ProcessError::InvalidText { track: t });
                    },
                },
                EventKind::NoteOn { channel, key } => {
                    let pitch = Note { track: tn, channel: *channel, note: *key };
                    let delta: u128 = time2 - prev_matched;
                    let repeated = delta == 0 && (match prev_pitch {
                        Some(p) => p == pitch,
                        None => false,
                    });
                    if !repeated {
                        prev_pitch = Some(pitch);
                        let complete_note = CompleteNote { delta, note: pitch };
                        if machine_matches_note(&machine_notes, &complete_note, &info) {
                            proof {
                                notes@.lemma_push_map_commute(
                                    |cn: CompleteNote| cn@,
                                    complete_note,
                                );
                            }
                            notes.push(complete_note);
                            prev_matched = time2;
                            proof {
                                assert(onset_models(notes@) =~= notes_before + g2.notes);
                            }
                        }
                    }
                    time = time2;
                },
                EventKind::Other => {
                    time = time2;
                },
            }
            k = k + 1;
        }
        metas.push(info);
        t = t + 1;
        proof {
            assert(tracks_notes_model(doc.timing, dt, auths, doc.tracks@, t as int)
                == tracks_notes_model(doc.timing, dt, auths, doc.tracks@, t as int - 1)
                + scan_track(doc.timing, dt, auths, (t - 1) as u32,
                doc.tracks@[t as int - 1]@).notes);
        }
    }
    proof {
        assert forall|i: int| 0 <= i < doc.tracks@.len() implies track_ok(*doc, i) by {
            assert(!scan_track(doc.timing, dt, auths, i as u32, doc.tracks@[i]@).failed);
            lemma_scan_auths_independent(doc.timing, dt, auths, Seq::empty(), i as u32,
                doc.tracks@[i]@, doc.tracks@[i]@.len() as int);
        };
        lemma_first_failed_none(*doc);
    }
    Ok((notes, metas))
}

/// Once a track has failed, the rest of its events leave the scan unchanged.
proof fn lemma_scan_failed_stays(
    t: Timing,
    default_tempo: Option<u32>,
    auths: Seq<ControlledNotes>,
    track_number: u32,
    events: Seq<TrackEvent>,
    n: int,
    m: int,
)
    requires
        0 <= n <= m,
        scan_events(t, default_tempo, auths, track_number, events, n).failed,
    ensures
        scan_events(t, default_tempo, auths, track_number, events, m) == scan_events(
            t,
            default_tempo,
            auths,
            track_number,
            events,
            n,
        ),
    decreases m - n,
{
    if n < m {
        lemma_scan_failed_stays(t, default_tempo, auths, track_number, events, n, m - 1);
    }
}

/// A track that fails under this machine's rules, after clean earlier tracks,
/// is the document's first failed track.
proof fn lemma_mark_first_failed(doc: MidiDocument, t: int, auths: Seq<ControlledNotes>)
    requires
        0 <= t < doc.tracks@.len(),
        scan_track(doc.timing, default_tempo_of(doc), auths, t as u32, doc.tracks@[t]@).failed,
        forall|i: int|
            0 <= i < t ==> !(#[trigger] scan_track(doc.timing, default_tempo_of(doc), auths,
            i as u32, doc.tracks@[i]@)).failed,
    ensures
        first_failed_track(doc) == Some(t),
{
    lemma_scan_auths_independent(doc.timing, default_tempo_of(doc), auths, Seq::empty(), t as u32,
        doc.tracks@[t]@, doc.tracks@[t]@.len() as int);
    assert forall|i: int| 0 <= i < t implies track_ok(doc, i) by {
        assert(!scan_track(doc.timing, default_tempo_of(doc), auths, i as u32,
            doc.tracks@[i]@).failed);
        lemma_scan_auths_independent(doc.timing, default_tempo_of(doc), auths, Seq::empty(),
            i as u32, doc.tracks@[i]@, doc.tracks@[i]@.len() as int);
    };
    lemma_first_failed_some(doc, t);
}

} // verus!
