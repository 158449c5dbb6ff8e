//! Properties of the pipeline, stated and proved once and for all: constant
//! tick worth under timecode, monotone time, repeat suppression, independence
//! of per-machine matching, round-robin fairness, and per-actuator delta
//! telescoping.

use vstd::arithmetic::div_mod::{lemma_fundamental_div_mod, lemma_mod_bound};
use vstd::prelude::*;

use crate::assign::{assign_fold, assign_step, assigned_to, choose_actuator, first_match_from};
use crate::director_data::NoteModel;
use crate::events::{EventKind, Timing, TrackEvent};
use crate::scene::{auths_match, cn_matches, ControlledNotes, Machine, Note};
use crate::timeline::{
    initial_step, scan_events, scan_step, OnsetModel, TrackMeta, TrackScan,
};

verus! {

/// Under timecode timing the tick worth is the same at every event of every
/// track: tempo events never change it.
pub proof fn lemma_timecode_tick_length_constant(
    t: Timing,
    default_tempo: Option<u32>,
    auths: Seq<ControlledNotes>,
    track_number: u32,
    events: Seq<TrackEvent>,
    n: int,
)
    requires
        t is Timecode,
        0 <= n,
    ensures
        scan_events(t, default_tempo, auths, track_number, events, n).step == initial_step(
            t,
            default_tempo,
        ),
    decreases n,
{
    if n > 0 {
        lemma_timecode_tick_length_constant(t, default_tempo, auths, track_number, events, n - 1);
    }
}

/// The tick worth is never negative.
pub proof fn lemma_step_nonneg(
    t: Timing,
    default_tempo: Option<u32>,
    auths: Seq<ControlledNotes>,
    track_number: u32,
    events: Seq<TrackEvent>,
    n: int,
)
    requires
        0 <= n,
    ensures
        scan_events(t, default_tempo, auths, track_number, events, n).step >= 0,
    decreases n,
{
    if n > 0 {
        lemma_step_nonneg(t, default_tempo, auths, track_number, events, n - 1);
    }
}

/// Time never decreases along a track: tick deltas are non-negative, so each
/// event's timestamp is at least the previous one's.
pub proof fn lemma_time_monotonic(
    t: Timing,
    default_tempo: Option<u32>,
    auths: Seq<ControlledNotes>,
    track_number: u32,
    events: Seq<TrackEvent>,
    i: int,
    j: int,
)
    requires
        0 <= i <= j,
    ensures
        scan_events(t, default_tempo, auths, track_number, events, i).time <= scan_events(
            t,
            default_tempo,
            auths,
            track_number,
            events,
            j,
        ).time,
    decreases j - i,
{
    if i < j {
        lemma_time_monotonic(t, default_tempo, auths, track_number, events, i, j - 1);
        let st = scan_events(t, default_tempo, auths, track_number, events, j - 1);
        lemma_step_nonneg(t, default_tempo, auths, track_number, events, j - 1);
        if !st.failed {
            let e = events[j - 1];
            assert(0 <= e.delta_ticks * st.step) by (nonlinear_arith)
                requires
                    0 <= e.delta_ticks,
                    0 <= st.step,
            ;
        }
    }
}

/// Repeat suppression: an onset of pitch `(channel, key)` followed, zero
/// ticks later, by another onset of the same pitch yields at most one kept
/// onset — the second is either suppressed as a repeat or fails the same
/// authorization test the first failed.
pub proof fn lemma_repeat_suppressed(
    t: Timing,
    auths: Seq<ControlledNotes>,
    track_number: u32,
    st: TrackScan,
    first_delta: u32,
    channel: u8,
    key: u8,
)
    requires
        !st.failed,
    ensures
        ({
            let e1 = TrackEvent {
                delta_ticks: first_delta,
                kind: EventKind::NoteOn { channel, key },
            };
            let e2 = TrackEvent { delta_ticks: 0, kind: EventKind::NoteOn { channel, key } };
            let st1 = scan_step(t, auths, track_number, st, e1);
            let st2 = scan_step(t, auths, track_number, st1, e2);
            st2.notes == st1.notes && st1.notes.len() <= st.notes.len() + 1
        }),
{
}

/// An onset of a pitch other than the last non-suppressed one is never
/// suppressed, even zero ticks later: it is kept iff the machine authorizes
/// it.
pub proof fn lemma_distinct_pitch_not_suppressed(
    t: Timing,
    auths: Seq<ControlledNotes>,
    track_number: u32,
    st: TrackScan,
    channel: u8,
    key: u8,
)
    requires
        !st.failed,
        st.prev_pitch != Some(Note { track: track_number, channel, note: key }),
    ensures
        ({
            let pitch = Note { track: track_number, channel, note: key };
            let e = TrackEvent { delta_ticks: 0, kind: EventKind::NoteOn { channel, key } };
            let st2 = scan_step(t, auths, track_number, st, e);
            if auths_match(auths, pitch, st.meta.track_name) {
                st2.notes == st.notes.push(
                    OnsetModel { delta: st.time - st.prev_matched, note: pitch },
                )
            } else {
                st2.notes == st.notes
            }
        }),
{
}

/// A machine whose rules match no onset under any track name the track
/// carries keeps nothing — whatever other machines keep from the same track.
pub proof fn lemma_excluded_machine_keeps_nothing(
    t: Timing,
    default_tempo: Option<u32>,
    auths: Seq<ControlledNotes>,
    track_number: u32,
    events: Seq<TrackEvent>,
    n: int,
)
    requires
        0 <= n,
        forall|k: int, p: Note|
            0 <= k < n ==> !#[trigger] auths_match(
                auths,
                p,
                scan_events(t, default_tempo, auths, track_number, events, k).meta.track_name,
            ),
    ensures
        scan_events(t, default_tempo, auths, track_number, events, n).notes == Seq::<
            OnsetModel,
        >::empty(),
    decreases n,
{
    if n > 0 {
        lemma_excluded_machine_keeps_nothing(t, default_tempo, auths, track_number, events, n - 1);
    }
}

/// How many of the first `m` naturals are congruent to `j` modulo `n`.
pub open spec fn count_mod_hits(m: int, n: int, j: int) -> int
    decreases m,
{
    if m <= 0 {
        0
    } else {
        count_mod_hits(m - 1, n, j) + if (m - 1) % n == j {
            1int
        } else {
            0int
        }
    }
}

/// Incrementing the dividend steps the remainder cyclically and the quotient
/// at the wrap.
proof fn lemma_div_mod_increment(i: int, n: int)
    requires
        0 <= i,
        0 < n,
    ensures
        i % n < n - 1 ==> (i + 1) % n == i % n + 1 && (i + 1) / n == i / n,
        i % n == n - 1 ==> (i + 1) % n == 0 && (i + 1) / n == i / n + 1,
{
    lemma_fundamental_div_mod(i, n);
    lemma_fundamental_div_mod(i + 1, n);
    lemma_mod_bound(i, n);
    lemma_mod_bound(i + 1, n);
    let q = i / n;
    let r = i % n;
    let q2 = (i + 1) / n;
    let r2 = (i + 1) % n;
    if r < n - 1 {
        assert(q2 == q && r2 == r + 1) by (nonlinear_arith)
            requires
                n * q + r + 1 == n * q2 + r2,
                0 <= r < n - 1,
                0 <= r2 < n,
                0 < n,
        ;
    } else {
        assert(q2 == q + 1 && r2 == 0) by (nonlinear_arith)
            requires
                n * q + r + 1 == n * q2 + r2,
                r == n - 1,
                0 <= r2 < n,
                0 < n,
        ;
    }
}

/// Exactly `⌊m/n⌋` of the first `m` naturals are congruent to `j` modulo
/// `n`, plus one more when `j` falls inside the final partial cycle.
pub proof fn lemma_count_mod_hits(m: int, n: int, j: int)
    requires
        0 <= m,
        0 < n,
        0 <= j < n,
    ensures
        count_mod_hits(m, n, j) == m / n + if j < m % n {
            1int
        } else {
            0int
        },
    decreases m,
{
    if m == 0 {
        assert(0int / n == 0 && 0int % n == 0) by (nonlinear_arith)
            requires
                0 < n,
        ;
    } else {
        lemma_count_mod_hits(m - 1, n, j);
        lemma_div_mod_increment(m - 1, n);
        lemma_mod_bound(m - 1, n);
    }
}

/// A cyclic scan that finds an actuator finds one inside the pool.
pub proof fn lemma_first_match_in_range(
    m: Machine,
    name: Option<Seq<char>>,
    pitch: Note,
    start: int,
    k: int,
)
    ensures
        match first_match_from(m, name, pitch, start, k) {
            Some(j) => 0 <= j < m.actuators@.len(),
            None => true,
        },
    decreases m.actuators@.len() - k,
{
    let n = m.actuators@.len() as int;
    if 0 <= k < n {
        lemma_mod_bound(start + k, n);
        lemma_first_match_in_range(m, name, pitch, start, k + 1);
    }
}

/// When every actuator of the machine authorizes every onset of the stream
/// (a pool of interchangeable actuators), assignment is pure round-robin:
/// onset `x` goes to actuator `x mod n`, and no onset fails.
pub proof fn lemma_round_robin_assignment(
    m: Machine,
    metas: Seq<TrackMeta>,
    notes: Seq<OnsetModel>,
    k: int,
)
    requires
        m.actuators@.len() >= 1,
        0 <= k <= notes.len(),
        forall|i: int, x: int|
            0 <= i < m.actuators@.len() && 0 <= x < notes.len() ==> cn_matches(
                #[trigger] m.actuators@[i].controlled_notes,
                (#[trigger] notes[x]).note,
                metas[notes[x].note.track as int].track_name,
            ),
    ensures
        ({
            let af = assign_fold(m, metas, notes, k);
            &&& !af.failed
            &&& af.next_index == k
            &&& af.assigned.len() == k
            &&& forall|x: int|
                0 <= x < k ==> (#[trigger] af.assigned[x]).0 == x % (m.actuators@.len() as int)
        }),
    decreases k,
{
    let n = m.actuators@.len() as int;
    if k > 0 {
        lemma_round_robin_assignment(m, metas, notes, k - 1);
        let af = assign_fold(m, metas, notes, k - 1);
        let on = notes[k - 1];
        lemma_mod_bound(af.next_index, n);
        let idx = (af.next_index + 0) % n;
        assert(cn_matches(m.actuators@[idx].controlled_notes, on.note, metas[on.note.track as int].track_name));
        assert(first_match_from(m, metas[on.note.track as int].track_name, on.note, af.next_index, 0)
            == Some(idx));
        assert((k - 1 + 0) % n == (k - 1) % n);
    }
}

/// Round-robin fairness: with `n > 1` interchangeable actuators, consecutive
/// onsets never land on the same actuator, and over `M` onsets each actuator
/// `j` receives exactly `⌊M/n⌋ + 1` onsets when `j < M mod n` and `⌊M/n⌋`
/// otherwise — that is, `⌊M/n⌋` or `⌈M/n⌉` times.
pub proof fn lemma_round_robin_fairness(
    m: Machine,
    metas: Seq<TrackMeta>,
    notes: Seq<OnsetModel>,
    j: int,
)
    requires
        m.actuators@.len() >= 1,
        0 <= j < m.actuators@.len(),
        forall|i: int, x: int|
            0 <= i < m.actuators@.len() && 0 <= x < notes.len() ==> cn_matches(
                #[trigger] m.actuators@[i].controlled_notes,
                (#[trigger] notes[x]).note,
                metas[notes[x].note.track as int].track_name,
            ),
    ensures
        ({
            let n = m.actuators@.len() as int;
            let len = notes.len() as int;
            let af = assign_fold(m, metas, notes, len);
            &&& !af.failed
            &&& assigned_to(af.assigned, j).len() == len / n + if j < len % n {
                1int
            } else {
                0int
            }
            &&& n > 1 ==> forall|x: int|
                0 <= x < len - 1 ==> (#[trigger] af.assigned[x]).0 != af.assigned[x + 1].0
        }),
{
    let n = m.actuators@.len() as int;
    let len = notes.len() as int;
    lemma_round_robin_assignment(m, metas, notes, len);
    lemma_assigned_to_counts(m, metas, notes, len, j);
    lemma_count_mod_hits(len, n, j);
    let af = assign_fold(m, metas, notes, len);
    if n > 1 {
        assert forall|x: int| 0 <= x < len - 1 implies (#[trigger] af.assigned[x]).0
            != af.assigned[x + 1].0 by {
            lemma_div_mod_increment(x, n);
            lemma_mod_bound(x, n);
        };
    }
}

proof fn lemma_assigned_to_counts(
    m: Machine,
    metas: Seq<TrackMeta>,
    notes: Seq<OnsetModel>,
    k: int,
    j: int,
)
    requires
        m.actuators@.len() >= 1,
        0 <= k <= notes.len(),
        forall|i: int, x: int|
            0 <= i < m.actuators@.len() && 0 <= x < notes.len() ==> cn_matches(
                #[trigger] m.actuators@[i].controlled_notes,
                (#[trigger] notes[x]).note,
                metas[notes[x].note.track as int].track_name,
            ),
    ensures
        assigned_to(assign_fold(m, metas, notes, k).assigned, j).len() == count_mod_hits(
            k,
            m.actuators@.len() as int,
            j,
        ),
    decreases k,
{
    lemma_round_robin_assignment(m, metas, notes, k);
    if k > 0 {
        lemma_assigned_to_counts(m, metas, notes, k - 1, j);
        lemma_round_robin_assignment(m, metas, notes, k - 1);
        let af = assign_fold(m, metas, notes, k - 1);
        let af2 = assign_fold(m, metas, notes, k);
        assert(af2.assigned.drop_last() =~= af.assigned);
    }
}

/// Assignment is total: as long as no onset has failed the machine, every
/// onset of the stream has been assigned to exactly one actuator, in order.
pub proof fn lemma_assignment_total(
    m: Machine,
    metas: Seq<TrackMeta>,
    notes: Seq<OnsetModel>,
    k: int,
)
    requires
        0 <= k,
        !assign_fold(m, metas, notes, k).failed,
    ensures
        assign_fold(m, metas, notes, k).assigned.len() == k,
    decreases k,
{
    if k > 0 {
        if assign_fold(m, metas, notes, k - 1).failed {
            crate::assign::lemma_assign_failed_stays(m, metas, notes, k - 1, k);
        }
        lemma_assignment_total(m, metas, notes, k - 1);
    }
}

/// Sum of the deltas of a schedule's notes.
pub open spec fn delta_sum(notes: Seq<NoteModel>) -> int
    decreases notes.len(),
{
    if notes.len() == 0 {
        0
    } else {
        delta_sum(notes.drop_last()) + notes.last().delta
    }
}

/// The assigner's clock tables keep their sizes: one entry per track and one
/// per actuator.
pub proof fn lemma_assign_fold_lens(
    m: Machine,
    metas: Seq<TrackMeta>,
    notes: Seq<OnsetModel>,
    k: int,
)
    requires
        k <= notes.len(),
        forall|x: int| 0 <= x < notes.len() ==> (#[trigger] notes[x]).note.track < metas.len(),
    ensures
        assign_fold(m, metas, notes, k).act_last.len() == m.actuators@.len(),
        assign_fold(m, metas, notes, k).track_time.len() == metas.len(),
    decreases k,
{
    if k > 0 {
        lemma_assign_fold_lens(m, metas, notes, k - 1);
        let st = assign_fold(m, metas, notes, k - 1);
        if !st.failed {
            let on = notes[k - 1];
            let tr = on.note.track as int;
            match choose_actuator(m, metas[tr].track_name, on.note, st.next_index) {
                None => {},
                Some(chosen) => {
                    lemma_first_match_in_range(
                        m,
                        metas[tr].track_name,
                        on.note,
                        st.next_index,
                        0,
                    );
                },
            }
        }
    }
}

/// Delta re-basing telescopes: at any point of the assignment, the deltas
/// emitted to one actuator sum to that actuator's cumulative firing time, so
/// each emitted delta is exactly the machine-relative time elapsed since that
/// actuator last fired.
pub proof fn lemma_actuator_deltas_telescope(
    m: Machine,
    metas: Seq<TrackMeta>,
    notes: Seq<OnsetModel>,
    k: int,
    j: int,
)
    requires
        0 <= k <= notes.len(),
        0 <= j < m.actuators@.len(),
        forall|x: int| 0 <= x < notes.len() ==> (#[trigger] notes[x]).note.track < metas.len(),
        !assign_fold(m, metas, notes, k).failed,
    ensures
        delta_sum(assigned_to(assign_fold(m, metas, notes, k).assigned, j)) == assign_fold(
            m,
            metas,
            notes,
            k,
        ).act_last[j],
    decreases k,
{
    if k > 0 {
        let af = assign_fold(m, metas, notes, k - 1);
        let af2 = assign_fold(m, metas, notes, k);
        if af.failed {
            crate::assign::lemma_assign_failed_stays(m, metas, notes, k - 1, k);
            assert(!af2.failed);
            assert(false);
        }
        lemma_actuator_deltas_telescope(m, metas, notes, k - 1, j);
        lemma_assign_fold_lens(m, metas, notes, k - 1);
        let on = notes[k - 1];
        let name = metas[on.note.track as int].track_name;
        match choose_actuator(m, name, on.note, af.next_index) {
            None => {
                assert(af2.failed);
            },
            Some(chosen) => {
                lemma_first_match_in_range(m, name, on.note, af.next_index, 0);
                let tr = on.note.track as int;
                let tt = af.track_time[tr] + on.delta;
                assert(af2.assigned.drop_last() =~= af.assigned);
                assert(af2.assigned.last() == (
                    chosen,
                    NoteModel {
                        delta: tt - af.act_last[chosen],
                        track: on.note.track,
                        channel: on.note.channel,
                        note: on.note.note,
                    },
                ));
                if chosen == j {
                    assert(assigned_to(af2.assigned, j) == assigned_to(af.assigned, j).push(
                        af2.assigned.last().1,
                    ));
                    assert(assigned_to(af2.assigned, j).drop_last() =~= assigned_to(
                        af.assigned,
                        j,
                    ));
                    assert(af2.act_last[j] == tt);
                } else {
                    assert(assigned_to(af2.assigned, j) == assigned_to(af.assigned, j));
                    assert(af2.act_last[j] == af.act_last[j]);
                }
            },
        }
    }
}

/// A metrical track with no default tempo and no tempo event of its own never
/// advances time: every onset is timestamped at zero and every kept onset has
/// delta zero.
pub proof fn lemma_no_tempo_time_zero(
    t: Timing,
    auths: Seq<ControlledNotes>,
    track_number: u32,
    events: Seq<TrackEvent>,
    n: int,
)
    requires
        t is Metrical,
        0 <= n <= events.len(),
        forall|k: int| 0 <= k < n ==> !((#[trigger] events[k]).kind is Tempo),
    ensures
        ({
            let st = scan_events(t, None, auths, track_number, events, n);
            &&& st.step == 0
            &&& st.time == 0
            &&& st.prev_matched == 0
            &&& forall|k: int| 0 <= k < st.notes.len() ==> (#[trigger] st.notes[k]).delta == 0
        }),
    decreases n,
{
    if n > 0 {
        lemma_no_tempo_time_zero(t, auths, track_number, events, n - 1);
        let st = scan_events(t, None, auths, track_number, events, n - 1);
        let st2 = scan_events(t, None, auths, track_number, events, n);
        assert(st2 == scan_step(t, auths, track_number, st, events[n - 1]));
    }
}

} // verus!
