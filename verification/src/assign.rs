//! The actuator assigner: multiplex one machine's kept-onset stream across
//! its actuator pool with round-robin preference, re-deriving each actuator's
//! own inter-onset delay from the shared per-track timeline.

use vstd::arithmetic::div_mod::lemma_mod_bound;
use vstd::prelude::*;

use crate::director_data::{actuator_models, note_models, ActuatorModel, NoteModel};
use crate::process::ProcessError;
use crate::scene::{cn_matches, machine_wf, Machine};
use crate::timeline::{
    lemma_delta_le_sum, lemma_track_delta_sum_take, note_matches_controlled_notes, onset_models,
    track_delta_sum, CompleteNote, OnsetModel, TrackInfo, TrackMeta, TIME_NUM_MAX,
};

verus! {

/// The metadata models behind a metadata arena.
pub open spec fn meta_views(metas: Seq<TrackInfo>) -> Seq<TrackMeta> {
    metas.map_values(|m: TrackInfo| m@)
}

/// The full state of the assigner while it walks a machine's onset stream.
pub ghost struct AssignState {
    /// Where the next cyclic actuator scan starts; advanced once per onset.
    pub next_index: int,
    /// Per track: the cumulative time numerator of that track's latest onset,
    /// relative to this machine's own kept stream.
    pub track_time: Seq<int>,
    /// Per actuator: the cumulative time numerator at which it last fired.
    pub act_last: Seq<int>,
    /// The assignments made so far: actuator index and finished output note.
    pub assigned: Seq<(int, NoteModel)>,
    /// Whether an onset matched none of the machine's actuators.
    pub failed: bool,
}

/// The first actuator, scanning cyclically from offset `k` relative to
/// `start`, whose rule authorizes `pitch` from a track finally named `name`.
pub open spec fn first_match_from(
    m: Machine,
    name: Option<Seq<char>>,
    pitch: crate::scene::Note,
    start: int,
    k: int,
) -> Option<int>
    decreases m.actuators@.len() - k,
{
    let n = m.actuators@.len() as int;
    if k < 0 || k >= n {
        None
    } else {
        let idx = (start + k) % n;
        if cn_matches(m.actuators@[idx].controlled_notes, pitch, name) {
            Some(idx)
        } else {
            first_match_from(m, name, pitch, start, k + 1)
        }
    }
}

/// The actuator chosen for an onset: the first match in cyclic order starting
/// at `start`.
pub open spec fn choose_actuator(
    m: Machine,
    name: Option<Seq<char>>,
    pitch: crate::scene::Note,
    start: int,
) -> Option<int> {
    first_match_from(m, name, pitch, start, 0)
}

/// Assigner state before any onset: preference at 0, every per-track and
/// per-actuator clock at 0.
pub open spec fn assign_init(n_tracks: int, n_acts: int) -> AssignState {
    AssignState {
        next_index: 0,
        track_time: Seq::new(n_tracks as nat, |i: int| 0),
        act_last: Seq::new(n_acts as nat, |i: int| 0),
        assigned: Seq::empty(),
        failed: false,
    }
}

/// One onset through the assigner: advance its track's cumulative time by its
/// delta, pick the first authorized actuator in cyclic order from the
/// preference index, emit the note with its delta re-based against that
/// actuator's own last firing time, update that actuator's clock, and advance
/// the preference index by one (whichever actuator was chosen). An onset that
/// no actuator authorizes fails the machine.
pub open spec fn assign_step(
    m: Machine,
    metas: Seq<TrackMeta>,
    st: AssignState,
    on: OnsetModel,
) -> AssignState {
    if st.failed {
        st
    } else {
        let tr = on.note.track as int;
        let tt = st.track_time[tr] + on.delta;
        match choose_actuator(m, metas[tr].track_name, on.note, st.next_index) {
            None => AssignState { failed: true, ..st },
            Some(j) => AssignState {
                next_index: st.next_index + 1,
                track_time: st.track_time.update(tr, tt),
                act_last: st.act_last.update(j, tt),
                assigned: st.assigned.push(
                    (
                        j,
                        NoteModel {
                            delta: tt - st.act_last[j],
                            track: on.note.track,
                            channel: on.note.channel,
                            note: on.note.note,
                        },
                    ),
                ),
                failed: false,
            },
        }
    }
}

/// Assigner state after the first `k` onsets of the stream.
pub open spec fn assign_fold(
    m: Machine,
    metas: Seq<TrackMeta>,
    notes: Seq<OnsetModel>,
    k: int,
) -> AssignState
    decreases k,
{
    if k <= 0 {
        assign_init(metas.len() as int, m.actuators@.len() as int)
    } else {
        assign_step(m, metas, assign_fold(m, metas, notes, k - 1), notes[k - 1])
    }
}

/// The notes assigned to actuator `j`, in emission order.
pub open spec fn assigned_to(assigned: Seq<(int, NoteModel)>, j: int) -> Seq<NoteModel>
    decreases assigned.len(),
{
    if assigned.len() == 0 {
        Seq::empty()
    } else {
        let rest = assigned_to(assigned.drop_last(), j);
        if assigned.last().0 == j {
            rest.push(assigned.last().1)
        } else {
            rest
        }
    }
}

/// The output records for actuators `j` and on, in actuator order, one per
/// actuator that received at least one note.
pub open spec fn schedules_from(
    m: Machine,
    assigned: Seq<(int, NoteModel)>,
    j: int,
) -> Seq<ActuatorModel>
    decreases m.actuators@.len() - j,
{
    if j < 0 || j >= m.actuators@.len() {
        Seq::empty()
    } else {
        let rest = schedules_from(m, assigned, j + 1);
        if assigned_to(assigned, j).len() > 0 {
            seq![ActuatorModel { name: m.actuators@[j].name@, notes: assigned_to(assigned, j) }]
                + rest
        } else {
            rest
        }
    }
}

/// Once an onset has failed the machine, the rest of the stream leaves the
/// assigner unchanged.
pub proof fn lemma_assign_failed_stays(
    m: Machine,
    metas: Seq<TrackMeta>,
    notes: Seq<OnsetModel>,
    n: int,
    k: int,
)
    requires
        0 <= n <= k,
        assign_fold(m, metas, notes, n).failed,
    ensures
        assign_fold(m, metas, notes, k) == assign_fold(m, metas, notes, n),
    decreases k - n,
{
    if n < k {
        lemma_assign_failed_stays(m, metas, notes, n, k - 1);
    }
}

/// The first actuator, in cyclic order from `start`, authorized to play this
/// onset against its track's final metadata.
fn find_actuator(
    machine: &Machine,
    note: &CompleteNote,
    info: &TrackInfo,
    start: usize,
) -> (r: Option<usize>)
    ensures
        match r {
            Some(j) => j < machine.actuators@.len() && choose_actuator(
                *machine,
                info@.track_name,
                note.note,
                start as int,
            ) == Some(j as int),
            None => choose_actuator(*machine, info@.track_name, note.note, start as int) is None,
        },
{
    let n = machine.actuators.len();
    if n == 0 {
        return None;
    }
    let mut k: usize = 0;
    while k < n
        invariant
            0 <= k <= n,
            n == machine.actuators@.len(),
            n > 0,
            choose_actuator(*machine, info@.track_name, note.note, start as int)
                == first_match_from(*machine, info@.track_name, note.note, start as int, k as int),
        decreases n - k,
    {
        proof {
            lemma_mod_bound(start as int + k as int, n as int);
        }
        let idx = (((start as u128) + (k as u128)) % (n as u128)) as usize;
        proof {
            assert(idx as int == (start as int + k as int) % (n as int));
        }
        if note_matches_controlled_notes(&machine.actuators[idx].controlled_notes, note, info) {
            return Some(idx);
        }
        k = k + 1;
    }
    None
}

/// Zeroed clocks, one per entry.
fn zero_times(n: usize) -> (r: Vec<u128>)
    ensures
        r@.len() == n,
        forall|i: int| 0 <= i < n ==> r@[i] == 0,
{
    let mut v: Vec<u128> = Vec::new();
    let mut i: usize = 0;
    while i < n
        invariant
            0 <= i <= n,
            v@.len() == i,
            forall|k: int| 0 <= k < i ==> v@[k] == 0,
        decreases n - i,
    {
        v.push(0);
        i = i + 1;
    }
    v
}

/// Multiplex one machine's kept-onset stream across its actuators: the result
/// is exactly the fold of [`assign_step`] over the stream, grouped into one
/// record per actuator that received a note, in actuator order. Fails iff
/// some onset matches none of the machine's actuators at assignment time.
pub fn process_machine(
    notes: Vec<CompleteNote>,
    machine: &Machine,
    metas: &Vec<TrackInfo>,
) -> (r: Result<Vec<crate::director_data::Actuator>, ProcessError>)
    requires
        machine_wf(*machine),
        forall|i: int|
            0 <= i < notes@.len() ==> (#[trigger] notes@[i]).note.track < metas@.len(),
        forall|tr: int|
            0 <= tr < metas@.len() ==> #[trigger] track_delta_sum(onset_models(notes@), tr)
                <= TIME_NUM_MAX,
    ensures
        ({
            let af = assign_fold(
                *machine,
                meta_views(metas@),
                onset_models(notes@),
                notes@.len() as int,
            );
            match r {
                Ok(v) => !af.failed && actuator_models(v@) == schedules_from(
                    *machine,
                    af.assigned,
                    0,
                ),
                Err(e) => e == ProcessError::NoMatchingActuator && af.failed,
            }
        }),
{
    let ghost ms = onset_models(notes@);
    let ghost mv = meta_views(metas@);
    let n_tracks = metas.len();
    let n_acts = machine.actuators.len();
    let mut next_index: usize = 0;
    let mut track_time: Vec<u128> = zero_times(n_tracks);
    let mut act_last: Vec<u128> = zero_times(n_acts);
    let mut assigned: Vec<(usize, crate::director_data::Note)> = Vec::new();
    let n_notes = notes.len();
    proof {
        assert(ms.take(0) =~= Seq::<OnsetModel>::empty());
        assert(forall|x: int| 0 <= x < ms.len() ==> 0 <= (#[trigger] ms[x]).delta);
    }
    let mut i: usize = 0;
    while i < n_notes
        invariant
            0 <= i <= n_notes,
            n_notes == notes@.len(),
            n_tracks == metas@.len(),
            n_acts == machine.actuators@.len(),
            ms == onset_models(notes@),
            mv == meta_views(metas@),
            forall|x: int| 0 <= x < notes@.len() ==> (#[trigger] notes@[x]).note.track < n_tracks,
            forall|tr: int|
                0 <= tr < n_tracks ==> #[trigger] track_delta_sum(ms, tr) <= TIME_NUM_MAX,
            track_time@.len() == n_tracks,
            act_last@.len() == n_acts,
            ({
                let af = assign_fold(*machine, mv, ms, i as int);
                &&& !af.failed
                &&& af.next_index == next_index as int
                &&& next_index <= i
                &&& af.track_time.len() == n_tracks
                &&& forall|tr: int|
                    0 <= tr < n_tracks ==> (#[trigger] af.track_time[tr]) == track_time@[tr]
                        && af.track_time[tr] == track_delta_sum(ms.take(i as int), tr)
                &&& af.act_last.len() == n_acts
                &&& forall|j: int|
                    0 <= j < n_acts ==> (#[trigger] af.act_last[j]) == act_last@[j]
                        && 0 <= af.act_last[j] <= TIME_NUM_MAX
                &&& af.assigned.len() == assigned@.len()
                &&& forall|x: int|
                    0 <= x < assigned@.len() ==> (#[trigger] af.assigned[x]).0 == assigned@[x].0
                        && af.assigned[x].1 == assigned@[x].1@
            }),
        decreases n_notes - i,
    {
        let ghost af = assign_fold(*machine, mv, ms, i as int);
        let ghost af2 = assign_fold(*machine, mv, ms, i as int + 1);
        proof {
            assert(af2 == assign_step(*machine, mv, af, ms[i as int]));
            assert(ms[i as int] == notes@[i as int]@);
            assert(ms.take(i as int + 1).drop_last() =~= ms.take(i as int));
            assert(ms.take(i as int + 1).last() == ms[i as int]);
            assert(forall|x: int| 0 <= x < ms.len() ==> 0 <= (#[trigger] ms[x]).delta);
        }
        let note = &notes[i];
        let tr = note.note.track as usize;
        proof {
            lemma_track_delta_sum_take(ms, i as int + 1, tr as int);
        }
        let tt: u128 = track_time[tr] + note.delta;
        track_time[tr] = tt;
        let found = find_actuator(machine, note, &metas[tr], next_index);
        match found {
            None => {
                proof {
                    lemma_assign_failed_stays(*machine, mv, ms, i as int + 1, n_notes as int);
                }
                return Err(ProcessError::NoMatchingActuator);
            },
            Some(j) => {
                proof {
                    lemma_delta_le_sum(ms, i as int, tr as int);
                    lemma_track_delta_sum_take(ms, i as int, tr as int);
                }
                let mut note_copy = note.into_output_note();
                let d: i128 = (tt as i128) - (act_last[j] as i128);
                note_copy.delta = d;
                act_last[j] = tt;
                assigned.push((j, note_copy));
                next_index = next_index + 1;
            },
        }
        i = i + 1;
    }
    let ghost af = assign_fold(*machine, mv, ms, n_notes as int);
    let ghost va = af.assigned;
    let mut result: Vec<crate::director_data::Actuator> = Vec::new();
    proof {
        assert(actuator_models(result@) =~= Seq::<ActuatorModel>::empty());
        assert(actuator_models(result@) + schedules_from(*machine, va, 0) =~= schedules_from(
            *machine,
            va,
            0,
        ));
    }
    let mut j: usize = 0;
    while j < n_acts
        invariant
            0 <= j <= n_acts,
            n_acts == machine.actuators@.len(),
            va == assign_fold(*machine, mv, ms, n_notes as int).assigned,
            n_notes == notes@.len(),
            ms == onset_models(notes@),
            mv == meta_views(metas@),
            va.len() == assigned@.len(),
            forall|x: int|
                0 <= x < assigned@.len() ==> (#[trigger] va[x]).0 == assigned@[x].0 && va[x].1
                    == assigned@[x].1@,
            actuator_models(result@) + schedules_from(*machine, va, j as int) == schedules_from(
                *machine,
                va,
                0,
            ),
        decreases n_acts - j,
    {
        let mut collected: Vec<crate::director_data::Note> = Vec::new();
        let n_assigned = assigned.len();
        proof {
            assert(va.take(0) =~= Seq::<(int, NoteModel)>::empty());
            assert(note_models(collected@) =~= assigned_to(va.take(0), j as int));
        }
        let mut x: usize = 0;
        while x < n_assigned
            invariant
                0 <= x <= n_assigned,
                n_assigned == assigned@.len(),
                va.len() == assigned@.len(),
                forall|y: int|
                    0 <= y < assigned@.len() ==> (#[trigger] va[y]).0 == assigned@[y].0 && va[y].1
                        == assigned@[y].1@,
                note_models(collected@) == assigned_to(va.take(x as int), j as int),
            decreases n_assigned - x,
        {
            proof {
                assert(va.take(x as int + 1).drop_last() =~= va.take(x as int));
                assert(va.take(x as int + 1).last() == va[x as int]);
            }
            if assigned[x].0 == j {
                collected.push(assigned[x].1);
                proof {
                    assert(note_models(collected@) =~= assigned_to(va.take(x as int + 1),
                    j as int));
                }
            }
            x = x + 1;
        }
        proof {
            assert(va.take(n_assigned as int) =~= va);
        }
        if collected.len() > 0 {
            let name = machine.actuators[j].name.clone();
            let act = crate::director_data::Actuator { name, notes: collected };
            proof {
                assert(act@.notes =~= assigned_to(va, j as int));
                assert(act@ == ActuatorModel {
                    name: machine.actuators@[j as int].name@,
                    notes: assigned_to(va, j as int),
                });
            }
            result.push(act);
            proof {
                assert(actuator_models(result@) =~= actuator_models(result@.drop_last()).push(
                    act@,
                ));
                assert(actuator_models(result@) + schedules_from(*machine, va, j as int + 1)
                    =~= actuator_models(result@.drop_last()) + schedules_from(*machine, va,
                    j as int));
            }
        }
        j = j + 1;
    }
    proof {
        assert(schedules_from(*machine, va, n_acts as int) =~= Seq::<ActuatorModel>::empty());
        assert(actuator_models(result@) + schedules_from(*machine, va, n_acts as int)
            =~= actuator_models(result@));
    }
    Ok(result)
}

} // verus!
