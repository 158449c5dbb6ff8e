//! The top-level pipeline: per machine, filter the document's onsets and
//! multiplex them across the machine's actuators.

use vstd::prelude::*;

use crate::assign::{
    assign_fold, meta_views, process_machine, schedules_from, AssignState,
};
use crate::director_data::{actuator_models, ActuatorModel, DirectorData};
use crate::events::{doc_wf, MidiDocument};
use crate::scene::{machine_auths, scene_wf, ControlledNotes, Machine, Scene};
use crate::timeline::{
    default_tempo_of, first_failed_track, get_machine_note_events, lemma_find_first_tempo_wf,
    lemma_tracks_notes_model_wf, onset_models, scan_track, track_delta_sum, tracks_notes_model,
    TrackMeta, TIME_NUM_MAX,
};

verus! {

/// The terminal failures of the pipeline. `InvalidText` reports the first
/// track holding a descriptive event whose bytes are not valid text.
/// `NoMatchingActuator` reports an onset that was kept for a machine but, at
/// assignment time, matched none of its actuators (possible only when a
/// track's name changes after the onset).
#[derive(Clone, Copy, Debug, PartialEq, Eq, Structural)]
pub enum ProcessError {
    InvalidText { track: usize },
    NoMatchingActuator,
}

/// The onset stream one machine keeps out of the whole document.
pub open spec fn machine_note_stream(doc: MidiDocument, m: Machine) -> Seq<
    crate::timeline::OnsetModel,
> {
    tracks_notes_model(
        doc.timing,
        default_tempo_of(doc),
        machine_auths(m),
        doc.tracks@,
        doc.tracks@.len() as int,
    )
}

/// Each track's final metadata, as the pass for machine `m` leaves it.
pub open spec fn machine_metas(doc: MidiDocument, m: Machine) -> Seq<TrackMeta> {
    Seq::new(
        doc.tracks@.len(),
        |i: int| scan_track(
            doc.timing,
            default_tempo_of(doc),
            machine_auths(m),
            i as u32,
            doc.tracks@[i]@,
        ).meta,
    )
}

/// The assigner's final state for machine `m` over the whole document.
pub open spec fn machine_fold(doc: MidiDocument, m: Machine) -> AssignState {
    assign_fold(m, machine_metas(doc, m), machine_note_stream(doc, m), machine_note_stream(
        doc,
        m,
    ).len() as int)
}

/// Whether every kept onset of machine `m` finds an actuator at assignment.
pub open spec fn machine_assign_ok(doc: MidiDocument, m: Machine) -> bool {
    !machine_fold(doc, m).failed
}

/// Machine `m`'s output records.
pub open spec fn machine_schedules(doc: MidiDocument, m: Machine) -> Seq<ActuatorModel> {
    schedules_from(m, machine_fold(doc, m).assigned, 0)
}

/// Prefix already-produced records onto the outcome of the remaining
/// machines.
pub open spec fn prepend_schedules(
    s: Seq<ActuatorModel>,
    r: Result<Seq<ActuatorModel>, ProcessError>,
) -> Result<Seq<ActuatorModel>, ProcessError> {
    match r {
        Ok(rest) => Ok(s + rest),
        Err(e) => Err(e),
    }
}

/// The outcome of processing machines `k` and on: their concatenated records,
/// or the failure of the first machine whose assignment fails.
pub open spec fn process_model_from(
    doc: MidiDocument,
    machines: Seq<Machine>,
    k: int,
) -> Result<Seq<ActuatorModel>, ProcessError>
    decreases machines.len() - k,
{
    if k < 0 || k >= machines.len() {
        Ok(Seq::empty())
    } else if !machine_assign_ok(doc, machines[k]) {
        Err(ProcessError::NoMatchingActuator)
    } else {
        prepend_schedules(
            machine_schedules(doc, machines[k]),
            process_model_from(doc, machines, k + 1),
        )
    }
}

/// What processing the whole document against the scene yields: with no
/// machine, nothing; otherwise the first invalid descriptive text aborts
/// everything, and else each machine contributes its records in scene order.
pub open spec fn process_model(doc: MidiDocument, scene: Scene) -> Result<
    Seq<ActuatorModel>,
    ProcessError,
> {
    if scene.machines@.len() == 0 {
        Ok(Seq::empty())
    } else {
        match first_failed_track(doc) {
            Some(t) => Err(ProcessError::InvalidText { track: t as usize }),
            None => process_model_from(doc, scene.machines@, 0),
        }
    }
}

/// Convert the whole recorded document into per-actuator schedules: for each
/// machine of the scene, in order, rebuild the timeline, keep the machine's
/// authorized onsets, assign them round-robin across its actuators, and
/// append the machine's records to the output. The result is exactly
/// [`process_model`]. The document must hold at least one track: the default
/// tempo is read from track 0.
pub fn process(doc: &MidiDocument, scene: &Scene) -> (r: Result<DirectorData, ProcessError>)
    requires
        doc_wf(*doc),
        doc.tracks@.len() >= 1,
        scene_wf(*scene),
    ensures
        match r {
            Ok(d) => process_model(*doc, *scene) == Ok::<Seq<ActuatorModel>, ProcessError>(d@),
            Err(e) => process_model(*doc, *scene) == Err::<Seq<ActuatorModel>, ProcessError>(e),
        },
{
    let mut actuators: Vec<crate::director_data::Actuator> = Vec::new();
    let n_machines = scene.machines.len();
    proof {
        let pmf = process_model_from(*doc, scene.machines@, 0);
        match pmf {
            Ok(rest) => {
                assert(actuator_models(actuators@) =~= Seq::<ActuatorModel>::empty());
                assert(actuator_models(actuators@) + rest =~= rest);
            },
            Err(_) => {},
        }
    }
    let mut mi: usize = 0;
    while mi < n_machines
        invariant
            doc_wf(*doc),
            doc.tracks@.len() >= 1,
            scene_wf(*scene),
            n_machines == scene.machines@.len(),
            0 <= mi <= n_machines,
            mi > 0 ==> first_failed_track(*doc) is None,
            prepend_schedules(
                actuator_models(actuators@),
                process_model_from(*doc, scene.machines@, mi as int),
            ) == process_model_from(*doc, scene.machines@, 0),
        decreases n_machines - mi,
    {
        let machine: &Machine = &scene.machines[mi];
        let mut machine_notes: Vec<&ControlledNotes> = Vec::new();
        let n_acts = machine.actuators.len();
        let mut ai: usize = 0;
        proof {
            assert(crate::timeline::auths_of(machine_notes@) =~= machine_auths(*machine).take(0));
        }
        while ai < n_acts
            invariant
                0 <= ai <= n_acts,
                n_acts == machine.actuators@.len(),
                machine == &scene.machines@[mi as int],
                mi < scene.machines@.len(),
                crate::timeline::auths_of(machine_notes@) == machine_auths(*machine).take(
                    ai as int,
                ),
            decreases n_acts - ai,
        {
            machine_notes.push(&machine.actuators[ai].controlled_notes);
            proof {
                let a = crate::timeline::auths_of(machine_notes@);
                let b = machine_auths(*machine).take(ai as int + 1);
                assert(machine_auths(*machine).take(ai as int).len() == ai);
                assert forall|k: int| 0 <= k < a.len() implies a[k] == b[k] by {
                    if k < ai as int {
                        assert(a[k] == crate::timeline::auths_of(machine_notes@.drop_last())[k]);
                        assert(b[k] == machine_auths(*machine).take(ai as int)[k]);
                    }
                };
                assert(a =~= b);
            }
            ai = ai + 1;
        }
        proof {
            assert(machine_auths(*machine).take(n_acts as int) =~= machine_auths(*machine));
        }
        match get_machine_note_events(doc, machine_notes) {
            Err(e) => {
                return Err(e);
            },
            Ok((notes, metas)) => {
                proof {
                    assert(forall|k: int|
                        0 <= k < doc.tracks@[0]@.len() ==> crate::events::event_wf(
                            #[trigger] doc.tracks@[0]@[k],
                        ));
                    lemma_find_first_tempo_wf(doc.tracks@[0]@);
                    assert(forall|i: int|
                        0 <= i < doc.tracks@.len() ==> (#[trigger] doc.tracks@[i])@.len()
                            <= 0xFFFF_FFFF_FFFF_FFFFu64) by {
                        assert(forall|i: int|
                            0 <= i < doc.tracks@.len() ==> (#[trigger] doc.tracks@[i]).len()
                                == doc.tracks@[i]@.len());
                    };
                    lemma_tracks_notes_model_wf(
                        doc.timing,
                        default_tempo_of(*doc),
                        machine_auths(*machine),
                        doc.tracks@,
                        doc.tracks@.len() as int,
                    );
                    assert(meta_views(metas@) =~= machine_metas(*doc, *machine));
                    let stream = tracks_notes_model(
                        doc.timing,
                        default_tempo_of(*doc),
                        machine_auths(*machine),
                        doc.tracks@,
                        doc.tracks@.len() as int,
                    );
                    assert(onset_models(notes@) == stream);
                    assert forall|i: int|
                        0 <= i < notes@.len() implies (#[trigger] notes@[i]).note.track
                        < metas@.len() by {
                        assert(stream[i].note.track < doc.tracks@.len());
                        assert(stream[i] == notes@[i]@);
                    };
                    assert forall|tr: int|
                        0 <= tr < metas@.len() implies #[trigger] track_delta_sum(
                        onset_models(notes@), tr) <= TIME_NUM_MAX by {
                        assert(track_delta_sum(stream, tr) <= TIME_NUM_MAX);
                    };
                }
                match process_machine(notes, machine, &metas) {
                    Err(e) => {
                        return Err(e);
                    },
                    Ok(mut machine_actuators) => {
                        proof {
                            let old_models = actuator_models(actuators@);
                            let new_models = actuator_models(machine_actuators@);
                            assert(actuator_models(actuators@ + machine_actuators@)
                                =~= old_models + new_models);
                            let rest = process_model_from(*doc, scene.machines@, mi as int + 1);
                            match rest {
                                Ok(tail) => {
                                    assert((old_models + new_models) + tail =~= old_models + (
                                    new_models + tail));
                                },
                                Err(_) => {},
                            }
                        }
                        actuators.append(&mut machine_actuators);
                    },
                }
            },
        }
        mi = mi + 1;
    }
    proof {
        if n_machines > 0 {
            let pmf = process_model_from(*doc, scene.machines@, n_machines as int);
            assert(pmf == Ok::<Seq<ActuatorModel>, ProcessError>(Seq::empty()));
            assert(actuator_models(actuators@) + Seq::<ActuatorModel>::empty() =~= actuator_models(
                actuators@,
            ));
        } else {
            assert(actuator_models(actuators@) =~= Seq::<ActuatorModel>::empty());
        }
    }
    let output = DirectorData { actuators };
    proof {
        assert(output@ =~= actuator_models(output.actuators@));
    }
    Ok(output)
}

} // verus!
