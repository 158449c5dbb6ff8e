//! The output model: per-actuator ordered note lists, ready for
//! serialization by the caller.

use vstd::prelude::*;

verus! {

/// One scheduled note. `delta` is the time numerator (over the document's
/// time denominator) since the owning actuator's previous scheduled note; it
/// can be negative only when the input event ordering across tracks is not
/// globally time-monotonic.
#[derive(Clone, Copy, Debug, PartialEq, Eq, Structural)]
pub struct Note {
    pub delta: i128,
    pub track: u32,
    pub channel: u8,
    pub note: u8,
}

/// Mathematical model of an output [`Note`].
pub ghost struct NoteModel {
    pub delta: int,
    pub track: u32,
    pub channel: u8,
    pub note: u8,
}

impl View for Note {
    type V = NoteModel;

    open spec fn view(&self) -> NoteModel {
        NoteModel { delta: self.delta as int, track: self.track, channel: self.channel, note: self.note }
    }
}

/// The schedule of one actuator: every note it was assigned, in emission
/// order (chronological in the machine's shared timeline).
#[derive(Debug)]
pub struct Actuator {
    pub name: String,
    pub notes: Vec<Note>,
}

/// Mathematical model of an actuator schedule.
pub ghost struct ActuatorModel {
    pub name: Seq<char>,
    pub notes: Seq<NoteModel>,
}

impl View for Actuator {
    type V = ActuatorModel;

    open spec fn view(&self) -> ActuatorModel {
        ActuatorModel { name: self.name@, notes: self.notes@.map_values(|n: Note| n@) }
    }
}

/// The models of a sequence of output notes.
pub open spec fn note_models(notes: Seq<Note>) -> Seq<NoteModel> {
    notes.map_values(|n: Note| n@)
}

/// The models of a sequence of actuator schedules.
pub open spec fn actuator_models(v: Seq<Actuator>) -> Seq<ActuatorModel> {
    v.map_values(|a: Actuator| a@)
}

/// The complete output: one schedule per actuator that received at least one
/// note.
#[derive(Debug)]
pub struct DirectorData {
    pub actuators: Vec<Actuator>,
}

impl View for DirectorData {
    type V = Seq<ActuatorModel>;

    open spec fn view(&self) -> Seq<ActuatorModel> {
        self.actuators@.map_values(|a: Actuator| a@)
    }
}

} // verus!
