//! Static configuration: machines, their actuators, and each actuator's
//! note-authorization rule.

use vstd::prelude::*;

verus! {

/// Identifying triple of an onset: which track it came from, on which channel,
/// and which note number. Used as an equality key everywhere.
#[derive(Clone, Copy, Debug, PartialEq, Eq, Structural)]
pub struct Note {
    pub track: u32,
    pub channel: u8,
    pub note: u8,
}

impl Note {
    /// The identifying triples of the given note numbers, all on one track
    /// and channel.
    pub fn range(track: u32, channel: u8, notes: Vec<u8>) -> (r: Vec<Note>)
        ensures
            r@.len() == notes@.len(),
            forall|i: int|
                0 <= i < notes@.len() ==> r@[i] == (Note {
                    track,
                    channel,
                    note: notes@[i],
                }),
    {
        let mut r: Vec<Note> = Vec::new();
        let mut i: usize = 0;
        while i < notes.len()
            invariant
                0 <= i <= notes@.len(),
                r@.len() == i,
                forall|k: int|
                    0 <= k < i ==> r@[k] == (Note { track, channel, note: notes@[k] }),
            decreases notes@.len() - i,
        {
            r.push(Note { track, channel, note: notes[i] });
            i = i + 1;
        }
        r
    }
}

/// The rule deciding which onsets an actuator is permitted to play: either
/// every onset of a track whose current name equals the given string, or the
/// onsets whose identifying triple is listed.
#[derive(Debug)]
pub enum ControlledNotes {
    TrackByName(String),
    Notes(Vec<Note>),
}

/// Whether `pitch`, arriving from a track whose current name metadata is
/// `track_name`, is authorized by the rule `cn`.
pub open spec fn cn_matches(cn: ControlledNotes, pitch: Note, track_name: Option<Seq<char>>) -> bool {
    match cn {
        ControlledNotes::TrackByName(name) => match track_name {
            Some(tn) => tn == name@,
            None => false,
        },
        ControlledNotes::Notes(ns) => ns@.contains(pitch),
    }
}

/// Whether any rule in `auths` authorizes `pitch` from a track currently named
/// `track_name`.
pub open spec fn auths_match(auths: Seq<ControlledNotes>, pitch: Note, track_name: Option<Seq<char>>) -> bool {
    exists|i: int| 0 <= i < auths.len() && cn_matches(auths[i], pitch, track_name)
}

/// Linear membership test over the listed triples.
pub(crate) fn contains_note(ns: &Vec<Note>, pitch: Note) -> (r: bool)
    ensures
        r == ns@.contains(pitch),
{
    let mut i: usize = 0;
    while i < ns.len()
        invariant
            0 <= i <= ns@.len(),
            forall|k: int| 0 <= k < i ==> ns@[k] != pitch,
        decreases ns@.len() - i,
    {
        if ns[i] == pitch {
            return true;
        }
        i = i + 1;
    }
    false
}

/// Per-actuator static cost attributes, in thousandths of a second. Part of
/// the configuration schema; the assignment algorithm does not read them.
#[derive(Debug)]
pub struct ActuatorCosts {
    pub switch_note: u64,
    pub play_note: u64,
}

/// One physical striker: its unique name within the machine, its
/// authorization rule, and its (unconsumed) cost attributes.
#[derive(Debug)]
pub struct Actuator {
    pub name: String,
    pub controlled_notes: ControlledNotes,
    pub costs: ActuatorCosts,
}

/// A named group of mutually interchangeable actuators serving one musical
/// role.
#[derive(Debug)]
pub struct Machine {
    pub name: String,
    pub actuators: Vec<Actuator>,
}

/// Actuator names are unique within a machine.
pub open spec fn machine_wf(m: Machine) -> bool {
    forall|i: int, j: int|
        0 <= i < j < m.actuators@.len() ==> m.actuators@[i].name@ != m.actuators@[j].name@
}

/// The root configuration: the full bank of machines.
#[derive(Debug)]
pub struct Scene {
    pub machines: Vec<Machine>,
}

/// Every machine of the scene is well formed.
pub open spec fn scene_wf(s: Scene) -> bool {
    forall|i: int| 0 <= i < s.machines@.len() ==> machine_wf(#[trigger] s.machines@[i])
}

/// The authorization rules of a machine's actuators, in actuator order.
pub open spec fn machine_auths(m: Machine) -> Seq<ControlledNotes> {
    m.actuators@.map_values(|a: Actuator| a.controlled_notes)
}

/// The demonstration scene: one machine with a single drumstick that plays
/// every onset of the track named "Snare.ds".
pub fn get_demo1_scene() -> (r: Scene)
    ensures
        r.machines@.len() == 1,
        r.machines@[0].name@ == "Drummer"@,
        r.machines@[0].actuators@.len() == 1,
        r.machines@[0].actuators@[0].name@ == "Left Drumstick"@,
        r.machines@[0].actuators@[0].controlled_notes matches ControlledNotes::TrackByName(n)
            && n@ == "Snare.ds"@,
        r.machines@[0].actuators@[0].costs.switch_note == 500,
        r.machines@[0].actuators@[0].costs.play_note == 100,
        scene_wf(r),
{
    let mut actuators: Vec<Actuator> = Vec::new();
    actuators.push(Actuator {
        name: "Left Drumstick".to_owned(),
        controlled_notes: ControlledNotes::TrackByName("Snare.ds".to_owned()),
        costs: ActuatorCosts { switch_note: 500, play_note: 100 },
    });
    let mut machines: Vec<Machine> = Vec::new();
    machines.push(Machine { name: "Drummer".to_owned(), actuators });
    Scene { machines }
}

} // verus!
