use director::director_data::Note as OutNote;
use director::events::{EventKind, Fps, MidiDocument, Timing, TrackEvent};
use director::process::{process, ProcessError};
use director::scene::{
    get_demo1_scene, Actuator, ActuatorCosts, ControlledNotes, Machine, Note, Scene,
};
use director::timeline::{
    find_default_us_per_beat, get_machine_note_events, time_denominator, CompleteNote, TrackInfo,
};
use director::assign::process_machine;

fn note_on(delta_ticks: u32, channel: u8, key: u8) -> TrackEvent {
    TrackEvent { delta_ticks, kind: EventKind::NoteOn { channel, key } }
}

fn tempo(delta_ticks: u32, us_per_beat: u32) -> TrackEvent {
    TrackEvent { delta_ticks, kind: EventKind::Tempo(us_per_beat) }
}

fn track_name(delta_ticks: u32, name: &str) -> TrackEvent {
    TrackEvent { delta_ticks, kind: EventKind::TrackName(name.as_bytes().to_vec()) }
}

fn metrical(ticks_per_beat: u16, tracks: Vec<Vec<TrackEvent>>) -> MidiDocument {
    MidiDocument { timing: Timing::Metrical { ticks_per_beat }, tracks }
}

fn one_actuator_machine(machine: &str, actuator: &str, track: &str) -> Machine {
    Machine {
        name: machine.to_string(),
        actuators: vec![Actuator {
            name: actuator.to_string(),
            controlled_notes: ControlledNotes::TrackByName(track.to_string()),
            costs: ActuatorCosts { switch_note: 500, play_note: 100 },
        }],
    }
}

#[test]
fn end_to_end_snare_track() {
    // One track named "Snare.ds", tempo 500000 us/beat at tick 0, onsets at
    // ticks 0, 480 and 960, against the demonstration scene.
    let doc = metrical(
        480,
        vec![vec![
            track_name(0, "Snare.ds"),
            tempo(0, 500_000),
            note_on(0, 9, 38),
            note_on(480, 9, 38),
            note_on(480, 9, 38),
        ]],
    );
    let scene = get_demo1_scene();
    let out = process(&doc, &scene).unwrap();
    assert_eq!(out.actuators.len(), 1);
    assert_eq!(out.actuators[0].name, "Left Drumstick");
    let den = time_denominator(&doc.timing);
    assert_eq!(den, 480_000_000);
    let notes = &out.actuators[0].notes;
    assert_eq!(notes.len(), 3);
    assert_eq!(notes[0], OutNote { delta: 0, track: 0, channel: 9, note: 38 });
    assert_eq!(notes[1], OutNote { delta: 240_000_000, track: 0, channel: 9, note: 38 });
    assert_eq!(notes[2], OutNote { delta: 240_000_000, track: 0, channel: 9, note: 38 });
    // In seconds: 0.0, 0.5, 0.5.
    assert_eq!(notes[1].delta as f64 / den as f64, 0.5);
    assert_eq!(notes[2].delta as f64 / den as f64, 0.5);
}

#[test]
fn missing_tempo_yields_zero_times() {
    // Metrical document, no tempo anywhere: every onset lands at time 0 and
    // every emitted delta is 0.
    let doc = metrical(
        480,
        vec![vec![
            track_name(0, "Snare.ds"),
            note_on(100, 9, 38),
            note_on(200, 9, 39),
        ]],
    );
    let scene = get_demo1_scene();
    let out = process(&doc, &scene).unwrap();
    assert_eq!(out.actuators.len(), 1);
    let notes = &out.actuators[0].notes;
    assert_eq!(notes.len(), 2);
    assert_eq!(notes[0].delta, 0);
    assert_eq!(notes[1].delta, 0);
}

#[test]
fn repeated_pitch_at_same_tick_is_suppressed() {
    // Two onsets of the same pitch zero ticks apart collapse into one; a
    // third onset of a different pitch at the same tick is kept.
    let doc = metrical(
        480,
        vec![vec![
            track_name(0, "Snare.ds"),
            tempo(0, 500_000),
            note_on(0, 9, 38),
            note_on(0, 9, 38),
            note_on(0, 9, 39),
        ]],
    );
    let scene = get_demo1_scene();
    let out = process(&doc, &scene).unwrap();
    assert_eq!(out.actuators.len(), 1);
    let notes = &out.actuators[0].notes;
    assert_eq!(notes.len(), 2);
    assert_eq!(notes[0].note, 38);
    assert_eq!(notes[1].note, 39);
    assert_eq!(notes[1].delta, 0);
}

#[test]
fn machines_match_independently() {
    // The same track is authorized for machine A by name and excluded from
    // machine B: B sees nothing, and A's deltas are unaffected by B.
    let doc = metrical(
        480,
        vec![vec![
            track_name(0, "A"),
            tempo(0, 500_000),
            note_on(0, 0, 60),
            note_on(480, 0, 62),
        ]],
    );
    let scene = Scene {
        machines: vec![
            one_actuator_machine("MachineB", "ActB", "B"),
            one_actuator_machine("MachineA", "ActA", "A"),
        ],
    };
    let out = process(&doc, &scene).unwrap();
    assert_eq!(out.actuators.len(), 1);
    assert_eq!(out.actuators[0].name, "ActA");
    assert_eq!(out.actuators[0].notes.len(), 2);
    assert_eq!(out.actuators[0].notes[0].delta, 0);
    assert_eq!(out.actuators[0].notes[1].delta, 240_000_000);

    // Machine B's filtered stream is empty no matter what A kept.
    let auths_b = ControlledNotes::TrackByName("B".to_string());
    let (notes_b, _metas) = get_machine_note_events(&doc, vec![&auths_b]).unwrap();
    assert_eq!(notes_b.len(), 0);
}

#[test]
fn round_robin_spreads_onsets() {
    // Three interchangeable actuators and seven onsets: counts 3, 2, 2 and
    // never the same actuator twice in a row.
    let actuators: Vec<Actuator> = (0..3)
        .map(|n| Actuator {
            name: format!("Voice {n}"),
            controlled_notes: ControlledNotes::TrackByName("X".to_string()),
            costs: ActuatorCosts { switch_note: 500, play_note: 100 },
        })
        .collect();
    let machine = Machine { name: "Chords".to_string(), actuators };
    let scene = Scene { machines: vec![machine] };
    let mut events = vec![track_name(0, "X"), tempo(0, 480_000)];
    for k in 0..7u8 {
        events.push(note_on(1, 0, 60 + k));
    }
    let doc = metrical(480, vec![events]);
    let out = process(&doc, &scene).unwrap();
    assert_eq!(out.actuators.len(), 3);
    assert_eq!(out.actuators[0].name, "Voice 0");
    assert_eq!(out.actuators[1].name, "Voice 1");
    assert_eq!(out.actuators[2].name, "Voice 2");
    assert_eq!(out.actuators[0].notes.len(), 3);
    assert_eq!(out.actuators[1].notes.len(), 2);
    assert_eq!(out.actuators[2].notes.len(), 2);
    // Onset k goes to actuator k mod 3.
    assert_eq!(out.actuators[0].notes[0].note, 60);
    assert_eq!(out.actuators[1].notes[0].note, 61);
    assert_eq!(out.actuators[2].notes[0].note, 62);
    assert_eq!(out.actuators[0].notes[1].note, 63);
}

#[test]
fn deltas_rebase_per_actuator() {
    // One actuator receives onsets at machine-relative cumulative times
    // 2, 5 and 9 units, interleaved from two tracks with per-track deltas
    // 2, 5 and 7: the emitted deltas are 2, 3 and 4.
    let machine = one_actuator_machine("M", "Act", "X");
    let metas = vec![
        TrackInfo {
            track_number: 0,
            track_name: Some("X".to_string()),
            device_name: None,
            instrument_name: None,
            program_name: None,
        },
        TrackInfo {
            track_number: 1,
            track_name: Some("X".to_string()),
            device_name: None,
            instrument_name: None,
            program_name: None,
        },
    ];
    let notes = vec![
        CompleteNote { delta: 2, note: Note { track: 0, channel: 0, note: 60 } },
        CompleteNote { delta: 5, note: Note { track: 1, channel: 0, note: 61 } },
        CompleteNote { delta: 7, note: Note { track: 0, channel: 0, note: 62 } },
    ];
    let out = process_machine(notes, &machine, &metas).unwrap();
    assert_eq!(out.len(), 1);
    assert_eq!(out[0].name, "Act");
    let deltas: Vec<i128> = out[0].notes.iter().map(|n| n.delta).collect();
    assert_eq!(deltas, vec![2, 3, 4]);
}

#[test]
fn two_actuators_rebase_independently() {
    // Two interchangeable actuators over one track with cumulative times
    // 1, 2, 3, 4: each actuator waits two units between its own strikes.
    let actuators: Vec<Actuator> = (0..2)
        .map(|n| Actuator {
            name: format!("Stick {n}"),
            controlled_notes: ControlledNotes::TrackByName("X".to_string()),
            costs: ActuatorCosts { switch_note: 500, play_note: 100 },
        })
        .collect();
    let machine = Machine { name: "Drum".to_string(), actuators };
    let metas = vec![TrackInfo {
        track_number: 0,
        track_name: Some("X".to_string()),
        device_name: None,
        instrument_name: None,
        program_name: None,
    }];
    let notes: Vec<CompleteNote> = (0..4u8)
        .map(|k| CompleteNote { delta: 1, note: Note { track: 0, channel: 0, note: 60 + k } })
        .collect();
    let out = process_machine(notes, &machine, &metas).unwrap();
    assert_eq!(out.len(), 2);
    let d0: Vec<i128> = out[0].notes.iter().map(|n| n.delta).collect();
    let d1: Vec<i128> = out[1].notes.iter().map(|n| n.delta).collect();
    assert_eq!(d0, vec![1, 2]);
    assert_eq!(d1, vec![2, 2]);
}

#[test]
fn timecode_tick_length_is_constant() {
    // Timecode 25 fps with 40 subdivisions: one tick is 1/1000 s, and a tempo
    // event changes nothing.
    let doc = MidiDocument {
        timing: Timing::Timecode { fps: Fps::Fps25, subframes: 40 },
        tracks: vec![vec![
            track_name(0, "Snare.ds"),
            note_on(0, 9, 38),
            tempo(0, 500_000),
            note_on(500, 9, 38),
            note_on(250, 9, 38),
        ]],
    };
    let den = time_denominator(&doc.timing);
    assert_eq!(den, 1000);
    let scene = get_demo1_scene();
    let out = process(&doc, &scene).unwrap();
    let notes = &out.actuators[0].notes;
    assert_eq!(notes.len(), 3);
    assert_eq!(notes[0].delta, 0);
    assert_eq!(notes[1].delta, 500);
    assert_eq!(notes[2].delta, 250);
}

#[test]
fn drop_frame_rate_is_exact() {
    // 29.97 frames per second is 30000/1001: with 100 subdivisions the
    // denominator is 3000000 and each tick is worth 1001 numerator units.
    let timing = Timing::Timecode { fps: Fps::Fps29, subframes: 100 };
    assert_eq!(time_denominator(&timing), 3_000_000);
    let doc = MidiDocument {
        timing,
        tracks: vec![vec![track_name(0, "Snare.ds"), note_on(0, 9, 38), note_on(3, 9, 38)]],
    };
    let scene = get_demo1_scene();
    let out = process(&doc, &scene).unwrap();
    let notes = &out.actuators[0].notes;
    assert_eq!(notes.len(), 2);
    assert_eq!(notes[1].delta, 3 * 1001);
}

#[test]
fn default_tempo_comes_from_track_zero_only() {
    // Track 0 carries the document's default tempo; track 1 has none of its
    // own and inherits it from the start.
    let doc = metrical(
        480,
        vec![
            vec![tempo(0, 500_000)],
            vec![track_name(0, "Snare.ds"), note_on(480, 9, 38)],
        ],
    );
    assert_eq!(find_default_us_per_beat(&doc), Some(500_000));
    let scene = get_demo1_scene();
    let out = process(&doc, &scene).unwrap();
    let notes = &out.actuators[0].notes;
    assert_eq!(notes.len(), 1);
    assert_eq!(notes[0].delta, 240_000_000);
    assert_eq!(notes[0].track, 1);
}

#[test]
fn tempo_change_is_track_scoped() {
    // A tempo change on track 1 does not affect track 2, which keeps the
    // default from track 0.
    let doc = metrical(
        480,
        vec![
            vec![tempo(0, 500_000)],
            vec![track_name(0, "A"), tempo(0, 250_000), note_on(480, 9, 38)],
            vec![track_name(0, "B"), note_on(480, 9, 40)],
        ],
    );
    let scene = Scene {
        machines: vec![
            one_actuator_machine("MachineA", "ActA", "A"),
            one_actuator_machine("MachineB", "ActB", "B"),
        ],
    };
    let out = process(&doc, &scene).unwrap();
    assert_eq!(out.actuators.len(), 2);
    assert_eq!(out.actuators[0].name, "ActA");
    assert_eq!(out.actuators[0].notes[0].delta, 120_000_000); // 480 ticks at 250000 us/beat
    assert_eq!(out.actuators[1].name, "ActB");
    assert_eq!(out.actuators[1].notes[0].delta, 240_000_000); // 480 ticks at the default tempo
}

#[test]
fn invalid_text_aborts_with_track_index() {
    let doc = MidiDocument {
        timing: Timing::Metrical { ticks_per_beat: 480 },
        tracks: vec![
            vec![tempo(0, 500_000)],
            vec![TrackEvent { delta_ticks: 0, kind: EventKind::TrackName(vec![0xFF, 0xFE]) }],
        ],
    };
    let scene = get_demo1_scene();
    assert_eq!(process(&doc, &scene).unwrap_err(), ProcessError::InvalidText { track: 1 });
}

#[test]
fn late_rename_leaves_no_actuator() {
    // The onset is kept while the track is named "Snare.ds", but the track is
    // renamed afterwards, so at assignment time no actuator matches.
    let doc = metrical(
        480,
        vec![vec![
            track_name(0, "Snare.ds"),
            tempo(0, 500_000),
            note_on(0, 9, 38),
            track_name(0, "Other"),
        ]],
    );
    let scene = get_demo1_scene();
    assert_eq!(process(&doc, &scene).unwrap_err(), ProcessError::NoMatchingActuator);
}

#[test]
fn multibyte_names_decode_before_matching() {
    // The track name arrives as UTF-8 bytes with a multi-byte character; it
    // must decode to match the authorization string.
    let machine = one_actuator_machine("M", "Act", "Snäre");
    let scene = Scene { machines: vec![machine] };
    let doc = metrical(
        480,
        vec![vec![track_name(0, "Snäre"), tempo(0, 500_000), note_on(0, 0, 60)]],
    );
    let out = process(&doc, &scene).unwrap();
    assert_eq!(out.actuators.len(), 1);
    assert_eq!(out.actuators[0].notes.len(), 1);
}

#[test]
fn explicit_note_sets_authorize_by_pitch() {
    let machine = Machine {
        name: "M".to_string(),
        actuators: vec![Actuator {
            name: "Act".to_string(),
            controlled_notes: ControlledNotes::Notes(vec![
                Note { track: 0, channel: 9, note: 38 },
            ]),
            costs: ActuatorCosts { switch_note: 500, play_note: 100 },
        }],
    };
    let scene = Scene { machines: vec![machine] };
    let doc = metrical(
        480,
        vec![vec![tempo(0, 500_000), note_on(0, 9, 38), note_on(480, 9, 40)]],
    );
    let out = process(&doc, &scene).unwrap();
    assert_eq!(out.actuators.len(), 1);
    let notes = &out.actuators[0].notes;
    assert_eq!(notes.len(), 1);
    assert_eq!(notes[0].note, 38);
}

#[test]
fn cyclic_scan_skips_unauthorized_actuators() {
    // Actuator 0 plays only pitch 40 by explicit set; actuator 1 plays the
    // whole track by name. The preference index advances after every onset,
    // but an onset always lands on the first actuator in cyclic order whose
    // rule matches it.
    let machine = Machine {
        name: "M".to_string(),
        actuators: vec![
            Actuator {
                name: "Picky".to_string(),
                controlled_notes: ControlledNotes::Notes(vec![
                    Note { track: 0, channel: 0, note: 40 },
                ]),
                costs: ActuatorCosts { switch_note: 500, play_note: 100 },
            },
            Actuator {
                name: "Broad".to_string(),
                controlled_notes: ControlledNotes::TrackByName("X".to_string()),
                costs: ActuatorCosts { switch_note: 500, play_note: 100 },
            },
        ],
    };
    let scene = Scene { machines: vec![machine] };
    let doc = metrical(
        480,
        vec![vec![
            track_name(0, "X"),
            tempo(0, 500_000),
            note_on(1, 0, 38), // preference 0: Picky refuses, Broad plays
            note_on(1, 0, 40), // preference 1: Broad plays
            note_on(1, 0, 40), // preference 2 -> 0: Picky plays
        ]],
    );
    let out = process(&doc, &scene).unwrap();
    assert_eq!(out.actuators.len(), 2);
    assert_eq!(out.actuators[0].name, "Picky");
    assert_eq!(out.actuators[0].notes.len(), 1);
    assert_eq!(out.actuators[0].notes[0].note, 40);
    assert_eq!(out.actuators[1].name, "Broad");
    assert_eq!(out.actuators[1].notes.len(), 2);
    assert_eq!(out.actuators[1].notes[0].note, 38);
    assert_eq!(out.actuators[1].notes[1].note, 40);
}

#[test]
fn empty_scene_and_empty_machines() {
    let doc = metrical(480, vec![vec![tempo(0, 500_000), note_on(0, 9, 38)]]);
    let empty_scene = Scene { machines: vec![] };
    let out = process(&doc, &empty_scene).unwrap();
    assert_eq!(out.actuators.len(), 0);

    // A machine with no actuators authorizes nothing and emits nothing.
    let hollow = Scene {
        machines: vec![Machine { name: "Hollow".to_string(), actuators: vec![] }],
    };
    let out = process(&doc, &hollow).unwrap();
    assert_eq!(out.actuators.len(), 0);
}

#[test]
fn demo_scene_shape() {
    let scene = get_demo1_scene();
    assert_eq!(scene.machines.len(), 1);
    assert_eq!(scene.machines[0].name, "Drummer");
    assert_eq!(scene.machines[0].actuators.len(), 1);
    assert_eq!(scene.machines[0].actuators[0].name, "Left Drumstick");
    match &scene.machines[0].actuators[0].controlled_notes {
        ControlledNotes::TrackByName(name) => assert_eq!(name, "Snare.ds"),
        ControlledNotes::Notes(_) => panic!("expected a name-based authorization"),
    }
}

#[test]
fn names_apply_only_forward() {
    // A track-name event has no effect on onsets before it: the single
    // forward pass matches each onset against the name known at that moment.
    let doc = metrical(
        480,
        vec![vec![
            tempo(0, 500_000),
            note_on(0, 9, 60),
            track_name(0, "Snare.ds"),
            note_on(480, 9, 61),
        ]],
    );
    let scene = get_demo1_scene();
    let out = process(&doc, &scene).unwrap();
    assert_eq!(out.actuators.len(), 1);
    let notes = &out.actuators[0].notes;
    assert_eq!(notes.len(), 1);
    assert_eq!(notes[0].note, 61);
}

#[test]
fn descriptive_events_fill_the_metadata() {
    let doc = metrical(
        480,
        vec![vec![
            track_name(0, "Snare.ds"),
            TrackEvent { delta_ticks: 0, kind: EventKind::DeviceName(b"Deck".to_vec()) },
            TrackEvent { delta_ticks: 0, kind: EventKind::InstrumentName(b"Drum".to_vec()) },
            TrackEvent { delta_ticks: 0, kind: EventKind::ProgramName(b"Kit 1".to_vec()) },
            TrackEvent { delta_ticks: 0, kind: EventKind::ProgramName(b"Kit 2".to_vec()) },
        ]],
    );
    let auth = ControlledNotes::TrackByName("Snare.ds".to_string());
    let (notes, metas) = get_machine_note_events(&doc, vec![&auth]).unwrap();
    assert_eq!(notes.len(), 0);
    assert_eq!(metas.len(), 1);
    assert_eq!(metas[0].track_number, 0);
    assert_eq!(metas[0].track_name.as_deref(), Some("Snare.ds"));
    assert_eq!(metas[0].device_name.as_deref(), Some("Deck"));
    assert_eq!(metas[0].instrument_name.as_deref(), Some("Drum"));
    // Last write wins.
    assert_eq!(metas[0].program_name.as_deref(), Some("Kit 2"));
}

#[test]
fn invalid_device_name_bytes_are_fatal() {
    let doc = metrical(
        480,
        vec![vec![TrackEvent { delta_ticks: 0, kind: EventKind::DeviceName(vec![0xC0]) }]],
    );
    let scene = get_demo1_scene();
    assert_eq!(process(&doc, &scene).unwrap_err(), ProcessError::InvalidText { track: 0 });
}

#[test]
fn note_range_builds_triples() {
    let notes = Note::range(2, 9, vec![38, 40, 42]);
    assert_eq!(notes.len(), 3);
    assert_eq!(notes[0], Note { track: 2, channel: 9, note: 38 });
    assert_eq!(notes[1], Note { track: 2, channel: 9, note: 40 });
    assert_eq!(notes[2], Note { track: 2, channel: 9, note: 42 });
}

#[test]
fn into_output_note_copies_the_pitch() {
    let cn = CompleteNote { delta: 42, note: Note { track: 3, channel: 9, note: 38 } };
    let out = cn.into_output_note();
    assert_eq!(out, OutNote { delta: 42, track: 3, channel: 9, note: 38 });
}
