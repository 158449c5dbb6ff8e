//! The input model: an ordered list of tracks, each an ordered list of raw
//! events, plus the document's global timing mode.

use vstd::prelude::*;

verus! {

/// Frame rate of a timecode-timed document. `Fps29` stands for the drop-frame
/// rate 30000/1001 frames per second (commonly written 29.97); the others are
/// exact integers.
#[derive(Clone, Copy, Debug, PartialEq, Eq, Structural)]
pub enum Fps {
    Fps24,
    Fps25,
    Fps29,
    Fps30,
}

/// Numerator of the frame rate as an exact fraction.
pub open spec fn fps_numer(f: Fps) -> int {
    match f {
        Fps::Fps24 => 24,
        Fps::Fps25 => 25,
        Fps::Fps29 => 30000,
        Fps::Fps30 => 30,
    }
}

/// Denominator of the frame rate as an exact fraction.
pub open spec fn fps_denom(f: Fps) -> int {
    match f {
        Fps::Fps29 => 1001,
        _ => 1,
    }
}

/// Global timing mode of a document: either so many ticks per beat (seconds
/// per tick then follow the current tempo), or a fixed frame rate with so many
/// tick subdivisions per frame.
#[derive(Clone, Copy, Debug, PartialEq, Eq, Structural)]
pub enum Timing {
    Metrical { ticks_per_beat: u16 },
    Timecode { fps: Fps, subframes: u8 },
}

/// A metrical document needs a nonzero beat resolution (at most the container
/// format's 15-bit width); a timecode document needs at least one subdivision
/// per frame. Either way the time denominator is nonzero.
pub open spec fn timing_wf(t: Timing) -> bool {
    match t {
        Timing::Metrical { ticks_per_beat } => 1 <= ticks_per_beat < 0x8000,
        Timing::Timecode { fps, subframes } => subframes >= 1,
    }
}

/// The payload of one raw event: a tempo change (microseconds per beat), a
/// descriptive text (raw bytes, expected to be valid text), an onset, or
/// anything else (ignored).
#[derive(Debug)]
pub enum EventKind {
    Tempo(u32),
    TrackName(Vec<u8>),
    DeviceName(Vec<u8>),
    InstrumentName(Vec<u8>),
    ProgramName(Vec<u8>),
    NoteOn { channel: u8, key: u8 },
    Other,
}

/// One raw event: how many ticks after the previous event of the same track
/// it occurs, and what it carries.
#[derive(Debug)]
pub struct TrackEvent {
    pub delta_ticks: u32,
    pub kind: EventKind,
}

/// Tick deltas fit the container format's 28-bit width and tempo values its
/// 24-bit width; these bounds keep every time numerator inside
/// [`crate::timeline::TIME_NUM_MAX`].
pub open spec fn event_wf(e: TrackEvent) -> bool {
    &&& e.delta_ticks < 0x1000_0000
    &&& match e.kind {
        EventKind::Tempo(us) => us < 0x100_0000,
        _ => true,
    }
}

/// A whole document: the timing mode and the ordered tracks.
#[derive(Debug)]
pub struct MidiDocument {
    pub timing: Timing,
    pub tracks: Vec<Vec<TrackEvent>>,
}

/// Well-formedness of a document: valid timing mode, a track count that fits
/// the 32-bit track index of [`crate::scene::Note`], and every event within
/// the container format's widths.
pub open spec fn doc_wf(doc: MidiDocument) -> bool {
    &&& timing_wf(doc.timing)
    &&& doc.tracks@.len() <= 0xFFFF_FFFF
    &&& forall|t: int, k: int|
        0 <= t < doc.tracks@.len() && 0 <= k < doc.tracks@[t]@.len() ==> event_wf(
            #[trigger] doc.tracks@[t]@[k],
        )
}

} // verus!
