//! The data model: event kinds, timed events, headers and streams, each with
//! the mathematical value that contracts speak of.

use vstd::prelude::*;

verus! {

/// Largest value of a seven-bit data byte.
pub const DATA_BYTE_MAX: u8 = 127;

/// Largest tempo, in microseconds per quarter note, that twenty-four bits hold.
pub const TEMPO_MAX: u32 = 0xFF_FFFF;

/// Ticks per quarter note of every stream that is rebuilt from records.
pub const DECODED_TICKS_PER_QUARTER: u16 = 480;

/// Channel on which the channel messages of a rebuilt stream are played: a tag
/// does not carry a channel.
pub const DECODED_CHANNEL: u8 = 0;

/// What an event does, without its time.
#[derive(Clone, Debug, PartialEq, Eq)]
pub enum EventKind {
    NoteOn { key: u8, velocity: u8 },
    ControlChange { controller: u8, value: u8 },
    ProgramChange { program: u8 },
    Tempo { microseconds_per_quarter: u32 },
    TimeSignature {
        numerator: u8,
        denominator: u8,
        clocks_per_metronome: u8,
        thirtyseconds_per_quarter: u8,
    },
    KeySignature { sharps_flats: i8, is_minor: bool },
    TrackName { bytes: Vec<u8> },
    EndOfTrack,
    /// A system-exclusive message, of which only the payload's length is kept.
    SysEx { byte_length: usize },
    /// Anything else.
    Unknown,
}

/// The mathematical value of an [`EventKind`].
pub enum KindView {
    NoteOn { key: u8, velocity: u8 },
    ControlChange { controller: u8, value: u8 },
    ProgramChange { program: u8 },
    Tempo { microseconds_per_quarter: u32 },
    TimeSignature {
        numerator: u8,
        denominator: u8,
        clocks_per_metronome: u8,
        thirtyseconds_per_quarter: u8,
    },
    KeySignature { sharps_flats: i8, is_minor: bool },
    TrackName { bytes: Seq<u8> },
    EndOfTrack,
    SysEx { byte_length: usize },
    Unknown,
}

impl View for EventKind {
    type V = KindView;

    open spec fn view(&self) -> KindView {
        match *self {
            EventKind::NoteOn { key, velocity } => KindView::NoteOn { key, velocity },
            EventKind::ControlChange { controller, value } => KindView::ControlChange {
                controller,
                value,
            },
            EventKind::ProgramChange { program } => KindView::ProgramChange { program },
            EventKind::Tempo { microseconds_per_quarter } => KindView::Tempo {
                microseconds_per_quarter,
            },
            EventKind::TimeSignature {
                numerator,
                denominator,
                clocks_per_metronome,
                thirtyseconds_per_quarter,
            } => KindView::TimeSignature {
                numerator,
                denominator,
                clocks_per_metronome,
                thirtyseconds_per_quarter,
            },
            EventKind::KeySignature { sharps_flats, is_minor } => KindView::KeySignature {
                sharps_flats,
                is_minor,
            },
            EventKind::TrackName { bytes } => KindView::TrackName { bytes: bytes@ },
            EventKind::EndOfTrack => KindView::EndOfTrack,
            EventKind::SysEx { byte_length } => KindView::SysEx { byte_length },
            EventKind::Unknown => KindView::Unknown,
        }
    }
}

impl KindView {
    /// The fields lie in their ranges: data bytes in seven bits, a tempo in
    /// twenty-four.
    pub open spec fn in_range(self) -> bool {
        match self {
            KindView::NoteOn { key, velocity } => key <= DATA_BYTE_MAX && velocity
                <= DATA_BYTE_MAX,
            KindView::ControlChange { controller, value } => controller <= DATA_BYTE_MAX
                && value <= DATA_BYTE_MAX,
            KindView::ProgramChange { program } => program <= DATA_BYTE_MAX,
            KindView::Tempo { microseconds_per_quarter } => microseconds_per_quarter
                <= TEMPO_MAX,
            _ => true,
        }
    }

    /// The kind is one that has a grammar, by which a tag is read back: every
    /// kind but a system-exclusive message and an unknown event.
    pub open spec fn has_grammar(self) -> bool {
        !(self is SysEx) && !(self is Unknown)
    }

    /// The kind is one that a tag can be read back into: it has a grammar, and
    /// its fields lie in their ranges.
    pub open spec fn decodable(self) -> bool {
        self.has_grammar() && self.in_range()
    }
}

impl EventKind {
    /// Whether the kind can be read back from its tag: it has a grammar, and
    /// its fields lie in their ranges.
    pub fn is_decodable(&self) -> (r: bool)
        ensures
            r == self@.decodable(),
    {
        match self {
            EventKind::NoteOn { key, velocity } => *key <= DATA_BYTE_MAX && *velocity
                <= DATA_BYTE_MAX,
            EventKind::ControlChange { controller, value } => *controller <= DATA_BYTE_MAX
                && *value <= DATA_BYTE_MAX,
            EventKind::ProgramChange { program } => *program <= DATA_BYTE_MAX,
            EventKind::Tempo { microseconds_per_quarter } => *microseconds_per_quarter
                <= TEMPO_MAX,
            EventKind::TimeSignature { .. } => true,
            EventKind::KeySignature { .. } => true,
            EventKind::TrackName { .. } => true,
            EventKind::EndOfTrack => true,
            EventKind::SysEx { .. } => false,
            EventKind::Unknown => false,
        }
    }
}

/// An event with the ticks that passed since the event before it in its track.
#[derive(Clone, Debug, PartialEq, Eq)]
pub struct Event {
    pub delta_time: u32,
    pub kind: EventKind,
}

/// The mathematical value of an [`Event`].
pub struct EventView {
    pub delta_time: u32,
    pub kind: KindView,
}

impl View for Event {
    type V = EventView;

    open spec fn view(&self) -> EventView {
        EventView { delta_time: self.delta_time, kind: self.kind@ }
    }
}

/// The values of the events of a track, in the track's order.
pub open spec fn track_view(track: Seq<Event>) -> Seq<EventView> {
    track.map_values(|e: Event| e@)
}

/// The values of the tracks of a stream, in the stream's order.
pub open spec fn tracks_view(tracks: Seq<Vec<Event>>) -> Seq<Seq<EventView>> {
    tracks.map_values(|t: Vec<Event>| track_view(t@))
}

/// Every event of every track has its fields in their ranges.
pub open spec fn all_in_range(tracks: Seq<Seq<EventView>>) -> bool {
    forall|t: int, i: int|
        0 <= t < tracks.len() && 0 <= i < tracks[t].len() ==> (#[trigger] tracks[t][i]).kind.in_range()
}

/// How the tracks of a file relate to each other.
#[derive(Clone, Copy, Debug, PartialEq, Eq, Structural)]
pub enum Format {
    SingleTrack,
    Parallel,
    Sequential,
}

/// Frames per second of a timecode.
#[derive(Clone, Copy, Debug, PartialEq, Eq, Structural)]
pub enum Fps {
    Fps24,
    Fps25,
    Fps29,
    Fps30,
}

/// The length of a tick.
#[derive(Clone, Copy, Debug, PartialEq, Eq, Structural)]
pub enum Timing {
    /// Ticks per quarter note.
    Metrical(u16),
    /// Frames per second, and ticks per frame.
    Timecode(Fps, u8),
}

/// What a file says of itself before its tracks.
#[derive(Clone, Copy, Debug, PartialEq, Eq, Structural)]
pub struct Header {
    pub format: Format,
    pub timing: Timing,
}

/// Tracks of timed events under a header.
#[derive(Clone, Debug, PartialEq, Eq)]
pub struct Stream {
    pub header: Header,
    pub tracks: Vec<Vec<Event>>,
}

/// The mathematical value of a [`Stream`].
pub struct StreamView {
    pub header: Header,
    pub tracks: Seq<Seq<EventView>>,
}

impl View for Stream {
    type V = StreamView;

    open spec fn view(&self) -> StreamView {
        StreamView { header: self.header, tracks: tracks_view(self.tracks@) }
    }
}

/// The header of every stream that is rebuilt from records: one track's
/// format, and 480 ticks per quarter note.
pub open spec fn decoded_header() -> Header {
    Header { format: Format::SingleTrack, timing: Timing::Metrical(DECODED_TICKS_PER_QUARTER) }
}

} // verus!
