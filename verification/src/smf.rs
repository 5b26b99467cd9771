//! Standard MIDI files: the part of a parsed file that the codec reads, taken
//! out of it event by event.

use crate::event::{
    all_in_range, track_view, tracks_view, Event, EventKind, EventView, KindView,
};
use crate::tag::kind_view;
use midly::{MetaMessage, MidiMessage, TrackEventKind};
use vstd::prelude::*;

verus! {

/// `midly::Smf`, a parsed file: nothing of it is seen but through the
/// functions of this file.
#[verifier::external_type_specification]
#[verifier::external_body]
pub struct ExSmf<'a>(midly::Smf<'a>);

/// Why bytes are no MIDI file.
#[derive(Clone, Debug, PartialEq, Eq)]
pub enum MidiError {
    /// The bytes cannot be read as a file at all.
    Invalid(String),
    /// The bytes can be read, but break the format.
    Malformed(String),
}

/// The mathematical value of a [`MidiError`].
pub enum Failure {
    Invalid(Seq<char>),
    Malformed(Seq<char>),
}

impl View for MidiError {
    type V = Failure;

    open spec fn view(&self) -> Failure {
        match *self {
            MidiError::Invalid(message) => Failure::Invalid(message@),
            MidiError::Malformed(message) => Failure::Malformed(message@),
        }
    }
}

/// What a parsed file holds: its tracks in their order, each with its events
/// in their order. A note-on, a controller change, a program change, a tempo,
/// a time signature, a key signature, a track name and an end of track stand
/// as the kind of that name with the same fields, without a channel; a
/// system-exclusive message stands with the length of its payload; every
/// other event stands as unknown.
pub uninterp spec fn smf_tracks(smf: midly::Smf) -> Seq<Seq<EventView>>;

/// What parsing bytes as a MIDI file gives: the tracks of the file, or why the
/// bytes are none.
pub uninterp spec fn parsed_file(bytes: Seq<u8>) -> Result<Seq<Seq<EventView>>, Failure>;

/// `midly::Smf::parse`: parses bytes as a MIDI file. Where it fails, the
/// class and the message that `midly::Error::kind` gives are handed on. The
/// contract names what comes out, as a function of the bytes, and claims no
/// more.
#[verifier::external_body]
fn parse<'a>(bytes: &'a [u8]) -> (r: Result<midly::Smf<'a>, MidiError>)
    ensures
        match r {
            Ok(smf) => parsed_file(bytes@) == Ok::<Seq<Seq<EventView>>, Failure>(smf_tracks(smf)),
            Err(error) => parsed_file(bytes@) == Err::<Seq<Seq<EventView>>, Failure>(error@),
        },
{
    match midly::Smf::parse(bytes) {
        Ok(smf) => Ok(smf),
        Err(error) => Err(
            match error.kind() {
                midly::ErrorKind::Invalid(message) => MidiError::Invalid(message.to_string()),
                midly::ErrorKind::Malformed(message) => MidiError::Malformed(message.to_string()),
            },
        ),
    }
}

/// `midly::Smf::tracks`, its length: the number of tracks of a parsed file.
#[verifier::external_body]
fn track_count(smf: &midly::Smf) -> (n: usize)
    ensures
        n == smf_tracks(*smf).len(),
{
    smf.tracks.len()
}

/// `midly::Smf::tracks`, the length of its element `t`: the number of events
/// of that track.
#[verifier::external_body]
fn track_len(smf: &midly::Smf, t: usize) -> (n: usize)
    requires
        t < smf_tracks(*smf).len(),
    ensures
        n == smf_tracks(*smf)[t as int].len(),
{
    smf.tracks[t].len()
}

/// `midly::TrackEvent::delta` of the event `i` of the track `t`, through
/// `midly::num::u28::as_int`: the event's delta time.
#[verifier::external_body]
fn delta_at(smf: &midly::Smf, t: usize, i: usize) -> (delta: u32)
    requires
        t < smf_tracks(*smf).len(),
        i < smf_tracks(*smf)[t as int].len(),
    ensures
        delta == smf_tracks(*smf)[t as int][i as int].delta_time,
{
    smf.tracks[t][i].delta.as_int()
}

/// `midly::TrackEvent::kind` of the event `i` of the track `t`, where it is a
/// `midly::MidiMessage` that the codec has a kind for: `NoteOn`, `Controller`
/// or `ProgramChange`, with the fields that `midly::num::u7::as_int` gives,
/// which lie in seven bits. The channel is left out.
#[verifier::external_body]
fn channel_kind_at(smf: &midly::Smf, t: usize, i: usize) -> (r: Option<EventKind>)
    requires
        t < smf_tracks(*smf).len(),
        i < smf_tracks(*smf)[t as int].len(),
    ensures
        kind_view(r) == match smf_tracks(*smf)[t as int][i as int].kind {
            KindView::NoteOn { key, velocity } => Some(KindView::NoteOn { key, velocity }),
            KindView::ControlChange { controller, value } => Some(
                KindView::ControlChange { controller, value },
            ),
            KindView::ProgramChange { program } => Some(KindView::ProgramChange { program }),
            _ => None,
        },
        match r {
            Some(kind) => kind@.in_range(),
            None => true,
        },
{
    let TrackEventKind::Midi { message, .. } = smf.tracks[t][i].kind else { return None };
    match message {
        MidiMessage::NoteOn { key, vel } => Some(EventKind::NoteOn { key: key.as_int(), velocity: vel.as_int() }),
        MidiMessage::Controller { controller, value } => Some(EventKind::ControlChange { controller: controller.as_int(), value: value.as_int() }),
        MidiMessage::ProgramChange { program } => Some(EventKind::ProgramChange { program: program.as_int() }),
        _ => None,
    }
}

/// `midly::TrackEvent::kind` of the event `i` of the track `t`, where it is a
/// `midly::MetaMessage` that the codec has a kind for: `Tempo`,
/// `TimeSignature`, `KeySignature`, `TrackName` or `EndOfTrack`, with its
/// fields; a tempo through `midly::num::u24::as_int`, which lies in
/// twenty-four bits.
#[verifier::external_body]
fn meta_kind_at(smf: &midly::Smf, t: usize, i: usize) -> (r: Option<EventKind>)
    requires
        t < smf_tracks(*smf).len(),
        i < smf_tracks(*smf)[t as int].len(),
    ensures
        kind_view(r) == match smf_tracks(*smf)[t as int][i as int].kind {
            KindView::Tempo { microseconds_per_quarter } => Some(
                KindView::Tempo { microseconds_per_quarter },
            ),
            KindView::TimeSignature {
                numerator,
                denominator,
                clocks_per_metronome,
                thirtyseconds_per_quarter,
            } => Some(
                KindView::TimeSignature {
                    numerator,
                    denominator,
                    clocks_per_metronome,
                    thirtyseconds_per_quarter,
                },
            ),
            KindView::KeySignature { sharps_flats, is_minor } => Some(
                KindView::KeySignature { sharps_flats, is_minor },
            ),
            KindView::TrackName { bytes } => Some(KindView::TrackName { bytes }),
            KindView::EndOfTrack => Some(KindView::EndOfTrack),
            _ => None,
        },
        match r {
            Some(kind) => kind@.in_range(),
            None => true,
        },
{
    let TrackEventKind::Meta(message) = smf.tracks[t][i].kind else { return None };
    match message {
        MetaMessage::Tempo(t) => Some(EventKind::Tempo { microseconds_per_quarter: t.as_int() }),
        MetaMessage::TimeSignature(
            numerator,
            denominator,
            clocks_per_metronome,
            thirtyseconds_per_quarter,
        ) => Some(EventKind::TimeSignature { numerator, denominator, clocks_per_metronome, thirtyseconds_per_quarter }),
        MetaMessage::KeySignature(sharps_flats, is_minor) => Some(EventKind::KeySignature { sharps_flats, is_minor }),
        MetaMessage::TrackName(name) => Some(EventKind::TrackName { bytes: name.to_vec() }),
        MetaMessage::EndOfTrack => Some(EventKind::EndOfTrack),
        _ => None,
    }
}

/// `midly::TrackEvent::kind` of the event `i` of the track `t`, where it is
/// `midly::TrackEventKind::SysEx`: the length of its payload.
#[verifier::external_body]
fn sysex_length_at(smf: &midly::Smf, t: usize, i: usize) -> (r: Option<usize>)
    requires
        t < smf_tracks(*smf).len(),
        i < smf_tracks(*smf)[t as int].len(),
    ensures
        r == match smf_tracks(*smf)[t as int][i as int].kind {
            KindView::SysEx { byte_length } => Some(byte_length),
            _ => None,
        },
{
    match smf.tracks[t][i].kind {
        TrackEventKind::SysEx(payload) => Some(payload.len()),
        _ => None,
    }
}

/// The event `i` of the track `t` of a parsed file.
fn event_at(smf: &midly::Smf, t: usize, i: usize) -> (event: Event)
    requires
        t < smf_tracks(*smf).len(),
        i < smf_tracks(*smf)[t as int].len(),
    ensures
        event@ == smf_tracks(*smf)[t as int][i as int],
        event@.kind.in_range(),
{
    let delta_time = delta_at(smf, t, i);
    let kind = if let Some(kind) = channel_kind_at(smf, t, i) {
        kind
    } else if let Some(kind) = meta_kind_at(smf, t, i) {
        kind
    } else if let Some(byte_length) = sysex_length_at(smf, t, i) {
        EventKind::SysEx { byte_length }
    } else {
        EventKind::Unknown
    };
    Event { delta_time, kind }
}

/// The tracks of a parsed file, each with its events in their order.
fn tracks_of(smf: &midly::Smf) -> (tracks: Vec<Vec<Event>>)
    ensures
        tracks_view(tracks@) == smf_tracks(*smf),
        all_in_range(smf_tracks(*smf)),
{
    let count = track_count(smf);
    let mut tracks: Vec<Vec<Event>> = Vec::new();
    let mut t: usize = 0;
    while t < count
        invariant
            count == smf_tracks(*smf).len(),
            t <= count,
            tracks.len() == t,
            forall|j: int|
                0 <= j < t ==> track_view(#[trigger] tracks@[j]@) == smf_tracks(
                    *smf,
                )[j],
            forall|j: int, i: int|
                0 <= j < t && 0 <= i < smf_tracks(*smf)[j].len() ==> (#[trigger] smf_tracks(
                    *smf,
                )[j][i]).kind.in_range(),
        decreases count - t,
    {
        let len = track_len(smf, t);
        let mut track: Vec<Event> = Vec::new();
        let mut i: usize = 0;
        while i < len
            invariant
                t < smf_tracks(*smf).len(),
                len == smf_tracks(*smf)[t as int].len(),
                i <= len,
                track.len() == i,
                forall|j: int|
                    0 <= j < i ==> (#[trigger] track@[j])@ == smf_tracks(*smf)[t as int][j],
                forall|j: int|
                    0 <= j < i ==> (#[trigger] smf_tracks(*smf)[t as int][j]).kind.in_range(),
            decreases len - i,
        {
            track.push(event_at(smf, t, i));
            i += 1;
        }
        assert(track_view(track@) =~= smf_tracks(*smf)[t as int]);
        tracks.push(track);
        t += 1;
    }
    assert(tracks_view(tracks@) =~= smf_tracks(*smf));
    tracks
}

/// Reads bytes as a MIDI file: the tracks of the file under `Ok`, every field
/// in its range, or why the bytes are no file under `Err`.
pub fn read_tracks(bytes: &[u8]) -> (r: Result<Vec<Vec<Event>>, MidiError>)
    ensures
        match r {
            Ok(tracks) => parsed_file(bytes@) == Ok::<Seq<Seq<EventView>>, Failure>(
                tracks_view(tracks@),
            ) && all_in_range(tracks_view(tracks@)),
            Err(error) => parsed_file(bytes@) == Err::<Seq<Seq<EventView>>, Failure>(error@),
        },
{
    match parse(bytes) {
        Ok(smf) => Ok(tracks_of(&smf)),
        Err(error) => Err(error),
    }
}

} // verus!
