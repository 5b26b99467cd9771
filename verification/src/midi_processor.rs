//! Records: a stream written as delta times and tags, and read back from them.

use crate::event::{
    all_in_range, decoded_header, track_view, tracks_view, Event, EventKind, EventView, Format, Header, Stream, StreamView,
    Timing, DECODED_TICKS_PER_QUARTER,
};
use crate::smf::{parsed_file, read_tracks, MidiError};
use crate::tag::{decoded, tag_text};
use vstd::prelude::*;

verus! {

/// One event as it is written down: its delta time and the tag of its kind.
#[derive(Clone, Debug, PartialEq, Eq)]
pub struct EventJson {
    pub delta_time: u32,
    pub event_type: String,
}

/// The mathematical value of an [`EventJson`].
pub struct Record {
    pub delta_time: u32,
    pub event_type: Seq<char>,
}

impl View for EventJson {
    type V = Record;

    open spec fn view(&self) -> Record {
        Record { delta_time: self.delta_time, event_type: self.event_type@ }
    }
}

/// A stream as it is written down: the records of each track, in order.
#[derive(Clone, Debug, PartialEq, Eq)]
pub struct MidiJson {
    pub tracks: Vec<Vec<EventJson>>,
}

/// The values of the records of a track, in the track's order.
pub open spec fn records_view(records: Seq<EventJson>) -> Seq<Record> {
    records.map_values(|r: EventJson| r@)
}

impl View for MidiJson {
    type V = Seq<Seq<Record>>;

    open spec fn view(&self) -> Seq<Seq<Record>> {
        self.tracks@.map_values(|t: Vec<EventJson>| records_view(t@))
    }
}

/// The record of an event: its delta time, and the tag of its kind.
pub open spec fn record_of(event: EventView) -> Record {
    Record { delta_time: event.delta_time, event_type: tag_text(event.kind) }
}

/// The records of a track: the record of each event, in the track's order.
pub open spec fn encoded_track(track: Seq<EventView>) -> Seq<Record> {
    track.map_values(|e: EventView| record_of(e))
}

/// The records of the tracks of a stream, in the stream's order.
pub open spec fn encoded_tracks(tracks: Seq<Seq<EventView>>) -> Seq<Seq<Record>> {
    tracks.map_values(|t: Seq<EventView>| encoded_track(t))
}

/// The event that a record is read back into: its delta time with the kind
/// that its tag stands for, or `None` where the tag stands for none.
pub open spec fn event_of(record: Record) -> Option<EventView> {
    match decoded(record.event_type) {
        Some(kind) => Some(EventView { delta_time: record.delta_time, kind }),
        None => None,
    }
}

/// The track that records are read back into: the events of the records that
/// stand for one, in the records' order.
pub open spec fn decoded_track(records: Seq<Record>) -> Seq<EventView> {
    records.filter_map(|r: Record| event_of(r))
}

/// The tracks that the records of a stream are read back into, in order.
pub open spec fn decoded_tracks(tracks: Seq<Seq<Record>>) -> Seq<Seq<EventView>> {
    tracks.map_values(|t: Seq<Record>| decoded_track(t))
}

/// Writes a track as records, one for each event, in the track's order.
pub fn encode_track(track: &Vec<Event>) -> (records: Vec<EventJson>)
    ensures
        records_view(records@) == encoded_track(track_view(track@)),
{
    let mut records: Vec<EventJson> = Vec::new();
    let mut i: usize = 0;
    while i < track.len()
        invariant
            i <= track.len(),
            records.len() == i,
            records_view(records@) == encoded_track(track_view(track@.take(i as int))),
        decreases track.len() - i,
    {
        let event = &track[i];
        let ghost before = records_view(records@);
        records.push(EventJson { delta_time: event.delta_time, event_type: event.kind.tag() });
        proof {
            let now = records_view(records@);
            let goal = encoded_track(track_view(track@.take(i + 1)));
            assert(before == encoded_track(track_view(track@.take(i as int))));
            assert forall|j: int| 0 <= j < now.len() implies now[j] == goal[j] by {
                if j < i {
                    assert(now[j] == before[j]);
                    assert(track@.take(i as int)[j] == track@.take(i + 1)[j]);
                }
            }
            assert(now =~= goal);
        }
        i += 1;
    }
    assert(track@.take(track.len() as int) =~= track@);
    records
}

/// Writes a stream as records, track by track. The header is not written.
pub fn encode_stream(stream: &Stream) -> (json: MidiJson)
    ensures
        json@ == encoded_tracks(stream@.tracks),
{
    encode_tracks(&stream.tracks)
}

/// Reads records back into a track: the events of the records whose tag
/// stands for a kind, in the records' order. Every other record is dropped.
pub fn decode_track(records: &Vec<EventJson>) -> (track: Vec<Event>)
    ensures
        track_view(track@) == decoded_track(records_view(records@)),
{
    let ghost all = records_view(records@);
    let mut track: Vec<Event> = Vec::new();
    let mut i: usize = 0;
    while i < records.len()
        invariant
            i <= records.len(),
            all == records_view(records@),
            track_view(track@) == decoded_track(all.take(i as int)),
        decreases records.len() - i,
    {
        let record = &records[i];
        let ghost before = track@;
        proof {
            assert(all.take(i + 1).drop_last() =~= all.take(i as int));
            assert(all.take(i + 1).last() == record@);
        }
        match EventKind::from_tag(record.event_type.as_str()) {
            Some(kind) => {
                track.push(Event { delta_time: record.delta_time, kind });
                assert(track_view(track@) =~= track_view(before) + seq![
                    event_of(record@).unwrap(),
                ]);
            },
            None => {},
        }
        i += 1;
    }
    assert(all.take(records.len() as int) =~= all);
    track
}

/// Reads the records of a stream back into a stream, track by track, under
/// the header that every rebuilt stream has: one track's format, and 480
/// ticks per quarter note.
pub fn convert_json_to_midi(json: &MidiJson) -> (stream: Stream)
    ensures
        stream@ == (StreamView { header: decoded_header(), tracks: decoded_tracks(json@) }),
{
    let mut tracks: Vec<Vec<Event>> = Vec::new();
    let mut i: usize = 0;
    while i < json.tracks.len()
        invariant
            i <= json.tracks.len(),
            tracks.len() == i,
            forall|j: int|
                0 <= j < i ==> track_view(#[trigger] tracks@[j]@) == decoded_track(
                    records_view(json.tracks@[j]@),
                ),
        decreases json.tracks.len() - i,
    {
        tracks.push(decode_track(&json.tracks[i]));
        i += 1;
    }
    let stream = Stream {
        header: Header {
            format: Format::SingleTrack,
            timing: Timing::Metrical(DECODED_TICKS_PER_QUARTER),
        },
        tracks,
    };
    assert(stream@.tracks =~= decoded_tracks(json@));
    stream
}

/// Writes the tracks of a stream as records.
fn encode_tracks(tracks: &Vec<Vec<Event>>) -> (json: MidiJson)
    ensures
        json@ == encoded_tracks(tracks_view(tracks@)),
{
    let mut records: Vec<Vec<EventJson>> = Vec::new();
    let mut i: usize = 0;
    while i < tracks.len()
        invariant
            i <= tracks.len(),
            records.len() == i,
            forall|j: int|
                0 <= j < i ==> records_view(#[trigger] records@[j]@) == encoded_track(
                    track_view(tracks@[j]@),
                ),
        decreases tracks.len() - i,
    {
        records.push(encode_track(&tracks[i]));
        i += 1;
    }
    let json = MidiJson { tracks: records };
    assert(json@ =~= encoded_tracks(tracks_view(tracks@)));
    json
}

/// Reads bytes as a MIDI file and writes its tracks as records: the records
/// of what the bytes parse to, or why the bytes are no file. Every field of
/// what a file parses to lies in its range.
pub fn convert_midi_to_json(bytes: &[u8]) -> (r: Result<MidiJson, MidiError>)
    ensures
        match parsed_file(bytes@) {
            Ok(tracks) => r is Ok && r.unwrap()@ == encoded_tracks(tracks) && all_in_range(tracks),
            Err(failure) => r is Err && r.unwrap_err()@ == failure,
        },
{
    match read_tracks(bytes) {
        Ok(tracks) => Ok(encode_tracks(&tracks)),
        Err(error) => Err(error),
    }
}

} // verus!
