//! What writing a stream as records and reading it back keeps, and what it
//! drops.

use crate::event::{EventView, KindView};
use crate::midi_processor::{
    decoded_track, decoded_tracks, encoded_track, encoded_tracks, event_of, record_of,
};
use crate::tag::lemma_decoded_of_tag;
use vstd::prelude::*;

verus! {

/// The events of a track that can be read back, in the track's order.
pub open spec fn surviving(track: Seq<EventView>) -> Seq<EventView> {
    track.filter(|e: EventView| e.kind.decodable())
}

/// The events of a track that cannot be read back, in the track's order.
pub open spec fn dropped(track: Seq<EventView>) -> Seq<EventView> {
    track.filter(|e: EventView| !e.kind.decodable())
}

/// The surviving events of each track of a stream, in the stream's order.
pub open spec fn surviving_tracks(tracks: Seq<Seq<EventView>>) -> Seq<Seq<EventView>> {
    tracks.map_values(|t: Seq<EventView>| surviving(t))
}

/// An event whose kind is decodable is read back from its record as it was,
/// field for field.
pub proof fn lemma_event_round_trip(event: EventView)
    requires
        event.kind.decodable(),
    ensures
        event_of(record_of(event)) == Some(event),
{
    lemma_decoded_of_tag(event.kind);
}

/// An event whose kind is not decodable, such as a system-exclusive message
/// or an unknown event, is read back from its record as nothing.
pub proof fn lemma_event_dropped(event: EventView)
    requires
        !event.kind.decodable(),
    ensures
        event_of(record_of(event)) is None,
{
    lemma_decoded_of_tag(event.kind);
}

/// Reading back the records of a track gives the track's surviving events,
/// unchanged and in their order.
pub proof fn lemma_track_round_trip(track: Seq<EventView>)
    ensures
        decoded_track(encoded_track(track)) == surviving(track),
    decreases track.len(),
{
    reveal(Seq::filter);
    let records = encoded_track(track);
    if track.len() == 0 {
        assert(decoded_track(records) =~= surviving(track));
    } else {
        let front = track.drop_last();
        let last = track.last();
        lemma_track_round_trip(front);
        lemma_decoded_of_tag(last.kind);
        assert(records.drop_last() =~= encoded_track(front));
        assert(records.last() == record_of(last));
        assert(decoded_track(records) =~= surviving(track));
    }
}

/// Reading back the records of a stream gives as many tracks, in the same
/// order, each with its surviving events, unchanged and in their order.
pub proof fn lemma_stream_round_trip(tracks: Seq<Seq<EventView>>)
    ensures
        decoded_tracks(encoded_tracks(tracks)) == surviving_tracks(tracks),
        decoded_tracks(encoded_tracks(tracks)).len() == tracks.len(),
{
    assert forall|i: int| 0 <= i < tracks.len() implies decoded_tracks(encoded_tracks(tracks))[i]
        == surviving_tracks(tracks)[i] by {
        lemma_track_round_trip(tracks[i]);
    }
    assert(decoded_tracks(encoded_tracks(tracks)) =~= surviving_tracks(tracks));
}

/// A track of decodable events is read back from its records as it was.
pub proof fn lemma_decodable_track_round_trip(track: Seq<EventView>)
    requires
        forall|i: int| 0 <= i < track.len() ==> (#[trigger] track[i]).kind.decodable(),
    ensures
        decoded_track(encoded_track(track)) == track,
    decreases track.len(),
{
    lemma_track_round_trip(track);
    lemma_all_survive(track);
}

/// Where every event of a track is decodable, all of them survive.
proof fn lemma_all_survive(track: Seq<EventView>)
    requires
        forall|i: int| 0 <= i < track.len() ==> (#[trigger] track[i]).kind.decodable(),
    ensures
        surviving(track) == track,
    decreases track.len(),
{
    reveal(Seq::filter);
    if track.len() > 0 {
        let front = track.drop_last();
        assert forall|i: int| 0 <= i < front.len() implies (#[trigger] front[i]).kind.decodable() by {
            assert(front[i] == track[i]);
        }
        lemma_all_survive(front);
        assert(surviving(track) =~= track);
    } else {
        assert(surviving(track) =~= track);
    }
}

/// The events of a track whose kind has a grammar, in the track's order.
pub open spec fn with_grammar(track: Seq<EventView>) -> Seq<EventView> {
    track.filter(|e: EventView| e.kind.has_grammar())
}

/// Where every field of a track lies in its range, as in what a file parses
/// to, reading back the track's records gives every event whose kind has a
/// grammar, unchanged and in order: only system-exclusive messages and unknown
/// events are lost.
pub proof fn lemma_in_range_track_round_trip(track: Seq<EventView>)
    requires
        forall|i: int| 0 <= i < track.len() ==> (#[trigger] track[i]).kind.in_range(),
    ensures
        decoded_track(encoded_track(track)) == with_grammar(track),
    decreases track.len(),
{
    lemma_track_round_trip(track);
    lemma_survivors_in_range(track);
}

/// Where every field of a track lies in its range, the events that survive
/// are those whose kind has a grammar.
proof fn lemma_survivors_in_range(track: Seq<EventView>)
    requires
        forall|i: int| 0 <= i < track.len() ==> (#[trigger] track[i]).kind.in_range(),
    ensures
        surviving(track) == with_grammar(track),
    decreases track.len(),
{
    reveal(Seq::filter);
    if track.len() > 0 {
        let front = track.drop_last();
        assert forall|i: int| 0 <= i < front.len() implies (#[trigger] front[i]).kind.in_range() by {
            assert(front[i] == track[i]);
        }
        lemma_survivors_in_range(front);
        assert(track.last() == track[track.len() - 1]);
    }
}

/// Every event of a track either survives or is dropped.
proof fn lemma_survive_or_drop(track: Seq<EventView>)
    ensures
        surviving(track).len() + dropped(track).len() == track.len(),
    decreases track.len(),
{
    reveal(Seq::filter);
    if track.len() > 0 {
        lemma_survive_or_drop(track.drop_last());
    }
}

/// Reading back the records of a track gives a track that is shorter by
/// exactly the number of events that cannot be read back.
pub proof fn lemma_track_shrinks_by_dropped(track: Seq<EventView>)
    ensures
        decoded_track(encoded_track(track)).len() == track.len() - dropped(track).len(),
{
    lemma_track_round_trip(track);
    lemma_survive_or_drop(track);
}

/// A system-exclusive message and an unknown event are not decodable, whatever
/// they hold: each one in a track makes the track that is read back shorter by
/// one.
pub proof fn lemma_opaque_kinds_are_dropped(byte_length: usize, delta_time: u32)
    ensures
        event_of(record_of(EventView { delta_time, kind: KindView::SysEx { byte_length } }))
            is None,
        event_of(record_of(EventView { delta_time, kind: KindView::Unknown })) is None,
{
    lemma_decoded_of_tag(KindView::SysEx { byte_length });
    lemma_decoded_of_tag(KindView::Unknown);
}

} // verus!
