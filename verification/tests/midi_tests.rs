use soundseekers::event::{Event, EventKind, Format, Header, Stream, Timing};
use soundseekers::midi_processor::{
    convert_json_to_midi, convert_midi_to_json, decode_track, encode_stream, encode_track,
    EventJson, MidiJson,
};
use soundseekers::smf::MidiError;

fn record(delta_time: u32, event_type: &str) -> EventJson {
    EventJson { delta_time, event_type: event_type.to_string() }
}

fn event(delta_time: u32, kind: EventKind) -> Event {
    Event { delta_time, kind }
}

fn file_bytes() -> Vec<u8> {
    let events: Vec<u8> = vec![
        0x00, 0xFF, 0x03, 0x04, b'P', b'i', b'a', b'n', // track name
        0x00, 0xFF, 0x51, 0x03, 0x07, 0xA1, 0x20, // tempo 500000
        0x00, 0xFF, 0x58, 0x04, 0x04, 0x02, 0x18, 0x08, // time signature
        0x00, 0xFF, 0x59, 0x02, 0xFD, 0x01, // key signature -3, minor
        0x00, 0xC0, 0x05, // program change
        0x00, 0xB0, 0x07, 0x64, // controller
        0x00, 0x90, 0x3C, 0x5A, // note on
        0x60, 0x80, 0x3C, 0x00, // note off
        0x00, 0xF0, 0x03, 0x01, 0x02, 0xF7, // system exclusive
        0x81, 0x00, 0xFF, 0x2F, 0x00, // end of track, delta 128
    ];
    let mut bytes: Vec<u8> = vec![
        b'M', b'T', b'h', b'd', 0, 0, 0, 6, 0, 1, 0, 1, 0x01, 0xE0, b'M', b'T', b'r', b'k', 0, 0,
        0,
        events.len() as u8,
    ];
    bytes.extend_from_slice(&events);
    bytes
}

fn file_records() -> Vec<EventJson> {
    vec![
        record(0, "TrackName([80, 105, 97, 110])"),
        record(0, "Tempo(500000)"),
        record(0, "TimeSignature(4, 2, 24, 8)"),
        record(0, "KeySignature(-3, true)"),
        record(0, "ProgramChange { program: 5 }"),
        record(0, "ControlChange { controller: 7, value: 100 }"),
        record(0, "NoteOn { key: 60, velocity: 90 }"),
        record(96, "Unknown"),
        record(0, "SysEx(3 bytes)"),
        record(128, "EndOfTrack"),
    ]
}

#[test]
fn test_midi_convert_json() {
    let json = convert_midi_to_json(&file_bytes()).unwrap();
    assert_eq!(json, MidiJson { tracks: vec![file_records()] });
    let mut tracks = Vec::new();
    for track in &json.tracks {
        let mut records = Vec::new();
        for r in track {
            let mut fields = serde_json::Map::new();
            fields.insert("delta_time".to_string(), serde_json::Value::from(r.delta_time));
            fields.insert(
                "event_type".to_string(),
                serde_json::Value::String(r.event_type.clone()),
            );
            records.push(serde_json::Value::Object(fields));
        }
        tracks.push(serde_json::Value::Array(records));
    }
    let mut root = serde_json::Map::new();
    root.insert("tracks".to_string(), serde_json::Value::Array(tracks));
    let text = serde_json::to_string_pretty(&serde_json::Value::Object(root)).unwrap();
    assert!(text.contains("\"tracks\""));
    assert!(text.contains("\"event_type\": \"Tempo(500000)\""));
}

#[test]
fn bytes_that_are_no_file_are_refused() {
    assert!(matches!(convert_midi_to_json(b"not a midi file"), Err(MidiError::Invalid(_))));
    assert!(matches!(convert_midi_to_json(&[]), Err(MidiError::Invalid(_))));
}

#[test]
fn file_round_trip_drops_what_has_no_grammar() {
    let json = convert_midi_to_json(&file_bytes()).unwrap();
    let stream = convert_json_to_midi(&json);
    assert_eq!(
        stream.header,
        Header { format: Format::SingleTrack, timing: Timing::Metrical(480) }
    );
    assert_eq!(
        stream.tracks,
        vec![vec![
            event(0, EventKind::TrackName { bytes: vec![80, 105, 97, 110] }),
            event(0, EventKind::Tempo { microseconds_per_quarter: 500000 }),
            event(
                0,
                EventKind::TimeSignature {
                    numerator: 4,
                    denominator: 2,
                    clocks_per_metronome: 24,
                    thirtyseconds_per_quarter: 8,
                }
            ),
            event(0, EventKind::KeySignature { sharps_flats: -3, is_minor: true }),
            event(0, EventKind::ProgramChange { program: 5 }),
            event(0, EventKind::ControlChange { controller: 7, value: 100 }),
            event(0, EventKind::NoteOn { key: 60, velocity: 90 }),
            event(128, EventKind::EndOfTrack),
        ]]
    );
}

#[test]
fn unknown_variant_shortens_the_track_by_one() {
    let records = vec![
        record(0, "Tempo(500000)"),
        record(10, "GlissandoBend(3)"),
        record(20, "NoteOn { key: 60, velocity: 90 }"),
    ];
    let track = decode_track(&records);
    assert_eq!(track.len(), records.len() - 1);
    assert_eq!(
        track,
        vec![
            event(0, EventKind::Tempo { microseconds_per_quarter: 500000 }),
            event(20, EventKind::NoteOn { key: 60, velocity: 90 }),
        ]
    );
}

#[test]
fn tempo_record_decodes() {
    let track = decode_track(&vec![record(0, "Tempo(500000)")]);
    assert_eq!(track, vec![event(0, EventKind::Tempo { microseconds_per_quarter: 500000 })]);
}

#[test]
fn encode_keeps_order_and_delta_times() {
    let track = vec![
        event(5, EventKind::NoteOn { key: 1, velocity: 2 }),
        event(0, EventKind::Unknown),
        event(4_000_000_000, EventKind::EndOfTrack),
    ];
    assert_eq!(
        encode_track(&track),
        vec![
            record(5, "NoteOn { key: 1, velocity: 2 }"),
            record(0, "Unknown"),
            record(4_000_000_000, "EndOfTrack"),
        ]
    );
}

#[test]
fn stream_round_trip_keeps_tracks_and_survivors_in_order() {
    let stream = Stream {
        header: Header { format: Format::Parallel, timing: Timing::Metrical(96) },
        tracks: vec![
            vec![
                event(0, EventKind::Tempo { microseconds_per_quarter: 0xFF_FFFF }),
                event(1, EventKind::SysEx { byte_length: 7 }),
                event(2, EventKind::EndOfTrack),
            ],
            vec![],
            vec![
                event(3, EventKind::Unknown),
                event(4, EventKind::NoteOn { key: 127, velocity: 0 }),
                event(5, EventKind::NoteOn { key: 128, velocity: 0 }),
                event(6, EventKind::TrackName { bytes: vec![0, 255, 10] }),
            ],
        ],
    };
    let back = convert_json_to_midi(&encode_stream(&stream));
    assert_eq!(
        back,
        Stream {
            header: Header { format: Format::SingleTrack, timing: Timing::Metrical(480) },
            tracks: vec![
                vec![
                    event(0, EventKind::Tempo { microseconds_per_quarter: 0xFF_FFFF }),
                    event(2, EventKind::EndOfTrack),
                ],
                vec![],
                vec![
                    event(4, EventKind::NoteOn { key: 127, velocity: 0 }),
                    event(6, EventKind::TrackName { bytes: vec![0, 255, 10] }),
                ],
            ],
        }
    );
}

#[test]
fn round_trip_keeps_exactly_the_decodable_events() {
    let track = vec![
        event(0, EventKind::TrackName { bytes: vec![1, 2, 3] }),
        event(1, EventKind::SysEx { byte_length: 3 }),
        event(2, EventKind::Unknown),
        event(3, EventKind::ProgramChange { program: 128 }),
        event(4, EventKind::Tempo { microseconds_per_quarter: 0x100_0000 }),
        event(5, EventKind::KeySignature { sharps_flats: -1, is_minor: false }),
        event(6, EventKind::Unknown),
    ];
    let survivors: Vec<Event> =
        track.iter().filter(|e| e.kind.is_decodable()).cloned().collect();
    let dropped = track.iter().filter(|e| !e.kind.is_decodable()).count();
    let back = decode_track(&encode_track(&track));
    assert_eq!(dropped, 5);
    assert_eq!(back.len(), track.len() - dropped);
    assert_eq!(back, survivors);
}

#[test]
fn decodable_kinds_are_the_supported_ones_in_range() {
    assert!(EventKind::NoteOn { key: 127, velocity: 127 }.is_decodable());
    assert!(!EventKind::NoteOn { key: 128, velocity: 0 }.is_decodable());
    assert!(!EventKind::NoteOn { key: 0, velocity: 128 }.is_decodable());
    assert!(EventKind::ControlChange { controller: 127, value: 127 }.is_decodable());
    assert!(!EventKind::ControlChange { controller: 128, value: 0 }.is_decodable());
    assert!(EventKind::ProgramChange { program: 127 }.is_decodable());
    assert!(!EventKind::ProgramChange { program: 128 }.is_decodable());
    assert!(EventKind::Tempo { microseconds_per_quarter: 0xFF_FFFF }.is_decodable());
    assert!(!EventKind::Tempo { microseconds_per_quarter: 0x100_0000 }.is_decodable());
    assert!(EventKind::KeySignature { sharps_flats: -128, is_minor: true }.is_decodable());
    assert!(EventKind::TrackName { bytes: vec![255] }.is_decodable());
    assert!(EventKind::EndOfTrack.is_decodable());
    assert!(!EventKind::SysEx { byte_length: 0 }.is_decodable());
    assert!(!EventKind::Unknown.is_decodable());
}

#[test]
fn tracks_of_a_file_come_in_their_order() {
    let mut bytes: Vec<u8> = vec![b'M', b'T', b'h', b'd', 0, 0, 0, 6, 0, 1, 0, 3, 0x00, 0x60];
    let first: Vec<u8> = vec![0x00, 0xFF, 0x51, 0x03, 0x00, 0x00, 0x01, 0x00, 0xFF, 0x2F, 0x00];
    let second: Vec<u8> = vec![];
    let third: Vec<u8> = vec![
        0x05, 0x93, 0x7F, 0x00, // note on, channel 3
        0x83, 0x60, 0xC9, 0x7F, // program change, channel 9, delta 480
        0x00, 0xE0, 0x00, 0x40, // pitch bend
        0x00, 0xFF, 0x01, 0x02, b'h', b'i', // text
        0x00, 0xFF, 0x2F, 0x00,
    ];
    for track in [&first, &second, &third] {
        bytes.extend_from_slice(b"MTrk");
        bytes.extend_from_slice(&(track.len() as u32).to_be_bytes());
        bytes.extend_from_slice(track);
    }
    let json = convert_midi_to_json(&bytes).unwrap();
    assert_eq!(
        json,
        MidiJson {
            tracks: vec![
                vec![record(0, "Tempo(1)"), record(0, "EndOfTrack")],
                vec![],
                vec![
                    record(5, "NoteOn { key: 127, velocity: 0 }"),
                    record(480, "ProgramChange { program: 127 }"),
                    record(0, "Unknown"),
                    record(0, "Unknown"),
                    record(0, "EndOfTrack"),
                ],
            ]
        }
    );
}
