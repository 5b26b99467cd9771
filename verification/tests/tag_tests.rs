use soundseekers::event::EventKind;

fn decode(tag: &str) -> Option<EventKind> {
    EventKind::from_tag(tag)
}

#[test]
fn tempo_tag_decodes() {
    assert_eq!(
        decode("Tempo(500000)"),
        Some(EventKind::Tempo { microseconds_per_quarter: 500000 })
    );
}

#[test]
fn note_on_tag_decodes() {
    assert_eq!(
        decode("NoteOn { key: 60, velocity: 90 }"),
        Some(EventKind::NoteOn { key: 60, velocity: 90 })
    );
}

#[test]
fn time_signature_tag_decodes() {
    assert_eq!(
        decode("TimeSignature(4, 4, 24, 8)"),
        Some(EventKind::TimeSignature {
            numerator: 4,
            denominator: 4,
            clocks_per_metronome: 24,
            thirtyseconds_per_quarter: 8,
        })
    );
}

#[test]
fn unknown_variant_decodes_to_nothing() {
    assert_eq!(decode("GlissandoBend(3)"), None);
}

#[test]
fn tags_have_their_layout() {
    assert_eq!(EventKind::NoteOn { key: 60, velocity: 90 }.tag(), "NoteOn { key: 60, velocity: 90 }");
    assert_eq!(
        EventKind::ControlChange { controller: 7, value: 100 }.tag(),
        "ControlChange { controller: 7, value: 100 }"
    );
    assert_eq!(EventKind::ProgramChange { program: 0 }.tag(), "ProgramChange { program: 0 }");
    assert_eq!(EventKind::Tempo { microseconds_per_quarter: 500000 }.tag(), "Tempo(500000)");
    assert_eq!(
        EventKind::TimeSignature {
            numerator: 6,
            denominator: 3,
            clocks_per_metronome: 36,
            thirtyseconds_per_quarter: 8,
        }
        .tag(),
        "TimeSignature(6, 3, 36, 8)"
    );
    assert_eq!(
        EventKind::KeySignature { sharps_flats: -3, is_minor: true }.tag(),
        "KeySignature(-3, true)"
    );
    assert_eq!(
        EventKind::KeySignature { sharps_flats: 2, is_minor: false }.tag(),
        "KeySignature(2, false)"
    );
    assert_eq!(
        EventKind::TrackName { bytes: vec![80, 105, 97, 110, 111] }.tag(),
        "TrackName([80, 105, 97, 110, 111])"
    );
    assert_eq!(EventKind::TrackName { bytes: vec![] }.tag(), "TrackName([])");
    assert_eq!(EventKind::TrackName { bytes: vec![0] }.tag(), "TrackName([0])");
    assert_eq!(EventKind::EndOfTrack.tag(), "EndOfTrack");
    assert_eq!(EventKind::SysEx { byte_length: 12 }.tag(), "SysEx(12 bytes)");
    assert_eq!(EventKind::Unknown.tag(), "Unknown");
}

fn round_trips(kind: EventKind) {
    assert_eq!(decode(&kind.tag()), Some(kind));
}

#[test]
fn supported_kinds_round_trip_at_their_bounds() {
    round_trips(EventKind::NoteOn { key: 0, velocity: 0 });
    round_trips(EventKind::NoteOn { key: 127, velocity: 127 });
    round_trips(EventKind::ControlChange { controller: 0, value: 127 });
    round_trips(EventKind::ControlChange { controller: 127, value: 0 });
    round_trips(EventKind::ProgramChange { program: 0 });
    round_trips(EventKind::ProgramChange { program: 127 });
    round_trips(EventKind::Tempo { microseconds_per_quarter: 0 });
    round_trips(EventKind::Tempo { microseconds_per_quarter: 0xFF_FFFF });
    round_trips(EventKind::TimeSignature {
        numerator: 0,
        denominator: 255,
        clocks_per_metronome: 10,
        thirtyseconds_per_quarter: 100,
    });
    round_trips(EventKind::KeySignature { sharps_flats: -128, is_minor: true });
    round_trips(EventKind::KeySignature { sharps_flats: 127, is_minor: false });
    round_trips(EventKind::KeySignature { sharps_flats: 0, is_minor: true });
    round_trips(EventKind::TrackName { bytes: vec![] });
    round_trips(EventKind::TrackName { bytes: vec![0] });
    round_trips(EventKind::TrackName { bytes: vec![255, 0, 7, 100, 99, 10] });
    round_trips(EventKind::EndOfTrack);
}

#[test]
fn numeric_boundary_of_a_note() {
    round_trips(EventKind::NoteOn { key: 127, velocity: 0 });
    assert_eq!(EventKind::NoteOn { key: 127, velocity: 0 }.tag(), "NoteOn { key: 127, velocity: 0 }");
    assert_eq!(decode("NoteOn { key: 128, velocity: 0 }"), None);
    assert_eq!(decode("NoteOn { key: 0, velocity: 128 }"), None);
    assert_eq!(decode("NoteOn { key: 300, velocity: 0 }"), None);
    assert_eq!(decode(&EventKind::NoteOn { key: 128, velocity: 0 }.tag()), None);
    assert_eq!(decode(&EventKind::NoteOn { key: 255, velocity: 255 }.tag()), None);
}

#[test]
fn kinds_without_a_grammar_are_dropped() {
    assert_eq!(decode(&EventKind::SysEx { byte_length: 0 }.tag()), None);
    assert_eq!(decode(&EventKind::SysEx { byte_length: usize::MAX }.tag()), None);
    assert_eq!(decode(&EventKind::Unknown.tag()), None);
    assert_eq!(decode("SysEx(12 bytes)"), None);
    assert_eq!(decode("Unknown"), None);
}

#[test]
fn fields_out_of_range_are_dropped() {
    assert_eq!(decode("ControlChange { controller: 128, value: 0 }"), None);
    assert_eq!(decode("ControlChange { controller: 0, value: 128 }"), None);
    assert_eq!(decode("ProgramChange { program: 128 }"), None);
    assert_eq!(decode("Tempo(16777216)"), None);
    assert_eq!(
        decode("Tempo(16777215)"),
        Some(EventKind::Tempo { microseconds_per_quarter: 16777215 })
    );
    assert_eq!(decode("Tempo(4294967296)"), None);
    assert_eq!(decode("Tempo(99999999999999999999999999999999999999999)"), None);
    assert_eq!(decode("TimeSignature(256, 4, 24, 8)"), None);
    assert_eq!(decode("TimeSignature(4, 4, 24, 256)"), None);
    assert_eq!(decode("KeySignature(128, false)"), None);
    assert_eq!(decode("KeySignature(-129, false)"), None);
    assert_eq!(decode("TrackName([256])"), None);
    assert_eq!(decode("TrackName([1, 2, 1000])"), None);
}

#[test]
fn numerals_are_read_strictly() {
    assert_eq!(decode("Tempo(0)"), Some(EventKind::Tempo { microseconds_per_quarter: 0 }));
    assert_eq!(decode("Tempo(00)"), None);
    assert_eq!(decode("Tempo(0500000)"), None);
    assert_eq!(decode("Tempo(+5)"), None);
    assert_eq!(decode("Tempo(-5)"), None);
    assert_eq!(decode("Tempo( 5)"), None);
    assert_eq!(decode("Tempo(5 )"), None);
    assert_eq!(decode("Tempo()"), None);
    assert_eq!(decode("Tempo(5a)"), None);
    assert_eq!(decode("Tempo(\u{ff15})"), None);
    assert_eq!(decode("KeySignature(-0, false)"), None);
    assert_eq!(decode("KeySignature(+3, false)"), None);
    assert_eq!(decode("KeySignature(--3, false)"), None);
    assert_eq!(decode("KeySignature(-03, false)"), None);
    assert_eq!(decode("KeySignature(-, false)"), None);
}

#[test]
fn layouts_are_read_strictly() {
    assert_eq!(decode(""), None);
    assert_eq!(decode("Tempo"), None);
    assert_eq!(decode("Tempo(500000"), None);
    assert_eq!(decode("Tempo(500000))"), None);
    assert_eq!(decode("Tempo(500000) "), None);
    assert_eq!(decode(" Tempo(500000)"), None);
    assert_eq!(decode("tempo(500000)"), None);
    assert_eq!(decode("Tempo[500000]"), None);
    assert_eq!(decode("NoteOn { key: 60, vel: 90 }"), None);
    assert_eq!(decode("NoteOn { velocity: 90, key: 60 }"), None);
    assert_eq!(decode("NoteOn {key: 60, velocity: 90}"), None);
    assert_eq!(decode("NoteOn { key: 60 }"), None);
    assert_eq!(decode("NoteOn { key: 60, velocity: 90, extra: 1 }"), None);
    assert_eq!(decode("NoteOff { key: 60, velocity: 90 }"), None);
    assert_eq!(decode("TimeSignature(4, 4, 24)"), None);
    assert_eq!(decode("TimeSignature(4, 4, 24, 8, 1)"), None);
    assert_eq!(decode("TimeSignature(4,4,24,8)"), None);
    assert_eq!(decode("KeySignature(0, maybe)"), None);
    assert_eq!(decode("KeySignature(0, True)"), None);
    assert_eq!(decode("KeySignature(0,true)"), None);
    assert_eq!(decode("KeySignature(0)"), None);
    assert_eq!(decode("TrackName([1,2])"), None);
    assert_eq!(decode("TrackName([1, ])"), None);
    assert_eq!(decode("TrackName([, 1])"), None);
    assert_eq!(decode("TrackName([1, 2)"), None);
    assert_eq!(decode("TrackName(1, 2)"), None);
    assert_eq!(decode("TrackName([1, 2]) "), None);
    assert_eq!(decode("EndOfTrack "), None);
    assert_eq!(decode("EndOfTrack()"), None);
    assert_eq!(decode("EndOfTrac"), None);
    assert_eq!(decode("\u{e9}"), None);
}

#[test]
fn every_decoded_tag_is_written_back_as_it_was() {
    for tag in [
        "NoteOn { key: 60, velocity: 90 }",
        "ControlChange { controller: 64, value: 127 }",
        "ProgramChange { program: 19 }",
        "Tempo(1)",
        "TimeSignature(3, 2, 24, 8)",
        "KeySignature(-7, false)",
        "TrackName([84, 114, 97, 99, 107, 32, 49])",
        "TrackName([])",
        "EndOfTrack",
    ] {
        assert_eq!(decode(tag).unwrap().tag(), tag);
    }
}

#[test]
fn tags_of_different_kinds_differ() {
    let kinds = vec![
        EventKind::NoteOn { key: 1, velocity: 2 },
        EventKind::NoteOn { key: 12, velocity: 0 },
        EventKind::NoteOn { key: 1, velocity: 20 },
        EventKind::ControlChange { controller: 1, value: 2 },
        EventKind::ProgramChange { program: 1 },
        EventKind::Tempo { microseconds_per_quarter: 1 },
        EventKind::TimeSignature {
            numerator: 1,
            denominator: 2,
            clocks_per_metronome: 3,
            thirtyseconds_per_quarter: 4,
        },
        EventKind::KeySignature { sharps_flats: 1, is_minor: true },
        EventKind::KeySignature { sharps_flats: -1, is_minor: true },
        EventKind::TrackName { bytes: vec![1, 2] },
        EventKind::TrackName { bytes: vec![12] },
        EventKind::EndOfTrack,
        EventKind::SysEx { byte_length: 1 },
        EventKind::Unknown,
    ];
    for (i, a) in kinds.iter().enumerate() {
        for (j, b) in kinds.iter().enumerate() {
            assert_eq!(a.tag() == b.tag(), i == j);
        }
    }
}
