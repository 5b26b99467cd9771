//! Tags: the text that stands for an event kind, how it is written, and how it
//! is read back.

use crate::decimal::{
    byte_list, decimal, is_digit, lemma_take_signed_is_decimal,
    lemma_take_signed_of_decimal, push_decimal, push_signed, read_number, read_signed,
    signed_decimal, take_number, take_signed,
};
use crate::event::{EventKind, KindView, DATA_BYTE_MAX, TEMPO_MAX};
use crate::grammar::{
    bytes_at, chars_of, eat, interleave, is_rest, lemma_bytes_at_is_list, lemma_bytes_at_of_list,
    lemma_scan_is_interleave, lemma_scan_of_interleave, pieces_delimit, read_bytes, scan_at,
};
use vstd::prelude::*;
use vstd::string::*;

verus! {

/// How a key signature's tag ends: with the word for its mode.
pub open spec fn mode_text(is_minor: bool) -> Seq<char> {
    if is_minor {
        ", true)"@
    } else {
        ", false)"@
    }
}

/// The tag of an event kind: the kind's name and, in a layout of its own, the
/// numerals of its fields.
pub open spec fn tag_text(kind: KindView) -> Seq<char> {
    match kind {
        KindView::NoteOn { key, velocity } => "NoteOn { key: "@ + decimal(key as nat)
            + ", velocity: "@ + decimal(velocity as nat) + " }"@,
        KindView::ControlChange { controller, value } => "ControlChange { controller: "@
            + decimal(controller as nat) + ", value: "@ + decimal(value as nat) + " }"@,
        KindView::ProgramChange { program } => "ProgramChange { program: "@ + decimal(
            program as nat,
        ) + " }"@,
        KindView::Tempo { microseconds_per_quarter } => "Tempo("@ + decimal(
            microseconds_per_quarter as nat,
        ) + ")"@,
        KindView::TimeSignature {
            numerator,
            denominator,
            clocks_per_metronome,
            thirtyseconds_per_quarter,
        } => "TimeSignature("@ + decimal(numerator as nat) + ", "@ + decimal(denominator as nat)
            + ", "@ + decimal(clocks_per_metronome as nat) + ", "@ + decimal(
            thirtyseconds_per_quarter as nat,
        ) + ")"@,
        KindView::KeySignature { sharps_flats, is_minor } => "KeySignature("@ + signed_decimal(
            sharps_flats as int,
        ) + mode_text(is_minor),
        KindView::TrackName { bytes } => "TrackName(["@ + byte_list(bytes) + "])"@,
        KindView::EndOfTrack => "EndOfTrack"@,
        KindView::SysEx { byte_length } => "SysEx("@ + decimal(byte_length as nat) + " bytes)"@,
        KindView::Unknown => "Unknown"@,
    }
}

/// `tag` is the tag of `kind`, and `kind` is one that can be read back.
pub open spec fn is_tag_of(tag: Seq<char>, kind: KindView) -> bool {
    kind.decodable() && tag_text(kind) == tag
}

/// The kind that `tag` is read back into: the one decodable kind whose tag it
/// is, and `None` where it is the tag of no such kind.
pub open spec fn decoded(tag: Seq<char>) -> Option<KindView> {
    if exists|kind: KindView| is_tag_of(tag, kind) {
        Some(choose|kind: KindView| is_tag_of(tag, kind))
    } else {
        None
    }
}

/// The value of a kind that may be missing.
pub open spec fn kind_view(kind: Option<EventKind>) -> Option<KindView> {
    match kind {
        Some(k) => Some(k@),
        None => None,
    }
}

spec fn note_on_pieces() -> Seq<Seq<char>> {
    seq!["NoteOn { key: "@, ", velocity: "@, " }"@]
}

spec fn control_change_pieces() -> Seq<Seq<char>> {
    seq!["ControlChange { controller: "@, ", value: "@, " }"@]
}

spec fn program_change_pieces() -> Seq<Seq<char>> {
    seq!["ProgramChange { program: "@, " }"@]
}

spec fn tempo_pieces() -> Seq<Seq<char>> {
    seq!["Tempo("@, ")"@]
}

spec fn time_signature_pieces() -> Seq<Seq<char>> {
    seq!["TimeSignature("@, ", "@, ", "@, ", "@, ")"@]
}

/// The numbers of a text that is, from its first place to its last, the text
/// of a layout.
spec fn whole_scan(s: Seq<char>, pieces: Seq<Seq<char>>) -> Option<Seq<nat>> {
    match scan_at(s, 0, pieces) {
        Some((numbers, end)) => if end == s.len() {
            Some(numbers)
        } else {
            None
        },
        None => None,
    }
}

spec fn note_on_of(s: Seq<char>) -> Option<KindView> {
    match whole_scan(s, note_on_pieces()) {
        Some(n) => if n[0] <= DATA_BYTE_MAX && n[1] <= DATA_BYTE_MAX {
            Some(KindView::NoteOn { key: n[0] as u8, velocity: n[1] as u8 })
        } else {
            None
        },
        None => None,
    }
}

spec fn control_change_of(s: Seq<char>) -> Option<KindView> {
    match whole_scan(s, control_change_pieces()) {
        Some(n) => if n[0] <= DATA_BYTE_MAX && n[1] <= DATA_BYTE_MAX {
            Some(KindView::ControlChange { controller: n[0] as u8, value: n[1] as u8 })
        } else {
            None
        },
        None => None,
    }
}

spec fn program_change_of(s: Seq<char>) -> Option<KindView> {
    match whole_scan(s, program_change_pieces()) {
        Some(n) => if n[0] <= DATA_BYTE_MAX {
            Some(KindView::ProgramChange { program: n[0] as u8 })
        } else {
            None
        },
        None => None,
    }
}

spec fn tempo_of(s: Seq<char>) -> Option<KindView> {
    match whole_scan(s, tempo_pieces()) {
        Some(n) => if n[0] <= TEMPO_MAX {
            Some(KindView::Tempo { microseconds_per_quarter: n[0] as u32 })
        } else {
            None
        },
        None => None,
    }
}

spec fn time_signature_of(s: Seq<char>) -> Option<KindView> {
    match whole_scan(s, time_signature_pieces()) {
        Some(n) => if n[0] <= u8::MAX && n[1] <= u8::MAX && n[2] <= u8::MAX && n[3] <= u8::MAX {
            Some(
                KindView::TimeSignature {
                    numerator: n[0] as u8,
                    denominator: n[1] as u8,
                    clocks_per_metronome: n[2] as u8,
                    thirtyseconds_per_quarter: n[3] as u8,
                },
            )
        } else {
            None
        },
        None => None,
    }
}

spec fn key_signature_of(s: Seq<char>) -> Option<KindView> {
    let head = "KeySignature("@;
    if !head.is_prefix_of(s) {
        None
    } else {
        match take_signed(s.skip(head.len() as int)) {
            Some((i, k)) => {
                let rest = s.skip((head.len() + k) as int);
                if i < i8::MIN || i > i8::MAX {
                    None
                } else if rest == mode_text(true) {
                    Some(KindView::KeySignature { sharps_flats: i as i8, is_minor: true })
                } else if rest == mode_text(false) {
                    Some(KindView::KeySignature { sharps_flats: i as i8, is_minor: false })
                } else {
                    None
                }
            },
            None => None,
        }
    }
}

spec fn track_name_of(s: Seq<char>) -> Option<KindView> {
    let head = "TrackName(["@;
    if !head.is_prefix_of(s) {
        None
    } else if s.skip(head.len() as int) == "])"@ {
        Some(KindView::TrackName { bytes: Seq::empty() })
    } else {
        match bytes_at(s, head.len() as int) {
            Some((bytes, end)) => if s.skip(end) == "])"@ {
                Some(KindView::TrackName { bytes })
            } else {
                None
            },
            None => None,
        }
    }
}

spec fn end_of_track_of(s: Seq<char>) -> Option<KindView> {
    if s == "EndOfTrack"@ {
        Some(KindView::EndOfTrack)
    } else {
        None
    }
}

/// The first of two results that is there.
spec fn or(first: Option<KindView>, second: Option<KindView>) -> Option<KindView> {
    if first is Some {
        first
    } else {
        second
    }
}

/// The kind that a text is recognised as: the grammars are tried in a fixed
/// order, the longer names first, and the first that fits decides.
spec fn parsed(s: Seq<char>) -> Option<KindView> {
    or(
        control_change_of(s),
        or(
            program_change_of(s),
            or(
                time_signature_of(s),
                or(
                    key_signature_of(s),
                    or(end_of_track_of(s), or(track_name_of(s), or(note_on_of(s), tempo_of(s)))),
                ),
            ),
        ),
    )
}

/// What the layouts are made of: their lengths, and that each piece behind a
/// numeral begins with something that is no digit.
proof fn lemma_layouts()
    ensures
        note_on_pieces().len() == 3 && pieces_delimit(note_on_pieces()),
        control_change_pieces().len() == 3 && pieces_delimit(control_change_pieces()),
        program_change_pieces().len() == 2 && pieces_delimit(program_change_pieces()),
        tempo_pieces().len() == 2 && pieces_delimit(tempo_pieces()),
        time_signature_pieces().len() == 5 && pieces_delimit(time_signature_pieces()),
{
    reveal_strlit(", velocity: ");
    reveal_strlit(", value: ");
    reveal_strlit(" }");
    reveal_strlit(")");
    reveal_strlit(", ");
}

/// The text of a layout of one number.
proof fn lemma_interleave_one(a: Seq<char>, b: Seq<char>, x: nat)
    ensures
        interleave(seq![a, b], seq![x]) == a + decimal(x) + b,
{
    reveal_with_fuel(interleave, 3);
    assert(interleave(seq![a, b], seq![x]) =~= a + decimal(x) + b);
}

/// The text of a layout of two numbers.
proof fn lemma_interleave_two(a: Seq<char>, b: Seq<char>, c: Seq<char>, x: nat, y: nat)
    ensures
        interleave(seq![a, b, c], seq![x, y]) == a + decimal(x) + b + decimal(y) + c,
{
    let pieces = seq![a, b, c];
    let numbers = seq![x, y];
    assert(pieces.drop_first() =~= seq![b, c]);
    assert(numbers.drop_first() =~= seq![y]);
    lemma_interleave_one(b, c, y);
    assert(interleave(pieces, numbers) =~= a + decimal(x) + b + decimal(y) + c);
}

/// The text of a layout of four numbers.
proof fn lemma_interleave_four(p: Seq<Seq<char>>, n: Seq<nat>)
    requires
        p.len() == 5,
        n.len() == 4,
    ensures
        interleave(p, n) == p[0] + decimal(n[0]) + p[1] + decimal(n[1]) + p[2] + decimal(n[2])
            + p[3] + decimal(n[3]) + p[4],
{
    let later_pieces = p.drop_first();
    let later_numbers = n.drop_first();
    let last_pieces = later_pieces.drop_first();
    let last_numbers = later_numbers.drop_first();
    assert(last_pieces =~= seq![p[2], p[3], p[4]]);
    assert(last_numbers =~= seq![n[2], n[3]]);
    lemma_interleave_two(p[2], p[3], p[4], n[2], n[3]);
    assert(interleave(later_pieces, later_numbers) == p[1] + decimal(n[1]) + interleave(last_pieces, last_numbers));
    assert(interleave(p, n) =~= p[0] + decimal(n[0]) + p[1] + decimal(n[1]) + p[2] + decimal(n[2])
        + p[3] + decimal(n[3]) + p[4]);
}

/// A text that is the text of a layout is recognised whole, with its numbers.
proof fn lemma_whole_scan_of(pieces: Seq<Seq<char>>, numbers: Seq<nat>)
    requires
        pieces.len() == numbers.len() + 1,
        pieces_delimit(pieces),
    ensures
        whole_scan(interleave(pieces, numbers), pieces) == Some(numbers),
{
    let s = interleave(pieces, numbers);
    assert(s.skip(0) =~= s);
    lemma_scan_of_interleave(s, 0, pieces, numbers);
}

/// What was recognised whole is the text of the layout with its numbers.
proof fn lemma_whole_scan_is(s: Seq<char>, pieces: Seq<Seq<char>>)
    requires
        whole_scan(s, pieces) is Some,
    ensures
        pieces.len() == whole_scan(s, pieces).unwrap().len() + 1,
        s == interleave(pieces, whole_scan(s, pieces).unwrap()),
{
    lemma_scan_is_interleave(s, 0, pieces);
    assert(s.subrange(0, s.len() as int) =~= s);
}

/// The first two characters of a kind's tag: no two kinds share them.
spec fn head_of(kind: KindView) -> (char, char) {
    match kind {
        KindView::NoteOn { .. } => ('N', 'o'),
        KindView::ControlChange { .. } => ('C', 'o'),
        KindView::ProgramChange { .. } => ('P', 'r'),
        KindView::Tempo { .. } => ('T', 'e'),
        KindView::TimeSignature { .. } => ('T', 'i'),
        KindView::KeySignature { .. } => ('K', 'e'),
        KindView::TrackName { .. } => ('T', 'r'),
        KindView::EndOfTrack => ('E', 'n'),
        KindView::SysEx { .. } => ('S', 'y'),
        KindView::Unknown => ('U', 'n'),
    }
}

/// `s` begins with the two characters `head`.
spec fn begins_with(s: Seq<char>, head: (char, char)) -> bool {
    s.len() >= 2 && s[0] == head.0 && s[1] == head.1
}

/// A text begins as a piece that stands at its front does.
proof fn lemma_prefix_begins(piece: Seq<char>, s: Seq<char>)
    requires
        piece.is_prefix_of(s),
        piece.len() >= 2,
    ensures
        begins_with(s, (piece[0], piece[1])),
{
    let front = s.subrange(0, piece.len() as int);
    assert(front[0] == s[0] && front[1] == s[1]);
}

/// A tag begins with the two characters of its kind.
proof fn lemma_tag_begins(kind: KindView)
    ensures
        begins_with(tag_text(kind), head_of(kind)),
{
    reveal_strlit("NoteOn { key: ");
    reveal_strlit("ControlChange { controller: ");
    reveal_strlit("ProgramChange { program: ");
    reveal_strlit("Tempo(");
    reveal_strlit("TimeSignature(");
    reveal_strlit("KeySignature(");
    reveal_strlit("TrackName([");
    reveal_strlit("EndOfTrack");
    reveal_strlit("SysEx(");
    reveal_strlit("Unknown");
}

/// What a grammar recognises begins with the two characters of its kind.
proof fn lemma_recognised_begins(s: Seq<char>)
    ensures
        note_on_of(s) is Some ==> begins_with(s, ('N', 'o')),
        control_change_of(s) is Some ==> begins_with(s, ('C', 'o')),
        program_change_of(s) is Some ==> begins_with(s, ('P', 'r')),
        tempo_of(s) is Some ==> begins_with(s, ('T', 'e')),
        time_signature_of(s) is Some ==> begins_with(s, ('T', 'i')),
        key_signature_of(s) is Some ==> begins_with(s, ('K', 'e')),
        track_name_of(s) is Some ==> begins_with(s, ('T', 'r')),
        end_of_track_of(s) is Some ==> begins_with(s, ('E', 'n')),
{
    reveal_strlit("NoteOn { key: ");
    reveal_strlit("ControlChange { controller: ");
    reveal_strlit("ProgramChange { program: ");
    reveal_strlit("Tempo(");
    reveal_strlit("TimeSignature(");
    reveal_strlit("KeySignature(");
    reveal_strlit("TrackName([");
    reveal_strlit("EndOfTrack");
    assert(s.skip(0) =~= s);
    if note_on_of(s) is Some {
        lemma_prefix_begins(note_on_pieces()[0], s);
    }
    if control_change_of(s) is Some {
        lemma_prefix_begins(control_change_pieces()[0], s);
    }
    if program_change_of(s) is Some {
        lemma_prefix_begins(program_change_pieces()[0], s);
    }
    if tempo_of(s) is Some {
        lemma_prefix_begins(tempo_pieces()[0], s);
    }
    if time_signature_of(s) is Some {
        lemma_prefix_begins(time_signature_pieces()[0], s);
    }
    if key_signature_of(s) is Some {
        lemma_prefix_begins("KeySignature("@, s);
    }
    if track_name_of(s) is Some {
        lemma_prefix_begins("TrackName(["@, s);
    }
}

/// A text made in a layout of two numbers is recognised whole, with them.
proof fn lemma_two_numbers_of(a: Seq<char>, b: Seq<char>, c: Seq<char>, x: nat, y: nat)
    requires
        b.len() > 0 && !is_digit(b[0]),
        c.len() > 0 && !is_digit(c[0]),
    ensures
        whole_scan(a + decimal(x) + b + decimal(y) + c, seq![a, b, c]) == Some(seq![x, y]),
{
    lemma_interleave_two(a, b, c, x, y);
    lemma_whole_scan_of(seq![a, b, c], seq![x, y]);
}

/// A text made in a layout of one number is recognised whole, with it.
proof fn lemma_one_number_of(a: Seq<char>, b: Seq<char>, x: nat)
    requires
        b.len() > 0 && !is_digit(b[0]),
    ensures
        whole_scan(a + decimal(x) + b, seq![a, b]) == Some(seq![x]),
{
    lemma_interleave_one(a, b, x);
    lemma_whole_scan_of(seq![a, b], seq![x]);
}

/// Each grammar of numbers reads a tag of its kind back into the kind, if the
/// kind is decodable, and into nothing otherwise.
proof fn lemma_numbers_of_tag(kind: KindView)
    ensures
        kind is NoteOn ==> note_on_of(tag_text(kind)) == if kind.decodable() {
            Some(kind)
        } else {
            None
        },
        kind is ControlChange ==> control_change_of(tag_text(kind)) == if kind.decodable() {
            Some(kind)
        } else {
            None
        },
        kind is ProgramChange ==> program_change_of(tag_text(kind)) == if kind.decodable() {
            Some(kind)
        } else {
            None
        },
        kind is Tempo ==> tempo_of(tag_text(kind)) == if kind.decodable() {
            Some(kind)
        } else {
            None
        },
        kind is TimeSignature ==> time_signature_of(tag_text(kind)) == Some(kind),
{
    match kind {
        KindView::NoteOn { key, velocity } => {
            reveal_strlit(", velocity: ");
            reveal_strlit(" }");
            lemma_two_numbers_of(
                "NoteOn { key: "@,
                ", velocity: "@,
                " }"@,
                key as nat,
                velocity as nat,
            );
        },
        KindView::ControlChange { controller, value } => {
            reveal_strlit(", value: ");
            reveal_strlit(" }");
            lemma_two_numbers_of(
                "ControlChange { controller: "@,
                ", value: "@,
                " }"@,
                controller as nat,
                value as nat,
            );
        },
        KindView::ProgramChange { program } => {
            reveal_strlit(" }");
            lemma_one_number_of("ProgramChange { program: "@, " }"@, program as nat);
        },
        KindView::Tempo { microseconds_per_quarter } => {
            reveal_strlit(")");
            lemma_one_number_of("Tempo("@, ")"@, microseconds_per_quarter as nat);
        },
        KindView::TimeSignature {
            numerator,
            denominator,
            clocks_per_metronome,
            thirtyseconds_per_quarter,
        } => {
            lemma_layouts();
            let p = time_signature_pieces();
            let n = seq![
                numerator as nat,
                denominator as nat,
                clocks_per_metronome as nat,
                thirtyseconds_per_quarter as nat,
            ];
            lemma_interleave_four(p, n);
            lemma_whole_scan_of(p, n);
        },
        _ => {},
    }
}

/// What was recognised as a layout of two numbers is that layout's text.
proof fn lemma_two_numbers(s: Seq<char>, a: Seq<char>, b: Seq<char>, c: Seq<char>)
    requires
        whole_scan(s, seq![a, b, c]) is Some,
    ensures
        ({
            let n = whole_scan(s, seq![a, b, c]).unwrap();
            n.len() == 2 && s == a + decimal(n[0]) + b + decimal(n[1]) + c
        }),
{
    let n = whole_scan(s, seq![a, b, c]).unwrap();
    lemma_whole_scan_is(s, seq![a, b, c]);
    assert(n =~= seq![n[0], n[1]]);
    lemma_interleave_two(a, b, c, n[0], n[1]);
}

/// What was recognised as a layout of one number is that layout's text.
proof fn lemma_one_number(s: Seq<char>, a: Seq<char>, b: Seq<char>)
    requires
        whole_scan(s, seq![a, b]) is Some,
    ensures
        ({
            let n = whole_scan(s, seq![a, b]).unwrap();
            n.len() == 1 && s == a + decimal(n[0]) + b
        }),
{
    let n = whole_scan(s, seq![a, b]).unwrap();
    lemma_whole_scan_is(s, seq![a, b]);
    assert(n =~= seq![n[0]]);
    lemma_interleave_one(a, b, n[0]);
}

/// What the grammar of a note recognises is the tag of the kind it gives.
proof fn lemma_note_on_is_tag(s: Seq<char>)
    requires
        note_on_of(s) is Some,
    ensures
        is_tag_of(s, note_on_of(s).unwrap()),
{
    lemma_two_numbers(s, "NoteOn { key: "@, ", velocity: "@, " }"@);
}

/// What the grammar of a control change recognises is the tag of the kind it
/// gives.
proof fn lemma_control_change_is_tag(s: Seq<char>)
    requires
        control_change_of(s) is Some,
    ensures
        is_tag_of(s, control_change_of(s).unwrap()),
{
    lemma_two_numbers(s, "ControlChange { controller: "@, ", value: "@, " }"@);
}

/// What the grammar of a program change recognises is the tag of the kind it
/// gives.
proof fn lemma_program_change_is_tag(s: Seq<char>)
    requires
        program_change_of(s) is Some,
    ensures
        is_tag_of(s, program_change_of(s).unwrap()),
{
    lemma_one_number(s, "ProgramChange { program: "@, " }"@);
}

/// What the grammar of a tempo recognises is the tag of the kind it gives.
proof fn lemma_tempo_is_tag(s: Seq<char>)
    requires
        tempo_of(s) is Some,
    ensures
        is_tag_of(s, tempo_of(s).unwrap()),
{
    lemma_one_number(s, "Tempo("@, ")"@);
}

/// What the grammar of a time signature recognises is the tag of the kind it
/// gives.
proof fn lemma_time_signature_is_tag(s: Seq<char>)
    requires
        time_signature_of(s) is Some,
    ensures
        is_tag_of(s, time_signature_of(s).unwrap()),
{
    let p = time_signature_pieces();
    lemma_whole_scan_is(s, p);
    lemma_interleave_four(p, whole_scan(s, p).unwrap());
}

/// The grammar of a key signature reads its tag back into the kind.
proof fn lemma_key_signature_of_tag(sharps_flats: i8, is_minor: bool)
    ensures
        key_signature_of(tag_text(KindView::KeySignature { sharps_flats, is_minor })) == Some(
            KindView::KeySignature { sharps_flats, is_minor },
        ),
{
    reveal_strlit(", true)");
    reveal_strlit(", false)");
    let head = "KeySignature("@;
    let number = signed_decimal(sharps_flats as int);
    let tail = mode_text(is_minor);
    let s = head + number + tail;
    assert(s.subrange(0, head.len() as int) =~= head);
    assert(s.skip(head.len() as int) =~= number + tail);
    lemma_take_signed_of_decimal(sharps_flats as int, tail);
    assert(s.skip((head.len() + number.len()) as int) =~= tail);
    assert(mode_text(true)[2] != mode_text(false)[2]);
}

/// What the grammar of a key signature recognises is the tag of the kind it
/// gives.
proof fn lemma_key_signature_is_tag(s: Seq<char>)
    requires
        key_signature_of(s) is Some,
    ensures
        is_tag_of(s, key_signature_of(s).unwrap()),
{
    let head = "KeySignature("@;
    let h = head.len() as int;
    lemma_take_signed_is_decimal(s.skip(h));
    let (i, k) = take_signed(s.skip(h)).unwrap();
    assert(s =~= s.subrange(0, h) + s.skip(h).take(k as int) + s.skip(h + k));
}

/// The grammar of a track name reads its tag back into the kind.
proof fn lemma_track_name_of_tag(bytes: Seq<u8>)
    ensures
        track_name_of(tag_text(KindView::TrackName { bytes })) == Some(
            KindView::TrackName { bytes },
        ),
{
    reveal_strlit("])");
    let head = "TrackName(["@;
    let h = head.len() as int;
    let tail = "])"@;
    let s = head + byte_list(bytes) + tail;
    assert(s.subrange(0, h) =~= head);
    assert(s.skip(h) =~= byte_list(bytes) + tail);
    if bytes.len() == 0 {
        assert(s.skip(h) =~= tail);
        assert(bytes =~= Seq::empty());
    } else {
        lemma_bytes_at_of_list(s, h, bytes, tail);
        lemma_bytes_at_is_list(s, h);
        assert(s.skip(s.len() - 2) =~= tail);
    }
}

/// What the grammar of a track name recognises is the tag of the kind it
/// gives.
proof fn lemma_track_name_is_tag(s: Seq<char>)
    requires
        track_name_of(s) is Some,
    ensures
        is_tag_of(s, track_name_of(s).unwrap()),
{
    let head = "TrackName(["@;
    let h = head.len() as int;
    let tail = "])"@;
    if s.skip(h) == tail {
        assert(s =~= s.subrange(0, h) + byte_list(Seq::empty()) + s.skip(h));
    } else {
        lemma_bytes_at_is_list(s, h);
        let (bytes, end) = bytes_at(s, h).unwrap();
        assert(s =~= s.subrange(0, h) + s.subrange(h, end) + s.skip(end));
    }
}

/// A tag is recognised as its kind where the kind is decodable, and as
/// nothing where it is not.
proof fn lemma_parsed_of_tag(kind: KindView)
    ensures
        parsed(tag_text(kind)) == if kind.decodable() {
            Some(kind)
        } else {
            None
        },
{
    let s = tag_text(kind);
    lemma_tag_begins(kind);
    lemma_recognised_begins(s);
    lemma_numbers_of_tag(kind);
    match kind {
        KindView::KeySignature { sharps_flats, is_minor } => {
            lemma_key_signature_of_tag(sharps_flats, is_minor);
        },
        KindView::TrackName { bytes } => {
            lemma_track_name_of_tag(bytes);
        },
        _ => {},
    }
}

/// What is recognised is the tag of the kind it is recognised as.
proof fn lemma_parsed_is_tag(s: Seq<char>)
    requires
        parsed(s) is Some,
    ensures
        is_tag_of(s, parsed(s).unwrap()),
{
    if control_change_of(s) is Some {
        lemma_control_change_is_tag(s);
    } else if program_change_of(s) is Some {
        lemma_program_change_is_tag(s);
    } else if time_signature_of(s) is Some {
        lemma_time_signature_is_tag(s);
    } else if key_signature_of(s) is Some {
        lemma_key_signature_is_tag(s);
    } else if end_of_track_of(s) is Some {
    } else if track_name_of(s) is Some {
        lemma_track_name_is_tag(s);
    } else if note_on_of(s) is Some {
        lemma_note_on_is_tag(s);
    } else {
        lemma_tempo_is_tag(s);
    }
}

/// Reading a tag back is recognising it.
proof fn lemma_decoded_is_parsed(s: Seq<char>)
    ensures
        decoded(s) == parsed(s),
{
    if parsed(s) is Some {
        lemma_parsed_is_tag(s);
    }
    if exists|kind: KindView| is_tag_of(s, kind) {
        let kind = choose|kind: KindView| is_tag_of(s, kind);
        lemma_parsed_of_tag(kind);
    }
}

/// Reading back the tag of a kind gives the kind where it is decodable, and
/// nothing where it is not: a kind without a grammar, or a field outside its
/// range.
pub proof fn lemma_decoded_of_tag(kind: KindView)
    ensures
        decoded(tag_text(kind)) == if kind.decodable() {
            Some(kind)
        } else {
            None
        },
{
    lemma_decoded_is_parsed(tag_text(kind));
    lemma_parsed_of_tag(kind);
}

/// What a tag is read back into is decodable and has that tag, and no other
/// decodable kind has it.
pub proof fn lemma_tag_of_decoded(tag: Seq<char>, kind: KindView)
    ensures
        decoded(tag) == Some(kind) <==> is_tag_of(tag, kind),
{
    lemma_decoded_is_parsed(tag);
    if is_tag_of(tag, kind) {
        lemma_parsed_of_tag(kind);
    }
    if parsed(tag) is Some {
        lemma_parsed_is_tag(tag);
    }
}

/// The pieces between which the numerals of a kind's fields stand, for the
/// kinds whose fields are numbers without a sign.
spec fn pieces_of(kind: KindView) -> Seq<Seq<char>> {
    match kind {
        KindView::NoteOn { .. } => note_on_pieces(),
        KindView::ControlChange { .. } => control_change_pieces(),
        KindView::ProgramChange { .. } => program_change_pieces(),
        KindView::Tempo { .. } => tempo_pieces(),
        KindView::SysEx { .. } => seq!["SysEx("@, " bytes)"@],
        _ => Seq::empty(),
    }
}

/// The fields of such a kind, in the order of its tag.
spec fn numbers_of(kind: KindView) -> Seq<nat> {
    match kind {
        KindView::NoteOn { key, velocity } => seq![key as nat, velocity as nat],
        KindView::ControlChange { controller, value } => seq![controller as nat, value as nat],
        KindView::ProgramChange { program } => seq![program as nat],
        KindView::Tempo { microseconds_per_quarter } => seq![microseconds_per_quarter as nat],
        KindView::SysEx { byte_length } => seq![byte_length as nat],
        _ => Seq::empty(),
    }
}

/// The tag of such a kind holds its fields, whatever their size.
proof fn lemma_numbers_in_tag(kind: KindView)
    requires
        kind is NoteOn || kind is ControlChange || kind is ProgramChange || kind is Tempo
            || kind is SysEx,
    ensures
        whole_scan(tag_text(kind), pieces_of(kind)) == Some(numbers_of(kind)),
{
    lemma_layouts();
    reveal_strlit(" bytes)");
    let p = pieces_of(kind);
    let n = numbers_of(kind);
    if n.len() == 2 {
        lemma_interleave_two(p[0], p[1], p[2], n[0], n[1]);
    } else {
        lemma_interleave_one(p[0], p[1], n[0]);
    }
    lemma_whole_scan_of(p, n);
}

/// A text in the layout of a note-on whose key or velocity is above 127 is the
/// tag of no kind that can be read back, however large the number is.
pub proof fn lemma_note_out_of_range(key: nat, velocity: nat)
    requires
        key > DATA_BYTE_MAX || velocity > DATA_BYTE_MAX,
    ensures
        decoded(
            "NoteOn { key: "@ + decimal(key) + ", velocity: "@ + decimal(velocity) + " }"@,
        ) is None,
{
    let a = "NoteOn { key: "@;
    let b = ", velocity: "@;
    let c = " }"@;
    let s = a + decimal(key) + b + decimal(velocity) + c;
    assert(note_on_of(s) is None) by {
        assert(b.len() > 0 && !is_digit(b[0])) by {
            reveal_strlit(", velocity: ");
        }
        assert(c.len() > 0 && !is_digit(c[0])) by {
            reveal_strlit(" }");
        }
        lemma_two_numbers_of(a, b, c, key, velocity);
        let n = seq![key, velocity];
        assert(n[0] == key && n[1] == velocity);
    }
    assert(begins_with(s, ('N', 'o'))) by {
        reveal_strlit("NoteOn { key: ");
        let front = a + decimal(key);
        assert(front[0] == a[0] && front[1] == a[1]);
        let middle = front + b;
        assert(middle[0] == front[0] && middle[1] == front[1]);
        let most = middle + decimal(velocity);
        assert(most[0] == middle[0] && most[1] == middle[1]);
    }
    lemma_recognised_begins(s);
    lemma_decoded_is_parsed(s);
}

/// No two kinds have the same tag.
pub proof fn lemma_tag_text_injective(a: KindView, b: KindView)
    requires
        tag_text(a) == tag_text(b),
    ensures
        a == b,
{
    lemma_tag_begins(a);
    lemma_tag_begins(b);
    if a is NoteOn || a is ControlChange || a is ProgramChange || a is Tempo || a is SysEx {
        lemma_numbers_in_tag(a);
        lemma_numbers_in_tag(b);
        assert(numbers_of(a)[0] == numbers_of(b)[0]);
        if numbers_of(a).len() == 2 {
            assert(numbers_of(a)[1] == numbers_of(b)[1]);
        }
    } else {
        lemma_parsed_of_tag(a);
        lemma_parsed_of_tag(b);
    }
}

/// Reads a text that is one numeral between two pieces. Returns the number,
/// or `None` where the text is not of that layout or the number is above
/// `max`.
fn read_one(text: &Vec<char>, a: &str, b: &str, max: u32) -> (r: Option<u32>)
    ensures
        r == match whole_scan(text@, seq![a@, b@]) {
            Some(n) => if n[0] <= max {
                Some(n[0] as u32)
            } else {
                None
            },
            None => None,
        },
{
    proof {
        reveal_with_fuel(scan_at, 3);
        assert(text@.skip(0) =~= text@);
    }
    let p = eat(text, 0, a)?;
    let (x, p) = read_number(text, p, max)?;
    let p = eat(text, p, b)?;
    if p == text.len() {
        Some(x)
    } else {
        None
    }
}

/// Reads a text that is two numerals between three pieces. Returns the
/// numbers, or `None` where the text is not of that layout or a number is
/// above `max`.
fn read_two(text: &Vec<char>, a: &str, b: &str, c: &str, max: u32) -> (r: Option<(u32, u32)>)
    ensures
        r == match whole_scan(text@, seq![a@, b@, c@]) {
            Some(n) => if n[0] <= max && n[1] <= max {
                Some((n[0] as u32, n[1] as u32))
            } else {
                None
            },
            None => None,
        },
{
    proof {
        reveal_with_fuel(scan_at, 4);
        assert(text@.skip(0) =~= text@);
    }
    let p = eat(text, 0, a)?;
    let (x, p) = read_number(text, p, max)?;
    let p = eat(text, p, b)?;
    let (y, p) = read_number(text, p, max)?;
    let p = eat(text, p, c)?;
    if p == text.len() {
        Some((x, y))
    } else {
        None
    }
}

/// The numbers of a layout, once its first piece and first numeral are read,
/// are that numeral's number and the numbers of the rest.
proof fn lemma_scan_step(s: Seq<char>, pos: int, pieces: Seq<Seq<char>>)
    requires
        pieces.len() >= 2,
        pieces[0].is_prefix_of(s.skip(pos)),
    ensures
        scan_at(s, pos, pieces) == match take_number(s.skip(pos + pieces[0].len())) {
            None => None,
            Some((n, k)) => match scan_at(s, pos + pieces[0].len() + k, pieces.drop_first()) {
                None => None,
                Some((rest, end)) => Some((seq![n] + rest, end)),
            },
        },
{
}

/// Reads a text in the layout of a time signature.
#[verifier::rlimit(40)]
fn read_time_signature(text: &Vec<char>) -> (r: Option<EventKind>)
    ensures
        kind_view(r) == time_signature_of(text@),
{
    let ghost s = text@;
    let ghost pieces = time_signature_pieces();
    let ghost after_one = pieces.drop_first();
    let ghost after_two = after_one.drop_first();
    let ghost after_three = after_two.drop_first();
    let ghost after_four = after_three.drop_first();
    proof {
        assert(s.skip(0) =~= s);
        assert(after_one[0] == pieces[1] && after_two[0] == pieces[2] && after_three[0] == pieces[3] && after_four[0] == pieces[4]);
    }
    let a = eat(text, 0, "TimeSignature(")?;
    proof {
        lemma_scan_step(s, 0, pieces);
    }
    let (numerator, b) = read_number(text, a, 255)?;
    let c = eat(text, b, ", ")?;
    proof {
        lemma_scan_step(s, b as int, after_one);
    }
    let (denominator, d) = read_number(text, c, 255)?;
    let e = eat(text, d, ", ")?;
    proof {
        lemma_scan_step(s, d as int, after_two);
    }
    let (clocks, f) = read_number(text, e, 255)?;
    let g = eat(text, f, ", ")?;
    proof {
        lemma_scan_step(s, f as int, after_three);
    }
    let (thirtyseconds, h) = read_number(text, g, 255)?;
    let end = eat(text, h, ")")?;
    proof {
        let n = seq![numerator as nat] + (seq![denominator as nat] + (seq![clocks as nat] + (
        seq![thirtyseconds as nat] + Seq::<nat>::empty())));
        assert(scan_at(s, h as int, after_four) == Some((Seq::<nat>::empty(), end as int)));
        assert(scan_at(s, 0, pieces) == Some((n, end as int)));
    }
    if end == text.len() {
        Some(
            EventKind::TimeSignature {
                numerator: numerator as u8,
                denominator: denominator as u8,
                clocks_per_metronome: clocks as u8,
                thirtyseconds_per_quarter: thirtyseconds as u8,
            },
        )
    } else {
        None
    }
}

/// Reads a text in the layout of a key signature.
fn read_key_signature(text: &Vec<char>) -> (r: Option<EventKind>)
    ensures
        kind_view(r) == key_signature_of(text@),
{
    assert(text@.skip(0) =~= text@);
    let p = eat(text, 0, "KeySignature(")?;
    let (sharps_flats, p) = read_signed(text, p, 128, 127)?;
    if is_rest(text, p, ", true)") {
        Some(EventKind::KeySignature { sharps_flats: sharps_flats as i8, is_minor: true })
    } else if is_rest(text, p, ", false)") {
        Some(EventKind::KeySignature { sharps_flats: sharps_flats as i8, is_minor: false })
    } else {
        None
    }
}

/// Reads a text in the layout of a track name.
fn read_track_name(text: &Vec<char>) -> (r: Option<EventKind>)
    ensures
        kind_view(r) == track_name_of(text@),
{
    assert(text@.skip(0) =~= text@);
    let p = eat(text, 0, "TrackName([")?;
    if is_rest(text, p, "])") {
        return Some(EventKind::TrackName { bytes: Vec::new() });
    }
    let (bytes, end) = read_bytes(text, p)?;
    proof {
        lemma_bytes_at_is_list(text@, p as int);
    }
    if is_rest(text, end, "])") {
        Some(EventKind::TrackName { bytes })
    } else {
        None
    }
}

/// Writes the numerals of `bytes` to the end of `out`, a comma and a space
/// between each and the next.
fn push_bytes(out: &mut String, bytes: &Vec<u8>)
    ensures
        final(out)@ == old(out)@ + byte_list(bytes@),
{
    proof {
        reveal_strlit(", ");
    }
    let mut i: usize = 0;
    while i < bytes.len()
        invariant
            i <= bytes.len(),
            out@ == old(out)@ + byte_list(bytes@.take(i as int)),
            ", "@ == seq![',', ' '],
        decreases bytes.len() - i,
    {
        let ghost before = bytes@.take(i as int);
        let ghost after = bytes@.take(i + 1);
        if i > 0 {
            out.append(", ");
        }
        push_decimal(out, bytes[i] as u64);
        proof {
            assert(after.drop_last() =~= before);
            assert(out@ =~= old(out)@ + byte_list(after));
        }
        i += 1;
    }
    assert(bytes@.take(bytes.len() as int) =~= bytes@);
}

impl EventKind {
    /// The tag of this kind.
    pub fn tag(&self) -> (text: String)
        ensures
            text@ == tag_text(self@),
    {
        match self {
            EventKind::NoteOn { key, velocity } => {
                let mut text = String::from_str("NoteOn { key: ");
                push_decimal(&mut text, *key as u64);
                text.append(", velocity: ");
                push_decimal(&mut text, *velocity as u64);
                text.append(" }");
                text
            },
            EventKind::ControlChange { controller, value } => {
                let mut text = String::from_str("ControlChange { controller: ");
                push_decimal(&mut text, *controller as u64);
                text.append(", value: ");
                push_decimal(&mut text, *value as u64);
                text.append(" }");
                text
            },
            EventKind::ProgramChange { program } => {
                let mut text = String::from_str("ProgramChange { program: ");
                push_decimal(&mut text, *program as u64);
                text.append(" }");
                text
            },
            EventKind::Tempo { microseconds_per_quarter } => {
                let mut text = String::from_str("Tempo(");
                push_decimal(&mut text, *microseconds_per_quarter as u64);
                text.append(")");
                text
            },
            EventKind::TimeSignature {
                numerator,
                denominator,
                clocks_per_metronome,
                thirtyseconds_per_quarter,
            } => {
                let mut text = String::from_str("TimeSignature(");
                push_decimal(&mut text, *numerator as u64);
                text.append(", ");
                push_decimal(&mut text, *denominator as u64);
                text.append(", ");
                push_decimal(&mut text, *clocks_per_metronome as u64);
                text.append(", ");
                push_decimal(&mut text, *thirtyseconds_per_quarter as u64);
                text.append(")");
                text
            },
            EventKind::KeySignature { sharps_flats, is_minor } => {
                let mut text = String::from_str("KeySignature(");
                push_signed(&mut text, *sharps_flats as i64);
                if *is_minor {
                    text.append(", true)");
                } else {
                    text.append(", false)");
                }
                text
            },
            EventKind::TrackName { bytes } => {
                let mut text = String::from_str("TrackName([");
                push_bytes(&mut text, bytes);
                text.append("])");
                text
            },
            EventKind::EndOfTrack => String::from_str("EndOfTrack"),
            EventKind::SysEx { byte_length } => {
                let mut text = String::from_str("SysEx(");
                push_decimal(&mut text, *byte_length as u64);
                text.append(" bytes)");
                text
            },
            EventKind::Unknown => String::from_str("Unknown"),
        }
    }

    /// The kind that `tag` stands for: the one decodable kind whose tag it is,
    /// or `None` where it is the tag of no such kind.
    pub fn from_tag(tag: &str) -> (kind: Option<EventKind>)
        ensures
            kind_view(kind) == decoded(tag@),
            match kind {
                Some(k) => is_tag_of(tag@, k@),
                None => forall|k: KindView| !is_tag_of(tag@, k),
            },
    {
        let text = chars_of(tag);
        proof {
            lemma_decoded_is_parsed(text@);
            assert forall|k: KindView| is_tag_of(tag@, k) implies decoded(tag@) == Some(k) by {
                lemma_tag_of_decoded(tag@, k);
            }
            if decoded(tag@) is Some {
                lemma_tag_of_decoded(tag@, decoded(tag@).unwrap());
            }
        }
        if let Some((controller, value)) = read_two(
            &text,
            "ControlChange { controller: ",
            ", value: ",
            " }",
            127,
        ) {
            return Some(EventKind::ControlChange { controller: controller as u8, value: value as u8 });
        }
        if let Some(program) = read_one(&text, "ProgramChange { program: ", " }", 127) {
            return Some(EventKind::ProgramChange { program: program as u8 });
        }
        if let Some(kind) = read_time_signature(&text) {
            return Some(kind);
        }
        if let Some(kind) = read_key_signature(&text) {
            return Some(kind);
        }
        if is_rest(&text, 0, "EndOfTrack") {
            assert(text@.skip(0) =~= text@);
            return Some(EventKind::EndOfTrack);
        }
        assert(text@.skip(0) =~= text@);
        if let Some(kind) = read_track_name(&text) {
            return Some(kind);
        }
        if let Some((key, velocity)) = read_two(&text, "NoteOn { key: ", ", velocity: ", " }", 127) {
            return Some(EventKind::NoteOn { key: key as u8, velocity: velocity as u8 });
        }
        if let Some(microseconds_per_quarter) = read_one(&text, "Tempo(", ")", 0xFF_FFFF) {
            return Some(EventKind::Tempo { microseconds_per_quarter });
        }
        None
    }
}

} // verus!
