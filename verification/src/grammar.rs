//! Layouts: texts made of fixed pieces with numerals between them, and how one
//! is recognised in a text.

use crate::decimal::{
    byte_list, decimal, is_digit, lemma_take_number_is_decimal, lemma_take_number_of_decimal, read_number,
    take_number,
};
use vstd::prelude::*;
use vstd::string::*;

verus! {

/// The text of a layout: the pieces in their order, with the numeral of one
/// number between each piece and the next. There is one piece more than there
/// are numbers.
pub open spec fn interleave(pieces: Seq<Seq<char>>, numbers: Seq<nat>) -> Seq<char>
    decreases numbers.len(),
{
    if numbers.len() == 0 {
        pieces[0]
    } else {
        pieces[0] + decimal(numbers[0]) + interleave(pieces.drop_first(), numbers.drop_first())
    }
}

/// The numbers that stand between the pieces of a layout from the place `pos`
/// of `s` on, and the place behind the last piece; `None` where `s` does not
/// go on as the layout asks.
pub open spec fn scan_at(s: Seq<char>, pos: int, pieces: Seq<Seq<char>>) -> Option<
    (Seq<nat>, int),
>
    decreases pieces.len(),
{
    if pieces.len() == 0 || !pieces[0].is_prefix_of(s.skip(pos)) {
        None
    } else if pieces.len() == 1 {
        Some((Seq::empty(), pos + pieces[0].len()))
    } else {
        let p = pos + pieces[0].len();
        match take_number(s.skip(p)) {
            None => None,
            Some((n, k)) => match scan_at(s, p + k, pieces.drop_first()) {
                None => None,
                Some((rest, end)) => Some((seq![n] + rest, end)),
            },
        }
    }
}

/// Every piece but the first begins with something that is no digit, so that
/// the numeral before it ends where the piece begins.
pub open spec fn pieces_delimit(pieces: Seq<Seq<char>>) -> bool {
    forall|i: int|
        1 <= i < pieces.len() ==> (#[trigger] pieces[i]).len() > 0 && !is_digit(pieces[i][0])
}

/// A text that goes on from `pos` as the text of a layout is recognised, with
/// the numbers it was made of.
pub proof fn lemma_scan_of_interleave(
    s: Seq<char>,
    pos: int,
    pieces: Seq<Seq<char>>,
    numbers: Seq<nat>,
)
    requires
        pieces.len() == numbers.len() + 1,
        pieces_delimit(pieces),
        0 <= pos <= s.len(),
        s.skip(pos) == interleave(pieces, numbers),
    ensures
        scan_at(s, pos, pieces) == Some((numbers, s.len() as int)),
    decreases numbers.len(),
{
    let head = pieces[0];
    if numbers.len() == 0 {
        assert(s.skip(pos).subrange(0, head.len() as int) =~= head);
        assert(numbers =~= Seq::empty());
    } else {
        let n = numbers[0];
        let later_pieces = pieces.drop_first();
        let later_numbers = numbers.drop_first();
        let rest = interleave(later_pieces, later_numbers);
        assert(s.skip(pos) == head + decimal(n) + rest);
        assert(s.skip(pos).subrange(0, head.len() as int) =~= head);
        let p = pos + head.len();
        let from_pos = s.skip(pos);
        assert(s.skip(p) =~= from_pos.skip(head.len() as int));
        assert(from_pos.skip(head.len() as int) =~= decimal(n) + rest);
        assert(later_pieces[0] == pieces[1]);
        assert(rest.len() > 0 && !is_digit(rest[0])) by {
            if later_numbers.len() == 0 {
                assert(rest == later_pieces[0]);
            } else {
                assert(rest[0] == later_pieces[0][0]);
            }
        }
        lemma_take_number_of_decimal(n, rest);
        let k = decimal(n).len();
        assert(s.skip(p + k) =~= s.skip(p).skip(k as int));
        assert(s.skip(p).skip(k as int) =~= rest);
        assert(pieces_delimit(later_pieces)) by {
            assert forall|i: int| 1 <= i < later_pieces.len() implies (
            #[trigger] later_pieces[i]).len() > 0 && !is_digit(later_pieces[i][0]) by {
                assert(later_pieces[i] == pieces[i + 1]);
            }
        }
        lemma_scan_of_interleave(s, p + k, later_pieces, later_numbers);
        assert(seq![n] + later_numbers =~= numbers);
    }
}

/// What was recognised as a layout is the text of that layout with the
/// numbers found.
pub proof fn lemma_scan_is_interleave(s: Seq<char>, pos: int, pieces: Seq<Seq<char>>)
    requires
        0 <= pos <= s.len(),
        scan_at(s, pos, pieces) is Some,
    ensures
        ({
            let (numbers, end) = scan_at(s, pos, pieces).unwrap();
            &&& pieces.len() == numbers.len() + 1
            &&& pos <= end <= s.len()
            &&& s.subrange(pos, end) == interleave(pieces, numbers)
        }),
    decreases pieces.len(),
{
    let head = pieces[0];
    let p = pos + head.len();
    assert(s.subrange(pos, p) =~= s.skip(pos).subrange(0, head.len() as int));
    if pieces.len() > 1 {
        lemma_take_number_is_decimal(s.skip(p));
        let (n, k) = take_number(s.skip(p)).unwrap();
        let later_pieces = pieces.drop_first();
        lemma_scan_is_interleave(s, p + k, later_pieces);
        let (rest, end) = scan_at(s, p + k, later_pieces).unwrap();
        let numbers = seq![n] + rest;
        assert(numbers.drop_first() =~= rest);
        assert(s.subrange(p, p + k) =~= s.skip(p).take(k as int));
        assert(s.subrange(pos, end) =~= s.subrange(pos, p) + s.subrange(p, p + k) + s.subrange(
            p + k,
            end,
        ));
    }
}

/// The bytes whose numerals stand from the place `pos` of `s` on, a comma and
/// a space between each and the next, taken as far as they go, and the place
/// behind the last; `None` where no numeral stands at `pos`, where none
/// follows a comma and a space, or where a number is above 255.
pub open spec fn bytes_at(s: Seq<char>, pos: int) -> Option<(Seq<u8>, int)>
    decreases s.len() - pos,
{
    match take_number(s.skip(pos)) {
        None => None,
        Some((n, k)) => if n > 255 {
            None
        } else {
            let p = pos + k;
            if 0 <= p && p + 2 <= s.len() && s[p] == ',' && s[p + 1] == ' ' {
                match bytes_at(s, p + 2) {
                    None => None,
                    Some((rest, end)) => Some((seq![n as u8] + rest, end)),
                }
            } else {
                Some((seq![n as u8], p))
            }
        },
    }
}

/// A list of two bytes or more is its first numeral, a comma, a space, and the
/// list of the others.
proof fn lemma_byte_list_head(bytes: Seq<u8>)
    requires
        bytes.len() >= 2,
    ensures
        byte_list(bytes) == decimal(bytes[0] as nat) + seq![',', ' '] + byte_list(
            bytes.drop_first(),
        ),
    decreases bytes.len(),
{
    let front = bytes.drop_last();
    let back = bytes.drop_first();
    if bytes.len() == 2 {
        assert(byte_list(front) == decimal(front[0] as nat));
        assert(byte_list(back) == decimal(back[0] as nat));
        assert(byte_list(bytes) =~= decimal(bytes[0] as nat) + seq![',', ' '] + byte_list(back));
    } else {
        lemma_byte_list_head(front);
        assert(front.drop_first() =~= back.drop_last());
        assert(byte_list(bytes) =~= decimal(bytes[0] as nat) + seq![',', ' '] + byte_list(back));
    }
}

/// A text that goes on from `pos` as a list of bytes, and then with something
/// that is neither a digit nor a comma, is read as that list.
pub proof fn lemma_bytes_at_of_list(s: Seq<char>, pos: int, bytes: Seq<u8>, tail: Seq<char>)
    requires
        bytes.len() >= 1,
        0 <= pos <= s.len(),
        s.skip(pos) == byte_list(bytes) + tail,
        tail.len() > 0,
        !is_digit(tail[0]),
        tail[0] != ',',
    ensures
        bytes_at(s, pos) == Some((bytes, s.len() - tail.len())),
    decreases bytes.len(),
{
    let n = bytes[0] as nat;
    let from_pos = s.skip(pos);
    if bytes.len() == 1 {
        lemma_take_number_of_decimal(n, tail);
        let p = pos + decimal(n).len();
        assert(s[p] == from_pos[p - pos]);
        assert(seq![n as u8] =~= bytes);
    } else {
        let later = bytes.drop_first();
        lemma_byte_list_head(bytes);
        let rest = seq![',', ' '] + byte_list(later) + tail;
        assert(from_pos =~= decimal(n) + rest);
        lemma_take_number_of_decimal(n, rest);
        let p = pos + decimal(n).len();
        assert(s[p] == from_pos[p - pos]);
        assert(s[p + 1] == from_pos[p + 1 - pos]);
        assert(s.skip(p + 2) =~= from_pos.skip(p + 2 - pos));
        assert(from_pos.skip(p + 2 - pos) =~= byte_list(later) + tail);
        lemma_bytes_at_of_list(s, p + 2, later, tail);
        assert(seq![n as u8] + later =~= bytes);
    }
}

/// What was read as a list of bytes is the text of that list.
pub proof fn lemma_bytes_at_is_list(s: Seq<char>, pos: int)
    requires
        0 <= pos <= s.len(),
        bytes_at(s, pos) is Some,
    ensures
        ({
            let (bytes, end) = bytes_at(s, pos).unwrap();
            &&& bytes.len() >= 1
            &&& pos < end <= s.len()
            &&& s.subrange(pos, end) == byte_list(bytes)
        }),
    decreases s.len() - pos,
{
    lemma_take_number_is_decimal(s.skip(pos));
    let (n, k) = take_number(s.skip(pos)).unwrap();
    let p = pos + k;
    assert(s.subrange(pos, p) =~= s.skip(pos).take(k as int));
    if p + 2 <= s.len() && s[p] == ',' && s[p + 1] == ' ' {
        lemma_bytes_at_is_list(s, p + 2);
        let (rest, end) = bytes_at(s, p + 2).unwrap();
        let bytes = seq![n as u8] + rest;
        assert(bytes.drop_first() =~= rest);
        if rest.len() >= 1 {
            lemma_byte_list_head(bytes);
        }
        assert(s.subrange(pos, end) =~= s.subrange(pos, p) + seq![',', ' '] + s.subrange(
            p + 2,
            end,
        ));
    }
}

/// The place behind `piece` where it stands at `pos` in `text`, or `None`
/// where it does not stand there.
pub fn eat(text: &Vec<char>, pos: usize, piece: &str) -> (r: Option<usize>)
    requires
        pos <= text.len(),
    ensures
        r is Some <==> piece@.is_prefix_of(text@.skip(pos as int)),
        r is Some ==> r.unwrap() == pos + piece@.len() && r.unwrap() <= text.len(),
{
    let n = piece.unicode_len();
    if n > text.len() - pos {
        return None;
    }
    let ghost from_pos = text@.skip(pos as int);
    let mut i: usize = 0;
    while i < n
        invariant
            n == piece@.len(),
            pos + n <= text.len(),
            from_pos == text@.skip(pos as int),
            i <= n,
            piece@.take(i as int) =~= from_pos.take(i as int),
        decreases n - i,
    {
        if piece.get_char(i) != text[pos + i] {
            assert(from_pos.subrange(0, n as int)[i as int] != piece@[i as int]);
            return None;
        }
        i += 1;
    }
    assert(piece@.take(n as int) =~= piece@);
    Some(pos + n)
}

/// Whether `text` from `pos` on is `piece` and nothing more.
pub fn is_rest(text: &Vec<char>, pos: usize, piece: &str) -> (r: bool)
    requires
        pos <= text.len(),
    ensures
        r == (text@.skip(pos as int) == piece@),
{
    match eat(text, pos, piece) {
        Some(end) => {
            proof {
                if end == text.len() {
                    assert(text@.skip(pos as int) =~= text@.skip(pos as int).subrange(
                        0,
                        piece@.len() as int,
                    ));
                }
            }
            end == text.len()
        },
        None => {
            proof {
                if text@.skip(pos as int) == piece@ {
                    assert(piece@.subrange(0, piece@.len() as int) =~= piece@);
                }
            }
            false
        },
    }
}

/// Reads the list of bytes that stands at `pos` in `text`: the bytes and the
/// place behind the last numeral, or `None` where [`bytes_at`] has none.
pub fn read_bytes(text: &Vec<char>, pos: usize) -> (r: Option<(Vec<u8>, usize)>)
    requires
        pos <= text.len(),
    ensures
        match r {
            Some((bytes, end)) => bytes_at(text@, pos as int) == Some((bytes@, end as int)),
            None => bytes_at(text@, pos as int) is None,
        },
{
    let len = text.len();
    let mut bytes: Vec<u8> = Vec::new();
    let mut p: usize = pos;
    loop
        invariant
            len == text.len(),
            pos <= p <= len,
            bytes_at(text@, pos as int) == match bytes_at(text@, p as int) {
                Some((rest, end)) => Some((bytes@ + rest, end)),
                None => None,
            },
        decreases len - p,
    {
        let ghost before = bytes@;
        match read_number(text, p, 255) {
            None => {
                return None;
            },
            Some((n, q)) => {
                bytes.push(n as u8);
                if len - q >= 2 && text[q] == ',' && text[q + 1] == ' ' {
                    proof {
                        if bytes_at(text@, q + 2) is Some {
                            let rest = bytes_at(text@, q + 2).unwrap().0;
                            assert(before + (seq![n as u8] + rest) =~= bytes@ + rest);
                        }
                    }
                    p = q + 2;
                } else {
                    assert(before + seq![n as u8] =~= bytes@);
                    return Some((bytes, q));
                }
            },
        }
    }
}

/// The characters of a text, one by one.
pub fn chars_of(text: &str) -> (chars: Vec<char>)
    ensures
        chars@ == text@,
{
    let mut chars: Vec<char> = Vec::new();
    for c in it: text.chars()
        invariant
            it.seq() == text@,
            chars@ == text@.take(it.index()),
    {
        chars.push(c);
    }
    chars
}

} // verus!
