//! Decimal numerals: what the numeral of a number is, how one is written to the
//! end of a text, and how one is read at a place in a text.

use vstd::prelude::*;
use vstd::string::*;

verus! {

/// `c` is one of the ten decimal digits.
pub open spec fn is_digit(c: char) -> bool {
    '0' <= c && c <= '9'
}

/// The digit that stands for `d`, for `d` from 0 to 9.
pub open spec fn digit_char(d: int) -> char {
    (d + 48) as char
}

/// The number that the digit `c` stands for.
pub open spec fn digit_value(c: char) -> int {
    c as int - 48
}

/// The numeral of `n`: its decimal digits, the most significant first, with no
/// sign and no leading zero.
pub open spec fn decimal(n: nat) -> Seq<char>
    decreases n,
{
    if n < 10 {
        seq![digit_char(n as int)]
    } else {
        decimal(n / 10).push(digit_char((n % 10) as int))
    }
}

/// The numeral of `i`, with a minus sign before it where `i` is negative.
pub open spec fn signed_decimal(i: int) -> Seq<char> {
    if i < 0 {
        seq!['-'] + decimal((-i) as nat)
    } else {
        decimal(i as nat)
    }
}

/// The numerals of `bytes`, in their order, with a comma and a space between
/// each and the next.
pub open spec fn byte_list(bytes: Seq<u8>) -> Seq<char>
    decreases bytes.len(),
{
    if bytes.len() == 0 {
        Seq::empty()
    } else if bytes.len() == 1 {
        decimal(bytes[0] as nat)
    } else {
        byte_list(bytes.drop_last()) + seq![',', ' '] + decimal(bytes.last() as nat)
    }
}

/// Every element of `s` is a digit.
pub open spec fn all_digits(s: Seq<char>) -> bool {
    forall|i: int| 0 <= i < s.len() ==> is_digit(#[trigger] s[i])
}

/// `s` is a numeral: digits, at least one, and no leading zero but in "0".
pub open spec fn is_numeral(s: Seq<char>) -> bool {
    &&& s.len() >= 1
    &&& all_digits(s)
    &&& s[0] == '0' ==> s.len() == 1
}

/// The number that a sequence of digits stands for.
pub open spec fn digits_value(s: Seq<char>) -> nat
    decreases s.len(),
{
    if s.len() == 0 {
        0
    } else {
        (digits_value(s.drop_last()) * 10 + digit_value(s.last())) as nat
    }
}

/// How many digits `s` begins with.
pub open spec fn digit_run(s: Seq<char>) -> nat
    decreases s.len(),
{
    if s.len() > 0 && is_digit(s[0]) {
        1 + digit_run(s.drop_first())
    } else {
        0
    }
}

/// The numeral that `s` begins with, taken as long as it can be: its number
/// and its length. There is none where `s` begins with no digit, or with a
/// zero that another digit follows.
pub open spec fn take_number(s: Seq<char>) -> Option<(nat, nat)> {
    let k = digit_run(s);
    if k == 0 || (k > 1 && s[0] == '0') {
        None
    } else {
        Some((digits_value(s.take(k as int)), k))
    }
}

/// The signed numeral that `s` begins with: its number and its length. A minus
/// sign is followed by the numeral of a number that is not zero.
pub open spec fn take_signed(s: Seq<char>) -> Option<(int, nat)> {
    if s.len() > 0 && s[0] == '-' {
        match take_number(s.skip(1)) {
            Some((n, k)) => if n > 0 {
                Some((-(n as int), k + 1))
            } else {
                None
            },
            None => None,
        }
    } else {
        match take_number(s) {
            Some((n, k)) => Some((n as int, k)),
            None => None,
        }
    }
}

/// The numeral of a number is a numeral, and stands for that number.
pub(crate) proof fn lemma_decimal_is_numeral(n: nat)
    ensures
        is_numeral(decimal(n)),
        digits_value(decimal(n)) == n,
        decimal(n)[0] == '0' <==> n == 0,
    decreases n,
{
    if n < 10 {
        let d = decimal(n);
        assert(d.drop_last() =~= Seq::<char>::empty());
        assert(digits_value(d.drop_last()) == 0);
    } else {
        lemma_decimal_is_numeral(n / 10);
        let d = decimal(n);
        assert(d.drop_last() =~= decimal(n / 10));
        assert(d[0] == decimal(n / 10)[0]);
    }
}

/// A sequence of digits that does not begin with a zero stands for a number
/// that is not zero.
proof fn lemma_value_positive(s: Seq<char>)
    requires
        s.len() >= 1,
        all_digits(s),
        s[0] != '0',
    ensures
        digits_value(s) >= 1,
    decreases s.len(),
{
    if s.len() > 1 {
        let p = s.drop_last();
        assert(p[0] == s[0]);
        lemma_value_positive(p);
    } else {
        assert(s.drop_last() =~= Seq::<char>::empty());
        assert(digits_value(s.drop_last()) == 0);
    }
}

/// A numeral is the numeral of the number it stands for.
pub(crate) proof fn lemma_numeral_is_decimal(s: Seq<char>)
    requires
        is_numeral(s),
    ensures
        decimal(digits_value(s)) == s,
    decreases s.len(),
{
    let p = s.drop_last();
    if s.len() == 1 {
        assert(p =~= Seq::<char>::empty());
        assert(digits_value(p) == 0);
        assert(decimal(digits_value(s)) =~= s);
    } else {
        assert(p[0] == s[0]);
        lemma_value_positive(p);
        lemma_numeral_is_decimal(p);
        let v = digits_value(s);
        assert(v / 10 == digits_value(p));
        assert(v % 10 == digit_value(s.last()));
        assert(decimal(v) =~= s);
    }
}

/// The digits that stand before a place stand for no more than all of them.
proof fn lemma_value_of_prefix(s: Seq<char>, j: int)
    requires
        all_digits(s),
        0 <= j <= s.len(),
    ensures
        digits_value(s.take(j)) <= digits_value(s),
    decreases s.len(),
{
    if j == s.len() {
        assert(s.take(j) =~= s);
    } else {
        let p = s.drop_last();
        assert(p.take(j) =~= s.take(j));
        lemma_value_of_prefix(p, j);
    }
}

/// Where `s` begins with `k` digits and goes on with none, its run of digits
/// has the length `k`.
proof fn lemma_digit_run_is(s: Seq<char>, k: int)
    requires
        0 <= k <= s.len(),
        all_digits(s.take(k)),
        k == s.len() || !is_digit(s[k]),
    ensures
        digit_run(s) == k,
    decreases k,
{
    if k > 0 {
        assert(s.take(k)[0] == s[0]);
        let t = s.drop_first();
        assert forall|i: int| 0 <= i < k - 1 implies is_digit(#[trigger] t.take(k - 1)[i]) by {
            assert(t.take(k - 1)[i] == s.take(k)[i + 1]);
        }
        lemma_digit_run_is(t, k - 1);
    }
}

/// Where `s` begins with `j` digits, its run of digits is at least that long.
proof fn lemma_digit_run_reaches(s: Seq<char>, j: int)
    requires
        0 <= j <= s.len(),
        all_digits(s.take(j)),
    ensures
        digit_run(s) >= j,
    decreases j,
{
    if j > 0 {
        assert(s.take(j)[0] == s[0]);
        let t = s.drop_first();
        assert forall|i: int| 0 <= i < j - 1 implies is_digit(#[trigger] t.take(j - 1)[i]) by {
            assert(t.take(j - 1)[i] == s.take(j)[i + 1]);
        }
        lemma_digit_run_reaches(t, j - 1);
    }
}

/// The run of digits of `s` lies in `s`, holds digits only, and ends where `s`
/// ends or goes on with something else.
proof fn lemma_digit_run_ends(s: Seq<char>)
    ensures
        digit_run(s) <= s.len(),
        all_digits(s.take(digit_run(s) as int)),
        digit_run(s) == s.len() || !is_digit(s[digit_run(s) as int]),
    decreases s.len(),
{
    if s.len() > 0 && is_digit(s[0]) {
        let t = s.drop_first();
        lemma_digit_run_ends(t);
        let k = digit_run(s) as int;
        assert forall|i: int| 0 <= i < k implies is_digit(#[trigger] s.take(k)[i]) by {
            if i > 0 {
                assert(s.take(k)[i] == t.take(k - 1)[i - 1]);
            }
        }
    }
}

/// Reading a numeral that `rest` follows gives the numeral's number back,
/// where `rest` does not go on with a digit.
pub(crate) proof fn lemma_take_number_of_decimal(n: nat, rest: Seq<char>)
    requires
        rest.len() == 0 || !is_digit(rest[0]),
    ensures
        take_number(decimal(n) + rest) == Some((n, decimal(n).len())),
{
    let d = decimal(n);
    let s = d + rest;
    lemma_decimal_is_numeral(n);
    assert(s.take(d.len() as int) =~= d);
    lemma_digit_run_is(s, d.len() as int);
}

/// What was read as a number is that number's numeral, taken whole.
pub(crate) proof fn lemma_take_number_is_decimal(s: Seq<char>)
    requires
        take_number(s) is Some,
    ensures
        ({
            let (n, k) = take_number(s).unwrap();
            &&& 1 <= k <= s.len()
            &&& s.take(k as int) == decimal(n)
            &&& k == s.len() || !is_digit(s[k as int])
        }),
{
    lemma_digit_run_ends(s);
    let k = digit_run(s) as int;
    assert(s.take(k)[0] == s[0]);
    lemma_numeral_is_decimal(s.take(k));
}

/// Reading a signed numeral that `rest` follows gives its number back, where
/// `rest` does not go on with a digit.
pub(crate) proof fn lemma_take_signed_of_decimal(i: int, rest: Seq<char>)
    requires
        rest.len() == 0 || !is_digit(rest[0]),
    ensures
        take_signed(signed_decimal(i) + rest) == Some((i, signed_decimal(i).len())),
{
    let s = signed_decimal(i) + rest;
    if i < 0 {
        let n = (-i) as nat;
        assert(s.skip(1) =~= decimal(n) + rest);
        lemma_take_number_of_decimal(n, rest);
    } else {
        lemma_decimal_is_numeral(i as nat);
        lemma_take_number_of_decimal(i as nat, rest);
        assert(s[0] == decimal(i as nat)[0]);
    }
}

/// What was read as a signed number is that number's signed numeral, taken
/// whole.
pub(crate) proof fn lemma_take_signed_is_decimal(s: Seq<char>)
    requires
        take_signed(s) is Some,
    ensures
        ({
            let (i, k) = take_signed(s).unwrap();
            &&& 1 <= k <= s.len()
            &&& s.take(k as int) == signed_decimal(i)
            &&& k == s.len() || !is_digit(s[k as int])
        }),
{
    if s.len() > 0 && s[0] == '-' {
        let t = s.skip(1);
        lemma_take_number_is_decimal(t);
        let (n, k) = take_number(t).unwrap();
        assert(s.take(k as int + 1) =~= seq!['-'] + t.take(k as int));
    } else {
        lemma_take_number_is_decimal(s);
    }
}

/// The text of one digit.
fn digit_text(d: u8) -> (r: &'static str)
    requires
        d < 10,
    ensures
        r@ == seq![digit_char(d as int)],
{
    proof {
        reveal_strlit("0");
        reveal_strlit("1");
        reveal_strlit("2");
        reveal_strlit("3");
        reveal_strlit("4");
        reveal_strlit("5");
        reveal_strlit("6");
        reveal_strlit("7");
        reveal_strlit("8");
        reveal_strlit("9");
    }
    let r = match d {
        0 => "0",
        1 => "1",
        2 => "2",
        3 => "3",
        4 => "4",
        5 => "5",
        6 => "6",
        7 => "7",
        8 => "8",
        _ => "9",
    };
    assert(r@ =~= seq![digit_char(d as int)]);
    r
}

/// Writes the numeral of `n` to the end of `out`.
pub(crate) fn push_decimal(out: &mut String, n: u64)
    ensures
        final(out)@ == old(out)@ + decimal(n as nat),
    decreases n,
{
    if n >= 10 {
        push_decimal(out, n / 10);
    }
    out.append(digit_text((n % 10) as u8));
    assert(out@ =~= old(out)@ + decimal(n as nat));
}

/// Writes the signed numeral of `i` to the end of `out`.
pub(crate) fn push_signed(out: &mut String, i: i64)
    ensures
        final(out)@ == old(out)@ + signed_decimal(i as int),
{
    if i < 0 {
        proof {
            reveal_strlit("-");
        }
        out.append("-");
        let n: u64 = if i == i64::MIN {
            0x8000_0000_0000_0000
        } else {
            (-i) as u64
        };
        push_decimal(out, n);
        assert(out@ =~= old(out)@ + signed_decimal(i as int));
    } else {
        push_decimal(out, i as u64);
    }
}

/// Reads the numeral that stands at `pos` in `text`, taken as long as it can
/// be. Returns its number and the place behind it, or `None` where no numeral
/// stands there or its number is above `max`.
pub(crate) fn read_number(text: &Vec<char>, pos: usize, max: u32) -> (r: Option<(u32, usize)>)
    requires
        pos <= text.len(),
    ensures
        match r {
            Some((n, end)) => {
                &&& pos < end <= text.len()
                &&& n <= max
                &&& take_number(text@.skip(pos as int)) == Some((n as nat, (end - pos) as nat))
            },
            None => match take_number(text@.skip(pos as int)) {
                Some((n, k)) => n > max,
                None => true,
            },
        },
{
    let ghost s = text@.skip(pos as int);
    let len = text.len();
    let mut i: usize = pos;
    let mut acc: u64 = 0;
    while i < len && text[i] >= '0' && text[i] <= '9'
        invariant
            len == text.len(),
            s == text@.skip(pos as int),
            pos <= i <= len,
            all_digits(s.take(i - pos)),
            acc == digits_value(s.take(i - pos)),
            acc <= max,
            i > pos + 1 ==> s[0] != '0',
        decreases len - i,
    {
        let d: u64 = (text[i] as u32 - '0' as u32) as u64;
        let ghost before = s.take(i - pos);
        let ghost after = s.take(i + 1 - pos);
        proof {
            assert(after.drop_last() =~= before);
            assert(after.last() == text[i as int]);
            assert forall|j: int| 0 <= j < after.len() implies is_digit(#[trigger] after[j]) by {
                if j < before.len() {
                    assert(after[j] == before[j]);
                }
            }
            lemma_digit_run_reaches(s, i + 1 - pos);
        }
        if i == pos + 1 && text[pos] == '0' {
            return None;
        }
        acc = acc * 10 + d;
        if acc > max as u64 {
            proof {
                let k = digit_run(s) as int;
                lemma_digit_run_ends(s);
                assert(s.take(k).take(i + 1 - pos) =~= after);
                lemma_value_of_prefix(s.take(k), i + 1 - pos);
            }
            return None;
        }
        i += 1;
    }
    proof {
        lemma_digit_run_is(s, i - pos);
    }
    if i == pos {
        None
    } else {
        Some((acc as u32, i))
    }
}

/// Reads the signed numeral that stands at `pos` in `text`. Returns its number
/// and the place behind it, or `None` where no signed numeral stands there or
/// its number lies outside `-below ..= above`.
pub(crate) fn read_signed(text: &Vec<char>, pos: usize, below: u32, above: u32) -> (r: Option<
    (i64, usize),
>)
    requires
        pos <= text.len(),
    ensures
        match r {
            Some((i, end)) => {
                &&& pos < end <= text.len()
                &&& -below <= i <= above
                &&& take_signed(text@.skip(pos as int)) == Some((i as int, (end - pos) as nat))
            },
            None => match take_signed(text@.skip(pos as int)) {
                Some((i, k)) => i < -below || i > above,
                None => true,
            },
        },
{
    let ghost s = text@.skip(pos as int);
    if pos < text.len() && text[pos] == '-' {
        assert(s.skip(1) =~= text@.skip(pos + 1));
        match read_number(text, pos + 1, below) {
            Some((n, end)) => if n > 0 {
                Some((-(n as i64), end))
            } else {
                None
            },
            None => None,
        }
    } else {
        match read_number(text, pos, above) {
            Some((n, end)) => Some((n as i64, end)),
            None => None,
        }
    }
}

} // verus!
