//! Lap times as text.
//!
//! A lap time is written as minutes, a colon and seconds, the seconds with
//! or without a fraction: `1:29.999`. Its value is a count of milliseconds;
//! digits of the fraction beyond the third are dropped.

use vstd::prelude::*;
use vstd::utf8::*;

verus! {

/// Whether a byte is an ASCII digit.
pub open spec fn is_digit(byte: u8) -> bool {
    48 <= byte <= 57
}

/// The index of the first byte from `from` on that is no digit; the length
/// of the text where only digits follow.
pub open spec fn digits_end(text: Seq<u8>, from: int) -> int
    decreases text.len() - from,
{
    if 0 <= from < text.len() && is_digit(text[from]) {
        digits_end(text, from + 1)
    } else {
        from
    }
}

/// The number that a run of digits writes in base ten.
pub open spec fn decimal_value(digits: Seq<u8>) -> nat
    decreases digits.len(),
{
    if digits.len() == 0 {
        0
    } else {
        decimal_value(digits.drop_last()) * 10 + (digits.last() - 48) as nat
    }
}

/// The digit at `index` of a fraction; zero where the fraction is shorter.
pub open spec fn fraction_digit(fraction: Seq<u8>, index: int) -> nat {
    if index < fraction.len() {
        (fraction[index] - 48) as nat
    } else {
        0
    }
}

/// The milliseconds that the digits of a fraction of a second stand for.
pub open spec fn fraction_millis(fraction: Seq<u8>) -> nat {
    fraction_digit(fraction, 0) * 100 + fraction_digit(fraction, 1) * 10 + fraction_digit(
        fraction,
        2,
    )
}

/// `value`, where sixty-four bits hold it.
pub open spec fn fitting(value: nat) -> Option<u64> {
    if value <= u64::MAX {
        Some(value as u64)
    } else {
        None
    }
}

/// The milliseconds of a lap time: one or more digits of minutes, a colon,
/// one or more digits of seconds and, optionally, a point and one or more
/// digits of a fraction. `None` for any other text, and for a time that
/// sixty-four bits do not hold.
pub open spec fn lap_time(text: Seq<u8>) -> Option<u64> {
    let colon = digits_end(text, 0);
    let stop = digits_end(text, colon + 1);
    if colon == 0 || colon >= text.len() || text[colon] != 58 || stop == colon + 1 {
        None
    } else {
        let whole = decimal_value(text.subrange(0, colon)) * 60_000 + decimal_value(
            text.subrange(colon + 1, stop),
        ) * 1000;
        if stop == text.len() {
            fitting(whole)
        } else if text[stop] == 46 && stop + 1 < text.len() && digits_end(text, stop + 1)
            == text.len() {
            fitting(whole + fraction_millis(text.subrange(stop + 1, text.len() as int)))
        } else {
            None
        }
    }
}

/// The milliseconds of a lap time written in `text`.
pub open spec fn lap_time_of(text: Seq<char>) -> Option<u64> {
    lap_time(encode_utf8(text))
}

/// The run of digits from `from` ends within the text, holds digits only,
/// and is followed by none.
pub proof fn lemma_digits_end(text: Seq<u8>, from: int)
    requires
        0 <= from <= text.len(),
    ensures
        from <= digits_end(text, from) <= text.len(),
        forall|i: int| from <= i < digits_end(text, from) ==> is_digit(#[trigger] text[i]),
        digits_end(text, from) < text.len() ==> !is_digit(text[digits_end(text, from)]),
    decreases text.len() - from,
{
    if from < text.len() && is_digit(text[from]) {
        lemma_digits_end(text, from + 1);
    }
}

/// A longer run of digits writes no smaller a number.
pub proof fn lemma_decimal_grows(digits: Seq<u8>, digit: u8)
    requires
        is_digit(digit),
    ensures
        decimal_value(digits.push(digit)) == decimal_value(digits) * 10 + (digit - 48),
        decimal_value(digits.push(digit)) >= decimal_value(digits),
{
    assert(digits.push(digit).drop_last() =~= digits);
}

/// Whether a run of bytes holds digits only.
pub open spec fn all_digits(run: Seq<u8>) -> bool {
    forall|i: int| 0 <= i < run.len() ==> is_digit(#[trigger] run[i])
}

/// The text of a lap time without a fraction.
pub open spec fn written(minutes: Seq<u8>, seconds: Seq<u8>) -> Seq<u8> {
    minutes + seq![58u8] + seconds
}

/// The text of a lap time with a fraction.
pub open spec fn written_with_fraction(
    minutes: Seq<u8>,
    seconds: Seq<u8>,
    fraction: Seq<u8>,
) -> Seq<u8> {
    minutes + seq![58u8] + seconds + seq![46u8] + fraction
}

/// Whether the three runs are the digits of a lap time: digits only, and at
/// least one each of minutes and of seconds.
pub open spec fn are_parts(minutes: Seq<u8>, seconds: Seq<u8>, fraction: Seq<u8>) -> bool {
    all_digits(minutes) && all_digits(seconds) && all_digits(fraction) && minutes.len() > 0
        && seconds.len() > 0
}

/// A run of digits that is followed by no digit ends where it ends.
pub proof fn lemma_digits_run(text: Seq<u8>, from: int, to: int)
    requires
        0 <= from <= to <= text.len(),
        forall|i: int| from <= i < to ==> is_digit(#[trigger] text[i]),
        to < text.len() ==> !is_digit(text[to]),
    ensures
        digits_end(text, from) == to,
    decreases to - from,
{
    if from < to {
        lemma_digits_run(text, from + 1, to);
    }
}

/// Minutes, a colon and seconds are a lap time of that many milliseconds.
pub proof fn lemma_lap_time_written(minutes: Seq<u8>, seconds: Seq<u8>)
    requires
        are_parts(minutes, seconds, Seq::empty()),
    ensures
        lap_time(written(minutes, seconds)) == fitting(
            decimal_value(minutes) * 60_000 + decimal_value(seconds) * 1000,
        ),
{
    let text = written(minutes, seconds);
    let colon = minutes.len() as int;
    assert forall|i: int| 0 <= i < colon implies is_digit(#[trigger] text[i]) by {
        assert(text[i] == minutes[i]);
    }
    assert(text[colon] == 58);
    lemma_digits_run(text, 0, colon);
    assert forall|i: int| colon + 1 <= i < text.len() implies is_digit(#[trigger] text[i]) by {
        assert(text[i] == seconds[i - colon - 1]);
    }
    lemma_digits_run(text, colon + 1, text.len() as int);
    assert(text.subrange(0, colon) =~= minutes);
    assert(text.subrange(colon + 1, text.len() as int) =~= seconds);
}

/// Minutes, a colon, seconds, a point and a fraction are a lap time of that
/// many milliseconds.
pub proof fn lemma_lap_time_written_with_fraction(
    minutes: Seq<u8>,
    seconds: Seq<u8>,
    fraction: Seq<u8>,
)
    requires
        are_parts(minutes, seconds, fraction),
        fraction.len() > 0,
    ensures
        lap_time(written_with_fraction(minutes, seconds, fraction)) == fitting(
            decimal_value(minutes) * 60_000 + decimal_value(seconds) * 1000 + fraction_millis(
                fraction,
            ),
        ),
{
    let text = written_with_fraction(minutes, seconds, fraction);
    let colon = minutes.len() as int;
    let stop = colon + 1 + seconds.len();
    assert forall|i: int| 0 <= i < colon implies is_digit(#[trigger] text[i]) by {
        assert(text[i] == minutes[i]);
    }
    assert(text[colon] == 58);
    lemma_digits_run(text, 0, colon);
    assert forall|i: int| colon + 1 <= i < stop implies is_digit(#[trigger] text[i]) by {
        assert(text[i] == seconds[i - colon - 1]);
    }
    assert(text[stop] == 46);
    lemma_digits_run(text, colon + 1, stop);
    assert forall|i: int| stop + 1 <= i < text.len() implies is_digit(#[trigger] text[i]) by {
        assert(text[i] == fraction[i - stop - 1]);
    }
    lemma_digits_run(text, stop + 1, text.len() as int);
    assert(text.subrange(0, colon) =~= minutes);
    assert(text.subrange(colon + 1, stop) =~= seconds);
    assert(text.subrange(stop + 1, text.len() as int) =~= fraction);
}

/// Every text that is a lap time is written as minutes, a colon and seconds,
/// with or without a point and a fraction.
pub proof fn lemma_lap_time_shape(text: Seq<u8>)
    requires
        lap_time(text).is_some(),
    ensures
        exists|minutes: Seq<u8>, seconds: Seq<u8>, fraction: Seq<u8>|
            #![trigger are_parts(minutes, seconds, fraction)]
            are_parts(minutes, seconds, fraction) && (if fraction.len() == 0 {
                text == written(minutes, seconds)
            } else {
                text == written_with_fraction(minutes, seconds, fraction)
            }),
{
    let colon = digits_end(text, 0);
    lemma_digits_end(text, 0);
    lemma_digits_end(text, colon + 1);
    let stop = digits_end(text, colon + 1);
    let minutes = text.subrange(0, colon);
    let seconds = text.subrange(colon + 1, stop);
    if stop == text.len() {
        let fraction = Seq::<u8>::empty();
        assert(text =~= written(minutes, seconds));
        assert(are_parts(minutes, seconds, fraction));
    } else {
        lemma_digits_end(text, stop + 1);
        let fraction = text.subrange(stop + 1, text.len() as int);
        assert(text =~= written_with_fraction(minutes, seconds, fraction));
        assert(are_parts(minutes, seconds, fraction));
    }
}

/// Reads the run of digits from `from`: where it ends, and the number it
/// writes, if sixty-four bits hold it.
fn scan_digits(text: &[u8], from: usize) -> (run: (usize, Option<u64>))
    requires
        from <= text.len(),
    ensures
        run.0 == digits_end(text@, from as int),
        from <= run.0 <= text.len(),
        run.1 == fitting(decimal_value(text@.subrange(from as int, run.0 as int))),
{
    let mut i: usize = from;
    let mut value: u64 = 0;
    let mut overflowed: bool = false;
    proof {
        assert(text@.subrange(from as int, from as int) =~= Seq::<u8>::empty());
    }
    while i < text.len() && 48 <= text[i] && text[i] <= 57
        invariant
            from <= i <= text.len(),
            digits_end(text@, from as int) == digits_end(text@, i as int),
            !overflowed ==> value == decimal_value(text@.subrange(from as int, i as int)),
            overflowed ==> decimal_value(text@.subrange(from as int, i as int)) > u64::MAX,
        decreases text.len() - i,
    {
        let digit: u8 = text[i] - 48;
        proof {
            lemma_decimal_grows(text@.subrange(from as int, i as int), text@[i as int]);
            assert(text@.subrange(from as int, i + 1) =~= text@.subrange(
                from as int,
                i as int,
            ).push(text@[i as int]));
        }
        if !overflowed {
            let next: u128 = value as u128 * 10 + digit as u128;
            if next > u64::MAX as u128 {
                overflowed = true;
            } else {
                value = next as u64;
            }
        }
        i += 1;
    }
    if overflowed {
        (i, None)
    } else {
        (i, Some(value))
    }
}

/// The milliseconds of the lap time that the bytes of `text` write.
pub fn parse_lap_time_bytes(text: &[u8]) -> (millis: Option<u64>)
    ensures
        millis == lap_time(text@),
{
    let (colon, minutes) = scan_digits(text, 0);
    if colon == 0 || colon >= text.len() || text[colon] != 58 {
        return None;
    }
    let (stop, seconds) = scan_digits(text, colon + 1);
    if stop == colon + 1 {
        return None;
    }
    let mut fraction: u128 = 0;
    if stop < text.len() {
        if text[stop] != 46 || stop + 1 >= text.len() {
            return None;
        }
        let (end, _) = scan_digits(text, stop + 1);
        if end != text.len() {
            return None;
        }
        proof {
            lemma_digits_end(text@, stop + 1);
        }
        let ghost digits = text@.subrange(stop + 1, text.len() as int);
        let first: u128 = (text[stop + 1] - 48) as u128;
        let second: u128 = if stop + 2 < text.len() {
            (text[stop + 2] - 48) as u128
        } else {
            0
        };
        let third: u128 = if stop + 2 < text.len() && stop + 3 < text.len() {
            (text[stop + 3] - 48) as u128
        } else {
            0
        };
        proof {
            assert(digits[0] == text@[stop + 1]);
            if stop + 2 < text.len() {
                assert(digits[1] == text@[stop + 2]);
            }
            if stop + 3 < text.len() {
                assert(digits[2] == text@[stop + 3]);
            }
        }
        fraction = first * 100 + second * 10 + third;
    }
    match (minutes, seconds) {
        (Some(minutes), Some(seconds)) => {
            let total: u128 = minutes as u128 * 60_000 + seconds as u128 * 1000 + fraction;
            if total <= u64::MAX as u128 {
                Some(total as u64)
            } else {
                None
            }
        },
        _ => None,
    }
}

/// The milliseconds of the lap time written in `text`.
pub fn parse_lap_time(text: &str) -> (millis: Option<u64>)
    ensures
        millis == lap_time_of(text@),
{
    parse_lap_time_bytes(text.as_bytes())
}

} // verus!
