//! The texts of the info window: the size of the file with its digits in
//! groups, and the time of the file.

use vstd::prelude::*;

verus! {

/// The character of a digit.
pub open spec fn digit(d: int) -> u8 {
    (48 + d) as u8
}

/// The blank between groups of digits and between date and time.
pub const BLANK: u8 = 32;

/// The hyphen between the parts of a date, and before a year before the
/// year zero.
pub const HYPHEN: u8 = 45;

/// The colon between the parts of a time of day.
pub const COLON: u8 = 58;

/// A number in decimal digits, without leading zeros.
pub open spec fn decimal(n: nat) -> Seq<u8>
    decreases n,
{
    if n < 10 {
        seq![digit(n as int)]
    } else {
        decimal(n / 10).push(digit((n % 10) as int))
    }
}

/// A number in at least two decimal digits.
pub open spec fn two_digits(n: nat) -> Seq<u8> {
    if n < 10 {
        seq![digit(0), digit(n as int)]
    } else {
        decimal(n)
    }
}

/// A number in decimal digits, with a hyphen before it where it is
/// negative.
pub open spec fn signed_decimal(n: int) -> Seq<u8> {
    if n < 0 {
        seq![HYPHEN] + decimal((-n) as nat)
    } else {
        decimal(n as nat)
    }
}

/// Digits with a blank before the last three, the last six and the last
/// nine of them, where there are more.
pub open spec fn grouped(digits: Seq<u8>) -> Seq<u8> {
    let l = digits.len() as int;
    if l <= 3 {
        digits
    } else if l <= 6 {
        digits.subrange(0, l - 3) + seq![BLANK] + digits.subrange(l - 3, l)
    } else if l <= 9 {
        digits.subrange(0, l - 6) + seq![BLANK] + digits.subrange(l - 6, l - 3) + seq![BLANK]
            + digits.subrange(l - 3, l)
    } else {
        digits.subrange(0, l - 9) + seq![BLANK] + digits.subrange(l - 9, l - 6) + seq![BLANK]
            + digits.subrange(l - 6, l - 3) + seq![BLANK] + digits.subrange(l - 3, l)
    }
}

/// A date and a time of day.
#[derive(Clone, Copy, Debug, PartialEq, Eq, Structural)]
pub struct CivilTime {
    pub year: i16,
    /// From 1 for January to 12 for December.
    pub month: u8,
    pub month_day: u8,
    pub hour: u8,
    pub min: u8,
    pub sec: u8,
}

/// A date and a time of day as text: year, month and day with hyphens
/// between them, a blank, and hour, minute and second with colons between
/// them. All but the year have at least two digits.
pub open spec fn time_text(t: CivilTime) -> Seq<u8> {
    signed_decimal(t.year as int) + seq![HYPHEN] + two_digits(t.month as nat) + seq![HYPHEN]
        + two_digits(t.month_day as nat) + seq![BLANK] + two_digits(t.hour as nat) + seq![COLON]
        + two_digits(t.min as nat) + seq![COLON] + two_digits(t.sec as nat)
}

/// The last moment that gets a date: the last second of the year 3000,
/// counted from the start of 1970.
pub const LAST_MOMENT: i64 = 32_535_215_999;

/// Whether the moment lies between the start of 1970 and the end of the
/// year 3000.
pub open spec fn is_dated(seconds: i64) -> bool {
    0 <= seconds <= LAST_MOMENT
}

/// The date and time of day, in universal time, of the moment `seconds`
/// after the start of 1970, as `time_format::components_utc` gives them;
/// nothing where it gives none.
pub uninterp spec fn utc_components(seconds: i64) -> Option<CivilTime>;

/// `time_format::components_utc`: the date and time of day of a moment. The
/// result depends on the moment alone. The moment has to lie between 1970
/// and the end of the year 3000: there the year is far from the limits of
/// the number that holds it.
#[verifier::external_body]
fn components_utc(seconds: i64) -> (r: Option<CivilTime>)
    requires
        is_dated(seconds),
    ensures
        r == utc_components(seconds),
{
    match time_format::components_utc(seconds) {
        Ok(c) => Some(
            CivilTime {
                year: c.year,
                month: c.month,
                month_day: c.month_day,
                hour: c.hour,
                min: c.min,
                sec: c.sec,
            },
        ),
        Err(_) => None,
    }
}

/// A number in decimal digits.
pub fn decimal_text(n: u64) -> (text: Vec<u8>)
    ensures
        text@ == decimal(n as nat),
        text@.len() >= 1,
{
    let mut reversed: Vec<u8> = Vec::new();
    let mut rest: u64 = n;
    let ghost mut tail: Seq<u8> = Seq::empty();
    while rest >= 10
        invariant
            decimal(n as nat) == decimal(rest as nat) + tail,
            tail.len() == reversed@.len(),
            forall|i: int| 0 <= i < tail.len() ==> tail[i] == reversed@[tail.len() - 1 - i],
        decreases rest,
    {
        let d: u8 = (rest % 10) as u8 + 48;
        proof {
            let longer = seq![d] + tail;
            assert(decimal(rest as nat) == decimal((rest / 10) as nat).push(d));
            assert(decimal((rest / 10) as nat).push(d) + tail =~= decimal((rest / 10) as nat)
                + longer);
            tail = longer;
        }
        reversed.push(d);
        rest = rest / 10;
    }
    let mut text: Vec<u8> = Vec::new();
    text.push(rest as u8 + 48);
    let mut left: usize = reversed.len();
    while left > 0
        invariant
            left <= reversed@.len(),
            tail.len() == reversed@.len(),
            forall|i: int| 0 <= i < tail.len() ==> tail[i] == reversed@[tail.len() - 1 - i],
            text@ == decimal(rest as nat) + tail.subrange(0, tail.len() - left),
            rest < 10,
        decreases left,
    {
        left -= 1;
        text.push(reversed[left]);
        assert(tail.subrange(0, tail.len() - left) =~= tail.subrange(0, tail.len() - left - 1).push(
            reversed@[left as int],
        ));
        assert(text@ =~= decimal(rest as nat) + tail.subrange(0, tail.len() - left));
    }
    assert(tail.subrange(0, tail.len() as int) =~= tail);
    text
}

/// Appends the bytes of `source` from `from` up to `to`.
fn push_range(text: &mut Vec<u8>, source: &Vec<u8>, from: usize, to: usize)
    requires
        from <= to <= source.len(),
    ensures
        final(text)@ == old(text)@ + source@.subrange(from as int, to as int),
{
    let ghost before = text@;
    let mut i: usize = from;
    while i < to
        invariant
            from <= i <= to <= source.len(),
            text@ == before + source@.subrange(from as int, i as int),
        decreases to - i,
    {
        text.push(source[i]);
        assert(source@.subrange(from as int, i + 1) =~= source@.subrange(from as int, i as int).push(
            source@[i as int],
        ));
        assert(text@ =~= before + source@.subrange(from as int, i + 1));
        i += 1;
    }
}

/// Appends one byte.
fn push_byte(text: &mut Vec<u8>, byte: u8)
    ensures
        final(text)@ == old(text)@ + seq![byte],
{
    text.push(byte);
    assert(text@ =~= old(text)@ + seq![byte]);
}

/// The size of a file in digits, in groups of three from the right as far
/// as the ninth digit.
pub fn file_size_text(size: u64) -> (text: Vec<u8>)
    ensures
        text@ == grouped(decimal(size as nat)),
{
    let digits = decimal_text(size);
    let l: usize = digits.len();
    let mut text: Vec<u8> = Vec::new();
    assert(text@ + digits@.subrange(0, l as int) =~= digits@);
    if l <= 3 {
        push_range(&mut text, &digits, 0, l);
    } else if l <= 6 {
        push_range(&mut text, &digits, 0, l - 3);
        push_byte(&mut text, BLANK);
        push_range(&mut text, &digits, l - 3, l);
        assert(text@ =~= grouped(digits@));
    } else if l <= 9 {
        push_range(&mut text, &digits, 0, l - 6);
        push_byte(&mut text, BLANK);
        push_range(&mut text, &digits, l - 6, l - 3);
        push_byte(&mut text, BLANK);
        push_range(&mut text, &digits, l - 3, l);
        assert(text@ =~= grouped(digits@));
    } else {
        push_range(&mut text, &digits, 0, l - 9);
        push_byte(&mut text, BLANK);
        push_range(&mut text, &digits, l - 9, l - 6);
        push_byte(&mut text, BLANK);
        push_range(&mut text, &digits, l - 6, l - 3);
        push_byte(&mut text, BLANK);
        push_range(&mut text, &digits, l - 3, l);
        assert(text@ =~= grouped(digits@));
    }
    text
}

/// Appends a number in at least two decimal digits.
fn push_two_digits(text: &mut Vec<u8>, n: u8)
    ensures
        final(text)@ == old(text)@ + two_digits(n as nat),
{
    let digits = decimal_text(n as u64);
    if n < 10 {
        push_byte(text, 48);
        push_range(text, &digits, 0, digits.len());
        assert(digits@.subrange(0, digits@.len() as int) =~= digits@);
        assert(text@ =~= old(text)@ + two_digits(n as nat));
    } else {
        push_range(text, &digits, 0, digits.len());
        assert(digits@.subrange(0, digits@.len() as int) =~= digits@);
    }
}

/// A date and a time of day as text.
pub fn civil_time_text(t: CivilTime) -> (text: Vec<u8>)
    ensures
        text@ == time_text(t),
{
    let mut text: Vec<u8> = Vec::new();
    let year: u64 = if t.year < 0 {
        push_byte(&mut text, HYPHEN);
        (-(t.year as i64)) as u64
    } else {
        t.year as u64
    };
    let digits = decimal_text(year);
    push_range(&mut text, &digits, 0, digits.len());
    assert(digits@.subrange(0, digits@.len() as int) =~= digits@);
    assert(text@ =~= signed_decimal(t.year as int));
    push_byte(&mut text, HYPHEN);
    push_two_digits(&mut text, t.month);
    push_byte(&mut text, HYPHEN);
    push_two_digits(&mut text, t.month_day);
    push_byte(&mut text, BLANK);
    push_two_digits(&mut text, t.hour);
    push_byte(&mut text, COLON);
    push_two_digits(&mut text, t.min);
    push_byte(&mut text, COLON);
    push_two_digits(&mut text, t.sec);
    text
}

/// The text of what [`utc_components`] gives for a moment between 1970 and
/// the end of the year 3000; nothing for any other moment.
pub open spec fn file_time_of(seconds: i64) -> Option<Seq<u8>> {
    if is_dated(seconds) {
        match utc_components(seconds) {
            Some(t) => Some(time_text(t)),
            None => None,
        }
    } else {
        None
    }
}

/// The date and time of day, in universal time, of the moment `seconds`
/// after the start of 1970, as text. A moment before 1970 or after the
/// year 3000 gets none, nor does one for which no date is known.
pub fn file_time_text(seconds: i64) -> (text: Option<Vec<u8>>)
    ensures
        match text {
            Some(t) => file_time_of(seconds) == Some(t@),
            None => file_time_of(seconds) is None,
        },
        !is_dated(seconds) ==> text is None,
        text is Some <==> is_dated(seconds) && utc_components(seconds) is Some,
{
    if seconds < 0 || seconds > LAST_MOMENT {
        return None;
    }
    match components_utc(seconds) {
        Some(t) => Some(civil_time_text(t)),
        None => None,
    }
}

} // verus!
