//! The fixed textual timestamp format `YYYY-MM-DD HH:MM:SSZ`.
//!
//! This format is both the parse and the serialize contract for the instants
//! of the event feed. Parsing accepts exactly the strings that denote a valid
//! civil date and time in the supported calendar range; formatting a valid
//! instant and parsing the result yields the instant back.

use vstd::prelude::*;

use crate::calendar::CivilDateTime;
use crate::calendar::civil_from_instant;
use crate::calendar::civil_of;
use crate::calendar::lemma_civil_of;
use crate::calendar::days_in_month_x;
use crate::calendar::instant_from_civil;
use crate::calendar::instant_of_civil;
use crate::calendar::valid_civil;
use crate::calendar::valid_instant;

verus! {

pub open spec fn digit_char(d: int) -> char {
    if d == 0 {
        '0'
    } else if d == 1 {
        '1'
    } else if d == 2 {
        '2'
    } else if d == 3 {
        '3'
    } else if d == 4 {
        '4'
    } else if d == 5 {
        '5'
    } else if d == 6 {
        '6'
    } else if d == 7 {
        '7'
    } else if d == 8 {
        '8'
    } else {
        '9'
    }
}

/// Value of a decimal digit character, -1 for any other character.
pub open spec fn digit_val(c: char) -> int {
    if c == '0' {
        0
    } else if c == '1' {
        1
    } else if c == '2' {
        2
    } else if c == '3' {
        3
    } else if c == '4' {
        4
    } else if c == '5' {
        5
    } else if c == '6' {
        6
    } else if c == '7' {
        7
    } else if c == '8' {
        8
    } else if c == '9' {
        9
    } else {
        -1
    }
}

/// A number below 100 as two decimal digits, zero-padded.
pub open spec fn two_digits(n: int) -> Seq<char> {
    seq![digit_char(n / 10), digit_char(n % 10)]
}

/// A number below 10000 as four decimal digits, zero-padded.
pub open spec fn four_digits(n: int) -> Seq<char> {
    seq![
        digit_char(n / 1000),
        digit_char(n / 100 % 10),
        digit_char(n / 10 % 10),
        digit_char(n % 10),
    ]
}

/// The rendering of a civil date and time in the fixed format.
pub open spec fn civil_fmt(c: CivilDateTime) -> Seq<char> {
    four_digits(c.year as int) + seq!['-'] + two_digits(c.month as int) + seq!['-'] + two_digits(
        c.day as int,
    ) + seq![' '] + two_digits(c.hour as int) + seq![':'] + two_digits(c.minute as int) + seq![':']
        + two_digits(c.second as int) + seq!['Z']
}

/// The instant a string denotes in the fixed format, or `None` where the
/// string is not such a rendering of a valid civil date and time.
pub open spec fn parse_spec(s: Seq<char>) -> Option<int> {
    if s.len() == 20 && s[4] == '-' && s[7] == '-' && s[10] == ' ' && s[13] == ':' && s[16] == ':'
        && s[19] == 'Z' && digit_val(s[0]) >= 0 && digit_val(s[1]) >= 0 && digit_val(s[2]) >= 0
        && digit_val(s[3]) >= 0 && digit_val(s[5]) >= 0 && digit_val(s[6]) >= 0 && digit_val(s[8])
        >= 0 && digit_val(s[9]) >= 0 && digit_val(s[11]) >= 0 && digit_val(s[12]) >= 0 && digit_val(
        s[14],
    ) >= 0 && digit_val(s[15]) >= 0 && digit_val(s[17]) >= 0 && digit_val(s[18]) >= 0 {
        let y = digit_val(s[0]) * 1000 + digit_val(s[1]) * 100 + digit_val(s[2]) * 10 + digit_val(
            s[3],
        );
        let m = digit_val(s[5]) * 10 + digit_val(s[6]);
        let d = digit_val(s[8]) * 10 + digit_val(s[9]);
        let h = digit_val(s[11]) * 10 + digit_val(s[12]);
        let mi = digit_val(s[14]) * 10 + digit_val(s[15]);
        let sec = digit_val(s[17]) * 10 + digit_val(s[18]);
        if valid_civil(y, m, d, h, mi, sec) {
            Some(instant_of_civil(y, m, d, h, mi, sec))
        } else {
            None
        }
    } else {
        None
    }
}

fn digit_str(d: u64) -> (r: &'static str)
    requires
        d < 10,
    ensures
        r@ == seq![digit_char(d as int)],
{
    proof {
        reveal_strlit("0");
        reveal_strlit("1");
        reveal_strlit("2");
        reveal_strlit("3");
        reveal_strlit("4");
        reveal_strlit("5");
        reveal_strlit("6");
        reveal_strlit("7");
        reveal_strlit("8");
        reveal_strlit("9");
    }
    let r: &'static str = if d == 0 {
        "0"
    } else if d == 1 {
        "1"
    } else if d == 2 {
        "2"
    } else if d == 3 {
        "3"
    } else if d == 4 {
        "4"
    } else if d == 5 {
        "5"
    } else if d == 6 {
        "6"
    } else if d == 7 {
        "7"
    } else if d == 8 {
        "8"
    } else {
        "9"
    };
    proof {
        assert(r@ =~= seq![digit_char(d as int)]);
    }
    r
}

/// Append `n` to `out` as two decimal digits, zero-padded.
pub fn append_two_digits(out: &mut String, n: u64)
    requires
        n < 100,
    ensures
        final(out)@ == old(out)@ + two_digits(n as int),
{
    out.append(digit_str(n / 10));
    out.append(digit_str(n % 10));
    proof {
        assert(out@ =~= old(out)@ + two_digits(n as int));
    }
}

/// Append `n` to `out` as four decimal digits, zero-padded.
pub fn append_four_digits(out: &mut String, n: u64)
    requires
        n < 10000,
    ensures
        final(out)@ == old(out)@ + four_digits(n as int),
{
    out.append(digit_str(n / 1000));
    out.append(digit_str(n / 100 % 10));
    out.append(digit_str(n / 10 % 10));
    out.append(digit_str(n % 10));
    proof {
        assert(out@ =~= old(out)@ + four_digits(n as int));
    }
}

/// A nonnegative number in plain decimal, no padding.
pub open spec fn dec_digits(n: int) -> Seq<char>
    decreases n,
{
    if n < 10 {
        seq![digit_char(n)]
    } else {
        dec_digits(n / 10) + seq![digit_char(n % 10)]
    }
}

/// Render a number in plain decimal.
pub fn u32_dec(n: u32) -> (r: String)
    ensures
        r@ == dec_digits(n as int),
    decreases n,
{
    if n < 10 {
        let mut s = String::new();
        s.append(digit_str(n as u64));
        proof {
            assert(s@ =~= dec_digits(n as int));
        }
        s
    } else {
        let mut s = u32_dec(n / 10);
        s.append(digit_str((n % 10) as u64));
        proof {
            assert(s@ =~= dec_digits(n as int));
        }
        s
    }
}

/// The date of a civil date and time in day-first display form, `DD.MM.YYYY`.
pub open spec fn date_de(c: CivilDateTime) -> Seq<char> {
    two_digits(c.day as int) + seq!['.'] + two_digits(c.month as int) + seq!['.'] + four_digits(
        c.year as int,
    )
}

/// The time of day of a civil date and time in 24-hour display form, `HH:MM`.
pub open spec fn time_hm(c: CivilDateTime) -> Seq<char> {
    two_digits(c.hour as int) + seq![':'] + two_digits(c.minute as int)
}

/// Render the date part in day-first display form.
pub fn format_date_de(c: &CivilDateTime) -> (r: String)
    requires
        c.wf(),
    ensures
        r@ == date_de(*c),
{
    let mut out = String::new();
    append_two_digits(&mut out, c.day);
    out.append(".");
    append_two_digits(&mut out, c.month);
    out.append(".");
    append_four_digits(&mut out, c.year);
    proof {
        reveal_strlit(".");
        assert(out@ =~= date_de(*c));
    }
    out
}

/// Render the time-of-day part in 24-hour display form.
pub fn format_time_hm(c: &CivilDateTime) -> (r: String)
    requires
        c.wf(),
    ensures
        r@ == time_hm(*c),
{
    let mut out = String::new();
    append_two_digits(&mut out, c.hour);
    out.append(":");
    append_two_digits(&mut out, c.minute);
    proof {
        reveal_strlit(":");
        assert(out@ =~= time_hm(*c));
    }
    out
}

/// Render a civil date and time in the fixed format.
pub fn format_civil(c: &CivilDateTime) -> (r: String)
    requires
        c.wf(),
    ensures
        r@ == civil_fmt(*c),
{
    let mut out = String::new();
    append_four_digits(&mut out, c.year);
    out.append("-");
    append_two_digits(&mut out, c.month);
    out.append("-");
    append_two_digits(&mut out, c.day);
    out.append(" ");
    append_two_digits(&mut out, c.hour);
    out.append(":");
    append_two_digits(&mut out, c.minute);
    out.append(":");
    append_two_digits(&mut out, c.second);
    out.append("Z");
    proof {
        reveal_strlit("-");
        reveal_strlit(" ");
        reveal_strlit(":");
        reveal_strlit("Z");
        assert(out@ =~= civil_fmt(*c));
    }
    out
}

/// Serialize an instant in the fixed format, through its unique civil form.
pub fn format_instant(t: i64) -> (r: String)
    requires
        valid_instant(t as int),
    ensures
        r@ == civil_fmt(civil_of(t as int)),
{
    let c = civil_from_instant(t);
    format_civil(&c)
}

/// Value of a decimal digit character, 10 for any other character.
pub fn digit_val_x(c: char) -> (r: u64)
    ensures
        digit_val(c) >= 0 ==> r == digit_val(c),
        digit_val(c) < 0 ==> r == 10,
{
    if c == '0' {
        0
    } else if c == '1' {
        1
    } else if c == '2' {
        2
    } else if c == '3' {
        3
    } else if c == '4' {
        4
    } else if c == '5' {
        5
    } else if c == '6' {
        6
    } else if c == '7' {
        7
    } else if c == '8' {
        8
    } else if c == '9' {
        9
    } else {
        10
    }
}

/// Parse a string in the fixed format. Returns the instant it denotes, or
/// `None` where the string is not a valid rendering.
pub fn parse_instant(s: &str) -> (r: Option<i64>)
    ensures
        match parse_spec(s@) {
            Some(t) => r == Some(t as i64),
            None => r is None,
        },
        parse_spec(s@) matches Some(t) ==> valid_instant(t),
{
    if s.unicode_len() != 20 {
        return None;
    }
    if s.get_char(4) != '-' || s.get_char(7) != '-' || s.get_char(10) != ' ' || s.get_char(13)
        != ':' || s.get_char(16) != ':' || s.get_char(19) != 'Z' {
        return None;
    }
    let d0 = digit_val_x(s.get_char(0));
    let d1 = digit_val_x(s.get_char(1));
    let d2 = digit_val_x(s.get_char(2));
    let d3 = digit_val_x(s.get_char(3));
    let d4 = digit_val_x(s.get_char(5));
    let d5 = digit_val_x(s.get_char(6));
    let d6 = digit_val_x(s.get_char(8));
    let d7 = digit_val_x(s.get_char(9));
    let d8 = digit_val_x(s.get_char(11));
    let d9 = digit_val_x(s.get_char(12));
    let d10 = digit_val_x(s.get_char(14));
    let d11 = digit_val_x(s.get_char(15));
    let d12 = digit_val_x(s.get_char(17));
    let d13 = digit_val_x(s.get_char(18));
    if d0 > 9 || d1 > 9 || d2 > 9 || d3 > 9 || d4 > 9 || d5 > 9 || d6 > 9 || d7 > 9 || d8 > 9 || d9
        > 9 || d10 > 9 || d11 > 9 || d12 > 9 || d13 > 9 {
        return None;
    }
    let y: u64 = d0 * 1000 + d1 * 100 + d2 * 10 + d3;
    let mo: u64 = d4 * 10 + d5;
    let da: u64 = d6 * 10 + d7;
    let h: u64 = d8 * 10 + d9;
    let mi: u64 = d10 * 10 + d11;
    let sec: u64 = d12 * 10 + d13;
    if y < 1970 || mo < 1 || mo > 12 || da < 1 || h > 23 || mi > 59 || sec > 59 {
        return None;
    }
    if da > days_in_month_x(y, mo) {
        return None;
    }
    let c = CivilDateTime { year: y, month: mo, day: da, hour: h, minute: mi, second: sec };
    Some(instant_from_civil(&c))
}

proof fn lemma_two_digit_value(n: int)
    requires
        0 <= n < 100,
    ensures
        (n / 10) * 10 + n % 10 == n,
        0 <= n / 10 <= 9,
        0 <= n % 10 <= 9,
{
    vstd::arithmetic::div_mod::lemma_fundamental_div_mod(n, 10);
}

proof fn lemma_four_digit_value(n: int)
    requires
        0 <= n < 10000,
    ensures
        (n / 1000) * 1000 + (n / 100 % 10) * 100 + (n / 10 % 10) * 10 + n % 10 == n,
        0 <= n / 1000 <= 9,
        0 <= n / 100 % 10 <= 9,
        0 <= n / 10 % 10 <= 9,
        0 <= n % 10 <= 9,
{
    vstd::arithmetic::div_mod::lemma_fundamental_div_mod(n, 10);
    vstd::arithmetic::div_mod::lemma_fundamental_div_mod(n / 10, 10);
    vstd::arithmetic::div_mod::lemma_fundamental_div_mod(n / 100, 10);
    vstd::arithmetic::div_mod::lemma_div_denominator(n, 10, 10);
    vstd::arithmetic::div_mod::lemma_div_denominator(n, 100, 10);
}

/// Round-trip law at the instant level: serializing a supported instant in
/// the fixed format and re-parsing yields exactly that instant back.
pub proof fn lemma_instant_round_trip(t: int)
    requires
        valid_instant(t),
    ensures
        parse_spec(civil_fmt(civil_of(t))) == Some(t),
{
    lemma_civil_of(t);
    lemma_format_parse_round_trip(civil_of(t));
}

/// Round-trip law: the rendering of a valid civil date and time in the fixed
/// format parses back to exactly the instant it denotes.
pub proof fn lemma_format_parse_round_trip(c: CivilDateTime)
    requires
        c.wf(),
    ensures
        parse_spec(civil_fmt(c)) == Some(c.instant()),
{
    let s = civil_fmt(c);
    lemma_four_digit_value(c.year as int);
    lemma_two_digit_value(c.month as int);
    lemma_two_digit_value(c.day as int);
    lemma_two_digit_value(c.hour as int);
    lemma_two_digit_value(c.minute as int);
    lemma_two_digit_value(c.second as int);
    assert(forall|k: int| 0 <= k <= 9 ==> digit_val(digit_char(k)) == k);
    assert(s =~= seq![
        digit_char(c.year as int / 1000),
        digit_char(c.year as int / 100 % 10),
        digit_char(c.year as int / 10 % 10),
        digit_char(c.year as int % 10),
        '-',
        digit_char(c.month as int / 10),
        digit_char(c.month as int % 10),
        '-',
        digit_char(c.day as int / 10),
        digit_char(c.day as int % 10),
        ' ',
        digit_char(c.hour as int / 10),
        digit_char(c.hour as int % 10),
        ':',
        digit_char(c.minute as int / 10),
        digit_char(c.minute as int % 10),
        ':',
        digit_char(c.second as int / 10),
        digit_char(c.second as int % 10),
        'Z',
    ]);
    assert(digit_val(s[0]) * 1000 + digit_val(s[1]) * 100 + digit_val(s[2]) * 10 + digit_val(s[3])
        == c.year as int);
    assert(digit_val(s[5]) * 10 + digit_val(s[6]) == c.month as int);
    assert(digit_val(s[8]) * 10 + digit_val(s[9]) == c.day as int);
    assert(digit_val(s[11]) * 10 + digit_val(s[12]) == c.hour as int);
    assert(digit_val(s[14]) * 10 + digit_val(s[15]) == c.minute as int);
    assert(digit_val(s[17]) * 10 + digit_val(s[18]) == c.second as int);
}

} // verus!
