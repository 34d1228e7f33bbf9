//! Dates written `YYYY-MM-DD`: reading their parts, the previous day, and where a day's
//! files are kept.
use vstd::prelude::*;
use crate::text::{chars_of, string_of, push_char, lines_view, str_result};
use crate::task::strings_view;

verus! {

broadcast use vstd::string::group_string_axioms;

/// Position of the first `sep` in `s`, if any.
pub open spec fn first_sep(s: Seq<char>, sep: char) -> Option<int>
    decreases s.len(),
{
    if s.len() == 0 {
        None
    } else if s[0] == sep {
        Some(0)
    } else {
        match first_sep(s.drop_first(), sep) {
            Some(k) => Some(k + 1),
            None => None,
        }
    }
}

/// The pieces of `s` between occurrences of `sep` (`str::split`): always at least one.
pub open spec fn pieces(s: Seq<char>, sep: char) -> Seq<Seq<char>>
    decreases s.len(),
{
    match first_sep(s, sep) {
        Some(k) => if 0 <= k < s.len() {
            seq![s.take(k)] + pieces(s.skip(k + 1), sep)
        } else {
            seq![s]
        },
        None => seq![s],
    }
}

/// An ASCII decimal digit.
pub open spec fn is_digit(c: char) -> bool {
    '0' <= c && c <= '9'
}

/// The number written by a string of decimal digits.
pub open spec fn digits_value(s: Seq<char>) -> int
    decreases s.len(),
{
    if s.len() == 0 {
        0
    } else {
        digits_value(s.drop_last()) * 10 + ((s.last() as u32) - ('0' as u32))
    }
}

/// The digits of a number: `s` without one leading sign.
pub open spec fn unsigned_part(s: Seq<char>) -> Seq<char> {
    if s.len() > 0 && (s[0] == '-' || s[0] == '+') {
        s.drop_first()
    } else {
        s
    }
}

/// Every character is an ASCII digit.
pub open spec fn all_digits(ds: Seq<char>) -> bool {
    forall|i: int| 0 <= i < ds.len() ==> is_digit(#[trigger] ds[i])
}

/// The value written by `s`, negative after a leading `-`.
pub open spec fn signed_value(s: Seq<char>) -> int {
    if s.len() > 0 && s[0] == '-' {
        -digits_value(unsigned_part(s))
    } else {
        digits_value(unsigned_part(s))
    }
}

/// `str::parse::<i32>`: an optional `+` or `-` sign, then one or more ASCII digits, with a
/// value that fits in `i32`.
pub open spec fn parsed_i32(s: Seq<char>) -> Option<int> {
    if unsigned_part(s).len() > 0 && all_digits(unsigned_part(s)) && i32::MIN <= signed_value(s)
        <= i32::MAX {
        Some(signed_value(s))
    } else {
        None
    }
}

/// Year, month and day of a date: its first three `-`-separated pieces, each an `i32`.
pub open spec fn parsed_date(s: Seq<char>) -> Option<(i32, i32, i32)> {
    let ps = pieces(s, '-');
    if ps.len() >= 3 && parsed_i32(ps[0]) is Some && parsed_i32(ps[1]) is Some && parsed_i32(
        ps[2],
    ) is Some {
        Some(
            (
                parsed_i32(ps[0])->0 as i32,
                parsed_i32(ps[1])->0 as i32,
                parsed_i32(ps[2])->0 as i32,
            ),
        )
    } else {
        None
    }
}

/// The error for a date that cannot be read.
pub open spec fn bad_date_message(date: Seq<char>) -> Seq<char> {
    "日付形式が不正です: "@ + date
}

/// A leap year of the Gregorian calendar.
pub open spec fn leap_year(year: int) -> bool {
    (year % 4 == 0 && year % 100 != 0) || year % 400 == 0
}

/// Days in a month; any month number outside 1..=12 counts 30 days.
pub open spec fn month_days(year: int, month: int) -> int {
    if month == 1 || month == 3 || month == 5 || month == 7 || month == 8 || month == 10 || month
        == 12 {
        31
    } else if month == 4 || month == 6 || month == 9 || month == 11 {
        30
    } else if month == 2 {
        if leap_year(year) {
            29
        } else {
            28
        }
    } else {
        30
    }
}

/// The day before: the same month unless the day was the first; the last day of the
/// previous month otherwise, going back a year from January.
pub open spec fn day_before(y: int, m: int, d: int) -> (int, int, int) {
    if d - 1 != 0 {
        (y, m, d - 1)
    } else if m - 1 != 0 {
        (y, m - 1, month_days(y, m - 1))
    } else {
        (y - 1, 12, month_days(y - 1, 12))
    }
}

/// The lengths of the twelve months of the Gregorian calendar: thirty-one days in
/// January, March, May, July, August, October and December, thirty in April, June,
/// September and November, and twenty-nine in February of a leap year, twenty-eight
/// otherwise; a year has 366 days when it is a leap year and 365 otherwise.
pub proof fn lemma_month_lengths(y: int)
    ensures
        forall|m: int|
            1 <= m <= 12 ==> #[trigger] month_days(y, m) == seq![
                31int,
                if leap_year(y) {
                    29int
                } else {
                    28int
                },
                31int,
                30int,
                31int,
                30int,
                31int,
                31int,
                30int,
                31int,
                30int,
                31int,
            ][m - 1],
        month_days(y, 1) + month_days(y, 2) + month_days(y, 3) + month_days(y, 4) + month_days(y, 5)
            + month_days(y, 6) + month_days(y, 7) + month_days(y, 8) + month_days(y, 9) + month_days(
            y,
            10,
        ) + month_days(y, 11) + month_days(y, 12) == if leap_year(y) {
            366int
        } else {
            365int
        },
{
}

/// Leap years of the Gregorian calendar: every fourth year, except the years that end a
/// century, except again every fourth of those.
pub proof fn lemma_leap_years(y: int)
    ensures
        y % 4 != 0 ==> !leap_year(y),
        y % 4 == 0 && y % 100 != 0 ==> leap_year(y),
        y % 100 == 0 && y % 400 != 0 ==> !leap_year(y),
        y % 400 == 0 ==> leap_year(y),
{
}

/// The day before the first of a month is the last day of the month before, and the day
/// before the first of January is the thirty-first of December of the year before.
pub proof fn lemma_day_before_first(y: int, m: int)
    requires
        1 <= m <= 12,
    ensures
        m > 1 ==> day_before(y, m, 1) == (y, m - 1, month_days(y, m - 1)),
        m == 1 ==> day_before(y, m, 1) == (y - 1, 12int, 31int),
        forall|d: int| 2 <= d <= 31 ==> #[trigger] day_before(y, m, d) == (y, m, d - 1),
{
}

/// Going back a day subtracts from a part that is `i32::MIN`.
pub open spec fn day_before_overflows(y: int, m: int, d: int) -> bool {
    d == i32::MIN || (d == 1 && m == i32::MIN) || (d == 1 && m == 1 && y == i32::MIN)
}

/// Decimal digits of a natural number, without leading zeros.
pub open spec fn decimal(v: nat) -> Seq<char>
    decreases v,
{
    if v < 10 {
        seq![((v + ('0' as u32)) as u32) as char]
    } else {
        decimal(v / 10) + seq![((v % 10 + ('0' as u32)) as u32) as char]
    }
}

/// `n` zeros.
pub open spec fn zeros(n: nat) -> Seq<char>
    decreases n,
{
    if n == 0 {
        Seq::empty()
    } else {
        zeros((n - 1) as nat).push('0')
    }
}

/// `format!("{:0w$}", n)`: the sign, then zeros up to the width, then the digits.
pub open spec fn padded(n: int, w: nat) -> Seq<char> {
    let ds = if n < 0 {
        decimal((-n) as nat)
    } else {
        decimal(n as nat)
    };
    let sign: Seq<char> = if n < 0 {
        seq!['-']
    } else {
        Seq::empty()
    };
    let fill: int = w - sign.len() - ds.len();
    sign + zeros(if fill > 0 {
        fill as nat
    } else {
        0
    }) + ds
}

/// `YYYY-MM-DD`, each part zero-padded.
pub open spec fn date_text(y: int, m: int, d: int) -> Seq<char> {
    padded(y, 4) + seq!['-'] + padded(m, 2) + seq!['-'] + padded(d, 2)
}

/// A leap year of the Gregorian calendar.
pub fn is_leap_year(year: i32) -> (b: bool)
    ensures
        b == leap_year(year as int),
{
    (year % 4 == 0 && year % 100 != 0) || year % 400 == 0
}

/// Days in a month; any month number outside 1..=12 counts 30 days.
pub fn days_in_month(year: i32, month: i32) -> (n: i32)
    ensures
        n == month_days(year as int, month as int),
{
    match month {
        1 | 3 | 5 | 7 | 8 | 10 | 12 => 31,
        4 | 6 | 9 | 11 => 30,
        2 => if is_leap_year(year) {
            29
        } else {
            28
        },
        _ => 30,
    }
}

/// The `-`-separated pieces of `s`.
pub fn split_pieces(s: &[char], sep: char) -> (ps: Vec<Vec<char>>)
    ensures
        lines_view(ps@) == pieces(s@, sep),
{
    let mut ps: Vec<Vec<char>> = Vec::new();
    let mut pos: usize = 0;
    assert(s@.skip(0) == s@);
    loop
        invariant
            pos <= s@.len(),
            pieces(s@, sep) == lines_view(ps@) + pieces(s@.skip(pos as int), sep),
        decreases s@.len() - pos,
    {
        let mut k = pos;
        while k < s.len() && s[k] != sep
            invariant
                pos <= k <= s@.len(),
                forall|m: int| pos <= m < k ==> #[trigger] s@[m] != sep,
            decreases s@.len() - k,
        {
            k = k + 1;
        }
        let ghost t = s@.skip(pos as int);
        proof {
            assert forall|m: int| 0 <= m < k - pos implies #[trigger] t[m] != sep by {
                assert(t[m] == s@[pos + m]);
            }
            lemma_first_sep_at(t, sep, k - pos);
        }
        let piece = vstd::slice::slice_to_vec(vstd::slice::slice_subrange(s, pos, k));
        let ghost before = lines_view(ps@);
        ps.push(piece);
        assert(lines_view(ps@) =~= before.push(piece@));
        if k < s.len() {
            assert(t.take(k - pos) == piece@);
            assert(t.skip(k - pos + 1) == s@.skip(k + 1));
            pos = k + 1;
        } else {
            assert(t == piece@);
            assert(lines_view(ps@) =~= before + seq![piece@]);
            return ps;
        }
    }
}

proof fn lemma_first_sep_at(t: Seq<char>, sep: char, k: int)
    requires
        0 <= k <= t.len(),
        forall|m: int| 0 <= m < k ==> #[trigger] t[m] != sep,
        k < t.len() ==> t[k] == sep,
    ensures
        first_sep(t, sep) == (if k < t.len() { Some(k) } else { None::<int> }),
    decreases k,
{
    if k > 0 {
        lemma_first_sep_at(t.drop_first(), sep, k - 1);
    }
}

proof fn lemma_digits_nonneg(ds: Seq<char>)
    requires
        forall|i: int| 0 <= i < ds.len() ==> is_digit(#[trigger] ds[i]),
    ensures
        digits_value(ds) >= 0,
    decreases ds.len(),
{
    if ds.len() > 0 {
        lemma_digits_nonneg(ds.drop_last());
    }
}

proof fn lemma_digits_prefix(ds: Seq<char>, k: int)
    requires
        0 <= k <= ds.len(),
        forall|i: int| 0 <= i < ds.len() ==> is_digit(#[trigger] ds[i]),
    ensures
        digits_value(ds.take(k)) <= digits_value(ds),
    decreases ds.len(),
{
    if k < ds.len() {
        let init = ds.drop_last();
        lemma_digits_prefix(init, k);
        assert(init.take(k) == ds.take(k));
        lemma_digits_nonneg(init);
    } else {
        assert(ds.take(k) == ds);
    }
}

/// `str::parse::<i32>` (see `parsed_i32`).
pub fn parse_i32_chars(s: &[char]) -> (r: Option<i32>)
    ensures
        match r {
            Some(v) => parsed_i32(s@) == Some(v as int),
            None => parsed_i32(s@) is None,
        },
{
    let mut start: usize = 0;
    let mut neg = false;
    if s.len() > 0 && (s[0] == '-' || s[0] == '+') {
        neg = s[0] == '-';
        start = 1;
    }
    let ghost ds = s@.skip(start as int);
    assert(ds == unsigned_part(s@));
    if start == s.len() {
        return None;
    }
    let mut acc: u64 = 0;
    let mut i: usize = start;
    assert(ds.take(0) =~= Seq::<char>::empty());
    while i < s.len()
        invariant
            start <= i <= s@.len(),
            ds == s@.skip(start as int),
            acc == digits_value(ds.take(i - start)),
            acc <= 2147483648u64,
            forall|m: int| 0 <= m < i - start ==> is_digit(#[trigger] ds[m]),
            ds == unsigned_part(s@),
            neg == (s@.len() > 0 && s@[0] == '-'),
            ds.len() > 0,
        decreases s@.len() - i,
    {
        let c = s[i];
        assert(ds[i - start] == c);
        if !('0' <= c && c <= '9') {
            assert(!is_digit(ds[i - start]));
            assert(!all_digits(ds));
            return None;
        }
        let d = (c as u32 - '0' as u32) as u64;
        assert(ds.take(i - start + 1).drop_last() == ds.take(i - start));
        acc = acc * 10 + d;
        if acc > 2147483648u64 {
            proof {
                if all_digits(ds) {
                    lemma_digits_prefix(ds, i - start + 1);
                }
            }
            return None;
        }
        i = i + 1;
    }
    assert(ds.take(i - start) == ds);
    if neg {
        if acc == 2147483648u64 {
            Some(i32::MIN)
        } else {
            Some(-(acc as i32))
        }
    } else {
        if acc > 2147483647u64 {
            None
        } else {
            Some(acc as i32)
        }
    }
}

/// The error for a date that cannot be read.
fn bad_date(date: &str) -> (e: String)
    ensures
        e@ == bad_date_message(date@),
{
    let mut e = "日付形式が不正です: ".to_string();
    e.append(date);
    e
}

/// Year, month and day of a date (see `parsed_date`), or the error for a date that
/// cannot be read.
pub fn date_parts(date: &str) -> (r: Result<(i32, i32, i32), String>)
    ensures
        match r {
            Ok(p) => parsed_date(date@) == Some(p),
            Err(e) => parsed_date(date@) is None && e@ == bad_date_message(date@),
        },
{
    let v = chars_of(date);
    let ps = split_pieces(v.as_slice(), '-');
    if ps.len() < 3 {
        return Err(bad_date(date));
    }
    assert(lines_view(ps@)[0] == ps@[0]@);
    assert(lines_view(ps@)[1] == ps@[1]@);
    assert(lines_view(ps@)[2] == ps@[2]@);
    let y = parse_i32_chars(ps[0].as_slice());
    let m = parse_i32_chars(ps[1].as_slice());
    let d = parse_i32_chars(ps[2].as_slice());
    match (y, m, d) {
        (Some(y), Some(m), Some(d)) => Ok((y, m, d)),
        _ => Err(bad_date(date)),
    }
}

/// Appends the decimal digits of `v`.
pub(crate) fn push_decimal(out: &mut String, v: u64)
    ensures
        final(out)@ == old(out)@ + decimal(v as nat),
    decreases v,
{
    if v >= 10 {
        push_decimal(out, v / 10);
    }
    let c = ((v % 10) as u8 + 48u8) as char;
    assert(c == (((v % 10) + ('0' as u32)) as u32) as char);
    push_char(out, c);
    proof {
        if v < 10 {
            assert(v % 10 == v);
        }
    }
}

/// Appends `n` zero-padded to at least `width` characters, sign included.
fn push_padded(out: &mut String, n: i32, width: usize)
    ensures
        final(out)@ == old(out)@ + padded(n as int, width as nat),
{
    let mag: u64 = if n < 0 {
        (0i64 - (n as i64)) as u64
    } else {
        n as u64
    };
    let mut digits = String::new();
    push_decimal(&mut digits, mag);
    let sign_len: usize = if n < 0 {
        1
    } else {
        0
    };
    if n < 0 {
        push_char(out, '-');
    }
    let dl = digits.unicode_len();
    let fill: usize = if width > dl && width - dl > sign_len {
        width - dl - sign_len
    } else {
        0
    };
    let ghost before = out@;
    let mut k: usize = 0;
    while k < fill
        invariant
            k <= fill,
            out@ == before + zeros(k as nat),
        decreases fill - k,
    {
        push_char(out, '0');
        k = k + 1;
    }
    out.append(digits.as_str());
}

/// The spec of `previous_date_string`: the day before, or the error for an unreadable date.
pub open spec fn previous_date_result(date: Seq<char>) -> Result<Seq<char>, Seq<char>> {
    match parsed_date(date) {
        Some((y, m, d)) => {
            let (a, b, c) = day_before(y as int, m as int, d as int);
            Ok(date_text(a, b, c))
        },
        None => Err(bad_date_message(date)),
    }
}

/// Going back a day from `date` does not subtract from a part that is `i32::MIN`.
pub open spec fn previous_date_defined(date: Seq<char>) -> bool {
    match parsed_date(date) {
        Some((y, m, d)) => !day_before_overflows(y as int, m as int, d as int),
        None => true,
    }
}

/// The day before `date`, written `YYYY-MM-DD` (see `previous_date_result`).
pub fn previous_date_string(date: &str) -> (r: Result<String, String>)
    requires
        previous_date_defined(date@),
    ensures
        str_result(r) == previous_date_result(date@),
{
    let (mut year, mut month, mut day) = match date_parts(date) {
        Ok(p) => p,
        Err(e) => {
            return Err(e);
        },
    };
    let ghost y0 = year as int;
    let ghost m0 = month as int;
    let ghost d0 = day as int;
    day = day - 1;
    if day == 0 {
        month = month - 1;
        if month == 0 {
            year = year - 1;
            month = 12;
        }
        day = days_in_month(year, month);
    }
    assert((year as int, month as int, day as int) == day_before(y0, m0, d0));
    let mut out = String::new();
    push_padded(&mut out, year, 4);
    push_char(&mut out, '-');
    push_padded(&mut out, month, 2);
    push_char(&mut out, '-');
    push_padded(&mut out, day, 2);
    assert(out@ =~= date_text(year as int, month as int, day as int));
    Ok(out)
}

/// A text without `sep`.
pub open spec fn free_of(s: Seq<char>, sep: char) -> bool {
    forall|i: int| 0 <= i < s.len() ==> #[trigger] s[i] != sep
}

/// The pieces of `a-b` where `a` holds no `-`.
proof fn lemma_pieces_split(a: Seq<char>, b: Seq<char>)
    requires
        free_of(a, '-'),
    ensures
        pieces(a + seq!['-'] + b, '-') == seq![a] + pieces(b, '-'),
{
    let s = a + seq!['-'] + b;
    assert forall|m: int| 0 <= m < a.len() implies #[trigger] s[m] != '-' by {
        assert(s[m] == a[m]);
    }
    assert(s[a.len() as int] == '-');
    lemma_first_sep_at(s, '-', a.len() as int);
    assert(s.take(a.len() as int) == a);
    assert(s.skip(a.len() as int + 1) == b);
}

/// The digit character of a value below ten.
proof fn lemma_digit_char(k: nat)
    requires
        k < 10,
    ensures
        is_digit(((k + ('0' as u32)) as u32) as char),
        ((((k + ('0' as u32)) as u32) as char) as u32) - ('0' as u32) == k,
{
}

proof fn lemma_decimal_digits(v: nat)
    ensures
        decimal(v).len() > 0,
        all_digits(decimal(v)),
        digits_value(decimal(v)) == v,
    decreases v,
{
    if v < 10 {
        lemma_digit_char(v);
        assert(decimal(v).drop_last() =~= Seq::<char>::empty());
        assert(digits_value(Seq::<char>::empty()) == 0);
    } else {
        lemma_decimal_digits(v / 10);
        lemma_digit_char(v % 10);
        let ds = decimal(v);
        assert(ds.drop_last() == decimal(v / 10));
        assert(ds.last() == ((v % 10 + ('0' as u32)) as u32) as char);
        assert((v / 10) * 10 + v % 10 == v) by (nonlinear_arith);
        assert forall|i: int| 0 <= i < ds.len() implies is_digit(#[trigger] ds[i]) by {
            if i < ds.len() - 1 {
                assert(ds[i] == decimal(v / 10)[i]);
            }
        }
    }
}

proof fn lemma_zeros_digits(n: nat)
    ensures
        zeros(n).len() == n,
        all_digits(zeros(n)),
        digits_value(zeros(n)) == 0,
    decreases n,
{
    if n > 0 {
        lemma_zeros_digits((n - 1) as nat);
        assert(zeros(n).drop_last() == zeros((n - 1) as nat));
        assert forall|i: int| 0 <= i < zeros(n).len() implies is_digit(#[trigger] zeros(n)[i]) by {
            if i < n - 1 {
                assert(zeros(n)[i] == zeros((n - 1) as nat)[i]);
            }
        }
    }
}

/// Leading zeros do not change the value of digits.
proof fn lemma_leading_zeros_value(z: nat, ds: Seq<char>)
    ensures
        digits_value(zeros(z) + ds) == digits_value(ds),
    decreases ds.len(),
{
    if ds.len() == 0 {
        lemma_zeros_digits(z);
        assert(zeros(z) + ds == zeros(z));
    } else {
        lemma_leading_zeros_value(z, ds.drop_last());
        assert((zeros(z) + ds).drop_last() == zeros(z) + ds.drop_last());
        assert((zeros(z) + ds).last() == ds.last());
    }
}

/// A part written for a date, when not negative, reads back as its value.
proof fn lemma_padded_reads_back(n: int, w: nat)
    requires
        0 <= n <= i32::MAX,
    ensures
        free_of(padded(n, w), '-'),
        parsed_i32(padded(n, w)) == Some(n),
{
    let ds = decimal(n as nat);
    let fill: int = w - ds.len();
    let z: nat = if fill > 0 {
        fill as nat
    } else {
        0
    };
    let p = padded(n, w);
    lemma_decimal_digits(n as nat);
    lemma_zeros_digits(z);
    lemma_leading_zeros_value(z, ds);
    assert(p == zeros(z) + ds);
    assert forall|i: int| 0 <= i < p.len() implies is_digit(#[trigger] p[i]) by {
        if i < z {
            assert(p[i] == zeros(z)[i]);
        } else {
            assert(p[i] == ds[i - z]);
        }
    }
    assert forall|i: int| 0 <= i < p.len() implies #[trigger] p[i] != '-' by {
        assert(is_digit(p[i]));
    }
    assert(is_digit(p[0]));
    assert(unsigned_part(p) == p);
}

/// The previous day of a date, when none of its parts is negative, reads back as the
/// year, month and day before that date.
pub proof fn lemma_previous_date_reads_back(date: Seq<char>, y: i32, m: i32, d: i32)
    requires
        parsed_date(date) == Some((y, m, d)),
        !day_before_overflows(y as int, m as int, d as int),
        day_before(y as int, m as int, d as int).0 >= 0,
        day_before(y as int, m as int, d as int).1 >= 0,
        day_before(y as int, m as int, d as int).2 >= 0,
    ensures
        previous_date_result(date) matches Ok(p) && parsed_date(p) == Some(
            (
                day_before(y as int, m as int, d as int).0 as i32,
                day_before(y as int, m as int, d as int).1 as i32,
                day_before(y as int, m as int, d as int).2 as i32,
            ),
        ),
{
    let (a, b, c) = day_before(y as int, m as int, d as int);
    let pa = padded(a, 4);
    let pb = padded(b, 2);
    let pc = padded(c, 2);
    lemma_padded_reads_back(a, 4);
    lemma_padded_reads_back(b, 2);
    lemma_padded_reads_back(c, 2);
    let t = date_text(a, b, c);
    assert(t == pa + seq!['-'] + (pb + seq!['-'] + pc));
    lemma_pieces_split(pa, pb + seq!['-'] + pc);
    lemma_pieces_split(pb, pc);
    lemma_first_sep_at(pc, '-', pc.len() as int);
    assert(pieces(pc, '-') == seq![pc]);
    assert(pieces(t, '-') == seq![pa, pb, pc]);
}

/// Bytes of one character in UTF-8.
pub open spec fn utf8_width(c: char) -> nat {
    if (c as u32) < 0x80 {
        1
    } else if (c as u32) < 0x800 {
        2
    } else if (c as u32) < 0x10000 {
        3
    } else {
        4
    }
}

/// Bytes of a text in UTF-8 (`str::len`).
pub open spec fn utf8_len(s: Seq<char>) -> nat
    decreases s.len(),
{
    if s.len() == 0 {
        0
    } else {
        utf8_len(s.drop_last()) + utf8_width(s.last())
    }
}

/// The year of a date: its first `-`-separated piece when that is four bytes long.
pub open spec fn year_of(date: Seq<char>) -> Result<Seq<char>, Seq<char>> {
    let y = pieces(date, '-')[0];
    if utf8_len(y) == 4 {
        Ok(y)
    } else {
        Err(bad_date_message(date))
    }
}

fn utf8_len_exec(s: &[char]) -> (n: usize)
    ensures
        n == utf8_len(s@) || (n == 5 && utf8_len(s@) > 4),
{
    let mut n: usize = 0;
    let mut i: usize = 0;
    while i < s.len()
        invariant
            i <= s@.len(),
            n <= 4,
            n == utf8_len(s@.take(i as int)),
        decreases s@.len() - i,
    {
        let c = s[i] as u32;
        let w: usize = if c < 0x80 {
            1
        } else if c < 0x800 {
            2
        } else if c < 0x10000 {
            3
        } else {
            4
        };
        assert(s@.take(i + 1).drop_last() == s@.take(i as int));
        if n + w > 4 {
            proof {
                lemma_utf8_len_prefix(s@, i + 1);
            }
            return 5;
        }
        n = n + w;
        i = i + 1;
    }
    assert(s@.take(i as int) == s@);
    n
}

proof fn lemma_utf8_len_prefix(s: Seq<char>, k: int)
    requires
        0 <= k <= s.len(),
    ensures
        utf8_len(s.take(k)) <= utf8_len(s),
    decreases s.len(),
{
    if k < s.len() {
        lemma_utf8_len_prefix(s.drop_last(), k);
        assert(s.drop_last().take(k) == s.take(k));
    } else {
        assert(s.take(k) == s);
    }
}

/// The year of a date (see `year_of`).
pub fn year_from_date(date: &str) -> (r: Result<String, String>)
    ensures
        str_result(r) == year_of(date@),
{
    let v = chars_of(date);
    let ps = split_pieces(v.as_slice(), '-');
    assert(pieces(v@, '-').len() >= 1);
    assert(lines_view(ps@)[0] == ps@[0]@);
    if utf8_len_exec(ps[0].as_slice()) == 4 {
        Ok(string_of(ps[0].as_slice()))
    } else {
        Err(bad_date(date))
    }
}

/// Where a day's editing state is kept, as path segments below the workspace:
/// `.work-log-state/entries/<year or "unknown">/<date>.json`.
pub open spec fn state_path_of(date: Seq<char>) -> Seq<Seq<char>> {
    seq![
        ".work-log-state"@,
        "entries"@,
        match year_of(date) {
            Ok(y) => y,
            Err(_) => "unknown"@,
        },
        date + ".json"@,
    ]
}

/// Where a day's Markdown is kept, as path segments below the workspace:
/// `daily/<year>/<date>.md`, or the error for a date without a year.
pub open spec fn markdown_path_of(date: Seq<char>) -> Result<Seq<Seq<char>>, Seq<char>> {
    match year_of(date) {
        Ok(y) => Ok(seq!["daily"@, y, date + ".md"@]),
        Err(e) => Err(e),
    }
}

/// Path segments of a day's editing state below the workspace (see `state_path_of`).
pub fn entry_state_path(date: &str) -> (p: Vec<String>)
    ensures
        strings_view(p@) == state_path_of(date@),
{
    let year = match year_from_date(date) {
        Ok(y) => y,
        Err(_) => "unknown".to_string(),
    };
    let mut file = date.to_string();
    file.append(".json");
    let mut p: Vec<String> = Vec::new();
    p.push(".work-log-state".to_string());
    p.push("entries".to_string());
    p.push(year);
    p.push(file);
    assert(strings_view(p@) =~= state_path_of(date@));
    p
}

/// Path segments of a day's Markdown below the workspace (see `markdown_path_of`).
pub fn markdown_output_path(date: &str) -> (r: Result<Vec<String>, String>)
    ensures
        match r {
            Ok(p) => markdown_path_of(date@) == Ok::<Seq<Seq<char>>, Seq<char>>(strings_view(p@)),
            Err(e) => markdown_path_of(date@) == Err::<Seq<Seq<char>>, Seq<char>>(e@),
        },
{
    let year = match year_from_date(date) {
        Ok(y) => y,
        Err(e) => {
            return Err(e);
        },
    };
    let mut file = date.to_string();
    file.append(".md");
    let mut p: Vec<String> = Vec::new();
    p.push("daily".to_string());
    p.push(year);
    p.push(file);
    assert(strings_view(p@) =~= seq!["daily"@, year_of(date@)->Ok_0, date@ + ".md"@]);
    Ok(p)
}

} // verus!
