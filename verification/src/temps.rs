//! Times of day and calendar dates, as plain values.
//!
//! The feed reports takeoff and landing as a time of day; the journal stamps
//! each edit with the time it was made; the store lays files out by calendar
//! date.  Midnight (`00:00:00`) doubles as the sentinel for "not yet known",
//! which is why a freshly created flight carries it in both time fields.

use chrono::Timelike;
use vstd::prelude::*;

verus! {

/// A time of day with second precision.
#[derive(Clone, Copy, Debug, PartialEq, Eq, Structural)]
pub struct Time {
    pub hour: u8,
    pub minute: u8,
    pub second: u8,
}

impl Time {
    /// A well-formed time of day.
    pub open spec fn wf(self) -> bool {
        self.hour < 24 && self.minute < 60 && self.second < 60
    }

    /// The sentinel meaning "not yet known": midnight.
    pub open spec fn spec_sentinel() -> Time {
        Time { hour: 0, minute: 0, second: 0 }
    }

    /// Builds the sentinel time.
    pub fn sentinel() -> (t: Time)
        ensures
            t == Time::spec_sentinel(),
    {
        Time { hour: 0, minute: 0, second: 0 }
    }

    /// Whether this time still carries the sentinel.
    pub open spec fn is_sentinel(self) -> bool {
        self == Time::spec_sentinel()
    }

    /// Number of seconds since midnight.
    pub open spec fn spec_seconds(self) -> int {
        self.hour * 3600 + self.minute * 60 + self.second
    }

    /// Number of seconds since midnight.
    pub fn seconds_of_day(&self) -> (s: u32)
        ensures
            s == self.spec_seconds(),
    {
        self.hour as u32 * 3600 + self.minute as u32 * 60 + self.second as u32
    }
}

/// A calendar date.
#[derive(Clone, Copy, Debug, PartialEq, Eq, Structural)]
pub struct Date {
    pub year: i32,
    pub month: u8,
    pub day: u8,
}

/// Whether a year is a leap year of the Gregorian calendar.
pub open spec fn spec_leap_year(year: int) -> bool {
    year % 4 == 0 && (year % 100 != 0 || year % 400 == 0)
}

/// How many days the given month of the given year has.
pub open spec fn spec_days_in_month(year: int, month: int) -> int {
    if month == 2 {
        if spec_leap_year(year) {
            29
        } else {
            28
        }
    } else if month == 4 || month == 6 || month == 9 || month == 11 {
        30
    } else {
        31
    }
}

impl Date {
    /// A well-formed calendar date.
    pub open spec fn wf(self) -> bool {
        1 <= self.month <= 12 && 1 <= self.day <= spec_days_in_month(
            self.year as int,
            self.month as int,
        )
    }

    /// How many days the month of this date has.
    pub fn days_in_month(year: i32, month: u8) -> (d: u8)
        ensures
            d == spec_days_in_month(year as int, month as int),
    {
        if month == 2 {
            if (year % 4 == 0) && (year % 100 != 0 || year % 400 == 0) {
                29
            } else {
                28
            }
        } else if month == 4 || month == 6 || month == 9 || month == 11 {
            30
        } else {
            31
        }
    }

    /// Checks every calendar rule, leap years included.
    pub fn valid(year: i32, month: u8, day: u8) -> (ok: bool)
        ensures
            ok == (Date { year, month, day }).wf(),
    {
        1 <= month && month <= 12 && 1 <= day && day <= Date::days_in_month(year, month)
    }
}

/// The character of one decimal digit.
pub open spec fn spec_digit_char(d: int) -> char {
    if d == 0 {
        '0'
    } else if d == 1 {
        '1'
    } else if d == 2 {
        '2'
    } else if d == 3 {
        '3'
    } else if d == 4 {
        '4'
    } else if d == 5 {
        '5'
    } else if d == 6 {
        '6'
    } else if d == 7 {
        '7'
    } else if d == 8 {
        '8'
    } else {
        '9'
    }
}

/// Decimal rendering of a non-negative number.
pub open spec fn spec_dec_nat(n: nat) -> Seq<char>
    decreases n,
{
    if n < 10 {
        seq![spec_digit_char(n as int)]
    } else {
        spec_dec_nat(n / 10) + seq![spec_digit_char((n % 10) as int)]
    }
}

/// Decimal rendering of a signed number, with a leading minus sign when
/// negative.
pub open spec fn spec_dec_i32(n: int) -> Seq<char> {
    if n < 0 {
        seq!['-'] + spec_dec_nat((-n) as nat)
    } else {
        spec_dec_nat(n as nat)
    }
}

/// One decimal digit as a borrowed one-character string.
fn digit_str(d: u32) -> (r: &'static str)
    requires
        d < 10,
    ensures
        r@ == seq![spec_digit_char(d as int)],
{
    proof {
        reveal_strlit("0");
        reveal_strlit("1");
        reveal_strlit("2");
        reveal_strlit("3");
        reveal_strlit("4");
        reveal_strlit("5");
        reveal_strlit("6");
        reveal_strlit("7");
        reveal_strlit("8");
        reveal_strlit("9");
    }
    if d == 0 {
        "0"
    } else if d == 1 {
        "1"
    } else if d == 2 {
        "2"
    } else if d == 3 {
        "3"
    } else if d == 4 {
        "4"
    } else if d == 5 {
        "5"
    } else if d == 6 {
        "6"
    } else if d == 7 {
        "7"
    } else if d == 8 {
        "8"
    } else {
        "9"
    }
}

/// Decimal rendering of a non-negative number.
pub fn dec_u32_string(n: u32) -> (r: String)
    ensures
        r@ == spec_dec_nat(n as nat),
    decreases n,
{
    let d = digit_str(n % 10);
    if n < 10 {
        let mut r = String::new();
        r.append(d);
        assert(r@ =~= seq![spec_digit_char((n % 10) as int)]);
        r
    } else {
        let mut r = dec_u32_string(n / 10);
        r.append(d);
        assert(r@ =~= spec_dec_nat((n / 10) as nat) + seq![spec_digit_char((n % 10) as int)]);
        r
    }
}

impl Default for Time {
    /// Midnight, the sentinel.
    fn default() -> (t: Time)
        ensures
            t == Time::spec_sentinel(),
    {
        Time { hour: 0, minute: 0, second: 0 }
    }
}

impl Default for Date {
    /// The first day of 1970, the placeholder date of an empty update.
    fn default() -> (d: Date)
        ensures
            d == (Date { year: 1970, month: 1, day: 1 }),
    {
        Date { year: 1970, month: 1, day: 1 }
    }
}

/// The local time of day right now.
///
/// Relies on `chrono::Local::now` and the `Timelike` accessors: hours run 0
/// to 23 and minutes and seconds 0 to 59 (a leap second hides in the
/// nanoseconds, never here).
#[verifier::external_body]
pub(crate) fn now_time() -> (t: Time)
    ensures
        t.wf(),
{
    let now = chrono::Local::now().time();
    Time { hour: now.hour() as u8, minute: now.minute() as u8, second: now.second() as u8 }
}

/// A time of day rendered `HH:MM`.
pub open spec fn spec_heure_hm(t: Time) -> Seq<char> {
    crate::spec_nb_2digits(t.hour as int) + seq![':'] + crate::spec_nb_2digits(t.minute as int)
}

/// Renders a time of day as `HH:MM`, seconds dropped.
pub fn heure_hm_string(t: &Time) -> (r: String)
    ensures
        r@ == spec_heure_hm(*t),
{
    let mut r = crate::nb_2digits_string(t.hour as i32);
    r.append(":");
    let minutes = crate::nb_2digits_string(t.minute as i32);
    r.append(minutes.as_str());
    proof {
        reveal_strlit(":");
        assert(r@ =~= spec_heure_hm(*t));
    }
    r
}

/// What `HH:MM` text means: hours, a colon, minutes, nothing else, both in
/// range; seconds zero.
pub open spec fn spec_parse_heure(s: Seq<char>) -> Option<Time> {
    if s.len() > 0 && crate::codec::spec_is_digit(s[0]) {
        match crate::codec::spec_parse_chiffres(s, 0, 0) {
            None => None,
            Some((h, i)) => {
                if 0 <= i < s.len() && s[i] == ':' && i + 1 < s.len() && crate::codec::spec_is_digit(
                    s[i + 1],
                ) {
                    match crate::codec::spec_parse_chiffres(s, i + 1, 0) {
                        None => None,
                        Some((m, j)) => {
                            if j == s.len() && h < 24 && m < 60 {
                                Some(Time { hour: h as u8, minute: m as u8, second: 0 })
                            } else {
                                None
                            }
                        },
                    }
                } else {
                    None
                }
            },
        }
    } else {
        None
    }
}

/// Reads a time of day from `HH:MM` text.
pub fn parse_heure(s: &str) -> (r: Option<Time>)
    ensures
        r == spec_parse_heure(s@),
{
    let n = s.unicode_len();
    if n > 0 {
        let c = s.get_char(0);
        if '0' <= c && c <= '9' {
            match crate::codec::parse_chiffres(s, 0, 0) {
                None => None,
                Some((h, i)) => {
                    if i < n && s.get_char(i) == ':' && i + 1 < n {
                        let c2 = s.get_char(i + 1);
                        if '0' <= c2 && c2 <= '9' {
                            match crate::codec::parse_chiffres(s, i + 1, 0) {
                                None => None,
                                Some((m, j)) => {
                                    if j == n && h < 24 && m < 60 {
                                        Some(
                                            Time {
                                                hour: h as u8,
                                                minute: m as u8,
                                                second: 0,
                                            },
                                        )
                                    } else {
                                        None
                                    }
                                },
                            }
                        } else {
                            None
                        }
                    } else {
                        None
                    }
                },
            }
        } else {
            None
        }
    } else {
        None
    }
}

/// A well-formed time of day written as `HH:MM` reads back as itself, its
/// seconds dropped: the two renderings of the codec agree.
pub proof fn lemma_heure_aller_retour(t: Time)
    requires
        t.wf(),
    ensures
        spec_parse_heure(spec_heure_hm(t)) == Some(
            Time { hour: t.hour, minute: t.minute, second: 0 },
        ),
{
    let s = spec_heure_hm(t);
    let (a1, a2) = lemma_nb_2digits_chars(t.hour as int);
    let (b1, b2) = lemma_nb_2digits_chars(t.minute as int);
    assert(s =~= seq![
        spec_digit_char(a1),
        spec_digit_char(a2),
        ':',
        spec_digit_char(b1),
        spec_digit_char(b2),
    ]);
    lemma_deux_chiffres(s, 0, a1, a2);
    lemma_deux_chiffres(s, 3, b1, b2);
    assert(spec_parse_heure(s) == Some(Time { hour: t.hour, minute: t.minute, second: 0 }));
}

/// The two-digit rendering of a number below one hundred is exactly two
/// digit characters whose value is the number again.
pub proof fn lemma_nb_2digits_chars(n: int) -> (r: (int, int))
    requires
        0 <= n < 100,
    ensures
        crate::spec_nb_2digits(n) =~= seq![spec_digit_char(r.0), spec_digit_char(r.1)],
        0 <= r.0 <= 9,
        0 <= r.1 <= 9,
        r.0 * 10 + r.1 == n,
{
    if n > 9 {
        assert(spec_dec_nat(n as nat) == spec_dec_nat(n as nat / 10) + seq![
            spec_digit_char(n % 10),
        ]);
        (n / 10, n % 10)
    } else {
        (0, n)
    }
}

/// Two digit characters at a position, followed by no third, read as their
/// two-digit value.
proof fn lemma_deux_chiffres(s: Seq<char>, i: int, a1: int, a2: int)
    requires
        0 <= a1 <= 9,
        0 <= a2 <= 9,
        0 <= i,
        i + 2 <= s.len(),
        s[i] == spec_digit_char(a1),
        s[i + 1] == spec_digit_char(a2),
        i + 2 == s.len() || !crate::codec::spec_is_digit(s[i + 2]),
    ensures
        crate::codec::spec_parse_chiffres(s, i, 0) == Some((a1 * 10 + a2, i + 2)),
{
    assert(crate::codec::spec_is_digit(spec_digit_char(a1)));
    assert(crate::codec::spec_digit_val(spec_digit_char(a1)) == a1);
    assert(crate::codec::spec_digit_val(spec_digit_char(a2)) == a2);
    assert(a1 <= (9223372036854775807 - a2) / 10) by (nonlinear_arith)
        requires
            0 <= a1 <= 9,
            0 <= a2 <= 9,
    ;
    assert(0 <= (9223372036854775807 - a1) / 10) by (nonlinear_arith)
        requires
            0 <= a1 <= 9,
    ;
    assert(crate::codec::spec_parse_chiffres(s, i + 2, a1 * 10 + a2) == Some(
        (a1 * 10 + a2, i + 2),
    ));
    assert(crate::codec::spec_parse_chiffres(s, i + 1, a1) == Some((a1 * 10 + a2, i + 2)));
    assert(crate::codec::spec_parse_chiffres(s, i, 0) == Some((a1 * 10 + a2, i + 2)));
}

/// Ten to the given power.
pub open spec fn spec_pow10(k: nat) -> int
    decreases k,
{
    if k == 0 {
        1
    } else {
        10 * spec_pow10((k - 1) as nat)
    }
}

/// Walking a rendered number digit by digit multiplies the accumulator up
/// and adds the number: the digit scanner consumes exactly the rendering.
proof fn lemma_chiffres_segment(s: Seq<char>, i: int, n: nat, acc: int)
    requires
        0 <= i,
        i + spec_dec_nat(n).len() <= s.len(),
        s.subrange(i, i + spec_dec_nat(n).len() as int) == spec_dec_nat(n),
        acc >= 0,
        acc * spec_pow10(spec_dec_nat(n).len()) + n <= 9223372036854775807,
    ensures
        crate::codec::spec_parse_chiffres(s, i, acc) == crate::codec::spec_parse_chiffres(
            s,
            i + spec_dec_nat(n).len() as int,
            acc * spec_pow10(spec_dec_nat(n).len()) + n,
        ),
    decreases n,
{
    let dec = spec_dec_nat(n);
    if n < 10 {
        assert(dec =~= seq![spec_digit_char(n as int)]);
        assert(s.subrange(i, i + 1) == dec);
        assert(s.subrange(i, i + 1)[0] == s[i]);
        assert(s[i] == spec_digit_char(n as int));
        assert(crate::codec::spec_is_digit(s[i]));
        assert(crate::codec::spec_digit_val(s[i]) == n as int);
        assert(spec_pow10(0) == 1);
        assert(spec_pow10(1) == 10);
        assert(acc * 10 + n <= 9223372036854775807);
        assert(acc <= (9223372036854775807 - n) / 10) by (nonlinear_arith)
            requires
                acc >= 0,
                0 <= n < 10,
                acc * 10 + n <= 9223372036854775807,
        ;
    } else {
        let a = spec_dec_nat(n / 10);
        let d = (n % 10) as int;
        assert(dec == a + seq![spec_digit_char(d)]);
        assert(a.len() + 1 == dec.len());
        assert(s.subrange(i, i + a.len() as int) =~= a) by {
            assert(forall|m: int|
                0 <= m < a.len() ==> s.subrange(i, i + dec.len() as int)[m] == #[trigger] s[i + m]);
        }
        let x = acc * spec_pow10(a.len()) + (n / 10);
        assert(spec_pow10(dec.len()) == 10 * spec_pow10(a.len()));
        lemma_pow10_pos(a.len());
        assert(x >= 0) by (nonlinear_arith)
            requires
                x == acc * spec_pow10(a.len()) + (n / 10),
                acc >= 0,
                spec_pow10(a.len()) >= 1,
                n >= 10,
        ;
        assert(x * 10 + d == acc * spec_pow10(dec.len()) + n) by (nonlinear_arith)
            requires
                x == acc * spec_pow10(a.len()) + (n / 10),
                spec_pow10(dec.len()) == 10 * spec_pow10(a.len()),
                n >= 10,
                d == n % 10,
        ;
        lemma_chiffres_segment(s, i, n / 10, acc);
        assert(s[i + a.len()] == dec[a.len() as int]);
        assert(s[i + a.len()] == spec_digit_char(d));
        assert(crate::codec::spec_is_digit(s[i + a.len()]));
        assert(crate::codec::spec_digit_val(s[i + a.len()]) == d);
        assert(x <= (9223372036854775807 - d) / 10) by (nonlinear_arith)
            requires
                x >= 0,
                0 <= d < 10,
                x * 10 + d <= 9223372036854775807,
        ;
        assert(crate::codec::spec_parse_chiffres(s, i + a.len(), x)
            == crate::codec::spec_parse_chiffres(s, i + dec.len(), x * 10 + d));
    }
}

proof fn lemma_pow10_pos(k: nat)
    ensures
        spec_pow10(k) >= 1,
    decreases k,
{
    if k > 0 {
        lemma_pow10_pos((k - 1) as nat);
    }
}

/// A rendered number followed by anything but a digit reads back as
/// itself.
pub proof fn lemma_parse_dec(s: Seq<char>, i: int, n: nat)
    requires
        0 <= i,
        i + spec_dec_nat(n).len() <= s.len(),
        s.subrange(i, i + spec_dec_nat(n).len() as int) == spec_dec_nat(n),
        n <= 9223372036854775807,
        i + spec_dec_nat(n).len() == s.len() || !crate::codec::spec_is_digit(
            s[i + spec_dec_nat(n).len()],
        ),
    ensures
        crate::codec::spec_parse_chiffres(s, i, 0) == Some((n as int, i + spec_dec_nat(n).len())),
{
    lemma_pow10_pos(spec_dec_nat(n).len());
    assert(0 * spec_pow10(spec_dec_nat(n).len()) == 0) by (nonlinear_arith);
    lemma_chiffres_segment(s, i, n, 0);
}

/// A rendered date reads back as itself: the two renderings of the codec
/// agree for every valid date of the four-digit era.
pub proof fn lemma_date_aller_retour(d: Date)
    requires
        d.wf(),
        0 <= d.year <= 9999,
    ensures
        spec_parse_date(spec_date_ymd(d)) == Some(d),
{
    let s = spec_date_ymd(d);
    let y = d.year as int;
    let a = spec_annee_str(y);
    let dec = spec_dec_nat(y as nat);
    let zeros = a.len() - dec.len();
    assert(a == (if y < 10 {
        seq!['0', '0', '0'] + dec
    } else if y < 100 {
        seq!['0', '0'] + dec
    } else if y < 1000 {
        seq!['0'] + dec
    } else {
        dec
    }));
    lemma_dec_nat_bornes(y as nat);
    assert(a.len() == zeros + dec.len());
    assert(forall|m: int| 0 <= m < zeros ==> a[m] == '0');
    assert(forall|m: int| 0 <= m < dec.len() ==> a[zeros + m] == dec[m]);
    let (m1, m2) = lemma_nb_2digits_chars(d.month as int);
    let (j1, j2) = lemma_nb_2digits_chars(d.day as int);
    assert(s =~= a + seq!['/', spec_digit_char(m1), spec_digit_char(m2), '/', spec_digit_char(
        j1,
    ), spec_digit_char(j2)]);
    // the leading zeros keep the accumulator at zero
    assert forall|l: int| 0 <= l < zeros implies s.index(l) == '0' by {
        assert(s[l] == a[l]);
    }
    lemma_zeros_en_tete(s, 0, zeros);
    assert(crate::codec::spec_parse_chiffres(s, 0, 0) == crate::codec::spec_parse_chiffres(
        s,
        zeros,
        0,
    ));
    assert(s.subrange(zeros, zeros + dec.len() as int) =~= dec);
    assert(s[zeros + dec.len()] == '/');
    lemma_parse_dec(s, zeros, y as nat);
    assert(crate::codec::spec_parse_chiffres(s, 0, 0) == Some((y, a.len() as int)));
    lemma_dec_commence_par_chiffre(y as nat);
    if zeros > 0 {
        assert(s[0] == '0');
    } else {
        assert(s[0] == dec[0]);
    }
    assert(crate::codec::spec_is_digit(s[0]));
    lemma_deux_chiffres(s, a.len() as int + 1, m1, m2);
    lemma_deux_chiffres(s, a.len() as int + 4, j1, j2);
    assert(s[a.len() as int] == '/');
    assert(s[a.len() as int + 3] == '/');
    assert(crate::codec::spec_is_digit(s[a.len() as int + 1]));
    assert(crate::codec::spec_is_digit(s[a.len() as int + 4]));
    assert(spec_parse_date(s) == Some(d));
}

/// A rendering holds digits only.
pub proof fn lemma_dec_nat_chiffres(n: nat)
    ensures
        forall|l: int|
            0 <= l < spec_dec_nat(n).len() ==> crate::codec::spec_is_digit(
                #[trigger] spec_dec_nat(n).index(l),
            ),
    decreases n,
{
    if n >= 10 {
        lemma_dec_nat_chiffres(n / 10);
        assert forall|l: int|
            0 <= l < spec_dec_nat(n).len() implies crate::codec::spec_is_digit(
            #[trigger] spec_dec_nat(n).index(l),
        ) by {
            if l < spec_dec_nat(n / 10).len() {
                assert(spec_dec_nat(n)[l] == spec_dec_nat(n / 10)[l]);
            }
        }
    }
}

/// A rendered date holds digits and slashes only: no quote.
pub proof fn lemma_date_ymd_sans_guillemet(d: Date)
    requires
        d.wf(),
        0 <= d.year <= 9999,
    ensures
        crate::codec::spec_sans_guillemet(spec_date_ymd(d)),
{
    let s = spec_date_ymd(d);
    let a = spec_annee_str(d.year as int);
    let dec = spec_dec_nat(d.year as nat);
    let zeros = a.len() - dec.len();
    lemma_dec_nat_chiffres(d.year as nat);
    let (m1, m2) = lemma_nb_2digits_chars(d.month as int);
    let (j1, j2) = lemma_nb_2digits_chars(d.day as int);
    assert(s =~= a + seq!['/', spec_digit_char(m1), spec_digit_char(m2), '/', spec_digit_char(
        j1,
    ), spec_digit_char(j2)]);
    assert forall|l: int| 0 <= l < s.len() implies s.index(l) != '"' by {
        if l < zeros {
            assert(s[l] == a[l]);
            assert(a[l] == '0');
        } else if l < a.len() {
            assert(s[l] == a[l]);
            assert(a[l] == dec[l - zeros]);
            assert(crate::codec::spec_is_digit(s[l]));
        } else {
            assert(crate::codec::spec_is_digit(s[l]) || s[l] == '/');
        }
    }
}

/// A rendered time of day holds digits and a colon only: no quote.
pub proof fn lemma_heure_hm_sans_guillemet(t: Time)
    requires
        t.wf(),
    ensures
        crate::codec::spec_sans_guillemet(spec_heure_hm(t)),
{
    let (a1, a2) = lemma_nb_2digits_chars(t.hour as int);
    let (b1, b2) = lemma_nb_2digits_chars(t.minute as int);
    let s = spec_heure_hm(t);
    assert(s =~= seq![
        spec_digit_char(a1),
        spec_digit_char(a2),
        ':',
        spec_digit_char(b1),
        spec_digit_char(b2),
    ]);
    assert forall|l: int| 0 <= l < s.len() implies s.index(l) != '"' by {
        assert(crate::codec::spec_is_digit(s[l]) || s[l] == ':');
    }
}

/// A rendering never starts with anything but a digit.
pub proof fn lemma_dec_commence_par_chiffre(n: nat)
    ensures
        spec_dec_nat(n).len() >= 1,
        crate::codec::spec_is_digit(spec_dec_nat(n)[0]),
    decreases n,
{
    if n >= 10 {
        lemma_dec_commence_par_chiffre(n / 10);
    }
}

/// A number below ten thousand is rendered on at most four digits.
proof fn lemma_dec_nat_bornes(n: nat)
    requires
        n <= 9999,
    ensures
        spec_dec_nat(n).len() == (if n < 10 {
            1int
        } else if n < 100 {
            2int
        } else if n < 1000 {
            3int
        } else {
            4int
        }),
{
    if n >= 10 {
        lemma_dec_nat_bornes_aux(n / 10);
    }
}

proof fn lemma_dec_nat_bornes_aux(n: nat)
    requires
        n <= 999,
    ensures
        spec_dec_nat(n).len() == (if n < 10 {
            1int
        } else if n < 100 {
            2int
        } else {
            3int
        }),
    decreases n,
{
    if n >= 10 {
        lemma_dec_nat_bornes_aux(n / 10);
    }
}

/// A zero at the scanner's position keeps a zero accumulator at zero.
proof fn lemma_zeros_en_tete(s: Seq<char>, i: int, m: int)
    requires
        0 <= i <= m <= s.len(),
        forall|l: int| i <= l < m ==> s.index(l) == '0',
    ensures
        crate::codec::spec_parse_chiffres(s, i, 0) == crate::codec::spec_parse_chiffres(s, m, 0),
    decreases m - i,
{
    if i < m {
        assert(s.index(i) == '0');
        assert(crate::codec::spec_digit_val(s[i]) == 0);
        lemma_zeros_en_tete(s, i + 1, m);
    }
}

/// A year rendered on at least four digits, as dates are written down.
pub open spec fn spec_annee_str(y: int) -> Seq<char>
    decreases (if y < 0 { 1int } else { 0int }),
{
    if y < 0 {
        seq!['-'] + spec_annee_str(-y)
    } else if y < 10 {
        seq!['0', '0', '0'] + spec_dec_nat(y as nat)
    } else if y < 100 {
        seq!['0', '0'] + spec_dec_nat(y as nat)
    } else if y < 1000 {
        seq!['0'] + spec_dec_nat(y as nat)
    } else {
        spec_dec_nat(y as nat)
    }
}

/// Renders a year on at least four digits.
pub fn annee_string(y: i32) -> (r: String)
    ensures
        r@ == spec_annee_str(y as int),
{
    proof {
        reveal_strlit("-");
        reveal_strlit("000");
        reveal_strlit("00");
        reveal_strlit("0");
        reveal_strlit("");
    }
    if y < 0 {
        let magnitude: u32 = if y == i32::MIN {
            2147483648u32
        } else {
            (-y) as u32
        };
        let mut r = String::new();
        r.append("-");
        let reste = annee_string_nat(magnitude);
        r.append(reste.as_str());
        assert(r@ =~= seq!['-'] + reste@);
        assert(spec_annee_str(y as int) == seq!['-'] + spec_annee_str(magnitude as int));
        r
    } else {
        annee_string_nat(y as u32)
    }
}

fn annee_string_nat(y: u32) -> (r: String)
    ensures
        r@ == spec_annee_str(y as int),
{
    proof {
        reveal_strlit("000");
        reveal_strlit("00");
        reveal_strlit("0");
    }
    let prefixe: &str = if y < 10 {
        "000"
    } else if y < 100 {
        "00"
    } else if y < 1000 {
        "0"
    } else {
        ""
    };
    let mut r = String::new();
    r.append(prefixe);
    let digits = dec_u32_string(y);
    r.append(digits.as_str());
    proof {
        reveal_strlit("");
        assert(r@ =~= prefixe@ + digits@);
        if y < 10 {
            assert(prefixe@ =~= seq!['0', '0', '0']);
        } else if y < 100 {
            assert(prefixe@ =~= seq!['0', '0']);
        } else if y < 1000 {
            assert(prefixe@ =~= seq!['0']);
        } else {
            assert(prefixe@ =~= Seq::<char>::empty());
            assert(r@ =~= digits@);
        }
    }
    r
}

/// A date rendered `YYYY/MM/DD`, as the journal and the store write it.
pub open spec fn spec_date_ymd(d: Date) -> Seq<char> {
    spec_annee_str(d.year as int) + seq!['/'] + crate::spec_nb_2digits(d.month as int) + seq!['/']
        + crate::spec_nb_2digits(d.day as int)
}

/// Renders a date as `YYYY/MM/DD`.
pub fn date_ymd_string(d: &Date) -> (r: String)
    ensures
        r@ == spec_date_ymd(*d),
{
    let mut r = annee_string(d.year);
    r.append("/");
    let mois = crate::nb_2digits_string(d.month as i32);
    r.append(mois.as_str());
    r.append("/");
    let jour = crate::nb_2digits_string(d.day as i32);
    r.append(jour.as_str());
    proof {
        reveal_strlit("/");
        assert(r@ =~= spec_date_ymd(*d));
    }
    r
}

/// What `YYYY/MM/DD` text means: three runs of digits separated by slashes,
/// nothing else, forming a valid calendar date.
pub open spec fn spec_parse_date(s: Seq<char>) -> Option<Date> {
    if s.len() > 0 && crate::codec::spec_is_digit(s[0]) {
        match crate::codec::spec_parse_chiffres(s, 0, 0) {
            None => None,
            Some((y, i)) => {
                if 0 <= i < s.len() && s[i] == '/' && i + 1 < s.len() && crate::codec::spec_is_digit(
                    s[i + 1],
                ) {
                    match crate::codec::spec_parse_chiffres(s, i + 1, 0) {
                        None => None,
                        Some((m, j)) => {
                            if 0 <= j < s.len() && s[j] == '/' && j + 1 < s.len()
                                && crate::codec::spec_is_digit(s[j + 1]) {
                                match crate::codec::spec_parse_chiffres(s, j + 1, 0) {
                                    None => None,
                                    Some((d, fin)) => {
                                        if fin == s.len() && y <= 2147483647 && m <= 12 && d <= 31
                                            && (Date {
                                            year: y as i32,
                                            month: m as u8,
                                            day: d as u8,
                                        }).wf() {
                                            Some(
                                                Date {
                                                    year: y as i32,
                                                    month: m as u8,
                                                    day: d as u8,
                                                },
                                            )
                                        } else {
                                            None
                                        }
                                    },
                                }
                            } else {
                                None
                            }
                        },
                    }
                } else {
                    None
                }
            },
        }
    } else {
        None
    }
}

/// Reads a date from `YYYY/MM/DD` text, calendar rules included.
pub fn parse_date(s: &str) -> (r: Option<Date>)
    ensures
        r == spec_parse_date(s@),
{
    let n = s.unicode_len();
    if n == 0 {
        return None;
    }
    let c = s.get_char(0);
    if !('0' <= c && c <= '9') {
        return None;
    }
    let (y, i) = match crate::codec::parse_chiffres(s, 0, 0) {
        None => {
            return None;
        },
        Some(p) => p,
    };
    if !(i < n && s.get_char(i) == '/' && i + 1 < n) {
        return None;
    }
    let c2 = s.get_char(i + 1);
    if !('0' <= c2 && c2 <= '9') {
        return None;
    }
    let (m, j) = match crate::codec::parse_chiffres(s, i + 1, 0) {
        None => {
            return None;
        },
        Some(p) => p,
    };
    if !(j < n && s.get_char(j) == '/' && j + 1 < n) {
        return None;
    }
    let c3 = s.get_char(j + 1);
    if !('0' <= c3 && c3 <= '9') {
        return None;
    }
    let (d, fin) = match crate::codec::parse_chiffres(s, j + 1, 0) {
        None => {
            return None;
        },
        Some(p) => p,
    };
    if fin == n && y <= 2147483647 && m <= 12 && d <= 31 && Date::valid(
        y as i32,
        m as u8,
        d as u8,
    ) {
        Some(Date { year: y as i32, month: m as u8, day: d as u8 })
    } else {
        None
    }
}

/// Decimal rendering of a signed number.
pub fn dec_i32_string(n: i32) -> (r: String)
    ensures
        r@ == spec_dec_i32(n as int),
{
    if n >= 0 {
        dec_u32_string(n as u32)
    } else {
        let magnitude: u32 = if n == i32::MIN {
            2147483648u32
        } else {
            (-n) as u32
        };
        assert(magnitude == -(n as int));
        let mut r = String::new();
        r.append("-");
        let digits = dec_u32_string(magnitude);
        r.append(digits.as_str());
        proof {
            reveal_strlit("-");
        }
        assert(r@ =~= seq!['-'] + digits@);
        r
    }
}

} // verus!
