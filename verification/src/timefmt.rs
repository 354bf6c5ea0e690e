//! Conversions between minute counts and their textual forms: the "HH:MM"
//! clock form and the decimal-hours form with a comma separator.

use vstd::prelude::*;
use vstd::string::*;
use crate::chars::{
    all_digits, char_of_digit, dec_str, digit_val, digits_val, is_digit_char,
    lemma_dec_str_digits, lemma_digit_char_val, lemma_digits_val_nonneg, lemma_digits_val_two,
    push_dec_digits,
    string_from_chars, trim_end_spec, trim_spec, trim_start_spec, trim_str,
};
use crate::records::DatabaseError;

verus! {

// ---------------------------------------------------------------------------
// Integer parsing, matching what `str::parse::<i32>` accepts: an optional
// sign followed by one or more decimal digits, within the i32 range.
// ---------------------------------------------------------------------------

pub open spec fn parse_i32_spec(s: Seq<char>) -> Option<int> {
    if s.len() == 0 {
        None
    } else {
        let body = if s[0] == '+' || s[0] == '-' {
            s.drop_first()
        } else {
            s
        };
        let neg = s[0] == '-';
        if body.len() == 0 || !all_digits(body) {
            None
        } else {
            let v = if neg {
                -digits_val(body)
            } else {
                digits_val(body)
            };
            if -0x8000_0000 <= v && v <= 0x7FFF_FFFF {
                Some(v)
            } else {
                None
            }
        }
    }
}

/// Parses an optionally signed decimal integer: the sign-and-digits
/// grammar the standard library's integer parser accepts, within range.
pub fn parse_i32(s: &str) -> (r: Option<i32>)
    ensures
        r is Some <==> parse_i32_spec(s@) is Some,
        r is Some ==> Some(r->0 as int) == parse_i32_spec(s@),
{
    let n = s.unicode_len();
    if n == 0 {
        return None;
    }
    let c0 = s.get_char(0);
    let neg = c0 == '-';
    let signed = c0 == '+' || c0 == '-';
    let start: usize = if signed {
        1
    } else {
        0
    };
    if n == start {
        return None;
    }
    let ghost body = if signed {
        s@.drop_first()
    } else {
        s@
    };
    proof {
        if signed {
            assert(body =~= s@.subrange(1, n as int));
        } else {
            assert(body =~= s@.subrange(0, n as int));
        }
    }
    let mut i: usize = start;
    let mut acc: u64 = 0;
    let mut over = false;
    while i < n
        invariant
            start <= i <= n,
            n == s@.len(),
            start <= 1,
            start < n,
            (s@[0] == '+' || s@[0] == '-') <==> start == 1,
            body == if s@[0] == '+' || s@[0] == '-' {
                s@.drop_first()
            } else {
                s@
            },
            body == s@.subrange(start as int, n as int),
            all_digits(s@.subrange(start as int, i as int)),
            !over ==> acc <= 0x8000_0000 && acc as int == digits_val(
                s@.subrange(start as int, i as int),
            ),
            over ==> digits_val(s@.subrange(start as int, i as int)) > 0x8000_0000,
        decreases n - i,
    {
        let c = s.get_char(i);
        let u = c as u32;
        if u < 0x30 || u > 0x39 {
            proof {
                assert(body[i - start] == c);
                assert(!is_digit_char(c));
                assert(!all_digits(body));
            }
            return None;
        }
        proof {
            assert(s@.subrange(start as int, i + 1).drop_last() =~= s@.subrange(
                start as int,
                i as int,
            ));
            assert(s@.subrange(start as int, i + 1).last() == c);
            lemma_digits_val_nonneg(s@.subrange(start as int, i as int));
        }
        if !over {
            let d = (u - 0x30) as u64;
            let next = acc * 10 + d;
            if next > 0x8000_0000 {
                over = true;
            }
            acc = next;
        }
        i = i + 1;
    }
    proof {
        assert(s@.subrange(start as int, n as int) == body);
    }
    if over {
        proof {
            lemma_digits_val_nonneg(body);
        }
        return None;
    }
    if neg {
        if acc == 0x8000_0000 {
            Some(i32::MIN)
        } else {
            Some(0i32 - (acc as i32))
        }
    } else {
        if acc > 0x7FFF_FFFF {
            None
        } else {
            Some(acc as i32)
        }
    }
}

// ---------------------------------------------------------------------------
// Counting and locating the colon
// ---------------------------------------------------------------------------

pub open spec fn colon_count(s: Seq<char>) -> nat
    decreases s.len(),
{
    if s.len() == 0 {
        0
    } else {
        colon_count(s.drop_last()) + if s.last() == ':' {
            1nat
        } else {
            0nat
        }
    }
}

pub proof fn lemma_colon_count_concat(a: Seq<char>, b: Seq<char>)
    ensures
        colon_count(a + b) == colon_count(a) + colon_count(b),
    decreases b.len(),
{
    if b.len() == 0 {
        assert(a + b =~= a);
    } else {
        assert((a + b).drop_last() =~= a + b.drop_last());
        lemma_colon_count_concat(a, b.drop_last());
    }
}

pub proof fn lemma_colon_count_zero(s: Seq<char>)
    requires
        forall|j: int| 0 <= j < s.len() ==> #[trigger] s[j] != ':',
    ensures
        colon_count(s) == 0,
    decreases s.len(),
{
    if s.len() > 0 {
        lemma_colon_count_zero(s.drop_last());
    }
}

proof fn lemma_colon_count_ge_one(s: Seq<char>, a: int)
    requires
        0 <= a < s.len(),
        s[a] == ':',
    ensures
        colon_count(s) >= 1,
    decreases s.len(),
{
    if a == s.len() - 1 {
    } else {
        lemma_colon_count_ge_one(s.drop_last(), a);
    }
}

pub proof fn lemma_colon_count_ge_two(s: Seq<char>, a: int, b: int)
    requires
        0 <= a < b < s.len(),
        s[a] == ':',
        s[b] == ':',
    ensures
        colon_count(s) >= 2,
    decreases s.len(),
{
    if b == s.len() - 1 {
        lemma_colon_count_ge_one(s.drop_last(), a);
    } else {
        lemma_colon_count_ge_two(s.drop_last(), a, b);
    }
}

// ---------------------------------------------------------------------------
// "HH:MM" to minutes
// ---------------------------------------------------------------------------

/// The minute count named by a time string, or `None` where the string is
/// rejected: the trimmed input must be two optionally signed integers
/// around exactly one colon, the hours and minutes must be non-negative,
/// the minutes below 60, and the total must fit an i32.
pub open spec fn minutes_of_time(s: Seq<char>) -> Option<int> {
    let t = trim_spec(s);
    if colon_count(t) != 1 {
        None
    } else {
        let ci = choose|ci: int| 0 <= ci < t.len() && t[ci] == ':';
        let hp = parse_i32_spec(t.subrange(0, ci));
        let mp = parse_i32_spec(t.subrange(ci + 1, t.len() as int));
        if hp is Some && mp is Some {
            let h = hp->0;
            let m = mp->0;
            if h < 0 || m < 0 || m >= 60 || h * 60 + m > 0x7FFF_FFFF {
                None
            } else {
                Some(h * 60 + m)
            }
        } else {
            None
        }
    }
}

/// Parses a "HH:MM" string (leading and trailing whitespace ignored) into
/// a minute count.
pub fn parse_time_to_minutes(time_str: &str) -> (r: Result<i32, DatabaseError>)
    ensures
        r is Ok <==> minutes_of_time(time_str@) is Some,
        r is Ok ==> Some(r->Ok_0 as int) == minutes_of_time(time_str@),
        r is Err ==> r->Err_0 == DatabaseError::InvalidTimeFormat,
{
    let t = trim_str(time_str);
    let n = t.unicode_len();
    let mut i: usize = 0;
    let mut cnt: usize = 0;
    let mut fc: usize = 0;
    while i < n
        invariant
            i <= n,
            n == t@.len(),
            cnt <= i,
            cnt as nat == colon_count(t@.subrange(0, i as int)),
            cnt >= 1 ==> fc < i && t@[fc as int] == ':',
            forall|j: int| 0 <= j < i && j < fc ==> #[trigger] t@[j] != ':',
            cnt == 0 ==> fc == 0 && forall|j: int| 0 <= j < i ==> #[trigger] t@[j] != ':',
        decreases n - i,
    {
        let c = t.get_char(i);
        proof {
            assert(t@.subrange(0, i + 1).drop_last() =~= t@.subrange(0, i as int));
            assert(t@.subrange(0, i + 1).last() == c);
        }
        if c == ':' {
            if cnt == 0 {
                fc = i;
            }
            cnt = cnt + 1;
        }
        i = i + 1;
    }
    proof {
        assert(t@.subrange(0, n as int) =~= t@);
    }
    if cnt != 1 {
        return Err(DatabaseError::InvalidTimeFormat);
    }
    proof {
        let ci = choose|ci: int| 0 <= ci < t@.len() && t@[ci] == ':';
        if ci != fc {
            if ci < fc {
                lemma_colon_count_ge_two(t@, ci, fc as int);
            } else {
                lemma_colon_count_ge_two(t@, fc as int, ci);
            }
        }
    }
    let hpart = t.substring_char(0, fc);
    let mpart = t.substring_char(fc + 1, n);
    let hop = parse_i32(hpart);
    let mop = parse_i32(mpart);
    match (hop, mop) {
        (Some(h), Some(m)) => {
            if h < 0 || m < 0 || m >= 60 {
                Err(DatabaseError::InvalidTimeFormat)
            } else {
                let total = h as i64 * 60 + m as i64;
                if total > 0x7FFF_FFFF {
                    Err(DatabaseError::InvalidTimeFormat)
                } else {
                    Ok(total as i32)
                }
            }
        },
        _ => Err(DatabaseError::InvalidTimeFormat),
    }
}

// ---------------------------------------------------------------------------
// Minutes to "HH:MM"
// ---------------------------------------------------------------------------

/// A number padded with zeros to at least two digits.
pub open spec fn pad2(n: int) -> Seq<char> {
    if n < 10 {
        seq!['0'].push(char_of_digit(n))
    } else {
        dec_str(n)
    }
}

/// The canonical "HH:MM" form of a minute count.
pub open spec fn time_str_of(m: int) -> Seq<char> {
    pad2(m / 60) + seq![':'] + pad2(m % 60)
}

pub proof fn lemma_pad2(n: int)
    requires
        n >= 0,
    ensures
        all_digits(pad2(n)),
        digits_val(pad2(n)) == n,
        pad2(n).len() >= 2,
        n <= 99 ==> pad2(n).len() == 2,
    decreases n,
{
    lemma_dec_str_digits(n);
    if n < 10 {
        lemma_digit_char_val(n);
        let p = pad2(n);
        assert(p.drop_last() =~= seq!['0']);
        assert(seq!['0'].drop_last() =~= Seq::<char>::empty());
        assert(digits_val(Seq::<char>::empty()) == 0);
        assert(digits_val(seq!['0']) == 0);
        assert(digits_val(p) == n);
    } else {
        lemma_dec_str_digits(n / 10);
        assert(dec_str(n) == dec_str(n / 10).push(char_of_digit(n % 10)));
        if n <= 99 {
            assert(dec_str(n / 10).len() == 1);
        }
    }
}

proof fn lemma_parse_digits(s: Seq<char>)
    requires
        s.len() >= 1,
        all_digits(s),
        digits_val(s) <= 0x7FFF_FFFF,
    ensures
        parse_i32_spec(s) == Some(digits_val(s)),
{
    assert(is_digit_char(s[0]));
    assert(s[0] != '+' && s[0] != '-');
    lemma_digits_val_nonneg(s);
}

/// Formats a minute count as zero-padded "HH:MM".
pub fn format_minutes_to_time(total_minutes: i32) -> (r: String)
    requires
        total_minutes >= 0,
    ensures
        r@ == time_str_of(total_minutes as int),
{
    let h = total_minutes / 60;
    let mm = total_minutes % 60;
    let mut v: Vec<char> = Vec::new();
    if h < 10 {
        v.push('0');
    }
    push_dec_digits(&mut v, h as u64);
    v.push(':');
    if mm < 10 {
        v.push('0');
    }
    push_dec_digits(&mut v, mm as u64);
    proof {
        assert(v@ =~= time_str_of(total_minutes as int));
    }
    string_from_chars(&v)
}

// ---------------------------------------------------------------------------
// Minutes to decimal hours
// ---------------------------------------------------------------------------

/// The decimal-hours form of a minute count: hours to two decimal places,
/// rounded to the nearest hundredth, with a comma as the separator.  The
/// hundredths count is `round(100 * m / 60)`, which for integer `m` is
/// `(5 * m + 1) / 3` (the fraction is never exactly one half).
pub open spec fn decimal_str_of(m: int) -> Seq<char> {
    let h100 = (5 * m + 1) / 3;
    dec_str(h100 / 100) + seq![','] + pad2(h100 % 100)
}

/// Formats a minute count as decimal hours, e.g. 90 minutes as "1,50".
pub fn format_minutes_to_decimal(total_minutes: i32) -> (r: String)
    requires
        total_minutes >= 0,
    ensures
        r@ == decimal_str_of(total_minutes as int),
{
    let h100 = (5 * (total_minutes as i64) + 1) / 3;
    let hours = h100 / 100;
    let rem = h100 % 100;
    let mut v: Vec<char> = Vec::new();
    push_dec_digits(&mut v, hours as u64);
    v.push(',');
    if rem < 10 {
        v.push('0');
    }
    push_dec_digits(&mut v, rem as u64);
    proof {
        assert(v@ =~= decimal_str_of(total_minutes as int));
    }
    string_from_chars(&v)
}

// ---------------------------------------------------------------------------
// Round-trip laws
// ---------------------------------------------------------------------------

/// Law: formatting any representable minute count as "HH:MM" and parsing
/// the result gives the count back.
pub proof fn lemma_time_format_parses_back(m: int)
    requires
        0 <= m <= 0x7FFF_FFFF,
    ensures
        minutes_of_time(time_str_of(m)) == Some(m),
{
    let h = m / 60;
    let mm = m % 60;
    let ph = pad2(h);
    let pm = pad2(mm);
    let t = time_str_of(m);
    lemma_pad2(h);
    lemma_pad2(mm);

    // every character is a digit or the one colon at index ph.len()
    assert(forall|j: int| 0 <= j < ph.len() ==> #[trigger] t[j] == ph[j]);
    assert(t[ph.len() as int] == ':');
    assert(forall|j: int| ph.len() < j < t.len() ==> #[trigger] t[j] == pm[j - ph.len() - 1]);

    // the string carries no whitespace at either end
    assert(is_digit_char(t[0]));
    assert(is_digit_char(t[t.len() - 1]));
    assert(trim_start_spec(t) == t);
    assert(trim_end_spec(t) == t);
    assert(trim_spec(t) == t);

    // exactly one colon
    assert(forall|j: int| 0 <= j < ph.len() ==> #[trigger] ph[j] != ':');
    assert(forall|j: int| 0 <= j < pm.len() ==> #[trigger] pm[j] != ':');
    lemma_colon_count_zero(ph);
    lemma_colon_count_zero(pm);
    assert(colon_count(seq![':']) == 1) by {
        assert(seq![':'].drop_last() =~= Seq::<char>::empty());
        assert(colon_count(Seq::<char>::empty()) == 0);
    }
    lemma_colon_count_concat(ph, seq![':']);
    lemma_colon_count_concat(ph + seq![':'], pm);
    assert(t =~= (ph + seq![':']) + pm);
    assert(colon_count(t) == 1);

    // the chosen colon index is ph.len()
    let ci = choose|ci: int| 0 <= ci < t.len() && t[ci] == ':';
    assert(0 <= ph.len() < t.len() && t[ph.len() as int] == ':');
    if ci != ph.len() {
        if ci < ph.len() {
            lemma_colon_count_ge_two(t, ci, ph.len() as int);
        } else {
            lemma_colon_count_ge_two(t, ph.len() as int, ci);
        }
    }
    assert(ci == ph.len());

    // both halves parse to the two components
    assert(t.subrange(0, ci) =~= ph);
    assert(t.subrange(ci + 1, t.len() as int) =~= pm);
    lemma_parse_digits(ph);
    lemma_parse_digits(pm);

    assert(h * 60 + mm == m);
    assert(mm < 60);
}

/// Law: a canonical zero-padded "HH:MM" string (two digits each side, the
/// minute part below 60) parses, and formatting the parsed count gives the
/// string back unchanged.
pub proof fn lemma_time_round_trip_canonical(s: Seq<char>)
    requires
        s.len() == 5,
        is_digit_char(s[0]),
        is_digit_char(s[1]),
        s[2] == ':',
        is_digit_char(s[3]),
        is_digit_char(s[4]),
        digit_val(s[3]) * 10 + digit_val(s[4]) < 60,
    ensures
        minutes_of_time(s) is Some,
        time_str_of(minutes_of_time(s)->0) == s,
{
    let h = digit_val(s[0]) * 10 + digit_val(s[1]);
    let mm = digit_val(s[3]) * 10 + digit_val(s[4]);
    let hp = s.subrange(0, 2);
    let mp = s.subrange(3, 5);

    assert(digits_val(hp) == h) by {
        lemma_digits_val_two(s[0], s[1]);
        assert(hp =~= seq![s[0], s[1]]);
    }
    assert(digits_val(mp) == mm) by {
        lemma_digits_val_two(s[3], s[4]);
        assert(mp =~= seq![s[3], s[4]]);
    }

    // no whitespace at the ends, so trimming changes nothing
    assert(trim_start_spec(s) == s);
    assert(trim_end_spec(s) == s);
    assert(trim_spec(s) == s);

    // exactly one colon, at index 2
    assert(s =~= (hp + seq![':']) + mp);
    lemma_colon_count_zero(hp);
    lemma_colon_count_zero(mp);
    assert(colon_count(seq![':']) == 1) by {
        assert(seq![':'].drop_last() =~= Seq::<char>::empty());
        assert(colon_count(Seq::<char>::empty()) == 0);
    }
    lemma_colon_count_concat(hp, seq![':']);
    lemma_colon_count_concat(hp + seq![':'], mp);
    assert(colon_count(s) == 1);

    let ci = choose|ci: int| 0 <= ci < s.len() && s[ci] == ':';
    if ci != 2 {
        if ci < 2 {
            lemma_colon_count_ge_two(s, ci, 2);
        } else {
            lemma_colon_count_ge_two(s, 2, ci);
        }
    }
    assert(ci == 2);

    assert(s.subrange(ci + 1, s.len() as int) =~= mp);
    lemma_parse_digits(hp);
    lemma_parse_digits(mp);

    let v = h * 60 + mm;
    assert(v <= 99 * 60 + 59);
    assert(minutes_of_time(s) == Some(v));

    // formatting v gives the same five characters back
    assert(v / 60 == h && v % 60 == mm) by (nonlinear_arith)
        requires
            v == h * 60 + mm,
            0 <= mm < 60,
            0 <= h,
    ;
    lemma_char_digit_roundtrip(s[0]);
    lemma_char_digit_roundtrip(s[1]);
    lemma_char_digit_roundtrip(s[3]);
    lemma_char_digit_roundtrip(s[4]);
    assert(pad2(h) =~= hp) by {
        if h < 10 {
            assert(digit_val(s[0]) == 0);
            assert(s[0] == '0');
            assert(char_of_digit(h) == s[1]);
        } else {
            assert(dec_str(h) == dec_str(h / 10).push(char_of_digit(h % 10)));
            assert(h / 10 == digit_val(s[0]) && h % 10 == digit_val(s[1])) by (nonlinear_arith)
                requires
                    h == digit_val(s[0]) * 10 + digit_val(s[1]),
                    0 <= digit_val(s[1]) < 10,
                    0 <= digit_val(s[0]),
            ;
            assert(dec_str(h / 10) == seq![char_of_digit(h / 10)]);
        }
    }
    assert(pad2(mm) =~= mp) by {
        if mm < 10 {
            assert(digit_val(s[3]) == 0);
            assert(s[3] == '0');
            assert(char_of_digit(mm) == s[4]);
        } else {
            assert(dec_str(mm) == dec_str(mm / 10).push(char_of_digit(mm % 10)));
            assert(mm / 10 == digit_val(s[3]) && mm % 10 == digit_val(s[4])) by (nonlinear_arith)
                requires
                    mm == digit_val(s[3]) * 10 + digit_val(s[4]),
                    0 <= digit_val(s[4]) < 10,
                    0 <= digit_val(s[3]),
            ;
            assert(dec_str(mm / 10) == seq![char_of_digit(mm / 10)]);
        }
    }
    assert(time_str_of(v) =~= s);
}

/// A digit character survives the round trip through its value.
proof fn lemma_char_digit_roundtrip(c: char)
    requires
        is_digit_char(c),
    ensures
        char_of_digit(digit_val(c)) == c,
{
}

} // verus!
