//! Character-level helpers: whitespace trimming, decimal digits, and the
//! lexicographic order on strings (by code point, which for UTF-8 text is
//! also the byte order a relational store uses to sort names).

use vstd::prelude::*;
use vstd::string::*;

verus! {

/// The Unicode `White_Space` code points, the set `str::trim` strips.
pub open spec fn is_space_char(c: char) -> bool {
    let u = c as u32;
    u == 0x09 || u == 0x0A || u == 0x0B || u == 0x0C || u == 0x0D || u == 0x20 || u == 0x85
        || u == 0xA0 || u == 0x1680 || (0x2000 <= u && u <= 0x200A) || u == 0x2028 || u == 0x2029
        || u == 0x202F || u == 0x205F || u == 0x3000
}

pub fn is_space(c: char) -> (r: bool)
    ensures
        r == is_space_char(c),
{
    let u = c as u32;
    u == 0x09 || u == 0x0A || u == 0x0B || u == 0x0C || u == 0x0D || u == 0x20 || u == 0x85
        || u == 0xA0 || u == 0x1680 || (0x2000 <= u && u <= 0x200A) || u == 0x2028 || u == 0x2029
        || u == 0x202F || u == 0x205F || u == 0x3000
}

pub open spec fn trim_start_spec(s: Seq<char>) -> Seq<char>
    decreases s.len(),
{
    if s.len() > 0 && is_space_char(s[0]) {
        trim_start_spec(s.drop_first())
    } else {
        s
    }
}

pub open spec fn trim_end_spec(s: Seq<char>) -> Seq<char>
    decreases s.len(),
{
    if s.len() > 0 && is_space_char(s[s.len() - 1]) {
        trim_end_spec(s.drop_last())
    } else {
        s
    }
}

/// What `str::trim` leaves: the input without leading and trailing whitespace.
pub open spec fn trim_spec(s: Seq<char>) -> Seq<char> {
    trim_end_spec(trim_start_spec(s))
}

proof fn lemma_trim_start_at(s: Seq<char>, lo: int)
    requires
        0 <= lo <= s.len(),
        forall|k: int| 0 <= k < lo ==> is_space_char(#[trigger] s[k]),
        lo == s.len() || !is_space_char(s[lo]),
    ensures
        trim_start_spec(s) == s.subrange(lo, s.len() as int),
    decreases lo,
{
    if lo == 0 {
        assert(s.subrange(0, s.len() as int) =~= s);
    } else {
        let t = s.drop_first();
        lemma_trim_start_at(t, lo - 1);
        assert(t.subrange(lo - 1, t.len() as int) =~= s.subrange(lo, s.len() as int));
    }
}

proof fn lemma_trim_end_at(s: Seq<char>, hi: int)
    requires
        0 <= hi <= s.len(),
        forall|k: int| hi <= k < s.len() ==> is_space_char(#[trigger] s[k]),
        hi == 0 || !is_space_char(s[hi - 1]),
    ensures
        trim_end_spec(s) == s.subrange(0, hi),
    decreases s.len() - hi,
{
    if hi == s.len() {
        assert(s.subrange(0, s.len() as int) =~= s);
    } else {
        let t = s.drop_last();
        lemma_trim_end_at(t, hi);
        assert(t.subrange(0, hi) =~= s.subrange(0, hi));
    }
}

/// The input without leading and trailing whitespace.
pub fn trim_str(s: &str) -> (r: &str)
    ensures
        r@ == trim_spec(s@),
{
    let n = s.unicode_len();
    let mut lo: usize = 0;
    while lo < n && is_space(s.get_char(lo))
        invariant
            lo <= n,
            n == s@.len(),
            forall|k: int| 0 <= k < lo ==> is_space_char(#[trigger] s@[k]),
        decreases n - lo,
    {
        lo = lo + 1;
    }
    let mut hi: usize = n;
    while hi > lo && is_space(s.get_char(hi - 1))
        invariant
            lo <= hi <= n,
            n == s@.len(),
            forall|k: int| hi <= k < n ==> is_space_char(#[trigger] s@[k]),
        decreases hi,
    {
        hi = hi - 1;
    }
    proof {
        lemma_trim_start_at(s@, lo as int);
        let t = s@.subrange(lo as int, n as int);
        lemma_trim_end_at(t, hi - lo);
        assert(t.subrange(0, hi - lo) =~= s@.subrange(lo as int, hi as int));
    }
    s.substring_char(lo, hi)
}

/// True when every character of the string is whitespace, i.e. when
/// trimming leaves nothing.
pub fn is_blank(s: &str) -> (r: bool)
    ensures
        r == (trim_spec(s@).len() == 0),
{
    let t = trim_str(s);
    t.unicode_len() == 0
}

// ---------------------------------------------------------------------------
// Decimal digits
// ---------------------------------------------------------------------------

pub open spec fn is_digit_char(c: char) -> bool {
    0x30 <= c as u32 && c as u32 <= 0x39
}

pub open spec fn digit_val(c: char) -> int {
    c as u32 - 0x30
}

pub open spec fn char_of_digit(d: int) -> char {
    if d == 0 {
        '0'
    } else if d == 1 {
        '1'
    } else if d == 2 {
        '2'
    } else if d == 3 {
        '3'
    } else if d == 4 {
        '4'
    } else if d == 5 {
        '5'
    } else if d == 6 {
        '6'
    } else if d == 7 {
        '7'
    } else if d == 8 {
        '8'
    } else {
        '9'
    }
}

pub open spec fn all_digits(s: Seq<char>) -> bool {
    forall|i: int| 0 <= i < s.len() ==> is_digit_char(#[trigger] s[i])
}

/// Value of a string of decimal digits (most significant first).
pub open spec fn digits_val(s: Seq<char>) -> int
    decreases s.len(),
{
    if s.len() == 0 {
        0
    } else {
        digits_val(s.drop_last()) * 10 + digit_val(s.last())
    }
}

/// Decimal representation of a non-negative number, no padding.
pub open spec fn dec_str(n: int) -> Seq<char>
    recommends
        n >= 0,
    decreases n,
{
    if n < 10 {
        seq![char_of_digit(n)]
    } else {
        dec_str(n / 10).push(char_of_digit(n % 10))
    }
}

pub proof fn lemma_digit_char_val(d: int)
    requires
        0 <= d <= 9,
    ensures
        is_digit_char(char_of_digit(d)),
        digit_val(char_of_digit(d)) == d,
{
}

pub proof fn lemma_digits_val_one(a: char)
    ensures
        digits_val(seq![a]) == digit_val(a),
{
    assert(seq![a].drop_last() =~= Seq::<char>::empty());
    assert(digits_val(Seq::<char>::empty()) == 0);
}

pub proof fn lemma_digits_val_two(a: char, b: char)
    ensures
        digits_val(seq![a, b]) == digit_val(a) * 10 + digit_val(b),
{
    lemma_digits_val_one(a);
    assert(seq![a, b].drop_last() =~= seq![a]);
    assert(seq![a, b].last() == b);
}

pub proof fn lemma_digits_val_nonneg(s: Seq<char>)
    requires
        all_digits(s),
    ensures
        digits_val(s) >= 0,
    decreases s.len(),
{
    if s.len() > 0 {
        lemma_digits_val_nonneg(s.drop_last());
    }
}

pub proof fn lemma_dec_str_digits(n: int)
    requires
        n >= 0,
    ensures
        all_digits(dec_str(n)),
        digits_val(dec_str(n)) == n,
        dec_str(n).len() >= 1,
    decreases n,
{
    lemma_digit_char_val(if n < 10 {
        n
    } else {
        n % 10
    });
    if n < 10 {
        assert(dec_str(n).drop_last() =~= Seq::<char>::empty());
        assert(digits_val(Seq::<char>::empty()) == 0);
        assert(dec_str(n).last() == char_of_digit(n));
        assert(digits_val(dec_str(n)) == digit_val(char_of_digit(n)));
    } else {
        lemma_dec_str_digits(n / 10);
        assert(dec_str(n).drop_last() =~= dec_str(n / 10));
        assert(dec_str(n).last() == char_of_digit(n % 10));
        assert(digits_val(dec_str(n)) == digits_val(dec_str(n / 10)) * 10 + digit_val(
            char_of_digit(n % 10),
        ));
        assert((n / 10) * 10 + (n % 10) == n);
    }
}

pub fn digit_to_char(d: u64) -> (c: char)
    requires
        d <= 9,
    ensures
        c == char_of_digit(d as int),
{
    if d == 0 {
        '0'
    } else if d == 1 {
        '1'
    } else if d == 2 {
        '2'
    } else if d == 3 {
        '3'
    } else if d == 4 {
        '4'
    } else if d == 5 {
        '5'
    } else if d == 6 {
        '6'
    } else if d == 7 {
        '7'
    } else if d == 8 {
        '8'
    } else {
        '9'
    }
}

/// Appends the decimal digits of `n` to `out`.
pub fn push_dec_digits(out: &mut Vec<char>, n: u64)
    ensures
        final(out)@ == old(out)@ + dec_str(n as int),
    decreases n,
{
    if n < 10 {
        out.push(digit_to_char(n));
    } else {
        push_dec_digits(out, n / 10);
        out.push(digit_to_char(n % 10));
    }
}

/// Relies on `String::from_iter` over chars: the resulting string holds
/// exactly the given characters in order.
#[verifier::external_body]
pub(crate) fn string_from_chars(v: &Vec<char>) -> (s: String)
    ensures
        s@ == v@,
{
    v.iter().copied().collect()
}

// ---------------------------------------------------------------------------
// Lexicographic order on strings
// ---------------------------------------------------------------------------

/// Lexicographic "less or equal" by code point; on UTF-8 encoded text this
/// coincides with byte-wise comparison.
pub open spec fn lex_le(a: Seq<char>, b: Seq<char>) -> bool
    decreases a.len(),
{
    if a.len() == 0 {
        true
    } else if b.len() == 0 {
        false
    } else if (a[0] as u32) < (b[0] as u32) {
        true
    } else if (a[0] as u32) > (b[0] as u32) {
        false
    } else {
        lex_le(a.drop_first(), b.drop_first())
    }
}

pub proof fn lemma_lex_le_total(a: Seq<char>, b: Seq<char>)
    ensures
        lex_le(a, b) || lex_le(b, a),
    decreases a.len(),
{
    if a.len() > 0 && b.len() > 0 && a[0] as u32 == b[0] as u32 {
        lemma_lex_le_total(a.drop_first(), b.drop_first());
    }
}

pub proof fn lemma_lex_le_trans(a: Seq<char>, b: Seq<char>, c: Seq<char>)
    requires
        lex_le(a, b),
        lex_le(b, c),
    ensures
        lex_le(a, c),
    decreases a.len(),
{
    if a.len() > 0 && b.len() > 0 && c.len() > 0 && a[0] as u32 == b[0] as u32 && b[0] as u32
        == c[0] as u32 {
        lemma_lex_le_trans(a.drop_first(), b.drop_first(), c.drop_first());
    }
}

/// Two characters with the same code point are the same character.
proof fn lemma_char_code_inj(a: char, b: char)
    requires
        a as u32 == b as u32,
    ensures
        a == b,
{
}

pub proof fn lemma_lex_le_antisym(a: Seq<char>, b: Seq<char>)
    requires
        lex_le(a, b),
        lex_le(b, a),
    ensures
        a == b,
    decreases a.len(),
{
    if a.len() == 0 {
        assert(b.len() == 0);
        assert(a =~= b);
    } else {
        assert(b.len() > 0);
        if (a[0] as u32) < (b[0] as u32) {
            assert(!lex_le(b, a));
        }
        if (a[0] as u32) > (b[0] as u32) {
            assert(!lex_le(a, b));
        }
        lemma_char_code_inj(a[0], b[0]);
        assert(a[0] == b[0]);
        assert(lex_le(a.drop_first(), b.drop_first()));
        assert(lex_le(b.drop_first(), a.drop_first()));
        lemma_lex_le_antisym(a.drop_first(), b.drop_first());
        assert forall|i: int| 0 <= i < a.len() implies a[i] == b[i] by {
            if i > 0 {
                assert(a.drop_first()[i - 1] == b.drop_first()[i - 1]);
            }
        }
        assert(a =~= b);
    }
}

/// Character-wise equality of two string slices.
pub fn str_eq(a: &str, b: &str) -> (r: bool)
    ensures
        r == (a@ == b@),
{
    let na = a.unicode_len();
    let nb = b.unicode_len();
    if na != nb {
        return false;
    }
    let mut i: usize = 0;
    while i < na
        invariant
            i <= na,
            na == a@.len(),
            na == b@.len(),
            forall|k: int| 0 <= k < i ==> a@[k] == b@[k],
        decreases na - i,
    {
        if a.get_char(i) != b.get_char(i) {
            return false;
        }
        i = i + 1;
    }
    proof {
        assert(a@ =~= b@);
    }
    true
}

/// Lexicographic comparison of two strings, by code point.
pub fn str_le(a: &str, b: &str) -> (r: bool)
    ensures
        r == lex_le(a@, b@),
{
    let na = a.unicode_len();
    let nb = b.unicode_len();
    proof {
        assert(a@.subrange(0, na as int) =~= a@);
        assert(b@.subrange(0, nb as int) =~= b@);
    }
    let mut i: usize = 0;
    loop
        invariant
            i <= na,
            i <= nb,
            na == a@.len(),
            nb == b@.len(),
            lex_le(a@, b@) == lex_le(
                a@.subrange(i as int, na as int),
                b@.subrange(i as int, nb as int),
            ),
        decreases na - i,
    {
        if i >= na {
            return true;
        }
        if i >= nb {
            return false;
        }
        let ca = a.get_char(i);
        let cb = b.get_char(i);
        if (ca as u32) < (cb as u32) {
            return true;
        }
        if (ca as u32) > (cb as u32) {
            return false;
        }
        proof {
            let ra = a@.subrange(i as int, na as int);
            let rb = b@.subrange(i as int, nb as int);
            assert(ra[0] == ca && rb[0] == cb);
            assert(ra.drop_first() =~= a@.subrange(i + 1, na as int));
            assert(rb.drop_first() =~= b@.subrange(i + 1, nb as int));
        }
        i = i + 1;
    }
}

} // verus!
