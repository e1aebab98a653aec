//! Reading the values of game headers: decimal numbers, fixed prefixes, and
//! the UTC date and time of a game.

use vstd::prelude::*;

verus! {

pub open spec fn is_digit_byte(c: u8) -> bool {
    48 <= c && c <= 57
}

/// Whether every byte of `s` is a decimal digit.
pub open spec fn all_digits(s: Seq<u8>) -> bool {
    forall|i: int| 0 <= i < s.len() ==> is_digit_byte(#[trigger] s[i])
}

/// The number that a string of decimal digits denotes.
pub open spec fn digits_value(s: Seq<u8>) -> nat
    decreases s.len(),
{
    if s.len() == 0 {
        0
    } else {
        (10 * digits_value(s.drop_last()) + (s.last() - 48)) as nat
    }
}

/// A prefix never denotes more than the whole.
pub proof fn lemma_digits_prefix(s: Seq<u8>, i: int)
    requires
        0 <= i <= s.len(),
        all_digits(s),
    ensures
        digits_value(s.subrange(0, i)) <= digits_value(s),
    decreases s.len() - i,
{
    if i < s.len() {
        lemma_digits_prefix(s, i + 1);
        let p = s.subrange(0, i + 1);
        assert(p.drop_last() =~= s.subrange(0, i));
        assert(is_digit_byte(p.last()));
    } else {
        assert(s.subrange(0, i) =~= s);
    }
}

/// A decimal number that fits in a `u32`: one or more digits and nothing else.
pub fn parse_u32(s: &[u8]) -> (r: Option<u32>)
    ensures
        r.is_some() == (s@.len() > 0 && all_digits(s@) && digits_value(s@) <= u32::MAX),
        r matches Some(v) ==> v == digits_value(s@),
{
    if s.len() == 0 {
        return None;
    }
    let mut v: u64 = 0;
    let mut i: usize = 0;
    while i < s.len()
        invariant
            i <= s@.len(),
            all_digits(s@.subrange(0, i as int)),
            v == digits_value(s@.subrange(0, i as int)),
            v <= u32::MAX,
        decreases s@.len() - i,
    {
        let c = s[i];
        proof {
            let p = s@.subrange(0, i + 1);
            assert(p.drop_last() =~= s@.subrange(0, i as int));
        }
        if c < 48 || c > 57 {
            assert(!all_digits(s@)) by {
                assert(!is_digit_byte(s@[i as int]));
            }
            return None;
        }
        let nv: u64 = v * 10 + (c - 48) as u64;
        assert(all_digits(s@.subrange(0, i + 1))) by {
            assert forall|j: int| 0 <= j < i + 1 implies is_digit_byte(#[trigger] s@.subrange(0, i + 1)[j]) by {
                if j < i {
                    assert(s@.subrange(0, i + 1)[j] == s@.subrange(0, i as int)[j]);
                }
            }
        }
        if nv > 4294967295 {
            proof {
                if all_digits(s@) {
                    lemma_digits_prefix(s@, i + 1);
                }
            }
            return None;
        }
        v = nv;
        i = i + 1;
    }
    assert(s@.subrange(0, i as int) =~= s@);
    Some(v as u32)
}

/// A rating change: an optional `+` or `-`, then a decimal number.
pub open spec fn signed_value(s: Seq<u8>) -> Option<int> {
    let (neg, d) = if s.len() > 0 && s[0] == 45 {
        (true, s.drop_first())
    } else if s.len() > 0 && s[0] == 43 {
        (false, s.drop_first())
    } else {
        (false, s)
    };
    if d.len() > 0 && all_digits(d) && digits_value(d) <= 2147483647 {
        Some(if neg { -(digits_value(d) as int) } else { digits_value(d) as int })
    } else {
        None
    }
}

/// Reads a rating change such as `+12` or `-7`.
pub fn parse_i32(s: &[u8]) -> (r: Option<i32>)
    ensures
        r matches Some(v) ==> signed_value(s@) == Some(v as int),
        r is None ==> signed_value(s@) is None,
{
    let neg = s.len() > 0 && s[0] == 45;
    let start: usize = if s.len() > 0 && (s[0] == 45 || s[0] == 43) { 1 } else { 0 };
    let d = slice_from(s, start);
    assert(start == 1 ==> d@ =~= s@.drop_first());
    assert(start == 0 ==> d@ =~= s@);
    match parse_u32(d) {
        Some(v) => {
            if v > 2147483647 {
                None
            } else if neg {
                Some(-(v as i32))
            } else {
                Some(v as i32)
            }
        },
        None => None,
    }
}

/// The bytes of `s` from `start` on.
pub fn slice_from(s: &[u8], start: usize) -> (r: &[u8])
    requires
        start <= s@.len(),
    ensures
        r@ == s@.subrange(start as int, s@.len() as int),
{
    let (_, b) = s.split_at(start);
    b
}

/// The bytes of `s` before `end`.
pub fn slice_to(s: &[u8], end: usize) -> (r: &[u8])
    requires
        end <= s@.len(),
    ensures
        r@ == s@.subrange(0, end as int),
{
    let (a, _) = s.split_at(end);
    a
}

/// Whether `s` begins with `p`.
pub fn starts_with(s: &[u8], p: &[u8]) -> (r: bool)
    ensures
        r == (p@.len() <= s@.len() && s@.subrange(0, p@.len() as int) == p@),
{
    if p.len() > s.len() {
        return false;
    }
    let mut i: usize = 0;
    while i < p.len()
        invariant
            i <= p@.len(),
            p@.len() <= s@.len(),
            forall|j: int| 0 <= j < i ==> s@[j] == p@[j],
        decreases p@.len() - i,
    {
        if s[i] != p[i] {
            assert(s@.subrange(0, p@.len() as int)[i as int] != p@[i as int]);
            return false;
        }
        i = i + 1;
    }
    assert(s@.subrange(0, p@.len() as int) =~= p@);
    true
}

/// Whether `s` equals `p`.
pub fn bytes_equal(s: &[u8], p: &[u8]) -> (r: bool)
    ensures
        r == (s@ == p@),
{
    if s.len() != p.len() {
        return false;
    }
    let r = starts_with(s, p);
    assert(s@.subrange(0, p@.len() as int) =~= s@);
    r
}

/// Whether `a` comes strictly before `b` in byte-wise lexicographic order.
pub open spec fn lex_less(a: Seq<u8>, b: Seq<u8>) -> bool
    decreases a.len(),
{
    if b.len() == 0 {
        false
    } else if a.len() == 0 {
        true
    } else if a[0] != b[0] {
        a[0] < b[0]
    } else {
        lex_less(a.drop_first(), b.drop_first())
    }
}

/// Byte-wise lexicographic `a < b`.
pub fn less_than(a: &[u8], b: &[u8]) -> (r: bool)
    ensures
        r == lex_less(a@, b@),
{
    let mut i: usize = 0;
    assert(a@.subrange(0, a@.len() as int) =~= a@);
    assert(b@.subrange(0, b@.len() as int) =~= b@);
    while i < a.len() && i < b.len()
        invariant
            i <= a@.len(),
            i <= b@.len(),
            lex_less(a@, b@) == lex_less(a@.subrange(i as int, a@.len() as int), b@.subrange(i as int, b@.len() as int)),
        decreases a@.len() - i,
    {
        let ghost sa = a@.subrange(i as int, a@.len() as int);
        let ghost sb = b@.subrange(i as int, b@.len() as int);
        if a[i] != b[i] {
            return a[i] < b[i];
        }
        assert(sa.drop_first() =~= a@.subrange(i + 1, a@.len() as int));
        assert(sb.drop_first() =~= b@.subrange(i + 1, b@.len() as int));
        i = i + 1;
    }
    i < b.len()
}

/// Whether `y-m-d` is a day of the proleptic Gregorian calendar.
pub open spec fn valid_date(y: int, m: int, d: int) -> bool {
    let leap = (y % 4 == 0 && y % 100 != 0) || y % 400 == 0;
    let days = if m == 2 {
        if leap { 29int } else { 28int }
    } else if m == 4 || m == 6 || m == 9 || m == 11 {
        30int
    } else {
        31int
    };
    1 <= m <= 12 && 1 <= d <= days
}

/// Seconds since the Unix epoch of a valid UTC date and time, as chrono
/// computes them.
pub uninterp spec fn utc_seconds(y: int, m: int, d: int, h: int, mi: int, s: int) -> int;

/// Relies on chrono's `NaiveDate::from_ymd_opt` (`None` on a day that does not
/// exist), `NaiveDate::and_hms_opt` (`None` on an hour, minute or second out of
/// range) and `and_utc().timestamp()` (seconds since the epoch).
#[verifier::external_body]
fn utc_timestamp(y: u32, m: u32, d: u32, h: u32, mi: u32, s: u32) -> (r: Option<i64>)
    requires
        y <= 9999,
    ensures
        r.is_some() == (valid_date(y as int, m as int, d as int) && h < 24 && mi < 60 && s < 60),
        r matches Some(t) ==> t == utc_seconds(y as int, m as int, d as int, h as int, mi as int, s as int),
{
    match chrono::NaiveDate::from_ymd_opt(y as i32, m, d) {
        Some(date) => match date.and_hms_opt(h, mi, s) {
            Some(dt) => Some(dt.and_utc().timestamp()),
            None => None,
        },
        None => None,
    }
}

/// The numbers of a fixed-width field `a` `sep` `b` `sep` `c`, with `wa`
/// digits in the first field and two in each of the others.
pub open spec fn three_fields(s: Seq<u8>, wa: int, sep: u8) -> Option<(nat, nat, nat)> {
    if s.len() == wa + 6 && s[wa] == sep && s[wa + 3] == sep
        && all_digits(s.subrange(0, wa)) && all_digits(s.subrange(wa + 1, wa + 3))
        && all_digits(s.subrange(wa + 4, wa + 6)) {
        Some((digits_value(s.subrange(0, wa)), digits_value(s.subrange(wa + 1, wa + 3)),
            digits_value(s.subrange(wa + 4, wa + 6))))
    } else {
        None
    }
}

/// Reads `a` `sep` `b` `sep` `c` with fixed widths `wa`, 2 and 2.
fn parse_three(s: &[u8], wa: usize, sep: u8) -> (r: Option<(u32, u32, u32)>)
    requires
        1 <= wa <= 4,
    ensures
        match r {
            Some((a, b, c)) => three_fields(s@, wa as int, sep) == Some((a as nat, b as nat, c as nat)),
            None => three_fields(s@, wa as int, sep) is None,
        },
{
    if s.len() != wa + 6 || s[wa] != sep || s[wa + 3] != sep {
        return None;
    }
    let fa = slice_to(s, wa);
    let rest = slice_from(s, wa + 1);
    let fb = slice_to(rest, 2);
    let rest2 = slice_from(s, wa + 4);
    assert(fb@ =~= s@.subrange(wa + 1, wa + 3));
    assert(rest2@ =~= s@.subrange(wa + 4, wa + 6));
    match (parse_u32(fa), parse_u32(fb), parse_u32(rest2)) {
        (Some(a), Some(b), Some(c)) => Some((a, b, c)),
        _ => {
            proof {
                if all_digits(fa@) {
                    lemma_small_digits(fa@);
                }
                if all_digits(fb@) {
                    lemma_small_digits(fb@);
                }
                if all_digits(rest2@) {
                    lemma_small_digits(rest2@);
                }
            }
            None
        },
    }
}

/// Four digits or fewer denote less than 10000.
pub proof fn lemma_small_digits(s: Seq<u8>)
    requires
        s.len() <= 4,
        all_digits(s),
    ensures
        digits_value(s) < 10000,
    decreases s.len(),
{
    if s.len() > 0 {
        let p = s.drop_last();
        assert(all_digits(p)) by {
            assert forall|i: int| 0 <= i < p.len() implies is_digit_byte(#[trigger] p[i]) by {
                assert(p[i] == s[i]);
            }
        }
        lemma_small_digits(p);
        lemma_digits_bound(p);
        assert(is_digit_byte(s.last()));
    }
}

/// n digits denote less than 10^n, for n up to 3.
proof fn lemma_digits_bound(s: Seq<u8>)
    requires
        s.len() <= 3,
        all_digits(s),
    ensures
        s.len() == 0 ==> digits_value(s) == 0,
        s.len() == 1 ==> digits_value(s) < 10,
        s.len() == 2 ==> digits_value(s) < 100,
        s.len() == 3 ==> digits_value(s) < 1000,
    decreases s.len(),
{
    if s.len() > 0 {
        let p = s.drop_last();
        assert(all_digits(p)) by {
            assert forall|i: int| 0 <= i < p.len() implies is_digit_byte(#[trigger] p[i]) by {
                assert(p[i] == s[i]);
            }
        }
        lemma_digits_bound(p);
        assert(is_digit_byte(s.last()));
    }
}

/// The UTC time of a game from its `UTCDate` (`YYYY.MM.DD`) and `UTCTime`
/// (`HH:MM:SS`) headers, in seconds since the Unix epoch; `None` where either
/// is malformed or names no real day or time.
pub open spec fn game_time(date: Seq<u8>, time: Seq<u8>) -> Option<int> {
    match (three_fields(date, 4, 46), three_fields(time, 2, 58)) {
        (Some((y, m, d)), Some((h, mi, s))) => if valid_date(y as int, m as int, d as int) && h < 24 && mi < 60 && s < 60 {
            Some(utc_seconds(y as int, m as int, d as int, h as int, mi as int, s as int))
        } else {
            None
        },
        _ => None,
    }
}

/// Reads the UTC time of a game from its date and time headers.
pub fn parse_game_time(date: &[u8], time: &[u8]) -> (r: Option<i64>)
    ensures
        match r {
            Some(t) => game_time(date@, time@) == Some(t as int),
            None => game_time(date@, time@) is None,
        },
{
    match (parse_three(date, 4, 46), parse_three(time, 2, 58)) {
        (Some((y, m, d)), Some((h, mi, s))) => {
            proof {
                let dd = date@;
                lemma_small_digits(dd.subrange(0, 4));
            }
            utc_timestamp(y, m, d, h, mi, s)
        },
        _ => None,
    }
}

/// An owned copy of a byte slice.
pub fn to_bytes(s: &[u8]) -> (r: Vec<u8>)
    ensures
        r@ == s@,
{
    let mut r: Vec<u8> = Vec::new();
    let mut i: usize = 0;
    while i < s.len()
        invariant
            i <= s@.len(),
            r@ == s@.subrange(0, i as int),
        decreases s@.len() - i,
    {
        r.push(s[i]);
        assert(r@ =~= s@.subrange(0, i + 1));
        i = i + 1;
    }
    assert(s@.subrange(0, i as int) =~= s@);
    r
}

/// Lexicographic order is transitive.
pub proof fn lemma_lex_less_transitive(a: Seq<u8>, b: Seq<u8>, c: Seq<u8>)
    requires
        lex_less(a, b),
        lex_less(b, c),
    ensures
        lex_less(a, c),
    decreases a.len(),
{
    if a.len() > 0 && b.len() > 0 && c.len() > 0 && a[0] == b[0] && b[0] == c[0] {
        lemma_lex_less_transitive(a.drop_first(), b.drop_first(), c.drop_first());
    }
}

/// No byte string comes before itself.
pub proof fn lemma_lex_less_irreflexive(a: Seq<u8>)
    ensures
        !lex_less(a, a),
    decreases a.len(),
{
    if a.len() > 0 {
        lemma_lex_less_irreflexive(a.drop_first());
    }
}

} // verus!
