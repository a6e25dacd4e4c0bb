use vstd::prelude::*;

verus! {

pub open spec fn is_digit(c: char) -> bool {
    '0' <= c && c <= '9'
}

pub open spec fn digit_value(c: char) -> nat {
    (c as int - '0' as int) as nat
}

pub open spec fn all_digits(s: Seq<char>) -> bool {
    forall|i: int| 0 <= i < s.len() ==> is_digit(#[trigger] s[i])
}

/// The number written by a string of decimal digits.
pub open spec fn digits_value(s: Seq<char>) -> nat
    decreases s.len(),
{
    if s.len() == 0 {
        0
    } else {
        digits_value(s.drop_last()) * 10 + digit_value(s.last())
    }
}

/// A non-empty run of decimal digits whose value fits in a `u64`.
pub open spec fn id_of(s: Seq<char>) -> Option<u64> {
    if s.len() > 0 && all_digits(s) && digits_value(s) <= u64::MAX {
        Some(digits_value(s) as u64)
    } else {
        None
    }
}

/// The amount, in hundredths, written as digits with an optional fraction
/// of one or two digits after a '.'; `None` for any other text or an amount
/// that does not fit in a `u64`.
pub open spec fn amount_value(s: Seq<char>) -> Option<nat> {
    let n = s.len();
    if n > 0 && all_digits(s) {
        Some(digits_value(s) * 100)
    } else if n >= 3 && s[n - 2] == '.' && all_digits(s.take(n - 2)) && is_digit(s[n - 1]) {
        Some(digits_value(s.take(n - 2)) * 100 + digit_value(s[n - 1]) * 10)
    } else if n >= 4 && s[n - 3] == '.' && all_digits(s.take(n - 3)) && is_digit(s[n - 2])
        && is_digit(s[n - 1]) {
        Some(digits_value(s.take(n - 3)) * 100 + digit_value(s[n - 2]) * 10 + digit_value(
            s[n - 1],
        ))
    } else {
        None
    }
}

pub open spec fn amount_of(s: Seq<char>) -> Option<u64> {
    match amount_value(s) {
        Some(v) => if v <= u64::MAX {
            Some(v as u64)
        } else {
            None
        },
        None => None,
    }
}

proof fn lemma_digits_value_monotone(s: Seq<char>, j: int, k: int)
    requires
        0 <= j <= k <= s.len(),
    ensures
        digits_value(s.take(j)) <= digits_value(s.take(k)),
    decreases k - j,
{
    if j < k {
        lemma_digits_value_monotone(s, j, k - 1);
        assert(s.take(k).drop_last() =~= s.take(k - 1));
    }
}

/// Reads the digits `s[from..to]`; `None` where one is not a digit or the
/// value exceeds `u64::MAX`.
fn digits_in(s: &str, from: usize, to: usize) -> (r: Option<u64>)
    requires
        from <= to <= s@.len(),
    ensures
        r == (if all_digits(s@.subrange(from as int, to as int)) && digits_value(
            s@.subrange(from as int, to as int),
        ) <= u64::MAX {
            Some(digits_value(s@.subrange(from as int, to as int)) as u64)
        } else {
            None
        }),
{
    let ghost t = s@.subrange(from as int, to as int);
    let mut acc: u64 = 0;
    let mut i: usize = from;
    while i < to
        invariant
            from <= i <= to <= s@.len(),
            t == s@.subrange(from as int, to as int),
            all_digits(t.take(i - from)),
            acc as nat == digits_value(t.take(i - from)),
        decreases to - i,
    {
        let c = s.get_char(i);
        assert(t.take(i - from + 1).drop_last() =~= t.take(i - from));
        assert(t[i - from] == c);
        if !('0' <= c && c <= '9') {
            assert(!all_digits(t));
            return None;
        }
        let d = (c as u32 - '0' as u32) as u64;
        if acc > (u64::MAX - d) / 10 {
            proof {
                lemma_digits_value_monotone(t, i - from + 1, t.len() as int);
                assert(t.take(t.len() as int) =~= t);
            }
            return None;
        }
        acc = acc * 10 + d;
        i = i + 1;
        assert forall|k: int| 0 <= k < t.take(i - from).len() implies is_digit(
            #[trigger] t.take(i - from)[k],
        ) by {
            if k < i - from - 1 {
                assert(t.take(i - from)[k] == t.take(i - from - 1)[k]);
            }
        }
    }
    assert(t.take(i - from) =~= t);
    Some(acc)
}

/// Parses a reference id: a non-empty run of decimal digits.
pub fn parse_id(s: &str) -> (r: Option<u64>)
    ensures
        r == id_of(s@),
{
    let n = s.unicode_len();
    if n == 0 {
        return None;
    }
    assert(s@.subrange(0, n as int) =~= s@);
    digits_in(s, 0, n)
}

/// Parses an amount into hundredths: digits with an optional fraction of
/// one or two digits after a '.' ("50.75" is 5075). Anything else, a sign or
/// an exponent included, is refused, and so every accepted amount is finite
/// and non-negative.
pub fn parse_amount(s: &str) -> (r: Option<u64>)
    ensures
        r == amount_of(s@),
{
    let n = s.unicode_len();
    let ghost t = s@;
    if n == 0 {
        return None;
    }
    assert(t.subrange(0, n as int) =~= t);
    if let Some(v) = digits_in(s, 0, n) {
        if v > u64::MAX / 100 {
            return None;
        }
        return Some(v * 100);
    }
    if n >= 3 && s.get_char(n - 2) == '.' {
        assert(t.subrange(0, n - 2) =~= t.take(n - 2));
        let c = s.get_char(n - 1);
        if let Some(w) = digits_in(s, 0, n - 2) {
            if '0' <= c && c <= '9' {
                let d = (c as u32 - '0' as u32) as u64;
                if w > (u64::MAX - d * 10) / 100 {
                    return None;
                }
                return Some(w * 100 + d * 10);
            }
        }
        return None;
    }
    if n >= 4 && s.get_char(n - 3) == '.' {
        assert(t.subrange(0, n - 3) =~= t.take(n - 3));
        let c1 = s.get_char(n - 2);
        let c2 = s.get_char(n - 1);
        if let Some(w) = digits_in(s, 0, n - 3) {
            if '0' <= c1 && c1 <= '9' && '0' <= c2 && c2 <= '9' {
                let d = (c1 as u32 - '0' as u32) as u64 * 10 + (c2 as u32 - '0' as u32) as u64;
                if w > (u64::MAX - d) / 100 {
                    return None;
                }
                return Some(w * 100 + d);
            }
        }
        return None;
    }
    None
}

} // verus!
