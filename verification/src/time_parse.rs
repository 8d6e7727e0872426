//! Intervals encoded in script file names, such as `30s`, `5m`, `2h` or `1d`.

use vstd::prelude::*;
use vstd::string::StringSliceAdditionalSpecFns;

verus! {

/// `b` is an ASCII decimal digit.
pub open spec fn is_digit(b: u8) -> bool {
    48 <= b <= 57
}

/// Number of leading ASCII digits of `s`.
pub open spec fn digit_prefix_len(s: Seq<u8>) -> nat
    decreases s.len(),
{
    if s.len() > 0 && is_digit(s[0]) {
        1 + digit_prefix_len(s.drop_first())
    } else {
        0
    }
}

/// Decimal value of a sequence of ASCII digits.
pub open spec fn decimal_value(d: Seq<u8>) -> nat
    decreases d.len(),
{
    if d.len() == 0 {
        0
    } else {
        decimal_value(d.drop_last()) * 10 + (d.last() - 48) as nat
    }
}

/// The count in front of the unit: the leading digits read as a `u64`, or 1 where
/// there are none or they do not fit.
pub open spec fn interval_count(s: Seq<u8>) -> nat {
    let d = s.take(digit_prefix_len(s) as int);
    if d.len() == 0 || decimal_value(d) > u64::MAX {
        1
    } else {
        decimal_value(d)
    }
}

/// Seconds per unit of the first character after the digits; 0 where it is no unit.
pub open spec fn unit_seconds(s: Seq<u8>) -> nat {
    let k = digit_prefix_len(s);
    if k < s.len() {
        if s[k as int] == 115 {
            1
        } else if s[k as int] == 109 {
            60
        } else if s[k as int] == 104 {
            3600
        } else if s[k as int] == 100 {
            86400
        } else {
            0
        }
    } else {
        0
    }
}

/// The interval, in seconds, that the text `s` (as UTF-8 bytes) stands for: the count
/// times the unit, or 60 where no unit follows the digits.
pub open spec fn interval_seconds(s: Seq<u8>) -> nat {
    if unit_seconds(s) == 0 {
        60
    } else {
        interval_count(s) * unit_seconds(s)
    }
}

proof fn lemma_digit_prefix_len(s: Seq<u8>, i: int)
    requires
        0 <= i <= s.len(),
        forall|j: int| 0 <= j < i ==> is_digit(#[trigger] s[j]),
        i == s.len() || !is_digit(s[i]),
    ensures
        digit_prefix_len(s) == i,
    decreases i,
{
    if i > 0 {
        let t = s.drop_first();
        assert forall|j: int| 0 <= j < i - 1 implies is_digit(#[trigger] t[j]) by {
            assert(t[j] == s[j + 1]);
        }
        if i - 1 < t.len() {
            assert(t[i - 1] == s[i]);
        }
        lemma_digit_prefix_len(t, i - 1);
    }
}

proof fn lemma_decimal_value_grows(d: Seq<u8>, b: u8)
    requires
        is_digit(b),
    ensures
        decimal_value(d.push(b)) == decimal_value(d) * 10 + (b - 48),
        decimal_value(d.push(b)) >= decimal_value(d),
{
    assert(d.push(b).drop_last() =~= d);
}

proof fn lemma_digit_prefix_shape(s: Seq<u8>)
    ensures
        digit_prefix_len(s) <= s.len(),
        forall|j: int| 0 <= j < digit_prefix_len(s) ==> is_digit(#[trigger] s[j]),
        digit_prefix_len(s) == s.len() || !is_digit(s[digit_prefix_len(s) as int]),
    decreases s.len(),
{
    if s.len() > 0 && is_digit(s[0]) {
        let t = s.drop_first();
        lemma_digit_prefix_shape(t);
        assert forall|j: int| 0 <= j < digit_prefix_len(s) implies is_digit(#[trigger] s[j]) by {
            if j > 0 {
                assert(s[j] == t[j - 1]);
            }
        }
        if digit_prefix_len(s) < s.len() {
            assert(s[digit_prefix_len(s) as int] == t[digit_prefix_len(t) as int]);
        }
    }
}

/// Appending `n` to an interval (to ask for notifications) keeps the interval it
/// stands for: `5mn` is five minutes as `5m` is.
pub proof fn lemma_notify_suffix_keeps_interval(p: Seq<u8>)
    ensures
        interval_seconds(p.push(110)) == interval_seconds(p),
{
    let q = p.push(110);
    lemma_digit_prefix_shape(p);
    let k = digit_prefix_len(p);
    assert forall|j: int| 0 <= j < k implies is_digit(#[trigger] q[j]) by {
        assert(q[j] == p[j]);
    }
    if k < p.len() {
        assert(q[k as int] == p[k as int]);
    }
    lemma_digit_prefix_len(q, k as int);
    assert(q.take(k as int) =~= p.take(k as int));
}

/// Whatever follows the unit is ignored: digits, a unit (`s`, `m`, `h` or `d`), then
/// any text stand for the interval that the digits and the unit alone stand for.
pub proof fn lemma_text_after_unit_ignored(d: Seq<u8>, u: u8, rest: Seq<u8>)
    requires
        forall|j: int| 0 <= j < d.len() ==> is_digit(#[trigger] d[j]),
        u == 115 || u == 109 || u == 104 || u == 100,
    ensures
        interval_seconds(d.push(u) + rest) == interval_seconds(d.push(u)),
{
    let a = d.push(u) + rest;
    let b = d.push(u);
    let k = d.len() as int;
    assert forall|j: int| 0 <= j < k implies is_digit(#[trigger] a[j]) by {
        assert(a[j] == d[j]);
    }
    assert forall|j: int| 0 <= j < k implies is_digit(#[trigger] b[j]) by {
        assert(b[j] == d[j]);
    }
    assert(a[k] == u);
    assert(b[k] == u);
    lemma_digit_prefix_len(a, k);
    lemma_digit_prefix_len(b, k);
    assert(a.take(k) =~= d);
    assert(b.take(k) =~= d);
}

/// The interval, in seconds, that a file name part such as `30s` or `5mn` encodes.
/// The leading digits give the count (1 where there are none or they do not fit a
/// `u64`); the character after them gives the unit: `s`, `m`, `h` or `d`. Anything
/// else there, or nothing, gives 60 seconds.
pub fn time_parse(s: &str) -> (secs: u64)
    requires
        interval_seconds(s.spec_bytes()) <= u64::MAX,
    ensures
        secs == interval_seconds(s.spec_bytes()),
{
    match time_parse_checked(s) {
        Some(secs) => secs,
        None => 60,
    }
}

/// [`time_parse`] where its result fits a `u64`, and `None` where the count times the
/// unit overflows (where `time_parse` may not be called).
pub fn time_parse_checked(s: &str) -> (r: Option<u64>)
    ensures
        r is Some <==> interval_seconds(s.spec_bytes()) <= u64::MAX,
        r matches Some(secs) ==> secs == interval_seconds(s.spec_bytes()),
{
    interval_of_bytes(s.as_bytes())
}

/// [`time_parse_checked`] on the UTF-8 bytes of the text.
pub fn interval_of_bytes(bytes: &[u8]) -> (r: Option<u64>)
    ensures
        r is Some <==> interval_seconds(bytes@) <= u64::MAX,
        r matches Some(secs) ==> secs == interval_seconds(bytes@),
{
    let ghost sb = bytes@;
    let mut i: usize = 0;
    let mut value: u64 = 0;
    let mut fits: bool = true;
    while i < bytes.len() && 48 <= bytes[i] && bytes[i] <= 57
        invariant
            bytes@ == sb,
            0 <= i <= bytes.len(),
            forall|j: int| 0 <= j < i ==> is_digit(#[trigger] sb[j]),
            fits ==> value == decimal_value(sb.take(i as int)),
            !fits ==> decimal_value(sb.take(i as int)) > u64::MAX,
        decreases bytes.len() - i,
    {
        let b = bytes[i];
        proof {
            assert(sb.take(i + 1) =~= sb.take(i as int).push(b));
            lemma_decimal_value_grows(sb.take(i as int), b);
        }
        if fits {
            match value.checked_mul(10) {
                Some(v10) => match v10.checked_add((b - 48) as u64) {
                    Some(v) => {
                        value = v;
                    },
                    None => {
                        fits = false;
                    },
                },
                None => {
                    fits = false;
                },
            }
        }
        i = i + 1;
    }
    proof {
        lemma_digit_prefix_len(sb, i as int);
    }
    let count: u64 = if i == 0 || !fits {
        1
    } else {
        value
    };
    let unit: u64 = if i < bytes.len() {
        let c = bytes[i];
        if c == 115 {
            1
        } else if c == 109 {
            60
        } else if c == 104 {
            3600
        } else if c == 100 {
            86400
        } else {
            0
        }
    } else {
        0
    };
    if unit == 0 {
        Some(60)
    } else {
        count.checked_mul(unit)
    }
}

} // verus!
