use vstd::prelude::*;

verus! {

/// Largest number of fractional digits a quantity or a price may carry.
pub const FRACTION_DIGITS: usize = 8;

pub open spec fn is_digit(c: char) -> bool {
    '0' <= c && c <= '9'
}

pub open spec fn all_digits(s: Seq<char>) -> bool {
    forall|i: int| 0 <= i < s.len() ==> is_digit(#[trigger] s[i])
}

pub open spec fn digit_value(c: char) -> int {
    (c as u32) - ('0' as u32)
}

/// The value of a string of decimal digits, most significant first.
pub open spec fn digits_value(s: Seq<char>) -> int
    decreases s.len(),
{
    if s.len() == 0 {
        0
    } else {
        digits_value(s.drop_last()) * 10 + digit_value(s.last())
    }
}

pub open spec fn pow10(n: nat) -> int
    decreases n,
{
    if n == 0 {
        1
    } else {
        10 * pow10((n - 1) as nat)
    }
}

/// Index of the first `.` in `s`, or `s.len()` when there is none.
pub open spec fn dot_index(s: Seq<char>) -> int
    decreases s.len(),
{
    if s.len() == 0 {
        0
    } else if s[0] == '.' {
        0
    } else {
        1 + dot_index(s.drop_first())
    }
}

/// Digits before the first `.` (all of `s` when there is none).
pub open spec fn whole_part(s: Seq<char>) -> Seq<char> {
    s.take(dot_index(s))
}

/// What follows the first `.` (empty when there is none).
pub open spec fn fraction_part(s: Seq<char>) -> Seq<char> {
    if dot_index(s) < s.len() {
        s.skip(dot_index(s) + 1)
    } else {
        Seq::empty()
    }
}

/// A non-negative decimal `D*[.D*]` with at least one digit and at most
/// eight fractional digits, as a whole number of units of 10^-8; `None` when
/// the text has another shape or the value does not fit in a `u64`.
pub open spec fn units_spec(s: Seq<char>) -> Option<int> {
    let w = whole_part(s);
    let f = fraction_part(s);
    let v = digits_value(w + f) * pow10((FRACTION_DIGITS - f.len()) as nat);
    if all_digits(w) && all_digits(f) && f.len() <= FRACTION_DIGITS && w.len() + f.len() >= 1
        && v <= u64::MAX {
        Some(v)
    } else {
        None
    }
}

/// A decimal integer with an optional leading `+` or `-`, when it fits in an
/// `i64`.
pub open spec fn integer_spec(s: Seq<char>) -> Option<int> {
    let signed = s.len() > 0 && (s[0] == '-' || s[0] == '+');
    let body = if signed {
        s.drop_first()
    } else {
        s
    };
    let v = if signed && s[0] == '-' {
        -digits_value(body)
    } else {
        digits_value(body)
    };
    if body.len() >= 1 && all_digits(body) && i64::MIN <= v <= i64::MAX {
        Some(v)
    } else {
        None
    }
}

pub proof fn lemma_digits_value_nonneg(s: Seq<char>)
    requires
        all_digits(s),
    ensures
        digits_value(s) >= 0,
    decreases s.len(),
{
    if s.len() > 0 {
        lemma_digits_value_nonneg(s.drop_last());
    }
}

/// Appending digits never lowers the value.
pub proof fn lemma_digits_value_grows(a: Seq<char>, b: Seq<char>)
    requires
        all_digits(a),
        all_digits(b),
    ensures
        digits_value(a + b) >= digits_value(a),
    decreases b.len(),
{
    lemma_digits_value_nonneg(a);
    if b.len() > 0 {
        assert((a + b).drop_last() == a + b.drop_last());
        lemma_digits_value_grows(a, b.drop_last());
        lemma_digits_value_nonneg(a + b.drop_last());
    } else {
        assert(a + b == a);
    }
}

pub proof fn lemma_pow10_positive(n: nat)
    ensures
        pow10(n) >= 1,
    decreases n,
{
    if n > 0 {
        lemma_pow10_positive((n - 1) as nat);
    }
}

/// Whether `c` is a decimal digit, and its value.
fn digit_of(c: char) -> (r: Option<u32>)
    ensures
        r is Some <==> is_digit(c),
        r matches Some(d) ==> d == digit_value(c) && d < 10,
{
    if '0' <= c && c <= '9' {
        Some(c as u32 - '0' as u32)
    } else {
        None
    }
}

/// Whether every character of `text` is a decimal digit: a liveness ping of
/// the feed.
pub fn is_ping(text: &str) -> (r: bool)
    ensures
        r == all_digits(text@),
{
    let n = text.unicode_len();
    let mut i: usize = 0;
    while i < n
        invariant
            n == text@.len(),
            i <= n,
            forall|j: int| 0 <= j < i ==> is_digit(#[trigger] text@[j]),
        decreases n - i,
    {
        let c = text.get_char(i);
        if digit_of(c).is_none() {
            return false;
        }
        i = i + 1;
    }
    true
}


proof fn lemma_dot_index_at_least(s: Seq<char>, i: int)
    requires
        0 <= i <= s.len(),
        forall|j: int| 0 <= j < i ==> s[j] != '.',
    ensures
        dot_index(s) >= i,
        dot_index(s) <= s.len(),
        i < s.len() && s[i] == '.' ==> dot_index(s) == i,
        i == s.len() ==> dot_index(s) == i,
    decreases i,
{
    if i > 0 {
        assert forall|j: int| 0 <= j < i - 1 implies s.drop_first()[j] != '.' by {
            assert(s.drop_first()[j] == s[j + 1]);
        }
        lemma_dot_index_at_least(s.drop_first(), i - 1);
    } else {
        lemma_dot_index_le(s);
    }
}

proof fn lemma_dot_index_le(s: Seq<char>)
    ensures
        0 <= dot_index(s) <= s.len(),
        dot_index(s) < s.len() ==> s[dot_index(s)] == '.',
    decreases s.len(),
{
    if s.len() > 0 && s[0] != '.' {
        lemma_dot_index_le(s.drop_first());
    }
}

/// `10^n`, for `n <= 8`.
fn pow10_exec(n: usize) -> (r: u128)
    requires
        n <= FRACTION_DIGITS,
    ensures
        r == pow10(n as nat),
        r <= 100_000_000,
{
    proof {
        reveal_with_fuel(pow10, 9);
    }
    if n == 0 {
        1
    } else if n == 1 {
        10
    } else if n == 2 {
        100
    } else if n == 3 {
        1_000
    } else if n == 4 {
        10_000
    } else if n == 5 {
        100_000
    } else if n == 6 {
        1_000_000
    } else if n == 7 {
        10_000_000
    } else {
        100_000_000
    }
}

/// Parses a non-negative decimal into units of 10^-8 (see [`units_spec`]).
pub fn parse_units(text: &str) -> (r: Option<u64>)
    ensures
        r matches Some(v) ==> units_spec(text@) == Some(v as int),
        r is None ==> units_spec(text@) is None,
{
    let ghost s = text@;
    let n = text.unicode_len();
    let mut acc: u128 = 0;
    let mut i: usize = 0;
    // Whole part.
    while i < n && text.get_char(i) != '.'
        invariant
            n == s.len(),
            s == text@,
            i <= n,
            forall|j: int| 0 <= j < i ==> s[j] != '.' && is_digit(#[trigger] s[j]),
            acc == digits_value(s.take(i as int)),
            acc <= u64::MAX,
        decreases n - i,
    {
        let c = text.get_char(i);
        let d = match digit_of(c) {
            Some(d) => d,
            None => {
                proof {
                    assert forall|j: int| 0 <= j < i + 1 implies s[j] != '.' by {}
                    lemma_dot_index_at_least(s, i + 1);
                    assert(whole_part(s)[i as int] == c);
                }
                return None;
            },
        };
        assert(s.take(i + 1).drop_last() == s.take(i as int));
        acc = acc * 10 + d as u128;
        if acc > u64::MAX as u128 {
            proof {
                assert forall|j: int| 0 <= j < i + 1 implies s[j] != '.' by {}
                lemma_dot_index_at_least(s, i + 1);
                let k = dot_index(s);
                let w = whole_part(s);
                let f = fraction_part(s);
                if all_digits(w) && all_digits(f) {
                    assert(w == s.take(i + 1) + s.subrange(i + 1, k));
                    assert(all_digits(s.take(i + 1)));
                    assert forall|j: int| 0 <= j < k - (i + 1) implies is_digit(
                        #[trigger] s.subrange(i + 1, k)[j],
                    ) by {
                        assert(s.subrange(i + 1, k)[j] == w[i + 1 + j]);
                    }
                    lemma_digits_value_grows(s.take(i + 1), s.subrange(i + 1, k));
                    lemma_digits_value_grows(w, f);
                    lemma_pow10_positive((FRACTION_DIGITS - f.len()) as nat);
                    assert(digits_value(w + f) * pow10((FRACTION_DIGITS - f.len()) as nat)
                        >= digits_value(w + f)) by (nonlinear_arith)
                        requires
                            digits_value(w + f) >= 0,
                            pow10((FRACTION_DIGITS - f.len()) as nat) >= 1,
                    ;
                }
            }
            return None;
        }
        i = i + 1;
    }
    let k = i;
    proof {
        lemma_dot_index_at_least(s, k as int);
        assert(whole_part(s) == s.take(k as int));
    }
    let mut fraction_len: usize = 0;
    if k < n {
        i = k + 1;
        while i < n
            invariant
                n == s.len(),
                s == text@,
                k < n,
                k == dot_index(s),
                k + 1 <= i <= n,
                fraction_len == i - k - 1,
                fraction_len <= FRACTION_DIGITS,
                all_digits(s.take(k as int)),
                all_digits(s.subrange(k + 1, i as int)),
                acc == digits_value(s.take(k as int) + s.subrange(k + 1, i as int)),
                acc <= u64::MAX,
            decreases n - i,
        {
            let c = text.get_char(i);
            let d = match digit_of(c) {
                Some(d) => d,
                None => {
                    assert(fraction_part(s)[i - k - 1] == c);
                    return None;
                },
            };
            if fraction_len == FRACTION_DIGITS {
                return None;
            }
            let ghost before = s.take(k as int) + s.subrange(k + 1, i as int);
            let ghost after = s.take(k as int) + s.subrange(k + 1, i + 1);
            assert(after.drop_last() == before);
            acc = acc * 10 + d as u128;
            if acc > u64::MAX as u128 {
                proof {
                    let w = whole_part(s);
                    let f = fraction_part(s);
                    if all_digits(f) {
                        assert(f == s.subrange(k + 1, i + 1) + s.subrange(i + 1, n as int));
                        assert(w + f == after + s.subrange(i + 1, n as int));
                        assert(all_digits(after));
                        assert forall|j: int| 0 <= j < n - (i + 1) implies is_digit(
                            #[trigger] s.subrange(i + 1, n as int)[j],
                        ) by {
                            assert(s.subrange(i + 1, n as int)[j] == f[i - k + j]);
                        }
                        lemma_digits_value_grows(after, s.subrange(i + 1, n as int));
                        lemma_pow10_positive((FRACTION_DIGITS - f.len()) as nat);
                        assert(digits_value(w + f) * pow10((FRACTION_DIGITS - f.len()) as nat)
                            >= digits_value(w + f)) by (nonlinear_arith)
                            requires
                                digits_value(w + f) >= 0,
                                pow10((FRACTION_DIGITS - f.len()) as nat) >= 1,
                        ;
                    }
                }
                return None;
            }
            fraction_len = fraction_len + 1;
            i = i + 1;
        }
        assert(fraction_part(s) == s.subrange(k + 1, n as int));
    } else {
        assert(fraction_part(s).len() == 0);
        assert(s.take(k as int) + fraction_part(s) == s.take(k as int));
    }
    if k + fraction_len == 0 {
        return None;
    }
    let scale = pow10_exec(FRACTION_DIGITS - fraction_len);
    assert(acc * scale <= u64::MAX * 100_000_000) by (nonlinear_arith)
        requires
            acc <= u64::MAX,
            scale <= 100_000_000,
    ;
    let v = acc * scale;
    if v > u64::MAX as u128 {
        return None;
    }
    Some(v as u64)
}

/// Parses a decimal integer with an optional sign (see [`integer_spec`]).
pub fn parse_integer(text: &str) -> (r: Option<i64>)
    ensures
        r matches Some(v) ==> integer_spec(text@) == Some(v as int),
        r is None ==> integer_spec(text@) is None,
{
    let ghost s = text@;
    let n = text.unicode_len();
    if n == 0 {
        return None;
    }
    let first = text.get_char(0);
    let negative = first == '-';
    let start: usize = if first == '-' || first == '+' { 1 } else { 0 };
    let ghost body = if start == 1 { s.drop_first() } else { s };
    assert(body == s.subrange(start as int, n as int));
    assert(body == (if s.len() > 0 && (s[0] == '-' || s[0] == '+') {
        s.drop_first()
    } else {
        s
    }));
    if start == n {
        return None;
    }
    let limit: u128 = 0x8000_0000_0000_0000;
    let mut acc: u128 = 0;
    let mut i: usize = start;
    while i < n
        invariant
            n == s.len(),
            s == text@,
            start <= i <= n,
            body == s.subrange(start as int, n as int),
            body == (if s.len() > 0 && (s[0] == '-' || s[0] == '+') {
                s.drop_first()
            } else {
                s
            }),
            all_digits(s.subrange(start as int, i as int)),
            acc == digits_value(s.subrange(start as int, i as int)),
            acc <= limit,
            limit == 0x8000_0000_0000_0000,
            start == 1 <==> (s[0] == '-' || s[0] == '+'),
            negative == (s[0] == '-'),
        decreases n - i,
    {
        let c = text.get_char(i);
        let d = match digit_of(c) {
            Some(d) => d,
            None => {
                assert(body[i - start] == c);
                assert(!is_digit(body[i - start]));
                return None;
            },
        };
        let ghost before = s.subrange(start as int, i as int);
        let ghost after = s.subrange(start as int, i + 1);
        assert(after.drop_last() == before);
        acc = acc * 10 + d as u128;
        if acc > limit {
            proof {
                assert forall|j: int| 0 <= j < after.len() implies is_digit(#[trigger] after[j]) by {
                    if j < before.len() {
                        assert(after[j] == before[j]);
                    }
                }
                if all_digits(body) {
                    assert(body == after + s.subrange(i + 1, n as int));
                    assert forall|j: int| 0 <= j < n - (i + 1) implies is_digit(
                        #[trigger] s.subrange(i + 1, n as int)[j],
                    ) by {
                        assert(s.subrange(i + 1, n as int)[j] == body[i + 1 - start + j]);
                    }
                    lemma_digits_value_grows(after, s.subrange(i + 1, n as int));
                }
            }
            return None;
        }
        i = i + 1;
    }
    assert(s.subrange(start as int, n as int) == body);
    if negative {
        if acc == limit {
            Some(i64::MIN)
        } else {
            Some(-(acc as i64))
        }
    } else if acc >= limit {
        None
    } else {
        Some(acc as i64)
    }
}

} // verus!
