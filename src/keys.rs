use vstd::prelude::*;
use chrono::{Datelike, Timelike};
use crate::text::{integer_spec, parse_integer};

verus! {

/// Instants within this many milliseconds of the epoch have a calendar date
/// (about 253,000 years either way).
pub const MAX_DATED_MS: i64 = 8_000_000_000_000_000;

/// UTC calendar fields of an instant.
#[derive(Clone, Copy, Debug, PartialEq, Eq, Structural)]
pub struct UtcFields {
    pub year: i32,
    pub month: u32,
    pub day: u32,
    pub hour: u32,
}

/// The UTC year, month and day of the instant `millis` ms after the epoch.
pub uninterp spec fn utc_date_of(millis: int) -> (int, int, int);

/// Relies on `chrono::DateTime::from_timestamp_millis` and its `year`,
/// `month`, `day` and `hour`: the UTC calendar fields of an instant; `None`
/// out of chrono's range. UTC hours are whole multiples of 3,600,000 ms.
#[verifier::external_body]
fn utc_fields(millis: i64) -> (r: Option<UtcFields>)
    ensures
        r matches Some(f) ==> {
            &&& utc_date_of(millis as int) == (f.year as int, f.month as int, f.day as int)
            &&& 1 <= f.month <= 12
            &&& 1 <= f.day <= 31
            &&& f.hour == (millis as int / 3_600_000) % 24
        },
        -MAX_DATED_MS <= millis <= MAX_DATED_MS ==> r is Some,
{
    let t = chrono::DateTime::from_timestamp_millis(millis)?;
    Some(UtcFields { year: t.year(), month: t.month(), day: t.day(), hour: t.hour() })
}

/// Relies on `chrono::Utc::now` and `DateTime::timestamp_millis`: the
/// current time in ms since the epoch; chrono panics on a clock set before
/// the epoch, so the value is never negative.
#[verifier::external_body]
pub(crate) fn now_millis() -> (r: i64)
    ensures
        r >= 0,
{
    chrono::Utc::now().timestamp_millis()
}

pub open spec fn digit_char(d: int) -> char {
    seq!['0', '1', '2', '3', '4', '5', '6', '7', '8', '9'][d]
}

/// Decimal digits of `n`, without leading zeros.
pub open spec fn decimal_text(n: nat) -> Seq<char>
    decreases n,
{
    if n < 10 {
        seq![digit_char(n as int)]
    } else {
        decimal_text(n / 10).push(digit_char(n as int % 10))
    }
}

/// `v` in decimal, with a leading `-` when negative.
pub open spec fn signed_text(v: int) -> Seq<char> {
    if v < 0 {
        seq!['-'] + decimal_text((-v) as nat)
    } else {
        decimal_text(v as nat)
    }
}

/// `n` in decimal, padded with a zero to two digits.
pub open spec fn padded_text(n: nat) -> Seq<char> {
    if n < 10 {
        seq!['0'] + decimal_text(n)
    } else {
        decimal_text(n)
    }
}

pub open spec fn ext_text() -> Seq<char> {
    seq!['.', 'a', 'v', 'r', 'o']
}

/// `orderbook/year=Y/month=MM/day=DD/hour=HH/<timestamp_ms>.avro`.
pub open spec fn partition_key_spec(timestamp_ms: int, f: UtcFields) -> Seq<char> {
    seq!['o', 'r', 'd', 'e', 'r', 'b', 'o', 'o', 'k', '/', 'y', 'e', 'a', 'r', '='] + signed_text(
        f.year as int,
    ) + seq!['/', 'm', 'o', 'n', 't', 'h', '='] + padded_text(f.month as nat) + seq![
        '/',
        'd',
        'a',
        'y',
        '=',
    ] + padded_text(f.day as nat) + seq!['/', 'h', 'o', 'u', 'r', '='] + padded_text(
        f.hour as nat,
    ) + seq!['/'] + signed_text(timestamp_ms) + ext_text()
}

/// Index of the last `/` of `s`, or `-1`.
pub open spec fn last_slash(s: Seq<char>) -> int
    decreases s.len(),
{
    if s.len() == 0 {
        -1
    } else if s.last() == '/' {
        s.len() - 1
    } else {
        last_slash(s.drop_last())
    }
}

/// What follows the last `/` of `s`.
pub open spec fn file_name(s: Seq<char>) -> Seq<char> {
    s.skip(last_slash(s) + 1)
}

/// `s` with every trailing `.avro` removed.
pub open spec fn strip_ext(s: Seq<char>) -> Seq<char>
    decreases s.len(),
{
    if s.len() >= 5 && s.skip(s.len() - 5) == ext_text() {
        strip_ext(s.take(s.len() - 5))
    } else {
        s
    }
}

/// The timestamp a key carries in its file name.
pub open spec fn key_timestamp(key: Seq<char>) -> Option<int> {
    integer_spec(strip_ext(file_name(key)))
}


/// Appends the digit `d`.
fn push_digit(out: &mut String, d: u64)
    requires
        d < 10,
    ensures
        final(out)@ == old(out)@.push(digit_char(d as int)),
{
    let digits = "0123456789";
    proof {
        reveal_strlit("0123456789");
        assert(digits@ =~= seq!['0', '1', '2', '3', '4', '5', '6', '7', '8', '9']);
    }
    let one = digits.substring_char(d as usize, d as usize + 1);
    assert(one@ =~= seq![digit_char(d as int)]);
    out.append(one);
}

/// Appends `n` in decimal.
fn push_decimal(out: &mut String, n: u64)
    ensures
        final(out)@ == old(out)@ + decimal_text(n as nat),
    decreases n,
{
    if n >= 10 {
        push_decimal(out, n / 10);
        push_digit(out, n % 10);
        assert(final(out)@ =~= old(out)@ + decimal_text(n as nat));
    } else {
        push_digit(out, n);
        assert(final(out)@ =~= old(out)@ + decimal_text(n as nat));
    }
}

/// Appends `v` in decimal, with a `-` when negative.
fn push_signed(out: &mut String, v: i64)
    ensures
        final(out)@ == old(out)@ + signed_text(v as int),
{
    if v < 0 {
        out.append("-");
        proof {
            reveal_strlit("-");
        }
        let magnitude = (0 - v as i128) as u64;
        push_decimal(out, magnitude);
        assert(final(out)@ =~= old(out)@ + signed_text(v as int));
    } else {
        push_decimal(out, v as u64);
    }
}

/// Appends `n` in decimal, padded with a zero to two digits.
fn push_padded(out: &mut String, n: u32)
    ensures
        final(out)@ == old(out)@ + padded_text(n as nat),
{
    if n < 10 {
        push_digit(out, 0);
        push_decimal(out, n as u64);
        assert(final(out)@ =~= old(out)@ + padded_text(n as nat));
    } else {
        push_decimal(out, n as u64);
    }
}

/// The partition key of a record stamped `timestamp_ms` whose UTC calendar
/// fields are `f`.
pub fn partition_key_for(timestamp_ms: i64, f: UtcFields) -> (r: String)
    ensures
        r@ == partition_key_spec(timestamp_ms as int, f),
{
    let mut out = String::new();
    out.append("orderbook/year=");
    push_signed(&mut out, f.year as i64);
    out.append("/month=");
    push_padded(&mut out, f.month);
    out.append("/day=");
    push_padded(&mut out, f.day);
    out.append("/hour=");
    push_padded(&mut out, f.hour);
    out.append("/");
    push_signed(&mut out, timestamp_ms);
    out.append(".avro");
    proof {
        reveal_strlit("orderbook/year=");
        reveal_strlit("/month=");
        reveal_strlit("/day=");
        reveal_strlit("/hour=");
        reveal_strlit("/");
        reveal_strlit(".avro");
        assert(out@ =~= partition_key_spec(timestamp_ms as int, f));
    }
    out
}

/// The partition key of a record stamped `timestamp_ms`, or `None` when
/// the instant has no calendar date.
pub fn partition_key(timestamp_ms: i64) -> (r: Option<String>)
    ensures
        r matches Some(k) ==> exists|f: UtcFields|
            utc_date_of(timestamp_ms as int) == (f.year as int, f.month as int, f.day as int)
                && f.hour == (timestamp_ms as int / 3_600_000) % 24 && k@ == partition_key_spec(
                timestamp_ms as int,
                f,
            ),
        -MAX_DATED_MS <= timestamp_ms <= MAX_DATED_MS ==> r is Some,
{
    match utc_fields(timestamp_ms) {
        Some(f) => Some(partition_key_for(timestamp_ms, f)),
        None => None,
    }
}


proof fn lemma_last_slash(s: Seq<char>, i: int)
    requires
        0 <= i <= s.len(),
        forall|j: int| i <= j < s.len() ==> s[j] != '/',
        i == 0 || s[i - 1] == '/',
    ensures
        last_slash(s) == i - 1,
    decreases s.len(),
{
    if s.len() > i {
        assert forall|j: int| i <= j < s.drop_last().len() implies s.drop_last()[j] != '/' by {
            assert(s.drop_last()[j] == s[j]);
        }
        lemma_last_slash(s.drop_last(), i);
    }
}

/// Whether `s@[start..end]` ends with `.avro`.
fn ends_with_ext(s: &str, start: usize, end: usize) -> (r: bool)
    requires
        start <= end <= s@.len(),
    ensures
        r == ({
            let t = s@.subrange(start as int, end as int);
            t.len() >= 5 && t.skip(t.len() - 5) == ext_text()
        }),
{
    let ghost t = s@.subrange(start as int, end as int);
    if end - start < 5 {
        return false;
    }
    let r = s.get_char(end - 5) == '.' && s.get_char(end - 4) == 'a' && s.get_char(end - 3) == 'v'
        && s.get_char(end - 2) == 'r' && s.get_char(end - 1) == 'o';
    proof {
        if r {
            assert(t.skip(t.len() - 5) =~= ext_text());
        } else {
            if t.skip(t.len() - 5) == ext_text() {
                assert(t.skip(t.len() - 5)[0] == s@[end - 5]);
                assert(t.skip(t.len() - 5)[1] == s@[end - 4]);
                assert(t.skip(t.len() - 5)[2] == s@[end - 3]);
                assert(t.skip(t.len() - 5)[3] == s@[end - 2]);
                assert(t.skip(t.len() - 5)[4] == s@[end - 1]);
            }
        }
    }
    r
}

/// The timestamp in the file name of a persisted key: what follows the last
/// `/`, without its trailing `.avro`, read as a decimal integer. `None` when
/// that is no integer that fits in an `i64`.
pub fn extract_timestamp(key: &str) -> (r: Option<i64>)
    ensures
        r matches Some(v) ==> key_timestamp(key@) == Some(v as int),
        r is None ==> key_timestamp(key@) is None,
{
    let ghost s = key@;
    let n = key.unicode_len();
    let mut start: usize = n;
    while start > 0 && key.get_char(start - 1) != '/'
        invariant
            n == s.len(),
            s == key@,
            start <= n,
            forall|j: int| start <= j < n ==> s[j] != '/',
        decreases start,
    {
        start = start - 1;
    }
    proof {
        lemma_last_slash(s, start as int);
    }
    assert(file_name(s) == s.subrange(start as int, n as int));
    let mut end: usize = n;
    while ends_with_ext(key, start, end)
        invariant
            n == s.len(),
            s == key@,
            start <= end <= n,
            strip_ext(s.subrange(start as int, end as int)) == strip_ext(file_name(s)),
        decreases end,
    {
        let ghost t = s.subrange(start as int, end as int);
        assert(t.take(t.len() - 5) == s.subrange(start as int, end - 5));
        end = end - 5;
    }
    let name = key.substring_char(start, end);
    parse_integer(name)
}

/// The most recent timestamp among `keys`, keys without one left out.
pub open spec fn latest_spec(keys: Seq<Seq<char>>) -> Option<int>
    decreases keys.len(),
{
    if keys.len() == 0 {
        None
    } else {
        let rest = latest_spec(keys.drop_last());
        match key_timestamp(keys.last()) {
            None => rest,
            Some(t) => match rest {
                Some(u) if u >= t => Some(u),
                _ => Some(t),
            },
        }
    }
}

/// The most recent timestamp carried by a listing of persisted keys, or
/// `None` when no key carries one. Taken from the keys themselves, it does
/// not depend on the order of the listing.
pub fn latest_timestamp(keys: &Vec<String>) -> (r: Option<i64>)
    ensures
        r matches Some(v) ==> latest_spec(keys.deep_view()) == Some(v as int),
        r is None ==> latest_spec(keys.deep_view()) is None,
{
    let ghost all = keys.deep_view();
    let mut best: Option<i64> = None;
    let mut i: usize = 0;
    while i < keys.len()
        invariant
            all == keys.deep_view(),
            i <= keys.len(),
            best matches Some(v) ==> latest_spec(all.take(i as int)) == Some(v as int),
            best is None ==> latest_spec(all.take(i as int)) is None,
        decreases keys.len() - i,
    {
        assert(all.take(i + 1).drop_last() == all.take(i as int));
        assert(all.take(i + 1).last() == keys[i as int]@);
        match extract_timestamp(keys[i].as_str()) {
            Some(t) => {
                best = match best {
                    Some(u) if u >= t => Some(u),
                    _ => Some(t),
                };
            },
            None => {},
        }
        i = i + 1;
    }
    assert(all.take(all.len() as int) == all);
    best
}


proof fn lemma_digit_char(d: int)
    requires
        0 <= d < 10,
    ensures
        crate::text::is_digit(digit_char(d)),
        crate::text::digit_value(digit_char(d)) == d,
{
    assert(d == 0 || d == 1 || d == 2 || d == 3 || d == 4 || d == 5 || d == 6 || d == 7 || d == 8
        || d == 9);
}

/// Decimal text is a non-empty run of digits worth `n`.
pub proof fn lemma_decimal_text(n: nat)
    ensures
        decimal_text(n).len() >= 1,
        crate::text::all_digits(decimal_text(n)),
        crate::text::digits_value(decimal_text(n)) == n,
    decreases n,
{
    if n < 10 {
        lemma_digit_char(n as int);
        let t = decimal_text(n);
        assert(t.drop_last() =~= Seq::<char>::empty());
        assert(t.last() == digit_char(n as int));
        assert(crate::text::digits_value(t.drop_last()) == 0);
        assert(crate::text::digits_value(t) == n);
    } else {
        lemma_decimal_text(n / 10);
        lemma_digit_char(n as int % 10);
        let t = decimal_text(n);
        assert(t.drop_last() == decimal_text(n / 10));
        assert(t.last() == digit_char(n as int % 10));
        assert(crate::text::digits_value(t) == (n / 10) * 10 + n as int % 10);
        assert forall|j: int| 0 <= j < t.len() implies crate::text::is_digit(#[trigger] t[j]) by {
            if j < t.len() - 1 {
                assert(t[j] == decimal_text(n / 10)[j]);
            }
        }
    }
}

/// Signed decimal text reads back as the integer it was written from.
pub proof fn lemma_signed_text_round_trip(v: int)
    requires
        i64::MIN <= v <= i64::MAX,
    ensures
        integer_spec(signed_text(v)) == Some(v),
        signed_text(v).len() >= 1,
        crate::text::is_digit(signed_text(v).last()),
        forall|j: int| 0 <= j < signed_text(v).len() ==> #[trigger] signed_text(v)[j] != '/',
{
    if v < 0 {
        lemma_decimal_text((-v) as nat);
        let t = signed_text(v);
        assert(t.drop_first() == decimal_text((-v) as nat));
        assert(t.last() == decimal_text((-v) as nat).last());
        assert forall|j: int| 0 <= j < t.len() implies #[trigger] t[j] != '/' by {
            if j > 0 {
                assert(t[j] == decimal_text((-v) as nat)[j - 1]);
            }
        }
    } else {
        lemma_decimal_text(v as nat);
        let t = signed_text(v);
        assert(crate::text::is_digit(t[0]));
    }
}

/// The timestamp read back from a partition key is the one it was built from.
pub proof fn lemma_key_round_trip(timestamp_ms: i64, f: UtcFields)
    ensures
        key_timestamp(partition_key_spec(timestamp_ms as int, f)) == Some(timestamp_ms as int),
{
    let key = partition_key_spec(timestamp_ms as int, f);
    let name = signed_text(timestamp_ms as int);
    let tail = name + ext_text();
    let pre = key.take(key.len() - tail.len());
    lemma_signed_text_round_trip(timestamp_ms as int);
    assert(key == pre + tail);
    assert(pre.last() == '/');
    assert forall|j: int| pre.len() <= j < key.len() implies key[j] != '/' by {
        if j < pre.len() + name.len() {
            assert(key[j] == name[j - pre.len()]);
        } else {
            assert(key[j] == ext_text()[j - pre.len() - name.len()]);
        }
    }
    lemma_last_slash(key, pre.len() as int);
    assert(file_name(key) == tail);
    assert(tail.skip(tail.len() - 5) == ext_text());
    assert(tail.take(tail.len() - 5) == name);
    assert(strip_ext(tail) == strip_ext(name));
    if name.len() >= 5 {
        assert(name.skip(name.len() - 5)[4] == name.last());
    }
    assert(strip_ext(name) == name);
}

/// The latest timestamp of a listing is at least that of each of its keys.
pub proof fn lemma_latest_bounds(keys: Seq<Seq<char>>, i: int)
    requires
        0 <= i < keys.len(),
        key_timestamp(keys[i]) is Some,
    ensures
        latest_spec(keys) matches Some(t) && t >= key_timestamp(keys[i])->0,
    decreases keys.len(),
{
    if i < keys.len() - 1 {
        assert(keys.drop_last()[i] == keys[i]);
        lemma_latest_bounds(keys.drop_last(), i);
    }
}

} // verus!
