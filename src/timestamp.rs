//! The text form of timestamps: `"<seconds>.<nanoseconds>"` since the Unix
//! epoch, both written as plain decimal integers.
use vstd::prelude::*;

verus! {

/// A point in time: `secs` seconds and `nanos` nanoseconds after the Unix
/// epoch (`secs` is negative before it).
#[derive(PartialEq, Eq, Structural, Debug, Clone, Copy)]
pub struct Timestamp {
    pub secs: i64,
    pub nanos: u32,
}

pub const NANOS_PER_SEC: u32 = 1_000_000_000;

impl Timestamp {
    pub open spec fn wf(&self) -> bool {
        self.nanos < NANOS_PER_SEC
    }
}

/// Why a timestamp could not be written or read.
#[derive(PartialEq, Eq, Structural, Debug, Clone, Copy)]
pub enum TimestampError {
    /// The timestamp lies before the Unix epoch.
    BeforeEpoch,
    /// The text holds no `.`.
    MissingSeparator,
    /// The text before the `.` is not an unsigned 64-bit integer.
    InvalidSeconds,
    /// The text after the `.` is not an unsigned 32-bit integer.
    InvalidNanos,
    /// The time read lies beyond the last representable second.
    OutOfRange,
}

pub open spec fn digit_char(d: nat) -> char {
    seq!['0', '1', '2', '3', '4', '5', '6', '7', '8', '9'][d as int]
}

pub open spec fn is_digit(c: char) -> bool {
    '0' <= c && c <= '9'
}

pub open spec fn digit_value(c: char) -> nat {
    (c as int - '0' as int) as nat
}

/// The decimal digits of `n`, most significant first, without leading zeros.
pub open spec fn decimal(n: nat) -> Seq<char>
    decreases n,
{
    if n < 10 {
        seq![digit_char(n)]
    } else {
        decimal(n / 10).push(digit_char(n % 10))
    }
}

pub open spec fn all_digits(s: Seq<char>) -> bool {
    forall|i: int| 0 <= i < s.len() ==> is_digit(#[trigger] s[i])
}

/// The number that a string of decimal digits denotes.
pub open spec fn digits_value(s: Seq<char>) -> nat
    decreases s.len(),
{
    if s.len() == 0 {
        0
    } else {
        digits_value(s.drop_last()) * 10 + digit_value(s.last())
    }
}

/// An unsigned integer no larger than `max`, written as an optional `+`
/// and one or more decimal digits.
pub open spec fn parse_unsigned(s: Seq<char>, max: nat) -> Option<nat> {
    let d = if s.len() > 0 && s[0] == '+' {
        s.drop_first()
    } else {
        s
    };
    if d.len() > 0 && all_digits(d) && digits_value(d) <= max {
        Some(digits_value(d))
    } else {
        None
    }
}

/// The position of the first `.` in `s`.
pub open spec fn find_dot(s: Seq<char>) -> Option<int>
    decreases s.len(),
{
    if s.len() == 0 {
        None
    } else if s[0] == '.' {
        Some(0)
    } else {
        match find_dot(s.drop_first()) {
            Some(i) => Some(i + 1),
            None => None,
        }
    }
}

/// The timestamp that a text denotes: seconds up to the first `.`, then
/// nanoseconds, where whole seconds among the nanoseconds carry over.
pub open spec fn timestamp_of(s: Seq<char>) -> Result<Timestamp, TimestampError> {
    match find_dot(s) {
        None => Err(TimestampError::MissingSeparator),
        Some(i) => match parse_unsigned(s.subrange(0, i), u64::MAX as nat) {
            None => Err(TimestampError::InvalidSeconds),
            Some(secs) => match parse_unsigned(s.subrange(i + 1, s.len() as int), u32::MAX as nat) {
                None => Err(TimestampError::InvalidNanos),
                Some(nanos) => {
                    let whole = secs + nanos / (NANOS_PER_SEC as nat);
                    if whole > i64::MAX {
                        Err(TimestampError::OutOfRange)
                    } else {
                        Ok(
                            Timestamp {
                                secs: whole as i64,
                                nanos: (nanos % (NANOS_PER_SEC as nat)) as u32,
                            },
                        )
                    }
                },
            },
        },
    }
}

/// The text form of a timestamp at or after the epoch.
pub open spec fn timestamp_text(t: Timestamp) -> Seq<char> {
    decimal(t.secs as nat) + seq!['.'] + decimal(t.nanos as nat)
}

/// Relies on `String::push`: appends one character.
#[verifier::external_body]
fn push_char(s: &mut String, c: char)
    ensures
        final(s)@ == old(s)@.push(c),
{
    s.push(c)
}

fn digit_to_char(d: u64) -> (c: char)
    requires
        d < 10,
    ensures
        c == digit_char(d as nat),
{
    match d {
        0 => '0',
        1 => '1',
        2 => '2',
        3 => '3',
        4 => '4',
        5 => '5',
        6 => '6',
        7 => '7',
        8 => '8',
        _ => '9',
    }
}

/// Appends the decimal digits of `n` to `s`.
fn push_decimal(s: &mut String, n: u64)
    ensures
        final(s)@ == old(s)@ + decimal(n as nat),
    decreases n,
{
    if n >= 10 {
        push_decimal(s, n / 10);
    }
    push_char(s, digit_to_char(n % 10));
    proof {
        if n >= 10 {
            assert(decimal(n as nat) == decimal((n / 10) as nat).push(digit_char((n % 10) as nat)));
        }
        assert(s@ =~= old(s)@ + decimal(n as nat));
    }
}

/// Writes `t` as `"<seconds>.<nanoseconds>"`; fails for a time before the
/// epoch.
pub fn serialize(t: &Timestamp) -> (r: Result<String, TimestampError>)
    requires
        t.wf(),
    ensures
        t.secs < 0 <==> r == Err::<String, TimestampError>(TimestampError::BeforeEpoch),
        t.secs >= 0 ==> (r matches Ok(s) && s@ == timestamp_text(*t)),
{
    if t.secs < 0 {
        return Err(TimestampError::BeforeEpoch);
    }
    let mut s = String::new();
    push_decimal(&mut s, t.secs as u64);
    push_char(&mut s, '.');
    push_decimal(&mut s, t.nanos as u64);
    proof {
        assert(s@ =~= timestamp_text(*t));
    }
    Ok(s)
}

proof fn lemma_find_dot(s: Seq<char>, i: int)
    requires
        0 <= i <= s.len(),
        forall|j: int| 0 <= j < i ==> s[j] != '.',
        i == s.len() || s[i] == '.',
    ensures
        find_dot(s) == (if i == s.len() {
            None
        } else {
            Some(i)
        }),
    decreases i,
{
    if s.len() > 0 && i > 0 {
        assert(s[0] != '.');
        lemma_find_dot(s.drop_first(), i - 1);
    }
}

proof fn lemma_digits_prefix(d: Seq<char>, k: int)
    requires
        0 <= k <= d.len(),
    ensures
        digits_value(d.subrange(0, k)) <= digits_value(d),
    decreases d.len() - k,
{
    if k < d.len() {
        lemma_digits_prefix(d, k + 1);
        assert(d.subrange(0, k + 1).drop_last() =~= d.subrange(0, k));
    } else {
        assert(d.subrange(0, k) =~= d);
    }
}

/// The position of the first `.` in `s`.
fn find_dot_exec(s: &str) -> (r: Option<usize>)
    ensures
        match r {
            Some(i) => i < s@.len() && find_dot(s@) == Some(i as int),
            None => find_dot(s@) is None,
        },
{
    let n = s.unicode_len();
    let mut i: usize = 0;
    while i < n
        invariant
            n == s@.len(),
            i <= n,
            forall|j: int| 0 <= j < i ==> s@[j] != '.',
        decreases n - i,
    {
        if s.get_char(i) == '.' {
            proof {
                lemma_find_dot(s@, i as int);
            }
            return Some(i);
        }
        i = i + 1;
    }
    proof {
        lemma_find_dot(s@, i as int);
    }
    None
}

/// Reads the characters of `s` from `from` up to `to` as an unsigned
/// integer no larger than `max`.
fn parse_unsigned_range(s: &str, from: usize, to: usize, max: u64) -> (r: Option<u64>)
    requires
        from <= to <= s@.len(),
        max >= 9,
    ensures
        match r {
            Some(v) => parse_unsigned(s@.subrange(from as int, to as int), max as nat) == Some(
                v as nat,
            ),
            None => parse_unsigned(s@.subrange(from as int, to as int), max as nat) is None,
        },
{
    let ghost t = s@.subrange(from as int, to as int);
    let mut i = from;
    if i < to && s.get_char(i) == '+' {
        i = i + 1;
    }
    let start = i;
    let ghost d = s@.subrange(start as int, to as int);
    proof {
        if start > from {
            assert(t.drop_first() =~= d);
        } else {
            assert(t =~= d);
        }
    }
    if start == to {
        return None;
    }
    let mut v: u64 = 0;
    while i < to
        invariant
            from <= start <= i <= to <= s@.len(),
            start < to,
            d == s@.subrange(start as int, to as int),
            t == s@.subrange(from as int, to as int),
            parse_unsigned(t, max as nat) == (if d.len() > 0 && all_digits(d) && digits_value(d)
                <= max {
                Some(digits_value(d))
            } else {
                None
            }),
            all_digits(s@.subrange(start as int, i as int)),
            v as nat == digits_value(s@.subrange(start as int, i as int)),
            v <= max,
            max >= 9,
        decreases to - i,
    {
        let c = s.get_char(i);
        let ghost prev = s@.subrange(start as int, i as int);
        let ghost next = s@.subrange(start as int, i + 1);
        proof {
            assert(next.drop_last() =~= prev);
            assert(next.last() == c);
            assert(d[i - start] == c);
        }
        if c < '0' || c > '9' {
            proof {
                assert(!is_digit(d[i - start]));
            }
            return None;
        }
        let digit: u64 = (c as u32 - 48) as u64;
        proof {
            assert(digit == digit_value(c));
            assert(digits_value(next) == digits_value(prev) * 10 + digit_value(c));
        }
        if v > (max - digit) / 10 {
            proof {
                assert(v * 10 + digit > max) by (nonlinear_arith)
                    requires
                        v > (max - digit) / 10,
                        digit <= 9,
                        max >= 9,
                ;
                assert(d.subrange(0, i + 1 - start) =~= next);
                lemma_digits_prefix(d, i + 1 - start);
            }
            return None;
        }
        proof {
            assert(v * 10 + digit <= max) by (nonlinear_arith)
                requires
                    v <= (max - digit) / 10,
                    digit <= 9,
                    max >= 9,
            ;
        }
        v = v * 10 + digit;
        i = i + 1;
        proof {
            assert(all_digits(next));
        }
    }
    proof {
        assert(s@.subrange(start as int, i as int) =~= d);
    }
    Some(v)
}

/// Reads a timestamp written as `"<seconds>.<nanoseconds>"`.
pub fn deserialize(s: &str) -> (r: Result<Timestamp, TimestampError>)
    ensures
        r == timestamp_of(s@),
        r matches Ok(t) ==> t.wf(),
{
    let dot = match find_dot_exec(s) {
        None => {
            return Err(TimestampError::MissingSeparator);
        },
        Some(i) => i,
    };
    let n = s.unicode_len();
    let secs = match parse_unsigned_range(s, 0, dot, u64::MAX) {
        None => {
            return Err(TimestampError::InvalidSeconds);
        },
        Some(v) => v,
    };
    let nanos = match parse_unsigned_range(s, dot + 1, n, u32::MAX as u64) {
        None => {
            return Err(TimestampError::InvalidNanos);
        },
        Some(v) => v,
    };
    let carry = nanos / (NANOS_PER_SEC as u64);
    if secs > (i64::MAX as u64) - carry {
        return Err(TimestampError::OutOfRange);
    }
    Ok(Timestamp { secs: (secs + carry) as i64, nanos: (nanos % (NANOS_PER_SEC as u64)) as u32 })
}

proof fn lemma_digit_char(d: nat)
    requires
        d < 10,
    ensures
        is_digit(digit_char(d)),
        digit_value(digit_char(d)) == d,
{
    let ds = seq!['0', '1', '2', '3', '4', '5', '6', '7', '8', '9'];
    assert(ds[0] == '0' && ds[1] == '1' && ds[2] == '2' && ds[3] == '3' && ds[4] == '4');
    assert(ds[5] == '5' && ds[6] == '6' && ds[7] == '7' && ds[8] == '8' && ds[9] == '9');
}

/// The decimal digits of `n` are one or more digits that denote `n`.
proof fn lemma_decimal(n: nat)
    ensures
        decimal(n).len() > 0,
        all_digits(decimal(n)),
        digits_value(decimal(n)) == n,
    decreases n,
{
    lemma_digit_char(n % 10);
    if n < 10 {
        assert(seq![digit_char(n)].drop_last() =~= Seq::<char>::empty());
        assert(digits_value(Seq::<char>::empty()) == 0);
    } else {
        lemma_decimal(n / 10);
        let s = decimal(n);
        assert(s.drop_last() == decimal(n / 10));
        assert(digits_value(s) == digits_value(decimal(n / 10)) * 10 + digit_value(s.last()));
        assert((n / 10) * 10 + n % 10 == n);
        assert(forall|i: int| 0 <= i < s.len() ==> is_digit(#[trigger] s[i])) by {
            assert forall|i: int| 0 <= i < s.len() implies is_digit(#[trigger] s[i]) by {
                if i < s.len() - 1 {
                    assert(s[i] == decimal(n / 10)[i]);
                }
            }
        }
    }
}

proof fn lemma_parse_decimal(n: nat, max: nat)
    requires
        n <= max,
    ensures
        parse_unsigned(decimal(n), max) == Some(n),
{
    lemma_decimal(n);
    assert(is_digit(decimal(n)[0]));
}

/// Reading the text form of a timestamp at or after the epoch gives the
/// same timestamp back.
pub proof fn lemma_timestamp_round_trip(t: Timestamp)
    requires
        t.wf(),
        t.secs >= 0,
    ensures
        timestamp_of(timestamp_text(t)) == Ok::<Timestamp, TimestampError>(t),
{
    let a = decimal(t.secs as nat);
    let b = decimal(t.nanos as nat);
    let s = timestamp_text(t);
    lemma_decimal(t.secs as nat);
    lemma_decimal(t.nanos as nat);
    assert forall|j: int| 0 <= j < a.len() implies s[j] != '.' by {
        assert(s[j] == a[j]);
        assert(is_digit(a[j]));
    }
    assert(s[a.len() as int] == '.');
    lemma_find_dot(s, a.len() as int);
    assert(s.subrange(0, a.len() as int) =~= a);
    assert(s.subrange(a.len() as int + 1, s.len() as int) =~= b);
    lemma_parse_decimal(t.secs as nat, u64::MAX as nat);
    lemma_parse_decimal(t.nanos as nat, u32::MAX as nat);
}

} // verus!
