//! Classifying one API response: status code and rate-limit headers.
use vstd::prelude::*;

verus! {

/// Why a fetch cycle failed.
#[derive(Debug, PartialEq, Eq)]
pub enum GithubApiError {
    /// The quota is used up until the given Unix time (seconds).
    RateLimited { until: i64 },
    /// The transport failed; the message is the transport's own.
    Net(String),
    /// A body or a header did not have the expected shape.
    MalformedResponse,
    /// A status code the client has no policy for.
    ProtocolViolation { status: u16 },
}

/// First Unix second that a date-time value can hold (-9999-01-01T00:00:00Z).
pub const MIN_UNIX_TIME: i64 = -377705116800;

/// Last Unix second that a date-time value can hold (9999-12-31T23:59:59Z).
pub const MAX_UNIX_TIME: i64 = 253402300799;

/// Midnight of the last representable day: the reset time of a quota that
/// never resets (a rejected credential).
pub const NEVER_RESET: i64 = 253402214400;

/// Below this many remaining requests a warning is due.
pub const LOW_QUOTA: u32 = 10;

pub open spec fn is_digit(c: char) -> bool {
    '0' <= c && c <= '9'
}

pub open spec fn all_digits(s: Seq<char>) -> bool {
    forall|i: int| 0 <= i < s.len() ==> is_digit(#[trigger] s[i])
}

/// Value of a run of decimal digits.
pub open spec fn digits_value(s: Seq<char>) -> nat
    decreases s.len(),
{
    if s.len() == 0 {
        0
    } else {
        digits_value(s.drop_last()) * 10 + (s.last() as nat - '0' as nat) as nat
    }
}

/// The integer that `s` writes: an optional `+` or `-`, then one or more
/// decimal digits.
pub open spec fn decimal_of(s: Seq<char>) -> Option<int> {
    if s.len() > 0 && (s[0] == '-' || s[0] == '+') {
        let d = s.drop_first();
        if d.len() > 0 && all_digits(d) {
            if s[0] == '-' {
                Some(-(digits_value(d) as int))
            } else {
                Some(digits_value(d) as int)
            }
        } else {
            None
        }
    } else if s.len() > 0 && all_digits(s) {
        Some(digits_value(s) as int)
    } else {
        None
    }
}

/// What parsing `s` as an `i64` yields.
pub open spec fn i64_of(s: Seq<char>) -> Option<i64> {
    match decimal_of(s) {
        Some(v) => if i64::MIN <= v <= i64::MAX {
            Some(v as i64)
        } else {
            None
        },
        None => None,
    }
}

proof fn lemma_digits_prefix_grows(s: Seq<char>, k: int)
    requires
        0 <= k <= s.len(),
        all_digits(s),
    ensures
        digits_value(s.take(k)) <= digits_value(s),
    decreases s.len() - k,
{
    if k < s.len() {
        lemma_digits_prefix_grows(s, k + 1);
        assert(s.take(k + 1).drop_last() =~= s.take(k));
    } else {
        assert(s.take(k) =~= s);
    }
}

/// Parses a decimal `i64` as `str::parse` does: an optional sign, then digits.
pub fn parse_i64(s: &str) -> (r: Option<i64>)
    ensures
        r == i64_of(s@),
{
    let n = s.unicode_len();
    if n == 0 {
        return None;
    }
    let first = s.get_char(0);
    let negative = first == '-';
    let start: usize = if first == '-' || first == '+' { 1 } else { 0 };
    if start == n {
        return None;
    }
    let ghost d = s@.subrange(start as int, n as int);
    // magnitude limit: 2^63 for a negative value, 2^63 - 1 otherwise
    let limit: u64 = if negative { 9223372036854775808u64 } else { 9223372036854775807u64 };
    let mut mag: u64 = 0;
    let mut i: usize = start;
    while i < n
        invariant
            start <= i <= n,
            n == s@.len(),
            start <= 1,
            start == 1 <==> (s@[0] == '-' || s@[0] == '+'),
            negative <==> s@[0] == '-',
            d == s@.subrange(start as int, n as int),
            d.len() > 0,
            all_digits(d.take(i - start)),
            mag as nat == digits_value(d.take(i - start)),
            mag <= limit,
            limit == if negative { 9223372036854775808u64 } else { 9223372036854775807u64 },
        decreases n - i,
    {
        let c = s.get_char(i);
        if !('0' <= c && c <= '9') {
            proof {
                assert(d[i - start] == c);
                assert(!all_digits(d));
                if start == 1 {
                    assert(s@.drop_first() =~= d);
                } else {
                    assert(s@ =~= d);
                }
            }
            return None;
        }
        let digit = (c as u32 - '0' as u32) as u64;
        proof {
            assert(d.take(i - start + 1).drop_last() =~= d.take(i - start));
            assert(d.take(i - start + 1).last() == c);
        }
        if mag > (limit - digit) / 10 {
            proof {
                assert(digits_value(d.take(i - start + 1)) > limit) by (nonlinear_arith)
                    requires
                        digits_value(d.take(i - start + 1)) == mag * 10 + digit,
                        mag > (limit - digit) / 10,
                        digit <= limit,
                ;
                if all_digits(d) {
                    lemma_digits_prefix_grows(d, i - start + 1);
                }
                if start == 1 {
                    assert(s@.drop_first() =~= d);
                } else {
                    assert(s@ =~= d);
                }
            }
            return None;
        }
        mag = mag * 10 + digit;
        i = i + 1;
    }
    proof {
        assert(d.take(n - start) =~= d);
        if start == 1 {
            assert(s@.drop_first() =~= d);
        } else {
            assert(s@ =~= d);
        }
    }
    if negative {
        if mag == 9223372036854775808u64 {
            Some(i64::MIN)
        } else {
            Some(-(mag as i64))
        }
    } else {
        Some(mag as i64)
    }
}

/// Relies on `time::OffsetDateTime::from_unix_timestamp`: it accepts exactly
/// the seconds from `MIN_UNIX_TIME` to `MAX_UNIX_TIME` (no `large-dates`).
#[verifier::external_body]
fn is_representable_time(t: i64) -> (r: bool)
    ensures
        r == (MIN_UNIX_TIME <= t <= MAX_UNIX_TIME),
{
    time::OffsetDateTime::from_unix_timestamp(t).is_ok()
}

/// The reset time that a rate-limit-reset header value gives, if it is a
/// decimal integer within the representable range.
pub open spec fn reset_time_of(h: Seq<char>) -> Option<i64> {
    match i64_of(h) {
        Some(t) => if MIN_UNIX_TIME <= t <= MAX_UNIX_TIME {
            Some(t)
        } else {
            None
        },
        None => None,
    }
}

/// Reads a rate-limit-reset header value as a Unix time.
pub fn parse_reset_time(h: &str) -> (r: Option<i64>)
    ensures
        r == reset_time_of(h@),
{
    match parse_i64(h) {
        Some(t) => if is_representable_time(t) {
            Some(t)
        } else {
            None
        },
        None => None,
    }
}

/// How a response with this status and rate-limit-reset header is classified.
pub open spec fn classify_spec(status: u16, reset: Option<Seq<char>>) -> Result<(), GithubApiError> {
    if status == 200 {
        Ok(())
    } else if status == 401 {
        Err(GithubApiError::RateLimited { until: NEVER_RESET })
    } else if status == 403 && reset.is_some() {
        match reset_time_of(reset.unwrap()) {
            Some(t) => Err(GithubApiError::RateLimited { until: t }),
            None => Err(GithubApiError::MalformedResponse),
        }
    } else {
        Err(GithubApiError::ProtocolViolation { status })
    }
}

/// Classifies a response by its status code and its `x-ratelimit-reset`
/// header: 200 succeeds; 403 with a reset time is a rate limit until then;
/// 401 (a rejected credential) is a rate limit that never resets; any other
/// status violates the protocol.
pub fn classify_response(status: u16, reset: Option<&str>) -> (r: Result<(), GithubApiError>)
    ensures
        r == classify_spec(status, match reset {
            Some(h) => Some(h@),
            None => None,
        }),
{
    if status == 200 {
        Ok(())
    } else if status == 401 {
        Err(GithubApiError::RateLimited { until: NEVER_RESET })
    } else if status == 403 && reset.is_some() {
        match parse_reset_time(reset.unwrap()) {
            Some(t) => Err(GithubApiError::RateLimited { until: t }),
            None => Err(GithubApiError::MalformedResponse),
        }
    } else {
        Err(GithubApiError::ProtocolViolation { status })
    }
}

/// Whether the remaining quota of a successful response calls for a warning.
pub fn quota_low(remaining: u32) -> (r: bool)
    ensures
        r == (remaining < LOW_QUOTA),
{
    remaining < LOW_QUOTA
}

/// Seconds left until `until` at time `now`, never negative.
pub fn seconds_until(until: i64, now: i64) -> (r: u64)
    ensures
        r == if until > now { until - now } else { 0 },
{
    if until > now {
        (until as i128 - now as i128) as u64
    } else {
        0
    }
}

/// Value of the authorization header that carries a personal access token.
pub fn authorization_value(token: &str) -> (r: String)
    ensures
        r@ == "token "@ + token@,
{
    let prefix = String::from_str("token ");
    prefix.concat(token)
}

/// A 403 response with a valid reset time `R` is a rate limit until `R`,
/// never a transport error.
pub proof fn lemma_forbidden_is_rate_limited(h: Seq<char>)
    requires
        reset_time_of(h).is_some(),
    ensures
        classify_spec(403, Some(h)) == Err::<(), GithubApiError>(
            GithubApiError::RateLimited { until: reset_time_of(h).unwrap() },
        ),
        !(classify_spec(403, Some(h)) matches Err(GithubApiError::Net(_))),
{
}

} // verus!
