use vstd::prelude::*;

use crate::model::DomainTestResult;

verus! {

pub open spec fn is_digit(c: char) -> bool {
    '0' <= c <= '9'
}

/// The number that a string of decimal digits writes.
pub open spec fn digits_value(s: Seq<char>) -> nat
    decreases s.len(),
{
    if s.len() == 0 {
        0
    } else {
        digits_value(s.drop_last()) * 10 + (s.last() as nat - '0' as nat) as nat
    }
}

/// The digits of `s` after an optional leading `+`.
pub open spec fn unsigned_digits(s: Seq<char>) -> Seq<char> {
    if s.len() > 0 && s[0] == '+' {
        s.drop_first()
    } else {
        s
    }
}

/// What `u64`'s `FromStr` accepts: an optional `+` then one or more decimal
/// digits, nothing else, with a value that fits.
pub open spec fn parsed_u64(s: Seq<char>) -> Option<u64> {
    let d = unsigned_digits(s);
    if d.len() > 0 && (forall|i: int| 0 <= i < d.len() ==> is_digit(#[trigger] d[i]))
        && digits_value(d) <= u64::MAX {
        Some(digits_value(d) as u64)
    } else {
        None
    }
}

/// Relies on `<u64 as FromStr>::from_str` (`str::parse::<u64>`), documented
/// to accept an optional `+` sign followed by decimal digits only, and to
/// fail on any other character, on an empty string and on overflow.
#[verifier::external_body]
fn parse_u64(s: &str) -> (r: Option<u64>)
    ensures
        r == parsed_u64(s@),
{
    s.parse::<u64>().ok()
}

/// Reads a `Content-Length` header (see `content_length_value`).
pub fn content_length_of(header: Option<&str>) -> (r: u64)
    ensures
        r == content_length_value(header),
{
    match header {
        Some(h) => match parse_u64(h) {
            Some(n) => n,
            None => 0,
        },
        None => 0,
    }
}

impl DomainTestResult {
    /// The outcome of a probe that got a response: its status, the time
    /// until its headers came, and its `Content-Length` (0 when absent or not
    /// a number).
    pub fn from_response(
        url: &str,
        status: u16,
        answer_time_ms: u64,
        content_length: Option<&str>,
    ) -> (r: DomainTestResult)
        ensures
            r.url@ == url@,
            r.http_status == Some(status),
            r.answer_time_ms == answer_time_ms,
            r.content_length == content_length_value(content_length),
            r.error is None,
    {
        DomainTestResult {
            url: url.to_string(),
            http_status: Some(status),
            answer_time_ms,
            content_length: content_length_of(content_length),
            error: None,
        }
    }

    /// The outcome of a probe that failed in transport (name resolution,
    /// connection, TLS, timeout): no status, no length, and the reason.
    pub fn failed(url: &str, answer_time_ms: u64, error: String) -> (r: DomainTestResult)
        ensures
            r.url@ == url@,
            r.http_status is None,
            r.answer_time_ms == answer_time_ms,
            r.content_length == 0,
            r.error == Some(error),
    {
        DomainTestResult {
            url: url.to_string(),
            http_status: None,
            answer_time_ms,
            content_length: 0,
            error: Some(error),
        }
    }
}

/// The value of a `Content-Length` header: its number when it is one, else 0.
pub open spec fn content_length_value(header: Option<&str>) -> u64 {
    match header {
        Some(h) => match parsed_u64(h@) {
            Some(n) => n,
            None => 0,
        },
        None => 0,
    }
}

/// The plain and the TLS address of a domain: `http://` and `https://`
/// followed by the domain.
pub fn probe_urls(domain_name: &str) -> (r: (String, String))
    ensures
        r.0@ == "http://"@ + domain_name@,
        r.1@ == "https://"@ + domain_name@,
{
    let mut plain = String::from_str("http://");
    plain.append(domain_name);
    let mut tls = String::from_str("https://");
    tls.append(domain_name);
    (plain, tls)
}

} // verus!
