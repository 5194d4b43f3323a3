//! Per-request decisions of the HTTP layer: the request id, the client
//! address, the body-size limit and how a completed request is logged.
use vstd::prelude::*;
use crate::ratelimit::ClientIp;
use crate::text::{blank, parse_uint, parse_unsigned, split_seq, trim, trim_seq, views};

verus! {

#[verifier::external_type_specification]
#[verifier::external_body]
pub struct ExInstant(std::time::Instant);

/// `Instant` is `Copy`: its `clone` hands back the same instant.
pub assume_specification[ <std::time::Instant as Clone>::clone ](i: &std::time::Instant) -> (r: std::time::Instant)
    ensures
        r == *i,
;

/// The largest request body accepted, in bytes.
pub const MAX_REQUEST_BODY_BYTES: u64 = 65536;

/// What a handler knows of the request it serves.
#[derive(Clone, Debug)]
pub struct RequestContext {
    pub request_id: String,
    pub started_at: std::time::Instant,
}

/// The request id: the caller's `x-request-id` when it holds more than
/// whitespace, else a fresh one.
pub open spec fn chosen_id(header: Option<Seq<char>>, fresh: Seq<char>) -> Seq<char> {
    match header {
        Some(h) => if !blank(h) {
            h
        } else {
            fresh
        },
        None => fresh,
    }
}

pub fn choose_request_id(header: Option<&str>, fresh: String) -> (r: String)
    ensures
        r@ == chosen_id(
            match header {
                Some(h) => Some(h@),
                None => None,
            },
            fresh@,
        ),
{
    match header {
        Some(h) => if !crate::text::is_blank(h) {
            h.to_owned()
        } else {
            fresh
        },
        None => fresh,
    }
}

impl RequestContext {
    pub fn new(header: Option<&str>, fresh: String, started_at: std::time::Instant) -> (r: Self)
        ensures
            r.request_id@ == chosen_id(
                match header {
                    Some(h) => Some(h@),
                    None => None,
                },
                fresh@,
            ),
            r.started_at == started_at,
    {
        RequestContext { request_id: choose_request_id(header, fresh), started_at }
    }
}

pub open spec fn hex_char(d: int) -> char {
    if d < 10 {
        (48 + d) as char
    } else {
        (87 + d) as char
    }
}

/// `n` in lowercase hexadecimal, without leading zeros.
pub open spec fn hex_num(n: nat) -> Seq<char>
    decreases n,
{
    if n < 16 {
        seq![hex_char(n as int)]
    } else {
        hex_num(n / 16).push(hex_char((n % 16) as int))
    }
}

fn hex_digit_of(d: u128) -> (c: char)
    requires
        d < 16,
    ensures
        c == hex_char(d as int),
{
    let b: u8 = if d < 10 {
        48 + (d as u8)
    } else {
        87 + (d as u8)
    };
    b as char
}

fn push_hex(out: &mut Vec<char>, n: u128)
    ensures
        final(out)@ == old(out)@ + hex_num(n as nat),
    decreases n,
{
    if n < 16 {
        out.push(hex_digit_of(n));
        proof {
            assert(final(out)@ =~= old(out)@ + hex_num(n as nat));
        }
    } else {
        push_hex(out, n / 16);
        out.push(hex_digit_of(n % 16));
        proof {
            assert(out@ =~= old(out)@ + hex_num(n as nat));
        }
    }
}

/// A fresh request id from the clock (nanoseconds since the epoch) and a
/// counter: `req-<nanos>-<count>`, both in hexadecimal.
pub fn request_id_text(nanos: u128, count: u64) -> (r: String)
    ensures
        r@ == "req-"@ + hex_num(nanos as nat) + "-"@ + hex_num(count as nat),
{
    let mut v: Vec<char> = Vec::new();
    v.push('r');
    v.push('e');
    v.push('q');
    v.push('-');
    push_hex(&mut v, nanos);
    v.push('-');
    push_hex(&mut v, count as u128);
    proof {
        reveal_strlit("req-");
        reveal_strlit("-");
        assert(v@ =~= "req-"@ + hex_num(nanos as nat) + "-"@ + hex_num(count as nat));
    }
    crate::text::from_chars(v)
}

/// The declared body length exceeds the limit; a length that does not parse
/// as a `u64` declares nothing.
pub open spec fn too_large(content_length: Option<Seq<char>>) -> bool {
    match content_length {
        Some(s) => match parse_unsigned(s, u64::MAX as nat) {
            Some(n) => n > MAX_REQUEST_BODY_BYTES,
            None => false,
        },
        None => false,
    }
}

pub fn body_too_large(content_length: Option<&str>) -> (r: bool)
    ensures
        r == too_large(
            match content_length {
                Some(s) => Some(s@),
                None => None,
            },
        ),
{
    match content_length {
        Some(s) => match parse_uint(s, u64::MAX) {
            Some(n) => n > MAX_REQUEST_BODY_BYTES,
            None => false,
        },
        None => false,
    }
}

/// The entry of an `x-forwarded-for` header to parse: the text before its
/// first comma, trimmed.
pub open spec fn forwarded_entry(h: Seq<char>) -> Seq<char> {
    trim_seq(split_seq(h, ',')[0])
}

pub fn first_forwarded(h: &str) -> (r: String)
    ensures
        r@ == forwarded_entry(h@),
{
    let parts = crate::text::split(h, ',');
    proof {
        assert(views(parts@)[0] == parts@[0]@);
    }
    trim(parts[0].as_str())
}

/// The client address: the parsed forwarded entry, else the parsed
/// `x-real-ip`, else the peer address, else the unspecified IPv4 address.
pub open spec fn client_of(forwarded: Option<ClientIp>, real_ip: Option<ClientIp>, peer: Option<ClientIp>) -> ClientIp {
    match forwarded {
        Some(a) => a,
        None => match real_ip {
            Some(a) => a,
            None => match peer {
                Some(a) => a,
                None => ClientIp { v6: false, bits: 0 },
            },
        },
    }
}

pub fn client_ip(forwarded: Option<ClientIp>, real_ip: Option<ClientIp>, peer: Option<ClientIp>) -> (r: ClientIp)
    ensures
        r == client_of(forwarded, real_ip, peer),
{
    match forwarded {
        Some(a) => a,
        None => match real_ip {
            Some(a) => a,
            None => match peer {
                Some(a) => a,
                None => ClientIp { v6: false, bits: 0 },
            },
        },
    }
}

/// How a completed request is logged.
#[derive(Clone, Copy, Debug, PartialEq, Eq, Structural)]
pub enum LogLevel {
    Error,
    Warn,
    Info,
}

pub open spec fn level_of(status: u16) -> LogLevel {
    if 500 <= status <= 599 {
        LogLevel::Error
    } else if 400 <= status <= 499 {
        LogLevel::Warn
    } else {
        LogLevel::Info
    }
}

/// Server errors as errors, client errors as warnings, the rest as
/// information.
pub fn completion_level(status: u16) -> (r: LogLevel)
    ensures
        r == level_of(status),
{
    if 500 <= status && status <= 599 {
        LogLevel::Error
    } else if 400 <= status && status <= 499 {
        LogLevel::Warn
    } else {
        LogLevel::Info
    }
}

} // verus!
