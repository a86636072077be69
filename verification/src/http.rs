//! Request-level rules of the HTTP surface: the error taxonomy, the Origin
//! and Host checks, the legacy bootstrap redirect with its query encoder,
//! and the security headers stamped on responses.

use vstd::prelude::*;
use vstd::string::StringExecFns;
use vstd::utf8::encode_utf8;
use crate::text::{push_char, same_text, hex_digit_upper, hex_digit_upper_of, byte_len, utf8_len, lemma_utf8_len_zero};
use crate::sessions::contains_text;
use crate::auth::opt_text;

verus! {

// ─────────────────────────────────────────────────────────────────────────
//  Errors
// ─────────────────────────────────────────────────────────────────────────

/// Errors of the HTTP surface. Each has a stable `error` code and status.
#[derive(Debug)]
pub enum HttpApiError {
    /// Origin header empty, `null` or not in the allowlist.
    OriginForbidden,
    /// Host header missing, empty or not in the allowlist.
    HostForbidden,
    /// Authorization missing, malformed or wrong.
    Unauthorized,
    /// A conditional write without `If-Match`.
    PreconditionRequired,
    /// A conditional write with a stale `If-Match`.
    PreconditionFailed,
    /// The body broke the layout schema; carries the detail.
    BadRequest(String),
    /// The body exceeded its size cap.
    PayloadTooLarge,
    /// The bootstrap query had no (or an empty) `token`.
    MissingToken,
}

impl HttpApiError {
    pub open spec fn spec_status(&self) -> u16 {
        match self {
            HttpApiError::OriginForbidden => 403,
            HttpApiError::HostForbidden => 403,
            HttpApiError::Unauthorized => 401,
            HttpApiError::PreconditionRequired => 428,
            HttpApiError::PreconditionFailed => 412,
            HttpApiError::BadRequest(_) => 400,
            HttpApiError::PayloadTooLarge => 413,
            HttpApiError::MissingToken => 400,
        }
    }

    pub open spec fn spec_code(&self) -> &'static str {
        match self {
            HttpApiError::OriginForbidden => "origin_forbidden",
            HttpApiError::HostForbidden => "host_forbidden",
            HttpApiError::Unauthorized => "unauthorized",
            HttpApiError::PreconditionRequired => "precondition_required",
            HttpApiError::PreconditionFailed => "precondition_failed",
            HttpApiError::BadRequest(_) => "bad_request",
            HttpApiError::PayloadTooLarge => "payload_too_large",
            HttpApiError::MissingToken => "missing_token",
        }
    }

    /// The human-readable `message`: the code, followed for a bad request
    /// by `: ` and its detail.
    pub open spec fn spec_message(&self) -> Seq<char> {
        match self {
            HttpApiError::BadRequest(m) => "bad_request: "@ + m@,
            _ => self.spec_code()@,
        }
    }

    /// HTTP status of the error.
    pub fn status(&self) -> (s: u16)
        ensures
            s == self.spec_status(),
    {
        match self {
            HttpApiError::OriginForbidden => 403,
            HttpApiError::HostForbidden => 403,
            HttpApiError::Unauthorized => 401,
            HttpApiError::PreconditionRequired => 428,
            HttpApiError::PreconditionFailed => 412,
            HttpApiError::BadRequest(_) => 400,
            HttpApiError::PayloadTooLarge => 413,
            HttpApiError::MissingToken => 400,
        }
    }

    /// The machine-readable `error` code.
    pub fn code(&self) -> (s: &'static str)
        ensures
            s == self.spec_code(),
    {
        match self {
            HttpApiError::OriginForbidden => "origin_forbidden",
            HttpApiError::HostForbidden => "host_forbidden",
            HttpApiError::Unauthorized => "unauthorized",
            HttpApiError::PreconditionRequired => "precondition_required",
            HttpApiError::PreconditionFailed => "precondition_failed",
            HttpApiError::BadRequest(_) => "bad_request",
            HttpApiError::PayloadTooLarge => "payload_too_large",
            HttpApiError::MissingToken => "missing_token",
        }
    }

    /// The human-readable `message` of the response body.
    pub fn message(&self) -> (m: String)
        ensures
            m@ == self.spec_message(),
    {
        match self {
            HttpApiError::BadRequest(detail) => {
                let mut s = String::from_str("bad_request: ");
                s.append(detail.as_str());
                s
            },
            _ => String::from_str(self.code()),
        }
    }
}

// ─────────────────────────────────────────────────────────────────────────
//  Origin and Host checks
// ─────────────────────────────────────────────────────────────────────────

/// Entry points a browser may reach by top-level navigation, without an
/// `Origin` header; the Origin check skips them.
pub open spec fn origin_exempt(path: Seq<char>) -> bool {
    ||| path == "/healthz"@
    ||| path == "/auth/bootstrap"@
    ||| path == "/auth"@
    ||| path == "/auth/login"@
    ||| path == "/auth/logout"@
}

/// The Origin rule: exempt paths pass; an absent Origin passes; a present
/// one must be non-empty, not `null`, and exactly one of `allowed`.
pub open spec fn origin_allowed(
    path: Seq<char>,
    origin: Option<Seq<char>>,
    allowed: Seq<String>,
) -> bool {
    origin_exempt(path) || match origin {
        None => true,
        Some(o) => o.len() > 0 && o != "null"@ && contains_text(allowed, o),
    }
}

/// The Host rule: the header must be present, non-empty and exactly one of
/// `allowlist`.
pub open spec fn host_allowed(host: Option<Seq<char>>, allowlist: Seq<String>) -> bool {
    match host {
        None => false,
        Some(h) => h.len() > 0 && contains_text(allowlist, h),
    }
}

fn listed(list: &Vec<String>, s: &str) -> (b: bool)
    ensures
        b == contains_text(list@, s@),
{
    let mut i: usize = 0;
    while i < list.len()
        invariant
            i <= list.len(),
            forall|k: int| 0 <= k < i ==> (#[trigger] list@[k])@ != s@,
        decreases list.len() - i,
    {
        if same_text(list[i].as_str(), s) {
            return true;
        }
        i = i + 1;
    }
    false
}

fn is_origin_exempt(path: &str) -> (b: bool)
    ensures
        b == origin_exempt(path@),
{
    same_text(path, "/healthz") || same_text(path, "/auth/bootstrap") || same_text(path, "/auth")
        || same_text(path, "/auth/login") || same_text(path, "/auth/logout")
}

/// The Origin check (DNS-rebinding and CSRF defence). `origin` is the
/// header's text, `Some("")` when it is present but not visible ASCII.
pub fn check_origin(path: &str, origin: Option<&str>, allowed: &Vec<String>) -> (r: Result<
    (),
    HttpApiError,
>)
    ensures
        r is Ok <==> origin_allowed(path@, opt_text(origin), allowed@),
        r matches Err(e) ==> e is OriginForbidden,
{
    if is_origin_exempt(path) {
        return Ok(());
    }
    match origin {
        None => Ok(()),
        Some(o) => {
            proof {
                lemma_utf8_len_zero(o@);
            }
            if byte_len(o) == 0 || same_text(o, "null") {
                return Err(HttpApiError::OriginForbidden);
            }
            if !listed(allowed, o) {
                return Err(HttpApiError::OriginForbidden);
            }
            Ok(())
        },
    }
}

/// The Host check, applied on every route. `host` is the header's text,
/// `Some("")` when it is present but not visible ASCII.
pub fn check_host(host: Option<&str>, allowlist: &Vec<String>) -> (r: Result<(), HttpApiError>)
    ensures
        r is Ok <==> host_allowed(opt_text(host), allowlist@),
        r matches Err(e) ==> e is HostForbidden,
{
    match host {
        None => Err(HttpApiError::HostForbidden),
        Some(h) => {
            proof {
                lemma_utf8_len_zero(h@);
            }
            if byte_len(h) == 0 || !listed(allowlist, h) {
                Err(HttpApiError::HostForbidden)
            } else {
                Ok(())
            }
        },
    }
}

// ─────────────────────────────────────────────────────────────────────────
//  Query encoding and the bootstrap redirect
// ─────────────────────────────────────────────────────────────────────────

/// Bytes kept as they are: `A-Z a-z 0-9 - _ . ~`.
pub open spec fn is_unreserved(b: u8) -> bool {
    ||| 65 <= b <= 90
    ||| 97 <= b <= 122
    ||| 48 <= b <= 57
    ||| b == 45
    ||| b == 95
    ||| b == 46
    ||| b == 126
}

/// One byte, encoded: itself, or `%` and two uppercase hex digits.
pub open spec fn pct_byte(b: u8) -> Seq<char> {
    if is_unreserved(b) {
        seq![b as char]
    } else {
        seq!['%', hex_digit_upper(b / 16), hex_digit_upper(b % 16)]
    }
}

/// Percent-encoding of a byte string, byte by byte.
pub open spec fn pct_encode(bytes: Seq<u8>) -> Seq<char>
    decreases bytes.len(),
{
    if bytes.len() == 0 {
        Seq::empty()
    } else {
        pct_encode(bytes.drop_last()) + pct_byte(bytes.last())
    }
}

/// Percent-encodes the UTF-8 bytes of `s` for a query value.
pub fn urlencode_query(s: &str) -> (r: String)
    ensures
        r@ == pct_encode(encode_utf8(s@)),
{
    let bytes = s.as_bytes();
    let mut out = String::new();
    let mut i: usize = 0;
    while i < bytes.len()
        invariant
            i <= bytes@.len(),
            bytes@ == encode_utf8(s@),
            out@ == pct_encode(bytes@.take(i as int)),
        decreases bytes.len() - i,
    {
        let b = bytes[i];
        if (65 <= b && b <= 90) || (97 <= b && b <= 122) || (48 <= b && b <= 57) || b == 45 || b
            == 95 || b == 46 || b == 126 {
            push_char(&mut out, b as char);
        } else {
            push_char(&mut out, '%');
            push_char(&mut out, hex_digit_upper_of(b / 16));
            push_char(&mut out, hex_digit_upper_of(b % 16));
        }
        proof {
            let t = bytes@.take(i + 1);
            assert(t.drop_last() =~= bytes@.take(i as int));
            assert(t.last() == b);
        }
        i = i + 1;
        assert(out@ =~= pct_encode(bytes@.take(i as int)));
    }
    assert(bytes@.take(bytes@.len() as int) =~= bytes@);
    out
}

/// Characters an encoded query value can hold: unreserved ASCII and `%`.
pub open spec fn is_query_safe(c: char) -> bool {
    (c as u32) < 128 && (is_unreserved(c as u8) || c == '%')
}

/// An encoded value holds only unreserved ASCII characters and `%`: no
/// query separator (`&`, `=`, `+`, `#`), no whitespace, no CR or LF.
pub proof fn lemma_pct_encode_charset(bytes: Seq<u8>)
    ensures
        forall|i: int|
            0 <= i < pct_encode(bytes).len() ==> is_query_safe(#[trigger] pct_encode(bytes)[i]),
    decreases bytes.len(),
{
    if bytes.len() > 0 {
        lemma_pct_encode_charset(bytes.drop_last());
        let b = bytes.last();
        let p = pct_byte(b);
        let pre = pct_encode(bytes.drop_last());
        assert(pct_encode(bytes) == pre + p);
        assert forall|i: int| 0 <= i < p.len() implies is_query_safe(#[trigger] p[i]) by {
            if is_unreserved(b) {
                assert(p[i] == b as char);
            } else {
                let hi = b / 16;
                let lo = b % 16;
                assert(hi < 16 && lo < 16);
            }
        }
        assert forall|i: int| 0 <= i < pct_encode(bytes).len() implies is_query_safe(
            #[trigger] pct_encode(bytes)[i],
        ) by {
            if i < pre.len() {
                assert(pct_encode(bytes)[i] == pre[i]);
            } else {
                assert(pct_encode(bytes)[i] == p[i - pre.len()]);
            }
        }
    }
}

/// The value of a hex digit character (either case); 0 for anything else.
pub open spec fn hex_value(c: char) -> int {
    if 48 <= c as u32 <= 57 {
        c as u32 - 48
    } else if 65 <= c as u32 <= 70 {
        c as u32 - 55
    } else if 97 <= c as u32 <= 102 {
        c as u32 - 87
    } else {
        0
    }
}

/// Percent-decoding, as a browser reads a query value back: `%XY` is the
/// byte with hex digits `XY`, any other character is its own byte.
pub open spec fn pct_decode(s: Seq<char>) -> Seq<u8>
    decreases s.len(),
{
    if s.len() == 0 {
        Seq::empty()
    } else if s[0] == '%' && s.len() >= 3 {
        seq![(hex_value(s[1]) * 16 + hex_value(s[2])) as u8] + pct_decode(s.skip(3))
    } else {
        seq![s[0] as u8] + pct_decode(s.skip(1))
    }
}

proof fn lemma_pct_encode_front(bytes: Seq<u8>)
    requires
        bytes.len() > 0,
    ensures
        pct_encode(bytes) == pct_byte(bytes[0]) + pct_encode(bytes.drop_first()),
    decreases bytes.len(),
{
    if bytes.len() == 1 {
        assert(bytes.drop_last() =~= Seq::<u8>::empty());
        assert(bytes.drop_first() =~= Seq::<u8>::empty());
        assert(pct_encode(bytes.drop_last()) == Seq::<char>::empty());
        assert(pct_encode(bytes.drop_first()) == Seq::<char>::empty());
        assert(bytes.last() == bytes[0]);
        assert(pct_encode(bytes) =~= pct_byte(bytes[0]));
    } else {
        let pre = bytes.drop_last();
        lemma_pct_encode_front(pre);
        assert(pre.drop_first() =~= bytes.drop_first().drop_last());
        assert(bytes.drop_first().last() == bytes.last());
        assert(pct_encode(bytes) =~= pct_byte(bytes[0]) + pct_encode(bytes.drop_first()));
    }
}

proof fn lemma_pct_decode_byte(x: u8, rest: Seq<char>)
    ensures
        pct_decode(pct_byte(x) + rest) == seq![x] + pct_decode(rest),
{
    let s = pct_byte(x) + rest;
    if is_unreserved(x) {
        assert(s[0] == x as char);
        assert(s.skip(1) =~= rest);
        assert((x as char) as u8 == x);
    } else {
        let hi = x / 16;
        let lo = x % 16;
        assert(s[0] == '%');
        assert(s[1] == hex_digit_upper(hi));
        assert(s[2] == hex_digit_upper(lo));
        assert(s.skip(3) =~= rest);
        assert(hex_value(hex_digit_upper(hi)) == hi);
        assert(hex_value(hex_digit_upper(lo)) == lo);
        assert(hi * 16 + lo == x);
    }
}

/// Decoding an encoded value gives back exactly the bytes that were
/// encoded, so distinct values never encode alike.
pub proof fn lemma_pct_round_trip(bytes: Seq<u8>)
    ensures
        pct_decode(pct_encode(bytes)) == bytes,
    decreases bytes.len(),
{
    if bytes.len() > 0 {
        lemma_pct_encode_front(bytes);
        lemma_pct_decode_byte(bytes[0], pct_encode(bytes.drop_first()));
        lemma_pct_round_trip(bytes.drop_first());
        assert(bytes =~= seq![bytes[0]] + bytes.drop_first());
    }
}

/// The `Location` of the legacy bootstrap redirect for a non-empty token.
pub open spec fn bootstrap_target(token: Seq<char>, redirect: Option<Seq<char>>) -> Seq<char> {
    match redirect {
        Some(r) => "/auth?t="@ + pct_encode(encode_utf8(token)) + "&redirect="@ + pct_encode(
            encode_utf8(r),
        ),
        None => "/auth?t="@ + pct_encode(encode_utf8(token)),
    }
}

/// The legacy bootstrap route answers `303 See Other` to the sign-in page,
/// carrying the token (and the redirect, if any) re-encoded. A missing or
/// empty token is refused.
pub fn bootstrap_location(token: Option<&str>, redirect: Option<&str>) -> (r: Result<
    String,
    HttpApiError,
>)
    ensures
        match r {
            Ok(loc) => token.is_some() && token.unwrap()@.len() > 0 && loc@ == bootstrap_target(
                token.unwrap()@,
                opt_text(redirect),
            ),
            Err(e) => e is MissingToken && (token.is_none() || token.unwrap()@.len() == 0),
        },
{
    let t = match token {
        Some(t) => t,
        None => {
            return Err(HttpApiError::MissingToken);
        },
    };
    proof {
        lemma_utf8_len_zero(t@);
    }
    if byte_len(t) == 0 {
        return Err(HttpApiError::MissingToken);
    }
    let mut loc = String::from_str("/auth?t=");
    let enc = urlencode_query(t);
    loc.append(enc.as_str());
    match redirect {
        Some(r) => {
            loc.append("&redirect=");
            let enc_r = urlencode_query(r);
            loc.append(enc_r.as_str());
        },
        None => {},
    }
    Ok(loc)
}

// ─────────────────────────────────────────────────────────────────────────
//  Security headers
// ─────────────────────────────────────────────────────────────────────────

/// The security headers, by name and value; `Strict-Transport-Security`
/// only when TLS is required (over plain HTTP a browser drops it).
pub open spec fn security_header_list(hsts: bool) -> Seq<(&'static str, &'static str)> {
    let base = seq![
        ("x-content-type-options", "nosniff"),
        ("referrer-policy", "no-referrer"),
        ("cross-origin-opener-policy", "same-origin"),
        ("cross-origin-resource-policy", "same-origin"),
        ("permissions-policy", "camera=(), microphone=(), geolocation=(), interest-cohort=()"),
    ];
    if hsts {
        base.push(("strict-transport-security", "max-age=31536000; includeSubDomains"))
    } else {
        base
    }
}

/// The security headers to stamp on a response, by name and value.
pub fn security_headers(hsts: bool) -> (r: Vec<(&'static str, &'static str)>)
    ensures
        r@ == security_header_list(hsts),
{
    let mut v: Vec<(&'static str, &'static str)> = Vec::new();
    v.push(("x-content-type-options", "nosniff"));
    v.push(("referrer-policy", "no-referrer"));
    v.push(("cross-origin-opener-policy", "same-origin"));
    v.push(("cross-origin-resource-policy", "same-origin"));
    v.push(
        ("permissions-policy", "camera=(), microphone=(), geolocation=(), interest-cohort=()"),
    );
    if hsts {
        v.push(("strict-transport-security", "max-age=31536000; includeSubDomains"));
    }
    v
}

} // verus!
