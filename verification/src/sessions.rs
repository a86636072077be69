//! Session records: errors, ETags, request identities, export naming and
//! timestamps, the attach-index diff, per-item edits and the cross-webpage
//! attach table.

use vstd::prelude::*;
use crate::schema::{Item, Layout, ValidationError};
use vstd::string::StringExecFns;
use crate::text::{
    is_hex_lower_char,
    byte_len, chars_of, hex_lower, push_char, push_hex_lower, push_str_chars, string_from_chars,
    utf8_len, fmt_padded, push_signed_padded, push_zero_padded,
};
use vstd::utf8::encode_utf8;

verus! {

/// Soft cap on session-record PUT and import bodies (16 MiB).
pub const SESSION_PUT_MAX_BYTES: usize = 16777216;

// ─────────────────────────────────────────────────────────────────────────
//  Errors
// ─────────────────────────────────────────────────────────────────────────

/// Workspace failures that the session handlers distinguish.
#[derive(Debug, Clone, PartialEq, Eq)]
pub enum WorkspaceError {
    /// The session name failed `[A-Za-z0-9_-]{1,64}`.
    InvalidSessionName(String),
    /// The workspace manifest was rejected.
    InvalidManifest(String),
    /// Any other workspace failure (I/O and the like), with its message.
    Other(String),
}

/// Failure of a session request.
#[derive(Debug, Clone, PartialEq, Eq)]
pub enum SessionError {
    NotFound(String),
    AlreadyExists(String),
    Validation(ValidationError),
    Workspace(WorkspaceError),
    Corrupt(String),
    Io(String),
    PayloadTooLarge,
    PreconditionRequired,
    PreconditionFailed,
    BadJson(String),
}

impl SessionError {
    /// HTTP status of each variant.
    pub open spec fn spec_status(self) -> u16 {
        match self {
            SessionError::NotFound(_) => 404,
            SessionError::AlreadyExists(_) => 409,
            SessionError::Validation(_) => 400,
            SessionError::BadJson(_) => 400,
            SessionError::Workspace(WorkspaceError::InvalidSessionName(_)) => 400,
            SessionError::Workspace(WorkspaceError::InvalidManifest(_)) => 400,
            SessionError::Workspace(_) => 500,
            SessionError::Io(_) => 500,
            SessionError::Corrupt(_) => 500,
            SessionError::PayloadTooLarge => 413,
            SessionError::PreconditionRequired => 428,
            SessionError::PreconditionFailed => 412,
        }
    }

    /// HTTP status code of this error.
    pub fn status(&self) -> (s: u16)
        ensures
            s == self.spec_status(),
    {
        match self {
            SessionError::NotFound(_) => 404,
            SessionError::AlreadyExists(_) => 409,
            SessionError::Validation(_) => 400,
            SessionError::BadJson(_) => 400,
            SessionError::Workspace(WorkspaceError::InvalidSessionName(_)) => 400,
            SessionError::Workspace(WorkspaceError::InvalidManifest(_)) => 400,
            SessionError::Workspace(_) => 500,
            SessionError::Io(_) => 500,
            SessionError::Corrupt(_) => 500,
            SessionError::PayloadTooLarge => 413,
            SessionError::PreconditionRequired => 428,
            SessionError::PreconditionFailed => 412,
        }
    }

    /// Machine-readable code of each variant.
    pub open spec fn spec_code(self) -> Seq<char> {
        match self {
            SessionError::NotFound(_) => "session_not_found"@,
            SessionError::AlreadyExists(_) => "session_already_exists"@,
            SessionError::Validation(v) => v.spec_code(),
            SessionError::Workspace(WorkspaceError::InvalidSessionName(_)) => "invalid_session_name"@,
            SessionError::Workspace(WorkspaceError::InvalidManifest(_)) => "invalid_manifest"@,
            SessionError::Workspace(_) => "workspace_error"@,
            SessionError::Io(_) => "io_error"@,
            SessionError::Corrupt(_) => "session_corrupt"@,
            SessionError::PayloadTooLarge => "payload_too_large"@,
            SessionError::PreconditionRequired => "precondition_required"@,
            SessionError::PreconditionFailed => "precondition_failed"@,
            SessionError::BadJson(_) => "bad_request"@,
        }
    }

    /// Stable machine-readable code surfaced in HTTP error envelopes.
    pub fn code(&self) -> (s: &'static str)
        ensures
            s@ == self.spec_code(),
    {
        match self {
            SessionError::NotFound(_) => "session_not_found",
            SessionError::AlreadyExists(_) => "session_already_exists",
            SessionError::Validation(v) => v.code(),
            SessionError::Workspace(WorkspaceError::InvalidSessionName(_)) => "invalid_session_name",
            SessionError::Workspace(WorkspaceError::InvalidManifest(_)) => "invalid_manifest",
            SessionError::Workspace(_) => "workspace_error",
            SessionError::Io(_) => "io_error",
            SessionError::Corrupt(_) => "session_corrupt",
            SessionError::PayloadTooLarge => "payload_too_large",
            SessionError::PreconditionRequired => "precondition_required",
            SessionError::PreconditionFailed => "precondition_failed",
            SessionError::BadJson(_) => "bad_request",
        }
    }
}

// ─────────────────────────────────────────────────────────────────────────
//  ETag
// ─────────────────────────────────────────────────────────────────────────

/// SHA-256 digest of a byte string.
pub uninterp spec fn sha256(data: Seq<u8>) -> Seq<u8>;

/// SHA-256 digest of `data`.
/// Trusted: `ring::digest::digest(&SHA256, data)`; the result is the named
/// digest of exactly these bytes and is 32 bytes long (SHA-256's output
/// length).
#[verifier::external_body]
fn sha256_digest(data: &[u8]) -> (d: Vec<u8>)
    ensures
        d@ == sha256(data@),
        d@.len() == 32,
{
    ring::digest::digest(&ring::digest::SHA256, data).as_ref().to_vec()
}

/// The 16-byte layout ETag of canonical bytes: the first half of SHA-256.
pub open spec fn etag_of(bytes: Seq<u8>) -> Seq<u8> {
    sha256(bytes).subrange(0, 16)
}

/// `(raw, hex)` ETag of canonical layout bytes: SHA-256 truncated to 16
/// bytes, and its 32-char lowercase hex form.
pub fn sha256_128(bytes: &[u8]) -> (r: ([u8; 16], String))
    ensures
        r.0@ == etag_of(bytes@),
        r.1@ == hex_lower(etag_of(bytes@)),
{
    let full = sha256_digest(bytes);
    let mut raw = [0u8; 16];
    let mut i: usize = 0;
    while i < 16
        invariant
            i <= 16,
            full@.len() == 32,
            raw@.len() == 16,
            forall|k: int| 0 <= k < i ==> raw@[k] == full@[k],
        decreases 16 - i,
    {
        raw[i] = full[i];
        i = i + 1;
    }
    assert(raw@ =~= full@.subrange(0, 16));
    let mut hex = String::new();
    push_hex_lower(&mut hex, raw.as_slice());
    assert(hex@ =~= hex_lower(etag_of(bytes@)));
    (raw, hex)
}

/// One in-memory session record and its ETag.
#[derive(Debug, Clone)]
pub struct SessionLayout {
    pub etag: [u8; 16],
    pub etag_hex: String,
    pub layout: Layout,
}

impl SessionLayout {
    /// Build a record from a layout and its canonical serialised bytes; the
    /// ETag is a function of those bytes alone.
    pub fn new_with_bytes(layout: Layout, bytes: &[u8]) -> (s: Self)
        ensures
            s.etag@ == etag_of(bytes@),
            s.etag_hex@ == hex_lower(etag_of(bytes@)),
            s.layout == layout,
    {
        let (etag, etag_hex) = sha256_128(bytes);
        SessionLayout { etag, etag_hex, layout }
    }
}

/// `s` with leading and trailing Unicode whitespace removed.
pub open spec fn trim_start(s: Seq<char>) -> Seq<char>
    decreases s.len(),
{
    if s.len() > 0 && crate::text::is_unicode_whitespace(s[0]) {
        trim_start(s.drop_first())
    } else {
        s
    }
}

pub open spec fn trim_end(s: Seq<char>) -> Seq<char>
    decreases s.len(),
{
    if s.len() > 0 && crate::text::is_unicode_whitespace(s.last()) {
        trim_end(s.drop_last())
    } else {
        s
    }
}

pub open spec fn trim(s: Seq<char>) -> Seq<char> {
    trim_end(trim_start(s))
}

/// The ETag value inside an `If-Match` / `If-None-Match` header: the header
/// (trimmed) must be a strong, double-quoted 32-char lowercase hex string.
pub open spec fn parse_etag_spec(v: Seq<char>) -> Option<Seq<char>> {
    let t = trim(v);
    if t.len() == 34 && t[0] == '"' && t[33] == '"' && (forall|i: int|
        1 <= i < 33 ==> is_hex_lower_char(#[trigger] t[i])) {
        Some(t.subrange(1, 33))
    } else {
        None
    }
}

/// `v` without leading and trailing whitespace, as characters.
fn trim_chars(v: &Vec<char>) -> (r: Vec<char>)
    ensures
        r@ == trim(v@),
{
    let n = v.len();
    let mut a: usize = 0;
    assert(v@.skip(0) =~= v@);
    while a < n && crate::text::char_is_whitespace(v[a])
        invariant
            a <= n == v@.len(),
            trim_start(v@) == trim_start(v@.skip(a as int)),
        decreases n - a,
    {
        proof {
            assert(v@.skip(a as int).drop_first() =~= v@.skip(a + 1));
        }
        a = a + 1;
    }
    assert(v@.skip(a as int) =~= v@.subrange(a as int, n as int));
    let mut b: usize = n;
    while b > a && crate::text::char_is_whitespace(v[b - 1])
        invariant
            a <= b <= n == v@.len(),
            trim_start(v@) == v@.subrange(a as int, n as int),
            trim(v@) == trim_end(v@.subrange(a as int, b as int)),
        decreases b - a,
    {
        proof {
            assert(v@.subrange(a as int, b as int).drop_last() =~= v@.subrange(a as int, b - 1));
        }
        b = b - 1;
    }
    let mut r: Vec<char> = Vec::new();
    let mut k: usize = a;
    while k < b
        invariant
            a <= k <= b <= n == v@.len(),
            r@ == v@.subrange(a as int, k as int),
        decreases b - k,
    {
        r.push(v[k]);
        k = k + 1;
        assert(r@ =~= v@.subrange(a as int, k as int));
    }
    r
}

/// Parse a strong `"<32 lowercase hex>"` ETag header value; weak tags,
/// `*`, unquoted or malformed values are rejected.
pub fn parse_etag_header(v: &str) -> (r: Option<String>)
    ensures
        match parse_etag_spec(v@) {
            Some(inner) => r matches Some(s) && s@ == inner,
            None => r is None,
        },
{
    let cs = chars_of(v);
    let t = trim_chars(&cs);
    if t.len() != 34 || t[0] != '"' || t[33] != '"' {
        return None;
    }
    let mut inner: Vec<char> = Vec::new();
    let mut i: usize = 1;
    while i < 33
        invariant
            1 <= i <= 33,
            t@.len() == 34,
            t@ == trim(v@),
            t@[0] == '"',
            t@[33] == '"',
            inner@ == t@.subrange(1, i as int),
            forall|k: int| 1 <= k < i ==> is_hex_lower_char(#[trigger] t@[k]),
        decreases 33 - i,
    {
        let c = t[i];
        if !(('0' <= c && c <= '9') || ('a' <= c && c <= 'f')) {
            proof {
                let tt = trim(v@);
                assert(tt == t@);
                assert(!is_hex_lower_char(tt[i as int]));
                assert(!(forall|k: int| 1 <= k < 33 ==> is_hex_lower_char(#[trigger] tt[k])));
            }
            return None;
        }
        inner.push(c);
        i = i + 1;
        assert(inner@ =~= t@.subrange(1, i as int));
    }
    Some(string_from_chars(&inner))
}

/// The quoted form an ETag is sent in.
pub open spec fn quoted(hex: Seq<char>) -> Seq<char> {
    seq!['"'] + hex + seq!['"']
}

/// `"<etag_hex>"`, as written into `ETag` response headers.
pub fn quote_etag(hex: &str) -> (s: String)
    ensures
        s@ == quoted(hex@),
{
    let mut s = String::new();
    push_char(&mut s, '"');
    push_str_chars(&mut s, hex);
    push_char(&mut s, '"');
    assert(s@ =~= quoted(hex@));
    s
}


// ─────────────────────────────────────────────────────────────────────────
//  Conditional layout write
// ─────────────────────────────────────────────────────────────────────────

/// The body of a layout PUT, as read and parsed at the edge.
#[derive(Debug)]
pub enum PutBody {
    /// Over [`SESSION_PUT_MAX_BYTES`].
    TooLarge,
    /// Reading the body failed; the error's text.
    ReadFailed(String),
    /// Not a schema-v2 layout document; the parser's message.
    Malformed(String),
    /// A parsed layout and its canonical serialised bytes.
    Parsed { layout: Layout, bytes: Vec<u8> },
}

/// The outcome of a layout PUT against a record whose ETag is
/// `current_hex`: the new layout and the bytes its ETag is taken from, or
/// the refusal. `If-Match` is required and must be a strong ETag; the body
/// must be readable, parse and validate; and the ETag must be the current
/// one (compare-and-swap).
pub open spec fn put_outcome(
    if_match: Option<Seq<char>>,
    body: PutBody,
    current_hex: Seq<char>,
) -> Result<(Layout, Seq<u8>), SessionError> {
    match if_match {
        None => Err(SessionError::PreconditionRequired),
        Some(h) => match parse_etag_spec(h) {
            None => Err(SessionError::PreconditionRequired),
            Some(tag) => match body {
                PutBody::TooLarge => Err(SessionError::PayloadTooLarge),
                PutBody::ReadFailed(m) => Err(SessionError::BadJson(m)),
                PutBody::Malformed(m) => Err(SessionError::BadJson(m)),
                PutBody::Parsed { layout, bytes } => match crate::schema::spec_validate(layout) {
                    Err(e) => Err(SessionError::Validation(e)),
                    Ok(()) => if tag != current_hex {
                        Err(SessionError::PreconditionFailed)
                    } else {
                        Ok((layout, bytes@))
                    },
                },
            },
        },
    }
}

/// Decides a layout PUT. `if_match` is the `If-Match` header's text
/// (`None` when absent or not visible ASCII); `current_etag_hex` is the
/// stored record's ETag. On success the result is the record to store,
/// whose ETag is that of the new canonical bytes; the caller writes it to
/// disk, then swaps it in.
pub fn layout_put_decision(
    if_match: Option<&str>,
    body: PutBody,
    current_etag_hex: &str,
) -> (r: Result<SessionLayout, SessionError>)
    ensures
        match put_outcome(crate::auth::opt_text(if_match), body, current_etag_hex@) {
            Ok((l, b)) => r matches Ok(rec) && rec.layout == l && rec.etag@ == etag_of(b)
                && rec.etag_hex@ == hex_lower(etag_of(b)),
            Err(e) => r == Err::<SessionLayout, SessionError>(e),
        },
{
    let h = match if_match {
        Some(h) => h,
        None => {
            return Err(SessionError::PreconditionRequired);
        },
    };
    let tag = match parse_etag_header(h) {
        Some(t) => t,
        None => {
            return Err(SessionError::PreconditionRequired);
        },
    };
    match body {
        PutBody::TooLarge => Err(SessionError::PayloadTooLarge),
        PutBody::ReadFailed(m) => Err(SessionError::BadJson(m)),
        PutBody::Malformed(m) => Err(SessionError::BadJson(m)),
        PutBody::Parsed { layout, bytes } => {
            match crate::schema::validate(&layout) {
                Err(e) => {
                    return Err(SessionError::Validation(e));
                },
                Ok(()) => {},
            }
            if !crate::text::same_text(tag.as_str(), current_etag_hex) {
                return Err(SessionError::PreconditionFailed);
            }
            Ok(SessionLayout::new_with_bytes(layout, bytes.as_slice()))
        },
    }
}

// ─────────────────────────────────────────────────────────────────────────
//  Conditional manifest write
// ─────────────────────────────────────────────────────────────────────────

/// Why a workspace-manifest write was refused before its body was looked at.
#[derive(Debug, Clone, Copy, PartialEq, Eq, Structural)]
pub enum ManifestPrecondition {
    /// `If-Match` absent or not a strong ETag (`428`).
    Required,
    /// `If-Match` names another manifest version (`412 manifest_stale`).
    Stale,
}

impl ManifestPrecondition {
    pub open spec fn spec_status(&self) -> u16 {
        match self {
            ManifestPrecondition::Required => 428,
            ManifestPrecondition::Stale => 412,
        }
    }

    pub open spec fn spec_code(&self) -> &'static str {
        match self {
            ManifestPrecondition::Required => "precondition_required",
            ManifestPrecondition::Stale => "manifest_stale",
        }
    }

    /// HTTP status of the refusal.
    pub fn status(&self) -> (s: u16)
        ensures
            s == self.spec_status(),
    {
        match self {
            ManifestPrecondition::Required => 428,
            ManifestPrecondition::Stale => 412,
        }
    }

    /// The machine-readable `error` code of the refusal.
    pub fn code(&self) -> (s: &'static str)
        ensures
            s == self.spec_code(),
    {
        match self {
            ManifestPrecondition::Required => "precondition_required",
            ManifestPrecondition::Stale => "manifest_stale",
        }
    }
}

/// The ETag a manifest write names in `If-Match` (the header's text,
/// `None` when absent or not visible ASCII); refused unless it is a
/// strong ETag. Checked before the current manifest is read.
pub fn manifest_if_match(if_match: Option<&str>) -> (r: Result<String, ManifestPrecondition>)
    ensures
        match crate::auth::opt_text(if_match) {
            Some(h) => match parse_etag_spec(h) {
                Some(t) => r matches Ok(s) && s@ == t,
                None => r == Err::<String, ManifestPrecondition>(ManifestPrecondition::Required),
            },
            None => r == Err::<String, ManifestPrecondition>(ManifestPrecondition::Required),
        },
{
    match if_match {
        Some(h) => match parse_etag_header(h) {
            Some(t) => Ok(t),
            None => Err(ManifestPrecondition::Required),
        },
        None => Err(ManifestPrecondition::Required),
    }
}

/// A manifest write proceeds only when the named ETag is the current one
/// (compare-and-swap).
pub fn manifest_etag_current(if_match: &str, current_etag_hex: &str) -> (r: Result<
    (),
    ManifestPrecondition,
>)
    ensures
        r == (if if_match@ == current_etag_hex@ {
            Ok::<(), ManifestPrecondition>(())
        } else {
            Err(ManifestPrecondition::Stale)
        }),
{
    if crate::text::same_text(if_match, current_etag_hex) {
        Ok(())
    } else {
        Err(ManifestPrecondition::Stale)
    }
}

// ─────────────────────────────────────────────────────────────────────────
//  Webpage identity
// ─────────────────────────────────────────────────────────────────────────

/// Characters allowed in a webpage id.
pub open spec fn is_webpage_id_char(c: char) -> bool {
    ('0' <= c <= '9') || ('a' <= c <= 'z') || ('A' <= c <= 'Z') || c == '-' || c == '_' || c
        == '.'
}

/// A webpage id: 1..=128 bytes of `[A-Za-z0-9._-]`.
pub open spec fn valid_webpage_id(s: Seq<char>) -> bool {
    &&& s.len() > 0
    &&& utf8_len(s) <= 128
    &&& forall|i: int| 0 <= i < s.len() ==> is_webpage_id_char(#[trigger] s[i])
}

/// Accept `raw` as a webpage id when it is non-empty, at most 128 bytes and
/// only `[A-Za-z0-9._-]`.
pub fn sanitize_webpage_id(raw: &str) -> (r: Option<String>)
    ensures
        valid_webpage_id(raw@) ==> (r matches Some(s) && s@ == raw@),
        !valid_webpage_id(raw@) ==> r is None,
{
    let n = byte_len(raw);
    if n == 0 || n > 128 {
        proof {
            if n == 0 && raw@.len() > 0 {
                vstd::utf8::encode_utf8_first_scalar(raw@);
            }
        }
        return None;
    }
    let cs = chars_of(raw);
    let mut i: usize = 0;
    while i < cs.len()
        invariant
            i <= cs@.len(),
            cs@ == raw@,
            forall|k: int| 0 <= k < i ==> is_webpage_id_char(#[trigger] cs@[k]),
        decreases cs.len() - i,
    {
        let c = cs[i];
        if !(('0' <= c && c <= '9') || ('a' <= c && c <= 'z') || ('A' <= c && c <= 'Z') || c
            == '-' || c == '_' || c == '.') {
            return None;
        }
        i = i + 1;
    }
    if cs.len() == 0 {
        return None;
    }
    Some(string_from_chars(&cs))
}

/// `webpage_id` from its request header: the value, trimmed of surrounding
/// whitespace, when it is a valid webpage id.
pub fn webpage_id_from_header(raw: Option<&str>) -> (r: Option<String>)
    ensures
        match raw {
            Some(v) => if valid_webpage_id(trim(v@)) {
                r matches Some(s) && s@ == trim(v@)
            } else {
                r is None
            },
            None => r is None,
        },
{
    match raw {
        Some(v) => {
            let cs = chars_of(v);
            let t = string_from_chars(&trim_chars(&cs));
            sanitize_webpage_id(t.as_str())
        },
        None => None,
    }
}

/// The value of the first `key=value` pair of a query string whose key is
/// `webpage_id` (pairs without `=` are skipped).
pub open spec fn query_value(pairs: Seq<Seq<char>>) -> Option<Seq<char>>
    decreases pairs.len(),
{
    if pairs.len() == 0 {
        None
    } else {
        match key_value(pairs[0]) {
            Some((k, v)) => if k == "webpage_id"@ {
                Some(v)
            } else {
                query_value(pairs.drop_first())
            },
            None => query_value(pairs.drop_first()),
        }
    }
}

/// Index of the first occurrence of `c` in `s`.
pub open spec fn first_index(s: Seq<char>, c: char) -> Option<int>
    decreases s.len(),
{
    if s.len() == 0 {
        None
    } else if s[0] == c {
        Some(0)
    } else {
        match first_index(s.drop_first(), c) {
            Some(i) => Some(i + 1),
            None => None,
        }
    }
}

/// A pair split at its first `=`.
pub open spec fn key_value(p: Seq<char>) -> Option<(Seq<char>, Seq<char>)> {
    match first_index(p, '=') {
        Some(i) => Some((p.take(i), p.skip(i + 1))),
        None => None,
    }
}

/// `s` split on every `sep` (like `str::split`).
pub open spec fn split_on(s: Seq<char>, sep: char) -> Seq<Seq<char>>
    decreases s.len(),
{
    match first_index(s, sep) {
        Some(i) => {
            if 0 <= i && i < s.len() {
                seq![s.take(i)] + split_on(s.skip(i + 1), sep)
            } else {
                seq![s]
            }
        },
        None => seq![s],
    }
}

/// `first_index` finds the earliest occurrence, or says there is none.
pub proof fn lemma_first_index_bounds(s: Seq<char>, c: char)
    ensures
        first_index(s, c) matches Some(i) ==> 0 <= i < s.len() && s[i] == c && forall|k: int|
            0 <= k < i ==> s[k] != c,
        first_index(s, c) is None ==> forall|k: int| 0 <= k < s.len() ==> s[k] != c,
    decreases s.len(),
{
    if s.len() > 0 {
        lemma_first_index_bounds(s.drop_first(), c);
        if s[0] != c {
            assert forall|k: int| 1 <= k < s.len() implies s[k] == s.drop_first()[k - 1] by {}
        }
    }
}

/// `webpage_id` from a URL query string (the `sendBeacon` channel).
pub open spec fn webpage_id_from_query_spec(query: Option<Seq<char>>) -> Option<Seq<char>> {
    match query {
        None => None,
        Some(q) => match query_value(split_on(q, '&')) {
            Some(v) => if valid_webpage_id(v) {
                Some(v)
            } else {
                None
            },
            None => None,
        },
    }
}

/// First index of `c` in `v[from..]`, as an absolute index.
fn find_char(v: &Vec<char>, from: usize, c: char) -> (r: Option<usize>)
    requires
        from <= v.len(),
    ensures
        match first_index(v@.skip(from as int), c) {
            Some(i) => r == Some((from + i) as usize),
            None => r is None,
        },
{
    let mut i = from;
    assert(v@.skip(from as int).skip(0) =~= v@.skip(from as int));
    while i < v.len()
        invariant
            from <= i <= v@.len(),
            forall|k: int| from <= k < i ==> v@[k] != c,
            first_index(v@.skip(from as int), c) == match first_index(v@.skip(i as int), c) {
                Some(j) => Some(j + (i - from)),
                None => None,
            },
        decreases v.len() - i,
    {
        if v[i] == c {
            return Some(i);
        }
        proof {
            assert(v@.skip(i as int).drop_first() =~= v@.skip(i + 1));
        }
        i = i + 1;
    }
    assert(v@.skip(i as int).len() == 0);
    None
}

fn sub_string(v: &Vec<char>, a: usize, b: usize) -> (s: String)
    requires
        a <= b <= v.len(),
    ensures
        s@ == v@.subrange(a as int, b as int),
{
    let mut s = String::new();
    let mut k = a;
    while k < b
        invariant
            a <= k <= b <= v@.len(),
            s@ == v@.subrange(a as int, k as int),
        decreases b - k,
    {
        push_char(&mut s, v[k]);
        k = k + 1;
        assert(s@ =~= v@.subrange(a as int, k as int));
    }
    s
}

/// Parse `webpage_id=<value>` from a URL query string and sanitise it.
pub fn webpage_id_from_query(query: Option<&str>) -> (r: Option<String>)
    ensures
        match webpage_id_from_query_spec(
            match query {
                Some(q) => Some(q@),
                None => None,
            },
        ) {
            Some(w) => r matches Some(s) && s@ == w,
            None => r is None,
        },
{
    let q = match query {
        Some(q) => q,
        None => return None,
    };
    let v = chars_of(q);
    let key: Vec<char> = vec!['w', 'e', 'b', 'p', 'a', 'g', 'e', '_', 'i', 'd'];
    proof {
        reveal_strlit("webpage_id");
        assert(key@ =~= "webpage_id"@);
    }
    let mut start: usize = 0;
    assert(v@.skip(0) =~= v@);
    loop
        invariant
            start <= v@.len(),
            v@ == q@,
            key@ == "webpage_id"@,
            key@.len() == 10,
            match query {
                Some(qq) => qq@ == q@,
                None => false,
            },
            query_value(split_on(q@, '&')) == query_value(split_on(v@.skip(start as int), '&')),
        decreases v@.len() - start,
    {
        let ghost rest = v@.skip(start as int);
        let amp = find_char(&v, start, '&');
        let end = match amp {
            Some(e) => e,
            None => v.len(),
        };
        proof {
            lemma_first_index_bounds(rest, '&');
        }
        let ghost pair = v@.subrange(start as int, end as int);
        proof {
            match first_index(rest, '&') {
                Some(i) => {
                    assert(rest.take(i) =~= pair);
                    assert(split_on(rest, '&') == seq![pair] + split_on(rest.skip(i + 1), '&'));
                },
                None => {
                    assert(rest =~= pair);
                },
            }
        }
        let eq = find_char(&v, start, '=');
        let has_eq_in_pair = match eq {
            Some(e) => e < end,
            None => false,
        };
        proof {
            lemma_first_index_bounds(rest, '=');
            lemma_first_index_bounds(pair, '=');
            match first_index(rest, '=') {
                Some(i) => {
                    if start + i < end {
                        assert(pair[i] == '=');
                        assert forall|k: int| 0 <= k < i implies pair[k] != '=' by {
                            assert(pair[k] == rest[k]);
                        }
                        if first_index(pair, '=') is Some {
                            let j = first_index(pair, '=')->0;
                            assert(pair[j] == rest[j]);
                        }
                        assert(first_index(pair, '=') == Some(i));
                    } else {
                        assert forall|k: int| 0 <= k < pair.len() implies pair[k] != '=' by {
                            assert(pair[k] == rest[k]);
                        }
                    }
                },
                None => {
                    assert forall|k: int| 0 <= k < pair.len() implies pair[k] != '=' by {
                        assert(pair[k] == rest[k]);
                    }
                },
            }
        }
        let mut matched = false;
        let mut eq_at: usize = 0;
        if has_eq_in_pair {
            let e = match eq {
                Some(e) => e,
                None => 0,
            };
            eq_at = e;
            let klen = e - start;
            let mut is_key = klen == 10;
            let mut j: usize = 0;
            while is_key && j < 10
                invariant
                    j <= 10,
                    klen == 10 ==> start + 10 <= v@.len(),
                    key@.len() == 10,
                    is_key ==> klen == 10 && forall|m: int|
                        0 <= m < j ==> v@[start + m] == key@[m],
                    !is_key ==> v@.subrange(start as int, e as int) != key@,
                    e == start + klen,
                    e <= v@.len(),
                decreases 10 - j,
            {
                if v[start + j] != key[j] {
                    is_key = false;
                    assert(v@.subrange(start as int, e as int)[j as int] != key@[j as int]);
                }
                j = j + 1;
            }
            if is_key {
                assert(v@.subrange(start as int, e as int) =~= key@);
            }
            matched = is_key;
            assert(matched == (v@.subrange(start as int, e as int) == key@));
            proof {
                assert(pair.take(e - start) =~= v@.subrange(start as int, e as int));
                assert(pair.skip(e - start + 1) =~= v@.subrange(e + 1, end as int));
            }
        }
        proof {
            if has_eq_in_pair {
                assert(key_value(pair) == Some(
                    (v@.subrange(start as int, eq_at as int), v@.subrange(eq_at + 1, end as int)),
                ));
            } else {
                assert(key_value(pair) is None);
            }
        }
        proof {
            match first_index(rest, '&') {
                Some(i) => {
                    let x = split_on(rest.skip(i + 1), '&');
                    assert((seq![pair] + x)[0] == pair);
                    assert((seq![pair] + x).drop_first() =~= x);
                },
                None => {
                    assert(seq![pair][0] == pair);
                    assert(seq![pair].drop_first() =~= Seq::<Seq<char>>::empty());
                },
            }
            assert(split_on(rest, '&')[0] == pair);
        }
        if matched {
            let value = sub_string(&v, eq_at + 1, end);
            proof {
                assert(query_value(split_on(rest, '&')) == Some(value@));
            }
            return sanitize_webpage_id(value.as_str());
        }
        match amp {
            Some(a) => {
                proof {
                    assert(v@.skip(start as int).skip(a - start + 1) =~= v@.skip(a + 1));
                    let x = split_on(v@.skip(a + 1), '&');
                    assert((seq![pair] + x)[0] == pair);
                    assert((seq![pair] + x).drop_first() =~= x);
                }
                start = a + 1;
            },
            None => {
                proof {
                    assert(split_on(rest, '&') == seq![pair]);
                    assert(seq![pair].drop_first() =~= Seq::<Seq<char>>::empty());
                }
                proof {
                    if has_eq_in_pair {
                        assert(matched == (v@.subrange(start as int, eq_at as int) == key@));
                    }
                    let sp = seq![pair];
                    assert(sp[0] == pair);
                    assert(sp.drop_first() =~= Seq::<Seq<char>>::empty());
                    assert(query_value(sp.drop_first()) is None);
                    assert(query_value(sp) is None);
                }
                return None;
            },
        }
    }
}

/// The attach owner key: the auth cookie (or `_unknown`), then `0x1f` and
/// the webpage id when one is present.
pub open spec fn owner_key_spec(cookie: Option<Seq<char>>, webpage_id: Option<Seq<char>>) -> Seq<
    char,
> {
    let c = match cookie {
        Some(c) => c,
        None => "_unknown"@,
    };
    match webpage_id {
        Some(w) => c + seq!['\x1f'] + w,
        None => c,
    }
}

/// Owner key for attach bookkeeping: two tabs sharing the auth cookie keep
/// distinct keys through their webpage ids.
pub fn attach_owner_key(cookie: Option<&str>, webpage_id: Option<&str>) -> (k: String)
    ensures
        k@ == owner_key_spec(
            match cookie {
                Some(c) => Some(c@),
                None => None,
            },
            match webpage_id {
                Some(w) => Some(w@),
                None => None,
            },
        ),
{
    let mut k = String::new();
    match cookie {
        Some(c) => push_str_chars(&mut k, c),
        None => push_str_chars(&mut k, "_unknown"),
    }
    match webpage_id {
        Some(w) => {
            push_char(&mut k, '\x1f');
            push_str_chars(&mut k, w);
        },
        None => {},
    }
    assert(k@ =~= owner_key_spec(
        match cookie {
            Some(c) => Some(c@),
            None => None,
        },
        match webpage_id {
            Some(w) => Some(w@),
            None => None,
        },
    ));
    k
}


// ─────────────────────────────────────────────────────────────────────────
//  Export naming and timestamps
// ─────────────────────────────────────────────────────────────────────────

/// Characters kept verbatim in an export filename.
pub open spec fn is_filename_char(c: char) -> bool {
    ('0' <= c <= '9') || ('a' <= c <= 'z') || ('A' <= c <= 'Z') || c == '_' || c == '-'
}

/// Every character outside `[A-Za-z0-9_-]` replaced by `_`; `session` when
/// the name is empty.
pub open spec fn export_filename_spec(name: Seq<char>) -> Seq<char> {
    if name.len() == 0 {
        "session"@
    } else {
        name.map_values(|c: char| if is_filename_char(c) { c } else { '_' })
    }
}

/// ASCII-safe, path-safe basename for `Content-Disposition`.
pub fn sanitize_export_filename(name: &str) -> (s: String)
    ensures
        s@ == export_filename_spec(name@),
{
    let v = chars_of(name);
    if v.len() == 0 {
        return String::from_str("session");
    }
    let mut out = String::new();
    let mut i: usize = 0;
    while i < v.len()
        invariant
            i <= v@.len(),
            v@ == name@,
            out@ == v@.take(i as int).map_values(
                |c: char| if is_filename_char(c) { c } else { '_' },
            ),
        decreases v.len() - i,
    {
        let c = v[i];
        let keep = ('0' <= c && c <= '9') || ('a' <= c && c <= 'z') || ('A' <= c && c <= 'Z') || c
            == '_' || c == '-';
        if keep {
            push_char(&mut out, c);
        } else {
            push_char(&mut out, '_');
        }
        i = i + 1;
        assert(out@ =~= v@.take(i as int).map_values(
            |c: char| if is_filename_char(c) { c } else { '_' },
        ));
    }
    assert(v@.take(v@.len() as int) =~= v@);
    out
}

/// `attachment; filename="<sanitised>.gtmux-session.json"`.
pub open spec fn content_disposition_spec(name: Seq<char>) -> Seq<char> {
    "attachment; filename=\""@ + export_filename_spec(name) + ".gtmux-session.json\""@
}

/// The `Content-Disposition` header value of a session export.
pub fn export_content_disposition(name: &str) -> (s: String)
    ensures
        s@ == content_disposition_spec(name@),
{
    let f = sanitize_export_filename(name);
    let mut s = String::new();
    push_str_chars(&mut s, "attachment; filename=\"");
    push_str_chars(&mut s, f.as_str());
    push_str_chars(&mut s, ".gtmux-session.json\"");
    s
}

/// Civil (year, month, day) of a day count since 1970-01-01 — Hinnant's
/// days-to-civil mapping on the proleptic Gregorian calendar.
pub open spec fn civil_from_days_spec(days: int) -> (int, int, int) {
    let z = days + 719468;
    let era = z / 146097;
    let doe = z - era * 146097;
    let yoe = (doe - doe / 1460 + doe / 36524 - doe / 146096) / 365;
    let y = yoe + era * 400;
    let doy = doe - (365 * yoe + yoe / 4 - yoe / 100);
    let mp = (5 * doy + 2) / 153;
    let d = doy - (153 * mp + 2) / 5 + 1;
    let m = if mp < 10 {
        mp + 3
    } else {
        mp - 9
    };
    (if m <= 2 {
        y + 1
    } else {
        y
    }, m, d)
}

/// `(year, month, day, hour, minute, second)` of a Unix timestamp (UTC).
pub open spec fn civil_from_unix_spec(secs: int) -> (int, int, int, int, int, int) {
    let days = secs / 86400;
    let tod = secs % 86400;
    let (y, m, d) = civil_from_days_spec(days);
    (y, m, d, tod / 3600, (tod % 3600) / 60, tod % 60)
}

proof fn lemma_era_day_ranges(doe: int)
    requires
        0 <= doe < 146097,
    ensures
        ({
            let yoe = (doe - doe / 1460 + doe / 36524 - doe / 146096) / 365;
            let doy = doe - (365 * yoe + yoe / 4 - yoe / 100);
            let mp = (5 * doy + 2) / 153;
            let d = doy - (153 * mp + 2) / 5 + 1;
            &&& 0 <= yoe <= 399
            &&& 0 <= doy <= 365
            &&& 0 <= mp <= 11
            &&& 1 <= d <= 31
            &&& (mp == 1 || mp == 3 || mp == 6 || mp == 8) ==> d <= 30
            &&& mp == 11 ==> (d <= 28 || (d == 29 && doy == 365))
            &&& doy == 365 ==> ((yoe + 1) % 4 == 0 && ((yoe + 1) % 100 != 0 || yoe == 399))
        }),
{
    let x = doe as u32;
    assert({
        let yoe = (x - x / 1460 + x / 36524 - x / 146096) / 365;
        let doy = x - (365 * yoe + yoe / 4 - yoe / 100);
        &&& yoe <= 399
        &&& 0 <= doy <= 365
        &&& doy == 365 ==> ((yoe + 1) % 4 == 0 && ((yoe + 1) % 100 != 0 || yoe == 399))
    }) by (bit_vector)
        requires
            x < 146097,
    ;
    let yoe = (doe - doe / 1460 + doe / 36524 - doe / 146096) / 365;
    let doy = doe - (365 * yoe + yoe / 4 - yoe / 100);
    assert(0 <= doy <= 365);
    let y = doy as u32;
    assert({
        let mp = (5 * y + 2) / 153;
        let d = y - (153 * mp + 2) / 5 + 1;
        &&& 0 <= mp <= 11
        &&& 1 <= d <= 31
        &&& (mp == 1 || mp == 3 || mp == 6 || mp == 8) ==> d <= 30
        &&& mp == 11 ==> (d <= 28 || (d == 29 && y == 365))
    }) by (bit_vector)
        requires
            y <= 365,
    ;
}

/// Civil fields are always in range: month `1..=12`, day `1..=31`, hour
/// `0..24`, minute and second `0..60`.
pub proof fn lemma_civil_fields_in_range(secs: int)
    ensures
        ({
            let (y, m, d, h, mi, s) = civil_from_unix_spec(secs);
            1 <= m <= 12 && 1 <= d <= 31 && 0 <= h < 24 && 0 <= mi < 60 && 0 <= s < 60
        }),
{
    let days = secs / 86400;
    let z = days + 719468;
    let era = z / 146097;
    let doe = z - era * 146097;
    assert(0 <= doe < 146097);
    lemma_era_day_ranges(doe);
}

/// Whether `y` is a leap year of the proleptic Gregorian calendar.
pub open spec fn is_leap_year(y: int) -> bool {
    y % 4 == 0 && (y % 100 != 0 || y % 400 == 0)
}

/// Number of days in month `m` (1..=12) of year `y`.
pub open spec fn days_in_month(y: int, m: int) -> int {
    if m == 2 {
        if is_leap_year(y) {
            29
        } else {
            28
        }
    } else if m == 4 || m == 6 || m == 9 || m == 11 {
        30
    } else {
        31
    }
}

/// Days from 1970-01-01 to the civil date `y-m-d` (proleptic Gregorian).
pub open spec fn days_from_civil(y: int, m: int, d: int) -> int {
    let yy = if m <= 2 {
        y - 1
    } else {
        y
    };
    let era = yy / 400;
    let yoe = yy - era * 400;
    let mp = if m > 2 {
        m - 3
    } else {
        m + 9
    };
    let doy = (153 * mp + 2) / 5 + d - 1;
    let doe = yoe * 365 + yoe / 4 - yoe / 100 + doy;
    era * 146097 + doe - 719468
}

/// The civil fields of a Unix time are a real calendar date and time (the
/// day fits its month, February has 29 days only in leap years) and name
/// that very second: counting the days of the date from 1970-01-01 and
/// adding the time of day gives back the timestamp.
pub proof fn lemma_civil_from_unix_round_trip(secs: int)
    ensures
        ({
            let (y, m, d, h, mi, s) = civil_from_unix_spec(secs);
            &&& 1 <= m <= 12
            &&& 1 <= d <= days_in_month(y, m)
            &&& 0 <= h < 24 && 0 <= mi < 60 && 0 <= s < 60
            &&& days_from_civil(y, m, d) * 86400 + h * 3600 + mi * 60 + s == secs
        }),
{
    let days = secs / 86400;
    let tod = secs % 86400;
    vstd::arithmetic::div_mod::lemma_fundamental_div_mod(secs, 86400);
    assert(secs == days * 86400 + tod);
    assert(0 <= tod < 86400);
    let t = tod as u32;
    assert(t / 3600 * 3600 + (t % 3600) / 60 * 60 + t % 60 == t && t / 3600 < 24 && (t % 3600)
        / 60 < 60 && t % 60 < 60) by (bit_vector)
        requires
            t < 86400,
    ;
    let z = days + 719468;
    let era = z / 146097;
    let doe = z - era * 146097;
    assert(0 <= doe < 146097);
    lemma_era_day_ranges(doe);
    let yoe = (doe - doe / 1460 + doe / 36524 - doe / 146096) / 365;
    let doy = doe - (365 * yoe + yoe / 4 - yoe / 100);
    let mp = (5 * doy + 2) / 153;
    let d = doy - (153 * mp + 2) / 5 + 1;
    let y0 = yoe + era * 400;
    let m = if mp < 10 {
        mp + 3
    } else {
        mp - 9
    };
    let y = if m <= 2 {
        y0 + 1
    } else {
        y0
    };
    assert(civil_from_days_spec(days) == (y, m, d));
    // Back to a day count.
    let yy = if m <= 2 {
        y - 1
    } else {
        y
    };
    assert(yy == y0);
    vstd::arithmetic::div_mod::lemma_fundamental_div_mod_converse(y0, 400, era, yoe);
    assert(y0 / 400 == era);
    let mp2 = if m > 2 {
        m - 3
    } else {
        m + 9
    };
    assert(mp2 == mp);
    assert((153 * mp + 2) / 5 + d - 1 == doy);
    assert(days_from_civil(y, m, d) == days);
    // February of a leap year.
    if m == 2 && d == 29 {
        assert(mp == 11 && doy == 365);
        assert(y == yoe + 1 + 400 * era);
        vstd::arithmetic::div_mod::lemma_mod_multiples_vanish(100 * era, yoe + 1, 4);
        vstd::arithmetic::div_mod::lemma_mod_multiples_vanish(4 * era, yoe + 1, 100);
        vstd::arithmetic::div_mod::lemma_mod_multiples_vanish(era, yoe + 1, 400);
        assert(4 * (100 * era) + (yoe + 1) == y);
        assert(100 * (4 * era) + (yoe + 1) == y);
        assert(400 * era + (yoe + 1) == y);
        if yoe == 399 {
            assert((yoe + 1) % 400 == 0);
        }
        assert(is_leap_year(y));
    }
}

/// Year-of-era, day-of-year, month index and day for a day `doe` within a
/// 400-year era.
fn civil_in_era(doe: i64) -> (r: (i64, i64, i64, i64))
    requires
        0 <= doe < 146097,
    ensures
        ({
            let yoe = (doe - doe / 1460 + doe / 36524 - doe / 146096) / 365;
            let doy = doe - (365 * yoe + yoe / 4 - yoe / 100);
            let mp = (5 * doy + 2) / 153;
            let d = doy - (153 * mp + 2) / 5 + 1;
            r.0 == yoe && r.1 == doy && r.2 == mp && r.3 == d
        }),
{
    let yoe = (doe - doe / 1460 + doe / 36524 - doe / 146096) / 365;
    assert(-1 <= yoe <= 401);
    let doy = doe - (365 * yoe + yoe / 4 - yoe / 100);
    assert(-150000 <= doy <= 150000);
    let mp = (5 * doy + 2) / 153;
    let d = doy - (153 * mp + 2) / 5 + 1;
    (yoe, doy, mp, d)
}

/// Civil date of a day count, for day counts within ±2^47.
fn days_to_civil(days: i64) -> (r: (i64, i64, i64))
    requires
        -0x8000_0000_0000 <= days <= 0x8000_0000_0000,
    ensures
        r.0 == civil_from_days_spec(days as int).0,
        r.1 == civil_from_days_spec(days as int).1,
        r.2 == civil_from_days_spec(days as int).2,
{
    let z = days + 719468;
    let q = z / 146097;
    let rem = z % 146097;
    let era = if rem < 0 {
        q - 1
    } else {
        q
    };
    assert(era == z as int / 146097);
    let doe = z - era * 146097;
    assert(0 <= doe < 146097);
    let (yoe, _doy, mp, d) = civil_in_era(doe);
    let y = yoe + era * 400;
    let m = if mp < 10 {
        mp + 3
    } else {
        mp - 9
    };
    let year = if m <= 2 {
        y + 1
    } else {
        y
    };
    (year, m, d)
}

/// Convert a Unix timestamp to civil UTC fields.
pub fn civil_from_unix(secs: i64) -> (r: (i64, u32, u32, u32, u32, u32))
    ensures
        ({
            let (y, m, d, h, mi, s) = civil_from_unix_spec(secs as int);
            r.0 == y && r.1 == m && r.2 == d && r.3 == h && r.4 == mi && r.5 == s
        }),
{
    proof {
        lemma_civil_fields_in_range(secs as int);
    }
    let q = secs / 86400;
    let rem = secs % 86400;
    let days = if rem < 0 {
        q - 1
    } else {
        q
    };
    let tod = if rem < 0 {
        rem + 86400
    } else {
        rem
    };
    assert(days == secs as int / 86400 && tod == secs as int % 86400);
    let hour = tod / 3600;
    let minute = (tod % 3600) / 60;
    let second = tod % 60;
    let (year, m, d) = days_to_civil(days);
    (year, m as u32, d as u32, hour as u32, minute as u32, second as u32)
}


/// RFC 3339 UTC text of a Unix timestamp: `YYYY-MM-DDTHH:MM:SSZ`.
pub open spec fn rfc3339_spec(secs: int) -> Seq<char> {
    let (y, m, d, h, mi, s) = civil_from_unix_spec(secs);
    fmt_padded(y, 4) + seq!['-'] + fmt_padded(m, 2) + seq!['-'] + fmt_padded(d, 2) + seq!['T'] + fmt_padded(h, 2) + seq![':'] + fmt_padded(mi, 2) + seq![':'] + fmt_padded(
        s,
        2,
    ) + seq!['Z']
}

/// The export envelope's `exported_at` for the given Unix time.
pub fn rfc3339_utc(secs: i64) -> (t: String)
    ensures
        t@ == rfc3339_spec(secs as int),
{
    let (year, month, day, hour, minute, second) = civil_from_unix(secs);
    let mut t = String::new();
    push_signed_padded(&mut t, year, 4);
    push_char(&mut t, '-');
    push_zero_padded(&mut t, month as u64, 2);
    push_char(&mut t, '-');
    push_zero_padded(&mut t, day as u64, 2);
    push_char(&mut t, 'T');
    push_zero_padded(&mut t, hour as u64, 2);
    push_char(&mut t, ':');
    push_zero_padded(&mut t, minute as u64, 2);
    push_char(&mut t, ':');
    push_zero_padded(&mut t, second as u64, 2);
    push_char(&mut t, 'Z');
    assert(t@ =~= rfc3339_spec(secs as int));
    t
}


// ─────────────────────────────────────────────────────────────────────────
//  Terminal UUIDs and the attach-index diff
// ─────────────────────────────────────────────────────────────────────────

/// Whether `s` (by characters) occurs in `v`.
pub open spec fn contains_text(v: Seq<String>, s: Seq<char>) -> bool {
    exists|i: int| 0 <= i < v.len() && (#[trigger] v[i])@ == s
}

/// The elements of `v`, in order, that do not occur in `other`.
pub open spec fn missing_from(v: Seq<String>, other: Seq<String>) -> Seq<String>
    decreases v.len(),
{
    if v.len() == 0 {
        Seq::empty()
    } else {
        let rest = missing_from(v.drop_last(), other);
        if contains_text(other, v.last()@) {
            rest
        } else {
            rest.push(v.last())
        }
    }
}

fn contains_string(v: &Vec<String>, s: &String) -> (b: bool)
    ensures
        b == contains_text(v@, s@),
{
    let mut i: usize = 0;
    while i < v.len()
        invariant
            i <= v.len(),
            forall|k: int| 0 <= k < i ==> (#[trigger] v@[k])@ != s@,
        decreases v.len() - i,
    {
        if v[i] == *s {
            return true;
        }
        i = i + 1;
    }
    false
}

fn elements_missing_from(v: &Vec<String>, other: &Vec<String>) -> (r: Vec<String>)
    ensures
        r@ == missing_from(v@, other@),
{
    let mut out: Vec<String> = Vec::new();
    let mut i: usize = 0;
    while i < v.len()
        invariant
            i <= v.len(),
            out@ == missing_from(v@.take(i as int), other@),
        decreases v.len() - i,
    {
        proof {
            assert(v@.take(i + 1).drop_last() =~= v@.take(i as int));
        }
        if !contains_string(other, &v[i]) {
            out.push(v[i].clone());
        }
        i = i + 1;
    }
    assert(v@.take(v@.len() as int) =~= v@);
    out
}

/// `(removed, added)` between the terminal UUID lists of the prior and the
/// new layout of one session, each in the order of its source list.
pub fn diff_terminal_uuids(old: &Vec<String>, new: &Vec<String>) -> (r: (Vec<String>, Vec<String>))
    ensures
        r.0@ == missing_from(old@, new@),
        r.1@ == missing_from(new@, old@),
{
    let removed = elements_missing_from(old, new);
    let added = elements_missing_from(new, old);
    (removed, added)
}

/// The ids of the terminal items of `items`, in order.
pub open spec fn terminal_ids(items: Seq<Item>) -> Seq<String>
    decreases items.len(),
{
    if items.len() == 0 {
        Seq::empty()
    } else {
        let rest = terminal_ids(items.drop_last());
        match items.last() {
            Item::Terminal { common } => rest.push(common.id),
            _ => rest,
        }
    }
}

/// The terminal UUIDs a layout references, in item order.
pub fn terminal_uuids_in(layout: &Layout) -> (r: Vec<String>)
    ensures
        r@ == terminal_ids(layout.items@),
{
    let items = &layout.items;
    let mut out: Vec<String> = Vec::new();
    let mut i: usize = 0;
    while i < items.len()
        invariant
            i <= items.len(),
            out@ == terminal_ids(items@.take(i as int)),
        decreases items.len() - i,
    {
        proof {
            assert(items@.take(i + 1).drop_last() =~= items@.take(i as int));
        }
        match &items[i] {
            Item::Terminal { common } => {
                out.push(common.id.clone());
            },
            _ => {},
        }
        i = i + 1;
    }
    assert(items@.take(items@.len() as int) =~= items@);
    out
}

/// Split terminal UUIDs into those with a live binding (`alive[i]`) and
/// those without, keeping order.
pub fn split_matched(uuids: &Vec<String>, alive: &Vec<bool>) -> (r: (Vec<String>, Vec<String>))
    requires
        alive@.len() == uuids@.len(),
    ensures
        r.0@ == matched_spec(uuids@, alive@, true),
        r.1@ == matched_spec(uuids@, alive@, false),
        r.0@ == tagged(uuids@, alive@).filter(|p: (String, bool)| p.1).map_values(
            |p: (String, bool)| p.0,
        ),
        r.1@ == tagged(uuids@, alive@).filter(|p: (String, bool)| !p.1).map_values(
            |p: (String, bool)| p.0,
        ),
{
    proof {
        lemma_matched_is_filter(uuids@, alive@, true);
        lemma_matched_is_filter(uuids@, alive@, false);
        assert((|p: (String, bool)| p.1 == true) =~= (|p: (String, bool)| p.1));
        assert((|p: (String, bool)| p.1 == false) =~= (|p: (String, bool)| !p.1));
    }
    let mut m: Vec<String> = Vec::new();
    let mut u: Vec<String> = Vec::new();
    let mut i: usize = 0;
    while i < uuids.len()
        invariant
            i <= uuids.len(),
            alive@.len() == uuids@.len(),
            m@ == matched_spec(uuids@.take(i as int), alive@.take(i as int), true),
            u@ == matched_spec(uuids@.take(i as int), alive@.take(i as int), false),
        decreases uuids.len() - i,
    {
        proof {
            assert(uuids@.take(i + 1).drop_last() =~= uuids@.take(i as int));
            assert(alive@.take(i + 1).drop_last() =~= alive@.take(i as int));
        }
        if alive[i] {
            m.push(uuids[i].clone());
        } else {
            u.push(uuids[i].clone());
        }
        i = i + 1;
    }
    assert(uuids@.take(uuids@.len() as int) =~= uuids@);
    assert(alive@.take(alive@.len() as int) =~= alive@);
    (m, u)
}

/// The UUIDs whose liveness flag equals `want`, in order.
pub open spec fn matched_spec(uuids: Seq<String>, alive: Seq<bool>, want: bool) -> Seq<String>
    decreases uuids.len(),
{
    if uuids.len() == 0 || alive.len() != uuids.len() {
        Seq::empty()
    } else {
        let rest = matched_spec(uuids.drop_last(), alive.drop_last(), want);
        if alive.last() == want {
            rest.push(uuids.last())
        } else {
            rest
        }
    }
}

/// The items of `items`, in order, whose id is not `id`.
pub open spec fn items_without(items: Seq<Item>, id: Seq<char>) -> Seq<Item>
    decreases items.len(),
{
    if items.len() == 0 {
        Seq::empty()
    } else {
        let rest = items_without(items.drop_last(), id);
        if items.last().spec_id() == id {
            rest
        } else {
            rest.push(items.last())
        }
    }
}

/// The id of the first terminal item with id `id`, if any.
pub open spec fn first_terminal_with_id(items: Seq<Item>, id: Seq<char>) -> Option<String>
    decreases items.len(),
{
    if items.len() == 0 {
        None
    } else {
        match items[0] {
            Item::Terminal { common } => if common.id@ == id {
                Some(common.id)
            } else {
                first_terminal_with_id(items.drop_first(), id)
            },
            _ => first_terminal_with_id(items.drop_first(), id),
        }
    }
}

/// Removing the items with an id never lengthens the list, and leaves it
/// as long as before exactly when no item has that id (a delete then
/// reports "not found").
pub proof fn lemma_items_without_len(items: Seq<Item>, id: Seq<char>)
    ensures
        items_without(items, id).len() <= items.len(),
        items_without(items, id).len() == items.len() <==> forall|k: int|
            0 <= k < items.len() ==> (#[trigger] items[k]).spec_id() != id,
    decreases items.len(),
{
    if items.len() > 0 {
        lemma_items_without_len(items.drop_last(), id);
        assert forall|k: int| 0 <= k < items.len() - 1 implies items.drop_last()[k] == items[k] by {}
    }
}

/// Each UUID paired with its liveness flag, position by position.
pub open spec fn tagged(uuids: Seq<String>, alive: Seq<bool>) -> Seq<(String, bool)> {
    Seq::new(uuids.len(), |i: int| (uuids[i], alive[i]))
}

/// Classifying terminals keeps order and loses none: the UUIDs whose flag
/// equals `want` are exactly those of `uuids` at the positions where
/// `alive` is `want`, in order.
pub proof fn lemma_matched_is_filter(uuids: Seq<String>, alive: Seq<bool>, want: bool)
    requires
        uuids.len() == alive.len(),
    ensures
        matched_spec(uuids, alive, want) == tagged(uuids, alive).filter(
            |p: (String, bool)| p.1 == want,
        ).map_values(|p: (String, bool)| p.0),
    decreases uuids.len(),
{
    let pred = |p: (String, bool)| p.1 == want;
    let first = |p: (String, bool)| p.0;
    reveal(Seq::filter);
    let t = tagged(uuids, alive);
    if uuids.len() > 0 {
        let u0 = uuids.drop_last();
        let a0 = alive.drop_last();
        lemma_matched_is_filter(u0, a0, want);
        assert(t.drop_last() =~= tagged(u0, a0));
        assert(t.last() == (uuids.last(), alive.last()));
        let f = tagged(u0, a0).filter(pred);
        if alive.last() == want {
            assert(t.filter(pred) == f.push(t.last()));
            assert(f.push(t.last()).map_values(first) =~= f.map_values(first).push(uuids.last()));
        } else {
            assert(t.filter(pred) == f);
        }
    } else {
        assert(t.filter(pred).map_values(first) =~= Seq::<String>::empty());
    }
}

/// Remove every item with id `id` from the layout (DELETE item). Returns
/// whether anything was removed and, when the removed item was a terminal,
/// its UUID.
pub fn remove_item(layout: &mut Layout, id: &str) -> (r: (bool, Option<String>))
    ensures
        final(layout).schema_version == old(layout).schema_version,
        final(layout).groups == old(layout).groups,
        final(layout).items@ == items_without(old(layout).items@, id@),
        r.0 == (items_without(old(layout).items@, id@).len() < old(layout).items@.len()),
        r.1 == first_terminal_with_id(old(layout).items@, id@),
{
    let ghost before = layout.items@;
    let id_s = String::from_str(id);
    let mut src: Vec<Item> = Vec::new();
    std::mem::swap(&mut src, &mut layout.items);
    let n = src.len();
    let mut kept: Vec<Item> = Vec::new();
    let mut found: Option<String> = None;
    let mut i: usize = 0;
    assert(before.skip(0) =~= before);
    while src.len() > 0
        invariant
            i <= n == before.len(),
            src@ == before.skip(i as int),
            id_s@ == id@,
            kept@ == items_without(before.take(i as int), id@),
            first_terminal_with_id(before, id@) == match found {
                Some(f) => Some(f),
                None => first_terminal_with_id(before.skip(i as int), id@),
            },
        decreases src@.len(),
    {
        proof {
            assert(before.take(i + 1).drop_last() =~= before.take(i as int));
            assert(before.skip(i as int).drop_first() =~= before.skip(i + 1));
        }
        let it = src.remove(0);
        let same = it.common().id == id_s;
        if found.is_none() {
            match &it {
                Item::Terminal { common } => {
                    if same {
                        found = Some(common.id.clone());
                    }
                },
                _ => {},
            }
        }
        if !same {
            kept.push(it);
        }
        i = i + 1;
        assert(src@ =~= before.skip(i as int));
    }
    assert(before.take(n as int) =~= before);
    let removed = kept.len() < n;
    layout.items = kept;
    (removed, found)
}


/// The id of an item.
pub fn item_id(item: &Item) -> (id: &str)
    ensures
        id@ == item.spec_id(),
{
    item.common().id.as_str()
}

/// `n` as a `u32`, saturating at `u32::MAX`.
pub open spec fn saturate_u32(n: int) -> u32 {
    if n > u32::MAX {
        u32::MAX
    } else {
        n as u32
    }
}

/// `(item_count, terminal_count)` of a session list row, each saturating
/// at `u32::MAX`.
pub fn session_counts(layout: &Layout) -> (r: (u32, u32))
    ensures
        r.0 == saturate_u32(layout.items@.len() as int),
        r.1 == saturate_u32(terminal_ids(layout.items@).len() as int),
{
    let uuids = terminal_uuids_in(layout);
    let a = if layout.items.len() > 4294967295usize {
        u32::MAX
    } else {
        layout.items.len() as u32
    };
    let b = if uuids.len() > 4294967295usize {
        u32::MAX
    } else {
        uuids.len() as u32
    };
    (a, b)
}

/// Maximum of a sequence of orders, or 0 when empty.
pub open spec fn max_order(orders: Seq<i64>) -> i64
    decreases orders.len(),
{
    if orders.len() == 0 {
        0
    } else {
        let m = max_order(orders.drop_last());
        if orders.len() == 1 || orders.last() > m {
            orders.last()
        } else {
            m
        }
    }
}

/// `max_order` is the maximum: no order exceeds it, and (for a non-empty
/// list) it is one of the orders; it is 0 for no orders.
pub proof fn lemma_max_order_is_maximum(orders: Seq<i64>)
    ensures
        orders.len() == 0 ==> max_order(orders) == 0,
        forall|k: int| 0 <= k < orders.len() ==> orders[k] <= max_order(orders),
        orders.len() > 0 ==> exists|k: int| 0 <= k < orders.len() && orders[k] == max_order(orders),
    decreases orders.len(),
{
    if orders.len() > 0 {
        let pre = orders.drop_last();
        lemma_max_order_is_maximum(pre);
        assert forall|k: int| 0 <= k < orders.len() implies orders[k] <= max_order(orders) by {
            if k < orders.len() - 1 {
                assert(orders[k] == pre[k]);
            }
        }
        if orders.len() == 1 || orders.last() > max_order(pre) {
            assert(orders[orders.len() - 1] == max_order(orders));
        } else {
            let k = choose|k: int| 0 <= k < pre.len() && pre[k] == max_order(pre);
            assert(orders[k] == pre[k]);
        }
    }
}

/// Manifest order for a newly appended session: one past the largest
/// existing order (0 when none), saturating.
pub fn next_session_order(orders: &Vec<i64>) -> (n: i64)
    ensures
        n == if max_order(orders@) == i64::MAX {
            i64::MAX
        } else {
            (max_order(orders@) + 1) as i64
        },
        orders@.len() == 0 ==> n == 1,
        forall|k: int| 0 <= k < orders@.len() ==> orders@[k] < n || n == i64::MAX,
        orders@.len() > 0 ==> exists|k: int| 0 <= k < orders@.len() && (orders@[k] == n - 1 || (
        orders@[k] == i64::MAX && n == i64::MAX)),
{
    proof {
        lemma_max_order_is_maximum(orders@);
    }
    let mut m: i64 = 0;
    let mut i: usize = 0;
    while i < orders.len()
        invariant
            i <= orders.len(),
            m == max_order(orders@.take(i as int)),
        decreases orders.len() - i,
    {
        proof {
            assert(orders@.take(i + 1).drop_last() =~= orders@.take(i as int));
        }
        if i == 0 || orders[i] > m {
            m = orders[i];
        }
        i = i + 1;
    }
    assert(orders@.take(orders@.len() as int) =~= orders@);
    if m == i64::MAX {
        i64::MAX
    } else {
        m + 1
    }
}

// ─────────────────────────────────────────────────────────────────────────
//  Request bodies and list rows
// ─────────────────────────────────────────────────────────────────────────

/// Body of `POST /api/sessions`.
#[derive(Debug, Clone)]
pub struct CreateSessionBody {
    pub name: String,
    /// Mandatory project directory; `None` is answered `invalid_workspace`.
    pub workspace_root: Option<String>,
}

/// Body of `PUT /api/sessions/{name}/workspace`.
#[derive(Debug, Clone)]
pub struct ChangeWorkspaceBody {
    pub workspace_root: String,
}

/// Body of `PATCH /api/sessions/{name}` (rename to `name`).
#[derive(Debug, Clone)]
pub struct RenameSessionBody {
    pub name: String,
}

/// Body of `POST /api/sessions/{name}/duplicate`.
#[derive(Debug, Clone)]
pub struct DuplicateSessionBody {
    pub new_name: String,
    pub folder_id: Option<String>,
}

/// Body of `POST /api/sessions/import`.
#[derive(Debug, Clone)]
pub struct ImportSessionBody {
    pub name: String,
    pub layout: Layout,
}

/// One row of `GET /api/sessions`.
#[derive(Debug, Clone)]
pub struct SessionListEntry {
    pub name: String,
    pub active: bool,
    pub folder_id: Option<String>,
    pub order: i64,
    pub tags: Vec<String>,
    pub favorite: bool,
    pub item_count: u32,
    pub terminal_count: u32,
    pub modified_at: u64,
    pub workspace_root: String,
}

/// Query of `DELETE /api/sessions/{name}/items/{id}`.
#[derive(Debug, Clone, Copy, PartialEq, Eq)]
pub struct DeleteItemQuery {
    /// Also kill the terminal when the removed item is a terminal panel.
    pub kill_terminal: bool,
}

impl Default for DeleteItemQuery {
    fn default() -> (q: Self)
        ensures
            !q.kill_terminal,
    {
        DeleteItemQuery { kill_terminal: false }
    }
}


// ─────────────────────────────────────────────────────────────────────────
//  Attach table
// ─────────────────────────────────────────────────────────────────────────

/// Which session each webpage (owner key) has attached on this server.
/// Each owner holds at most one session and each session is held by at
/// most one owner; the flocks themselves are kept beside it, keyed by
/// session name.
#[derive(Debug)]
pub struct AttachTable {
    entries: Vec<(String, String)>,
}

/// What an attach request has to do once the table has been consulted.
#[derive(Debug, Clone, Copy, PartialEq, Eq, Structural)]
pub enum AttachOutcome {
    /// The owner already holds this session: answer idempotently.
    Reuse,
    /// Another owner on this server holds the session: 409, no takeover.
    Conflict,
    /// Nobody here holds it: take the cross-server flock, then commit.
    Acquire,
}

/// Decision of `AttachTable::begin_attach`.
#[derive(Debug, Clone, PartialEq, Eq)]
pub struct AttachDecision {
    /// A different session the owner held and that was released first
    /// (implicit detach on switching sessions); its flock must be released.
    pub released: Option<String>,
    pub outcome: AttachOutcome,
}

impl AttachTable {
    /// `o` holds session `s`.
    pub closed spec fn holds(self, o: Seq<char>, s: Seq<char>) -> bool {
        exists|i: int|
            0 <= i < self.entries@.len() && (#[trigger] self.entries@[i]).0@ == o
                && self.entries@[i].1@ == s
    }

    /// Owners are distinct and sessions are distinct.
    pub closed spec fn wf(self) -> bool {
        forall|i: int, j: int|
            0 <= i < self.entries@.len() && 0 <= j < self.entries@.len() && i != j ==> (
            #[trigger] self.entries@[i]).0@ != (#[trigger] self.entries@[j]).0@
                && self.entries@[i].1@ != self.entries@[j].1@
    }

    /// Some owner holds session `s`.
    pub open spec fn is_held_spec(self, s: Seq<char>) -> bool {
        exists|o: Seq<char>| self.holds(o, s)
    }

    /// Owner `o` holds some session.
    pub open spec fn has_session(self, o: Seq<char>) -> bool {
        exists|s: Seq<char>| self.holds(o, s)
    }

    /// Single attach: in a well-formed table two holdings share an owner
    /// exactly when they share a session.
    pub proof fn lemma_wf_unique(self, o1: Seq<char>, s1: Seq<char>, o2: Seq<char>, s2: Seq<char>)
        requires
            self.wf(),
            self.holds(o1, s1),
            self.holds(o2, s2),
        ensures
            o1 == o2 <==> s1 == s2,
    {
    }

    /// An empty table.
    pub fn new() -> (t: Self)
        ensures
            t.wf(),
            forall|o: Seq<char>, s: Seq<char>| !t.holds(o, s),
    {
        AttachTable { entries: Vec::new() }
    }

    fn index_of_owner(&self, owner: &String) -> (r: Option<usize>)
        ensures
            match r {
                Some(i) => i < self.entries@.len() && self.entries@[i as int].0@ == owner@,
                None => forall|k: int|
                    0 <= k < self.entries@.len() ==> (#[trigger] self.entries@[k]).0@ != owner@,
            },
    {
        let mut i: usize = 0;
        while i < self.entries.len()
            invariant
                i <= self.entries@.len(),
                forall|k: int| 0 <= k < i ==> (#[trigger] self.entries@[k]).0@ != owner@,
            decreases self.entries.len() - i,
        {
            if self.entries[i].0 == *owner {
                return Some(i);
            }
            i = i + 1;
        }
        None
    }

    fn index_of_session(&self, name: &String) -> (r: Option<usize>)
        ensures
            match r {
                Some(i) => i < self.entries@.len() && self.entries@[i as int].1@ == name@,
                None => forall|k: int|
                    0 <= k < self.entries@.len() ==> (#[trigger] self.entries@[k]).1@ != name@,
            },
    {
        let mut i: usize = 0;
        while i < self.entries.len()
            invariant
                i <= self.entries@.len(),
                forall|k: int| 0 <= k < i ==> (#[trigger] self.entries@[k]).1@ != name@,
            decreases self.entries.len() - i,
        {
            if self.entries[i].1 == *name {
                return Some(i);
            }
            i = i + 1;
        }
        None
    }

    /// The session the owner holds, if any.
    pub fn session_of(&self, owner: &String) -> (r: Option<String>)
        requires
            self.wf(),
        ensures
            match r {
                Some(s) => self.holds(owner@, s@),
                None => !self.has_session(owner@),
            },
    {
        match self.index_of_owner(owner) {
            Some(i) => Some(self.entries[i].1.clone()),
            None => None,
        }
    }

    /// Whether the owner holds exactly session `name`.
    pub fn owner_holds_session(&self, owner: &String, name: &String) -> (b: bool)
        requires
            self.wf(),
        ensures
            b == self.holds(owner@, name@),
    {
        match self.index_of_owner(owner) {
            Some(i) => self.entries[i].1 == *name,
            None => false,
        }
    }

    /// Whether some owner holds session `name` on this server.
    pub fn is_held(&self, name: &String) -> (b: bool)
        requires
            self.wf(),
        ensures
            b == self.is_held_spec(name@),
    {
        match self.index_of_session(name) {
            Some(i) => {
                assert(self.holds(self.entries@[i as int].0@, name@));
                true
            },
            None => false,
        }
    }

    fn remove_at(&mut self, i: usize)
        requires
            old(self).wf(),
            i < old(self).entries@.len(),
        ensures
            final(self).wf(),
            forall|o: Seq<char>, s: Seq<char>|
                final(self).holds(o, s) <==> (old(self).holds(o, s) && o != old(
                    self,
                ).entries@[i as int].0@),
            forall|o: Seq<char>, s: Seq<char>|
                final(self).holds(o, s) <==> (old(self).holds(o, s) && s != old(
                    self,
                ).entries@[i as int].1@),
    {
        let ghost e = self.entries@;
        self.entries.remove(i);
        let ghost f = self.entries@;
        assert forall|k: int| 0 <= k < f.len() implies f[k] == (if k < i {
            e[k]
        } else {
            e[k + 1]
        }) by {}
        assert forall|o: Seq<char>, s: Seq<char>|
            self.holds(o, s) <==> (old(self).holds(o, s) && o != e[i as int].0@) by {
            if self.holds(o, s) {
                let k = choose|k: int| 0 <= k < f.len() && (#[trigger] f[k]).0@ == o && f[k].1@ == s;
                let kk = if k < i { k } else { k + 1 };
                assert(e[kk] == f[k]);
            }
            if old(self).holds(o, s) && o != e[i as int].0@ {
                let k = choose|k: int| 0 <= k < e.len() && (#[trigger] e[k]).0@ == o && e[k].1@ == s;
                let kk = if k < i { k } else { k - 1 };
                assert(f[kk] == e[k]);
            }
        }
        assert forall|o: Seq<char>, s: Seq<char>|
            self.holds(o, s) <==> (old(self).holds(o, s) && s != e[i as int].1@) by {
            if self.holds(o, s) {
                let k = choose|k: int| 0 <= k < f.len() && (#[trigger] f[k]).0@ == o && f[k].1@ == s;
                let kk = if k < i { k } else { k + 1 };
                assert(e[kk] == f[k]);
            }
            if old(self).holds(o, s) && s != e[i as int].1@ {
                let k = choose|k: int| 0 <= k < e.len() && (#[trigger] e[k]).0@ == o && e[k].1@ == s;
                let kk = if k < i { k } else { k - 1 };
                assert(f[kk] == e[k]);
            }
        }
    }

    /// Consult the table for an attach of `name` by `owner`. A different
    /// session the owner held is released first (implicit detach); then the
    /// owner either already holds `name`, or someone else does, or nobody.
    pub fn begin_attach(&mut self, owner: &String, name: &String) -> (d: AttachDecision)
        requires
            old(self).wf(),
        ensures
            final(self).wf(),
            match d.released {
                Some(p) => p@ != name@ && old(self).holds(owner@, p@),
                None => forall|p: Seq<char>| old(self).holds(owner@, p) ==> p == name@,
            },
            forall|o: Seq<char>, s: Seq<char>|
                final(self).holds(o, s) <==> (old(self).holds(o, s) && !(o == owner@ && s
                    != name@)),
            d.outcome == AttachOutcome::Reuse <==> old(self).holds(owner@, name@),
            d.outcome == AttachOutcome::Conflict <==> (!old(self).holds(owner@, name@)
                && old(self).is_held_spec(name@)),
            d.outcome == AttachOutcome::Acquire <==> !old(self).is_held_spec(name@),
    {
        let mut released: Option<String> = None;
        match self.index_of_owner(owner) {
            Some(i) => {
                if self.entries[i].1 != *name {
                    let prev = self.entries[i].1.clone();
                    self.remove_at(i);
                    released = Some(prev);
                }
            },
            None => {},
        }
        let ghost mid = *self;
        assert forall|o: Seq<char>, s: Seq<char>|
            mid.holds(o, s) <==> (old(self).holds(o, s) && !(o == owner@ && s != name@)) by {
            if old(self).holds(o, s) && o == owner@ {
                old(self).lemma_wf_unique(o, s, o, s);
            }
            if old(self).holds(o, s) && o == owner@ && released is Some {
                old(self).lemma_wf_unique(o, s, owner@, released->0@);
            }
        }
        let outcome = if self.owner_holds_session(owner, name) {
            AttachOutcome::Reuse
        } else if self.is_held(name) {
            AttachOutcome::Conflict
        } else {
            AttachOutcome::Acquire
        };
        proof {
            if old(self).is_held_spec(name@) {
                let o = choose|o: Seq<char>| old(self).holds(o, name@);
                assert(mid.holds(o, name@));
            }
        }
        AttachDecision { released, outcome }
    }

    /// Record that `owner` now holds `name` (after the flock was acquired).
    pub fn commit_attach(&mut self, owner: &String, name: &String)
        requires
            old(self).wf(),
            !old(self).has_session(owner@),
            !old(self).is_held_spec(name@),
        ensures
            final(self).wf(),
            forall|o: Seq<char>, s: Seq<char>|
                final(self).holds(o, s) <==> (old(self).holds(o, s) || (o == owner@ && s
                    == name@)),
    {
        let ghost e = self.entries@;
        self.entries.push((owner.clone(), name.clone()));
        let ghost f = self.entries@;
        assert forall|k: int| 0 <= k < e.len() implies f[k] == e[k] by {}
        assert forall|k: int| 0 <= k < e.len() implies (#[trigger] e[k]).0@ != owner@ && e[k].1@ != name@ by {
            assert(old(self).holds(e[k].0@, e[k].1@));
        }
        assert forall|o: Seq<char>, s: Seq<char>|
            self.holds(o, s) <==> (old(self).holds(o, s) || (o == owner@ && s == name@)) by {
            if self.holds(o, s) {
                let k = choose|k: int| 0 <= k < f.len() && (#[trigger] f[k]).0@ == o && f[k].1@ == s;
                if k < e.len() {
                    assert(e[k] == f[k]);
                }
            }
            if old(self).holds(o, s) {
                let k = choose|k: int| 0 <= k < e.len() && (#[trigger] e[k]).0@ == o && e[k].1@ == s;
                assert(f[k] == e[k]);
            }
            if o == owner@ && s == name@ {
                assert(f[e.len() as int].0@ == o);
            }
        }
    }

    /// Explicit detach of `name` by `owner`; a no-op unless the owner holds
    /// exactly that session. Returns whether a session was released.
    pub fn detach(&mut self, owner: &String, name: &String) -> (released: bool)
        requires
            old(self).wf(),
        ensures
            final(self).wf(),
            released == old(self).holds(owner@, name@),
            forall|o: Seq<char>, s: Seq<char>|
                final(self).holds(o, s) <==> (old(self).holds(o, s) && !(o == owner@ && s
                    == name@)),
    {
        match self.index_of_owner(owner) {
            Some(i) => {
                if self.entries[i].1 == *name {
                    self.remove_at(i);
                    true
                } else {
                    proof {
                        assert forall|s: Seq<char>| !old(self).holds(owner@, s) || s != name@ by {
                            if old(self).holds(owner@, s) {
                                old(self).lemma_wf_unique(owner@, s, owner@, self.entries@[i as int].1@);
                            }
                        }
                    }
                    false
                }
            },
            None => false,
        }
    }

    /// Release whatever session the owner holds (WS disconnect, page
    /// unload). Returns the released session name.
    pub fn release_owner(&mut self, owner: &String) -> (released: Option<String>)
        requires
            old(self).wf(),
        ensures
            final(self).wf(),
            match released {
                Some(s) => old(self).holds(owner@, s@),
                None => !old(self).has_session(owner@),
            },
            forall|o: Seq<char>, s: Seq<char>|
                final(self).holds(o, s) <==> (old(self).holds(o, s) && o != owner@),
    {
        match self.index_of_owner(owner) {
            Some(i) => {
                let s = self.entries[i].1.clone();
                self.remove_at(i);
                Some(s)
            },
            None => None,
        }
    }

    /// Release the lock of session `name`, whoever holds it (clean-up after
    /// a failed attach).
    pub fn release_session(&mut self, name: &String) -> (released: bool)
        requires
            old(self).wf(),
        ensures
            final(self).wf(),
            released == old(self).is_held_spec(name@),
            forall|o: Seq<char>, s: Seq<char>|
                final(self).holds(o, s) <==> (old(self).holds(o, s) && s != name@),
    {
        match self.index_of_session(name) {
            Some(i) => {
                assert(old(self).holds(self.entries@[i as int].0@, name@));
                self.remove_at(i);
                true
            },
            None => false,
        }
    }

    /// Release every held session (graceful shutdown); returns their names.
    pub fn release_all(&mut self) -> (names: Vec<String>)
        requires
            old(self).wf(),
        ensures
            final(self).wf(),
            forall|o: Seq<char>, s: Seq<char>| !final(self).holds(o, s),
            forall|s: Seq<char>| old(self).is_held_spec(s) <==> exists|i: int|
                0 <= i < names@.len() && (#[trigger] names@[i])@ == s,
    {
        let mut names: Vec<String> = Vec::new();
        let mut i: usize = 0;
        while i < self.entries.len()
            invariant
                i <= self.entries@.len(),
                names@.len() == i,
                forall|k: int| 0 <= k < i ==> (#[trigger] names@[k])@ == self.entries@[k].1@,
            decreases self.entries.len() - i,
        {
            names.push(self.entries[i].1.clone());
            i = i + 1;
        }
        proof {
            assert forall|s: Seq<char>| old(self).is_held_spec(s) <==> exists|i: int|
                0 <= i < names@.len() && (#[trigger] names@[i])@ == s by {
                if old(self).is_held_spec(s) {
                    let o = choose|o: Seq<char>| old(self).holds(o, s);
                    let k = choose|k: int| 0 <= k < self.entries@.len() && (#[trigger] self.entries@[k]).0@ == o && self.entries@[k].1@ == s;
                    assert(names@[k]@ == s);
                }
                if exists|i: int| 0 <= i < names@.len() && (#[trigger] names@[i])@ == s {
                    let k = choose|i: int| 0 <= i < names@.len() && (#[trigger] names@[i])@ == s;
                    assert(old(self).holds(self.entries@[k].0@, s));
                }
            }
        }
        self.entries = Vec::new();
        names
    }
}


// ─────────────────────────────────────────────────────────────────────────
//  Laws
// ─────────────────────────────────────────────────────────────────────────

proof fn lemma_contains_text_drop_last(v: Seq<String>, s: Seq<char>)
    requires
        v.len() > 0,
    ensures
        contains_text(v, s) <==> (contains_text(v.drop_last(), s) || v.last()@ == s),
{
    if contains_text(v, s) {
        let i = choose|i: int| 0 <= i < v.len() && (#[trigger] v[i])@ == s;
        if i < v.len() - 1 {
            assert(v.drop_last()[i] == v[i]);
        }
    }
    if contains_text(v.drop_last(), s) {
        let i = choose|i: int| 0 <= i < v.drop_last().len() && (#[trigger] v.drop_last()[i])@ == s;
        assert(v[i] == v.drop_last()[i]);
    }
    if v.last()@ == s {
        assert(v[v.len() - 1]@ == s);
    }
}

proof fn lemma_contains_text_push(v: Seq<String>, x: String, s: Seq<char>)
    ensures
        contains_text(v.push(x), s) <==> (contains_text(v, s) || x@ == s),
{
    lemma_contains_text_drop_last(v.push(x), s);
    assert(v.push(x).drop_last() =~= v);
}

/// A UUID is in `missing_from(v, other)` exactly when it is in `v` and not
/// in `other`.
pub proof fn lemma_missing_from_contains(v: Seq<String>, other: Seq<String>, s: Seq<char>)
    ensures
        contains_text(missing_from(v, other), s) <==> (contains_text(v, s) && !contains_text(
            other,
            s,
        )),
    decreases v.len(),
{
    if v.len() > 0 {
        lemma_missing_from_contains(v.drop_last(), other, s);
        lemma_contains_text_drop_last(v, s);
        let rest = missing_from(v.drop_last(), other);
        if !contains_text(other, v.last()@) {
            lemma_contains_text_push(rest, v.last(), s);
        }
    }
}

/// The terminal diff accounts for every UUID: one is in the new layout
/// exactly when it was in the prior layout and not removed, or was added;
/// nothing is both removed and added.
pub proof fn lemma_terminal_diff_reconstructs(old: Seq<String>, new: Seq<String>, s: Seq<char>)
    ensures
        contains_text(new, s) <==> ((contains_text(old, s) && !contains_text(
            missing_from(old, new),
            s,
        )) || contains_text(missing_from(new, old), s)),
        !(contains_text(missing_from(old, new), s) && contains_text(missing_from(new, old), s)),
{
    lemma_missing_from_contains(old, new, s);
    lemma_missing_from_contains(new, old, s);
}

/// An ETag as sent (quoted lowercase hex of 16 bytes) is read back by the
/// `If-Match` parser as exactly the same ETag.
pub proof fn lemma_etag_header_round_trip(etag: Seq<u8>)
    requires
        etag.len() == 16,
    ensures
        parse_etag_spec(quoted(hex_lower(etag))) == Some(hex_lower(etag)),
{
    let h = hex_lower(etag);
    crate::text::lemma_hex_lower_len(etag);
    crate::text::lemma_hex_lower_chars(etag);
    let q = quoted(h);
    assert(q.len() == 34);
    assert(q[0] == '"');
    assert(q[33] == '"');
    assert(!crate::text::is_unicode_whitespace(q[0]));
    assert(trim_start(q) == q);
    assert(q.last() == '"');
    assert(trim_end(q) == q);
    assert forall|i: int| 1 <= i < 33 implies is_hex_lower_char(#[trigger] q[i]) by {
        assert(q[i] == h[i - 1]);
    }
    assert(q.subrange(1, 33) =~= h);
}

proof fn lemma_hex_digit_injective(x: u8, y: u8)
    requires
        x < 16,
        y < 16,
        crate::text::hex_digit(x) == crate::text::hex_digit(y),
    ensures
        x == y,
{
    let cx = crate::text::hex_digit(x);
    let cy = crate::text::hex_digit(y);
    assert(cx as u32 == (if x < 10 { 48 + x } else { 87 + x }));
    assert(cy as u32 == (if y < 10 { 48 + y } else { 87 + y }));
}

/// Different byte strings of one length have different lowercase hex.
pub proof fn lemma_hex_lower_injective(a: Seq<u8>, b: Seq<u8>)
    requires
        a.len() == b.len(),
        hex_lower(a) == hex_lower(b),
    ensures
        a == b,
    decreases a.len(),
{
    if a.len() > 0 {
        crate::text::lemma_hex_lower_len(a.drop_last());
        crate::text::lemma_hex_lower_len(b.drop_last());
        let pa = hex_lower(a.drop_last());
        let pb = hex_lower(b.drop_last());
        let ha = crate::text::hex_byte(a.last());
        let hb = crate::text::hex_byte(b.last());
        assert(hex_lower(a) == pa + ha);
        assert(hex_lower(b) == pb + hb);
        assert(pa =~= hex_lower(a).subrange(0, pa.len() as int));
        assert(pb =~= hex_lower(b).subrange(0, pb.len() as int));
        lemma_hex_lower_injective(a.drop_last(), b.drop_last());
        let n = pa.len() as int;
        assert(ha[0] == hex_lower(a)[n]);
        assert(hb[0] == hex_lower(b)[n]);
        assert(ha[1] == hex_lower(a)[n + 1]);
        assert(hb[1] == hex_lower(b)[n + 1]);
        let x = a.last();
        let y = b.last();
        lemma_hex_digit_injective(x / 16, y / 16);
        lemma_hex_digit_injective(x % 16, y % 16);
        assert(x == y);
        assert(a =~= a.drop_last().push(x));
        assert(b =~= b.drop_last().push(y));
    }
}

/// A layout PUT that carries, in `If-Match`, the ETag the record currently
/// has, with a valid body, is accepted and stores exactly that layout.
pub proof fn lemma_put_with_current_etag_accepted(etag: Seq<u8>, layout: Layout, bytes: Vec<u8>)
    requires
        etag.len() == 16,
        crate::schema::spec_validate(layout) is Ok,
    ensures
        put_outcome(
            Some(quoted(hex_lower(etag))),
            PutBody::Parsed { layout, bytes },
            hex_lower(etag),
        ) == Ok::<(Layout, Seq<u8>), SessionError>((layout, bytes@)),
{
    lemma_etag_header_round_trip(etag);
}

/// A layout PUT that carries a stale ETag (one the record no longer has)
/// is refused with `412 Precondition Failed`, however valid its body.
pub proof fn lemma_put_with_stale_etag_refused(
    stale: Seq<u8>,
    current: Seq<u8>,
    layout: Layout,
    bytes: Vec<u8>,
)
    requires
        stale.len() == 16,
        current.len() == 16,
        stale != current,
        crate::schema::spec_validate(layout) is Ok,
    ensures
        put_outcome(
            Some(quoted(hex_lower(stale))),
            PutBody::Parsed { layout, bytes },
            hex_lower(current),
        ) == Err::<(Layout, Seq<u8>), SessionError>(SessionError::PreconditionFailed),
{
    lemma_etag_header_round_trip(stale);
    if hex_lower(stale) == hex_lower(current) {
        lemma_hex_lower_injective(stale, current);
    }
}

/// Two tabs sharing one cookie get different owner keys when their webpage
/// ids differ, and a tab with a webpage id never shares a key with one
/// without.
pub proof fn lemma_owner_keys_distinct(
    cookie: Option<Seq<char>>,
    w1: Option<Seq<char>>,
    w2: Option<Seq<char>>,
)
    requires
        w1 != w2,
    ensures
        owner_key_spec(cookie, w1) != owner_key_spec(cookie, w2),
{
    let c = match cookie {
        Some(c) => c,
        None => "_unknown"@,
    };
    let k1 = owner_key_spec(cookie, w1);
    let k2 = owner_key_spec(cookie, w2);
    match (w1, w2) {
        (Some(x), Some(y)) => {
            if k1 == k2 {
                assert(k1 == c + seq!['\x1f'] + x);
                assert(k2 == c + seq!['\x1f'] + y);
                assert(k1.len() == c.len() + 1 + x.len());
                assert(k2.len() == c.len() + 1 + y.len());
                assert(x.len() == y.len());
                assert forall|i: int| 0 <= i < x.len() implies x[i] == y[i] by {
                    assert(k1[c.len() + 1 + i] == x[i]);
                    assert(k2[c.len() + 1 + i] == y[i]);
                }
                assert(x =~= y);
            }
        },
        (Some(x), None) => {
            assert(k1.len() == c.len() + 1 + x.len());
        },
        (None, Some(y)) => {
            assert(k2.len() == c.len() + 1 + y.len());
        },
        (None, None) => {},
    }
}

/// An export filename is never empty, holds only `[A-Za-z0-9_-]`, and
/// sanitising it again changes nothing.
pub proof fn lemma_export_filename_safe(name: Seq<char>)
    ensures
        export_filename_spec(name).len() > 0,
        forall|i: int|
            0 <= i < export_filename_spec(name).len() ==> is_filename_char(
                #[trigger] export_filename_spec(name)[i],
            ),
        export_filename_spec(export_filename_spec(name)) == export_filename_spec(name),
{
    reveal_strlit("session");
    let f = export_filename_spec(name);
    assert forall|i: int| 0 <= i < f.len() implies is_filename_char(#[trigger] f[i]) by {
        if name.len() > 0 {
            let c = name[i];
            assert(f[i] == (if is_filename_char(c) { c } else { '_' }));
        }
    }
    assert(f.map_values(|c: char| if is_filename_char(c) { c } else { '_' }) =~= f);
}

} // verus!
