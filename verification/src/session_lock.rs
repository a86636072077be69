//! Cross-server session lock — `<workspace>/.locks/<name>.lock`.
//!
//! The OS-level `flock` is the source of truth for whether a session is
//! held; the lease JSON in the file body is diagnostic only. The file and
//! flock work happens at the process edge; this module decides what the
//! observed file state means, what lease body to write, which stale files a
//! boot-time sweep removes, and mints the per-boot server id.

use vstd::prelude::*;
use ring::rand::SecureRandom;
use crate::text::{
    hex_lower, hex_byte, push_char, push_hex_lower, push_str_chars, is_hex_lower_char,
    lemma_hex_lower_len, lemma_hex_lower_chars,
};
use vstd::utf8::{encode_utf8, is_ascii_chars, is_ascii_chars_encode_utf8};

verus! {

/// Default lease window in seconds (matches the WS heartbeat).
pub const DEFAULT_LEASE_SECS: u64 = 30;

/// Failure of a lock operation.
#[derive(Debug, Clone, PartialEq, Eq)]
pub enum LockError {
    /// The lock file could not be created, opened or written; the message
    /// is the I/O error's text.
    Io(String),
    /// Another server or webpage holds the exclusive lock.
    Contended,
    /// The lease body could not be (de)serialised.
    Serde(String),
}

/// Lease body written to the lock file under the exclusive flock.
#[derive(Debug, Clone, PartialEq, Eq)]
pub struct Lease {
    /// UUID minted once per server boot.
    pub server_id: String,
    /// OS pid of the holding process.
    pub pid: u32,
    /// Cookie / connection identifier of the holding webpage.
    pub ws_conn_id: String,
    /// Expected lease expiry as Unix seconds.
    pub lease_until_unix: u64,
}

/// Outcome of a peek at a `.lock` file.
#[derive(Debug, Clone, PartialEq, Eq)]
pub enum LockState {
    /// No `.lock` file present.
    Vacant,
    /// The file exists but nobody holds the flock (a crashed holder's trail).
    Stale,
    /// The exclusive flock is held; the body is the holder's diagnostic.
    InUse(Lease),
    /// The exclusive flock is held but the body could not be parsed yet.
    InUseRaceyBody,
}

/// What a non-blocking probe of the lock file observed.
#[derive(Debug, Clone, Copy, PartialEq, Eq, Structural)]
pub enum FileProbe {
    /// Opening the file failed with "not found".
    Missing,
    /// Opening the file failed for another reason.
    OpenFailed,
    /// The shared flock was granted: nobody holds the exclusive one.
    SharedGranted,
    /// The shared flock would block: somebody holds the exclusive one.
    WouldBlock,
    /// The flock call failed for another reason.
    LockFailed,
}

/// Name of the lock file for session `name`.
pub open spec fn lock_file_name_spec(name: Seq<char>) -> Seq<char> {
    name + seq!['.', 'l', 'o', 'c', 'k']
}

/// `<name>.lock`.
pub fn lock_file_name(name: &str) -> (s: String)
    ensures
        s@ == lock_file_name_spec(name@),
{
    let mut s = String::new();
    push_str_chars(&mut s, name);
    push_char(&mut s, '.');
    push_char(&mut s, 'l');
    push_char(&mut s, 'o');
    push_char(&mut s, 'c');
    push_char(&mut s, 'k');
    assert(s@ =~= lock_file_name_spec(name@));
    s
}

/// Lease expiry for a lease written at `now`.
pub fn lease_until(now: u64) -> (t: u64)
    requires
        now <= u64::MAX - DEFAULT_LEASE_SECS,
    ensures
        t == now + DEFAULT_LEASE_SECS,
{
    now + DEFAULT_LEASE_SECS
}

/// The lease body written on acquire and on each heartbeat refresh.
pub fn new_lease(server_id: &str, pid: u32, ws_conn_id: &str, now: u64) -> (l: Lease)
    requires
        now <= u64::MAX - DEFAULT_LEASE_SECS,
    ensures
        l.server_id@ == server_id@,
        l.pid == pid,
        l.ws_conn_id@ == ws_conn_id@,
        l.lease_until_unix == now + DEFAULT_LEASE_SECS,
{
    let mut sid = String::new();
    push_str_chars(&mut sid, server_id);
    let mut conn = String::new();
    push_str_chars(&mut conn, ws_conn_id);
    assert(sid@ =~= server_id@);
    assert(conn@ =~= ws_conn_id@);
    Lease { server_id: sid, pid, ws_conn_id: conn, lease_until_unix: lease_until(now) }
}

/// The lock state a probe (and, when the exclusive flock is held, the
/// parsed body) means.
pub open spec fn peek_state_spec(probe: FileProbe, body: Option<Lease>) -> LockState {
    match probe {
        FileProbe::Missing => LockState::Vacant,
        FileProbe::OpenFailed => LockState::Vacant,
        FileProbe::SharedGranted => LockState::Stale,
        FileProbe::WouldBlock => match body {
            Some(l) => LockState::InUse(l),
            None => LockState::InUseRaceyBody,
        },
        FileProbe::LockFailed => LockState::Vacant,
    }
}

/// Classify a peek: missing or unreadable file is vacant, a grantable
/// shared flock is stale, a blocked one is in use (with the body when it
/// parsed).
pub fn peek(probe: FileProbe, body: Option<Lease>) -> (s: LockState)
    ensures
        s == peek_state_spec(probe, body),
{
    match probe {
        FileProbe::Missing => LockState::Vacant,
        FileProbe::OpenFailed => LockState::Vacant,
        FileProbe::SharedGranted => LockState::Stale,
        FileProbe::WouldBlock => match body {
            Some(l) => LockState::InUse(l),
            None => LockState::InUseRaceyBody,
        },
        FileProbe::LockFailed => LockState::Vacant,
    }
}

/// The error an exclusive-flock failure maps to: contention when the call
/// would block, otherwise the I/O error itself.
pub fn acquire_failure(would_block: bool, message: String) -> (e: LockError)
    ensures
        would_block ==> e == LockError::Contended,
        !would_block ==> e == LockError::Io(message),
{
    if would_block {
        LockError::Contended
    } else {
        LockError::Io(message)
    }
}

/// Whether a lock in state `s` counts as held (the session row is active).
pub open spec fn is_held(s: LockState) -> bool {
    s is InUse || s is InUseRaceyBody
}

/// Whether the session row is active: the peek saw a live holder.
pub fn lock_is_active(s: &LockState) -> (b: bool)
    ensures
        b == is_held(*s),
{
    match s {
        LockState::InUse(_) => true,
        LockState::InUseRaceyBody => true,
        _ => false,
    }
}

/// The names, in order, whose peeked state is `Stale`.
pub open spec fn stale_names(entries: Seq<(String, LockState)>) -> Seq<String>
    decreases entries.len(),
{
    if entries.len() == 0 {
        Seq::empty()
    } else {
        let rest = stale_names(entries.drop_last());
        if entries.last().1 is Stale {
            rest.push(entries.last().0)
        } else {
            rest
        }
    }
}

/// Boot-time sweep plan: given every session name with its peeked lock
/// state, the names whose lock file is stale and gets unlinked. Held locks
/// are never selected.
pub fn scan_and_cleanup_stale_locks(entries: &Vec<(String, LockState)>) -> (names: Vec<String>)
    ensures
        names@ == stale_names(entries@),
        names@ == entries@.filter(|e: (String, LockState)| e.1 is Stale).map_values(
            |e: (String, LockState)| e.0,
        ),
{
    proof {
        lemma_sweep_is_stale_filter(entries@);
    }
    let mut out: Vec<String> = Vec::new();
    let mut i: usize = 0;
    while i < entries.len()
        invariant
            i <= entries.len(),
            out@ == stale_names(entries@.take(i as int)),
        decreases entries.len() - i,
    {
        proof {
            assert(entries@.take(i + 1).drop_last() =~= entries@.take(i as int));
        }
        let is_stale = match &entries[i].1 {
            LockState::Stale => true,
            _ => false,
        };
        if is_stale {
            out.push(entries[i].0.clone());
        }
        i = i + 1;
    }
    assert(entries@.take(entries@.len() as int) =~= entries@);
    out
}

// ─────────────────────────────────────────────────────────────────────────
//  Server id
// ─────────────────────────────────────────────────────────────────────────

/// The 16 bytes with the UUID version (4) and RFC 4122 variant bits set.
pub open spec fn uuid_v4_bytes(b: Seq<u8>) -> Seq<u8> {
    b.update(6, (b[6] & 0x0F) | 0x40).update(8, (b[8] & 0x3F) | 0x80)
}

/// Canonical 8-4-4-4-12 lowercase text of 16 bytes as a version-4 UUID.
pub open spec fn uuid_v4_text(b: Seq<u8>) -> Seq<char> {
    let v = uuid_v4_bytes(b);
    hex_lower(v.subrange(0, 4)) + seq!['-'] + hex_lower(v.subrange(4, 6)) + seq!['-']
        + hex_lower(v.subrange(6, 8)) + seq!['-'] + hex_lower(v.subrange(8, 10)) + seq!['-']
        + hex_lower(v.subrange(10, 16))
}

/// Format 16 random bytes as a version-4 UUID string.
pub fn server_id_from_bytes(b: &[u8]) -> (s: String)
    requires
        b@.len() == 16,
    ensures
        s@ == uuid_v4_text(b@),
{
    let mut v: Vec<u8> = Vec::new();
    let mut i: usize = 0;
    while i < 16
        invariant
            i <= 16,
            b@.len() == 16,
            v@ == b@.take(i as int),
        decreases 16 - i,
    {
        v.push(b[i]);
        i = i + 1;
        assert(v@ =~= b@.take(i as int));
    }
    assert(v@ =~= b@);
    let b6 = v[6];
    let b8 = v[8];
    v.set(6, (b6 & 0x0F) | 0x40);
    v.set(8, (b8 & 0x3F) | 0x80);
    assert(v@ =~= uuid_v4_bytes(b@));
    let mut s = String::new();
    push_hex_lower(&mut s, &v.as_slice()[0..4]);
    push_char(&mut s, '-');
    push_hex_lower(&mut s, &v.as_slice()[4..6]);
    push_char(&mut s, '-');
    push_hex_lower(&mut s, &v.as_slice()[6..8]);
    push_char(&mut s, '-');
    push_hex_lower(&mut s, &v.as_slice()[8..10]);
    push_char(&mut s, '-');
    push_hex_lower(&mut s, &v.as_slice()[10..16]);
    assert(s@ =~= uuid_v4_text(b@));
    s
}

/// Fills `dest` with bytes from the operating system's secure random source.
/// Trusted: `ring::rand::SystemRandom::new` and `SecureRandom::fill`; the
/// contract only says the length is unchanged and whether the fill
/// succeeded is reported — the bytes themselves are chance.
#[verifier::external_body]
fn fill_random(dest: &mut Vec<u8>) -> (ok: bool)
    ensures
        final(dest)@.len() == old(dest)@.len(),
{
    ring::rand::SystemRandom::new().fill(dest.as_mut_slice()).is_ok()
}

/// Mint a fresh server id (a random version-4 UUID). `None` when the
/// system random source fails.
pub fn fresh_server_id() -> (r: Option<String>)
    ensures
        r matches Some(s) ==> exists|b: Seq<u8>| b.len() == 16 && s@ == uuid_v4_text(b),
        r matches Some(s) ==> crate::schema::is_uuid_text(s@) && s@[14] == '4',
{
    let mut b: Vec<u8> = vec![0u8; 16];
    if !fill_random(&mut b) {
        return None;
    }
    let s = server_id_from_bytes(b.as_slice());
    proof {
        lemma_server_id_is_uuid_v4(b@);
    }
    Some(s)
}


// ─────────────────────────────────────────────────────────────────────────
//  Laws
// ─────────────────────────────────────────────────────────────────────────

/// The boot sweep selects only stale locks: each selected name belongs to
/// an entry whose lock nobody holds, so a held lock is never unlinked.
pub proof fn lemma_sweep_selects_only_stale(entries: Seq<(String, LockState)>)
    ensures
        forall|i: int|
            0 <= i < stale_names(entries).len() ==> exists|j: int|
                0 <= j < entries.len() && (#[trigger] entries[j]).0 == #[trigger] stale_names(
                    entries,
                )[i] && entries[j].1 is Stale && !is_held(entries[j].1),
    decreases entries.len(),
{
    if entries.len() > 0 {
        let pre = entries.drop_last();
        lemma_sweep_selects_only_stale(pre);
        let rest = stale_names(pre);
        assert forall|i: int| 0 <= i < stale_names(entries).len() implies exists|j: int|
            0 <= j < entries.len() && (#[trigger] entries[j]).0 == #[trigger] stale_names(
                entries,
            )[i] && entries[j].1 is Stale && !is_held(entries[j].1) by {
            if i < rest.len() {
                assert(stale_names(entries)[i] == rest[i]);
                let j = choose|j: int|
                    0 <= j < pre.len() && (#[trigger] pre[j]).0 == #[trigger] rest[i]
                        && pre[j].1 is Stale && !is_held(pre[j].1);
                assert(entries[j] == pre[j]);
            } else {
                let j = entries.len() - 1;
                assert(entries[j] == entries.last());
            }
        }
    }
}

/// The boot sweep is complete and keeps order: it selects exactly the names
/// of the entries whose lock is stale, in the order of the entries.
pub proof fn lemma_sweep_is_stale_filter(entries: Seq<(String, LockState)>)
    ensures
        stale_names(entries) == entries.filter(|e: (String, LockState)| e.1 is Stale).map_values(
            |e: (String, LockState)| e.0,
        ),
    decreases entries.len(),
{
    let pred = |e: (String, LockState)| e.1 is Stale;
    let name = |e: (String, LockState)| e.0;
    reveal(Seq::filter);
    if entries.len() > 0 {
        let pre = entries.drop_last();
        lemma_sweep_is_stale_filter(pre);
        let f = pre.filter(pred);
        if pred(entries.last()) {
            assert(entries.filter(pred) == f.push(entries.last()));
            assert(f.push(entries.last()).map_values(name) =~= f.map_values(name).push(
                entries.last().0,
            ));
        } else {
            assert(entries.filter(pred) == f);
        }
    } else {
        assert(entries.filter(pred).map_values(name) =~= Seq::<String>::empty());
    }
}

/// A server id is an 8-4-4-4-12 lowercase hex UUID whose version digit is
/// `4` and whose variant digit is one of `8 9 a b`.
pub proof fn lemma_server_id_is_uuid_v4(b: Seq<u8>)
    requires
        b.len() == 16,
    ensures
        crate::schema::is_uuid_text(uuid_v4_text(b)),
        uuid_v4_text(b)[14] == '4',
        uuid_v4_text(b)[19] == '8' || uuid_v4_text(b)[19] == '9' || uuid_v4_text(b)[19] == 'a'
            || uuid_v4_text(b)[19] == 'b',
{
    let v = uuid_v4_bytes(b);
    let h0 = hex_lower(v.subrange(0, 4));
    let h1 = hex_lower(v.subrange(4, 6));
    let h2 = hex_lower(v.subrange(6, 8));
    let h3 = hex_lower(v.subrange(8, 10));
    let h4 = hex_lower(v.subrange(10, 16));
    lemma_hex_lower_len(v.subrange(0, 4));
    lemma_hex_lower_len(v.subrange(4, 6));
    lemma_hex_lower_len(v.subrange(6, 8));
    lemma_hex_lower_len(v.subrange(8, 10));
    lemma_hex_lower_len(v.subrange(10, 16));
    lemma_hex_lower_chars(v.subrange(0, 4));
    lemma_hex_lower_chars(v.subrange(4, 6));
    lemma_hex_lower_chars(v.subrange(6, 8));
    lemma_hex_lower_chars(v.subrange(8, 10));
    lemma_hex_lower_chars(v.subrange(10, 16));
    let t = uuid_v4_text(b);
    let d = seq!['-'];
    assert(t == h0 + d + h1 + d + h2 + d + h3 + d + h4);
    assert(t.len() == 36);
    assert forall|i: int| 0 <= i < 36 implies if i == 8 || i == 13 || i == 18 || i == 23 {
        #[trigger] t[i] == '-'
    } else {
        is_hex_lower_char(t[i])
    } by {
        if i < 8 {
            assert(t[i] == h0[i]);
        } else if i == 8 {
        } else if i < 13 {
            assert(t[i] == h1[i - 9]);
        } else if i == 13 {
        } else if i < 18 {
            assert(t[i] == h2[i - 14]);
        } else if i == 18 {
        } else if i < 23 {
            assert(t[i] == h3[i - 19]);
        } else if i == 23 {
        } else {
            assert(t[i] == h4[i - 24]);
        }
    }
    assert(is_ascii_chars(t)) by {
        assert forall|i: int| 0 <= i < t.len() implies '\0' <= #[trigger] t[i] <= '\u{7f}' by {
            if i == 8 || i == 13 || i == 18 || i == 23 {
                assert(t[i] == '-');
            } else {
                assert(is_hex_lower_char(t[i]));
            }
        }
    }
    is_ascii_chars_encode_utf8(t);
    let e = encode_utf8(t);
    assert forall|i: int| 0 <= i < 36 implies if i == 8 || i == 13 || i == 18 || i == 23 {
        #[trigger] e[i] == 45u8
    } else {
        crate::schema::is_lower_hex_byte(e[i])
    } by {
        assert(t[i] as u8 == e[i]);
        if i == 8 || i == 13 || i == 18 || i == 23 {
            assert(t[i] == '-');
        } else {
            assert(is_hex_lower_char(t[i]));
        }
    }
    let x6 = b[6];
    let x8 = b[8];
    assert(((x6 & 0x0F) | 0x40) / 16 == 4) by (bit_vector);
    assert(8 <= ((x8 & 0x3F) | 0x80) / 16 <= 11) by (bit_vector);
    assert(v[6] == (x6 & 0x0F) | 0x40);
    assert(v[8] == (x8 & 0x3F) | 0x80);
    assert(v.subrange(6, 8)[0] == v[6]);
    assert(v.subrange(8, 10)[0] == v[8]);
    assert(t[14] == h2[0]);
    assert(t[19] == h3[0]);
    assert(h2 == hex_lower(v.subrange(6, 8).drop_last()) + hex_byte(v[7]));
    assert(v.subrange(6, 8).drop_last() =~= seq![v[6]]);
    assert(hex_lower(seq![v[6]]) == hex_lower(seq![v[6]].drop_last()) + hex_byte(v[6]));
    assert(seq![v[6]].drop_last() =~= Seq::<u8>::empty());
    assert(h3 == hex_lower(v.subrange(8, 10).drop_last()) + hex_byte(v[9]));
    assert(v.subrange(8, 10).drop_last() =~= seq![v[8]]);
    assert(hex_lower(seq![v[8]]) == hex_lower(seq![v[8]].drop_last()) + hex_byte(v[8]));
    assert(seq![v[8]].drop_last() =~= Seq::<u8>::empty());
}

} // verus!
