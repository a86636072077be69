use gtmux_http_api::session_lock::{
    acquire_failure, fresh_server_id, lease_until, lock_file_name, lock_is_active, new_lease,
    peek, scan_and_cleanup_stale_locks, server_id_from_bytes, FileProbe, Lease, LockError,
    LockState, DEFAULT_LEASE_SECS,
};

fn lease() -> Lease {
    new_lease("srv", 42, "conn-1", 1000)
}

#[test]
fn server_id_is_uuid_shaped() {
    let id = fresh_server_id().expect("system random source");
    assert_eq!(id.len(), 36);
    assert_eq!(id.as_bytes()[8], b'-');
    assert_eq!(id.as_bytes()[13], b'-');
    assert_eq!(id.as_bytes()[14], b'4', "uuid version 4 nibble");
    assert_eq!(id.as_bytes()[18], b'-');
    assert_eq!(id.as_bytes()[23], b'-');
}

#[test]
fn server_ids_differ_between_calls() {
    let a = fresh_server_id().unwrap();
    let b = fresh_server_id().unwrap();
    assert_ne!(a, b);
}

#[test]
fn server_id_formatting() {
    let bytes = [0xffu8; 16];
    assert_eq!(server_id_from_bytes(&bytes), "ffffffff-ffff-4fff-bfff-ffffffffffff");
    let zero = [0u8; 16];
    assert_eq!(server_id_from_bytes(&zero), "00000000-0000-4000-8000-000000000000");
}

#[test]
fn lock_file_names_and_leases() {
    assert_eq!(lock_file_name("alpha"), "alpha.lock");
    assert_eq!(lease_until(100), 100 + DEFAULT_LEASE_SECS);
    let l = lease();
    assert_eq!(l.server_id, "srv");
    assert_eq!(l.pid, 42);
    assert_eq!(l.ws_conn_id, "conn-1");
    assert_eq!(l.lease_until_unix, 1030);
}

#[test]
fn peek_classification() {
    assert_eq!(peek(FileProbe::Missing, None), LockState::Vacant);
    assert_eq!(peek(FileProbe::OpenFailed, None), LockState::Vacant);
    assert_eq!(peek(FileProbe::LockFailed, None), LockState::Vacant);
    assert_eq!(peek(FileProbe::SharedGranted, None), LockState::Stale);
    assert_eq!(peek(FileProbe::WouldBlock, Some(lease())), LockState::InUse(lease()));
    assert_eq!(peek(FileProbe::WouldBlock, None), LockState::InUseRaceyBody);
    assert!(lock_is_active(&LockState::InUse(lease())));
    assert!(lock_is_active(&LockState::InUseRaceyBody));
    assert!(!lock_is_active(&LockState::Stale));
    assert!(!lock_is_active(&LockState::Vacant));
}

#[test]
fn acquire_failure_mapping() {
    assert_eq!(acquire_failure(true, "busy".into()), LockError::Contended);
    assert_eq!(acquire_failure(false, "denied".into()), LockError::Io("denied".into()));
}

#[test]
fn stale_sweep_selects_only_stale_entries() {
    let entries = vec![
        ("alpha".to_string(), LockState::Stale),
        ("beta".to_string(), LockState::InUse(lease())),
        ("gamma".to_string(), LockState::Vacant),
        ("delta".to_string(), LockState::Stale),
        ("eps".to_string(), LockState::InUseRaceyBody),
    ];
    assert_eq!(
        scan_and_cleanup_stale_locks(&entries),
        vec!["alpha".to_string(), "delta".to_string()]
    );
    assert!(scan_and_cleanup_stale_locks(&vec![]).is_empty());
}
