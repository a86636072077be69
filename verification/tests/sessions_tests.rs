use gtmux_http_api::schema::{Item, ItemCommon, Layout, ValidationError, Visibility};
use gtmux_http_api::sessions::{
    manifest_etag_current, manifest_if_match, ManifestPrecondition,
    attach_owner_key, civil_from_unix, item_id, layout_put_decision, PutBody, diff_terminal_uuids, export_content_disposition,
    next_session_order, parse_etag_header, quote_etag, remove_item, rfc3339_utc,
    sanitize_export_filename, sanitize_webpage_id, session_counts, sha256_128, split_matched,
    terminal_uuids_in, webpage_id_from_header, webpage_id_from_query, AttachOutcome, AttachTable, SessionError,
    SessionLayout, WorkspaceError,
};

const UUID_A: &str = "7f3a0000-b9e2-4111-8222-000000000001";
const UUID_B: &str = "8a4c0000-c7f1-4111-8222-000000000002";

fn common(id: &str) -> ItemCommon {
    ItemCommon {
        id: id.to_string(),
        parent_id: None,
        z: 0,
        visibility: Visibility::Visible,
        locked: false,
        label: String::new(),
        description: String::new(),
        minimized: false,
    }
}

fn note(id: &str) -> Item {
    Item::Note { common: common(id), title: "t".into(), body: "b".into(), color: "#fff".into() }
}

fn strings(v: &[&str]) -> Vec<String> {
    v.iter().map(|s| s.to_string()).collect()
}

#[test]
fn etag_is_truncated_sha256_of_bytes() {
    let (raw, hex) = sha256_128(b"");
    assert_eq!(hex, "e3b0c44298fc1c149afbf4c8996fb924");
    assert_eq!(raw[0], 0xe3);
    assert_eq!(raw[15], 0x24);
    let (_, hex_abc) = sha256_128(b"abc");
    assert_eq!(hex_abc, "ba7816bf8f01cfea414140de5dae2223");
}

#[test]
fn session_layout_etag_depends_on_bytes_only() {
    let a = SessionLayout::new_with_bytes(Layout::empty(), b"abc");
    let mut other = Layout::empty();
    other.items.push(note(UUID_A));
    let b = SessionLayout::new_with_bytes(other, b"abc");
    assert_eq!(a.etag, b.etag);
    assert_eq!(a.etag_hex, "ba7816bf8f01cfea414140de5dae2223");
    assert_eq!(b.layout.items.len(), 1);
}

#[test]
fn etag_header_parsing() {
    let hex = "0123456789abcdef0123456789abcdef";
    let quoted = quote_etag(hex);
    assert_eq!(quoted, format!("\"{hex}\""));
    assert_eq!(parse_etag_header(&quoted), Some(hex.to_string()));
    assert_eq!(parse_etag_header(&format!("  {quoted}\t")), Some(hex.to_string()));
    assert_eq!(parse_etag_header(&format!("W/{quoted}")), None);
    assert_eq!(parse_etag_header("*"), None);
    assert_eq!(parse_etag_header(hex), None);
    assert_eq!(parse_etag_header("\"0123456789ABCDEF0123456789abcdef\""), None);
    assert_eq!(parse_etag_header("\"0123\""), None);
}

#[test]
fn etag_round_trip_through_header() {
    let rec = SessionLayout::new_with_bytes(Layout::empty(), b"{\"schema_version\":2}");
    let header = quote_etag(&rec.etag_hex);
    assert_eq!(parse_etag_header(&header), Some(rec.etag_hex.clone()));
}

#[test]
fn webpage_id_rules() {
    assert_eq!(sanitize_webpage_id("tab-1.A_b"), Some("tab-1.A_b".to_string()));
    assert_eq!(sanitize_webpage_id(""), None);
    assert_eq!(sanitize_webpage_id("a b"), None);
    assert_eq!(sanitize_webpage_id(&"a".repeat(128)), Some("a".repeat(128)));
    assert_eq!(sanitize_webpage_id(&"a".repeat(129)), None);
    assert_eq!(sanitize_webpage_id("é"), None);
}

#[test]
fn webpage_id_from_query_string() {
    assert_eq!(webpage_id_from_query(Some("a=1&webpage_id=tab-1")), Some("tab-1".to_string()));
    assert_eq!(webpage_id_from_query(Some("webpage_id=x&webpage_id=y")), Some("x".to_string()));
    assert_eq!(webpage_id_from_query(Some("webpage_id=a%20b")), None);
    assert_eq!(webpage_id_from_query(Some("webpage_id")), None);
    assert_eq!(webpage_id_from_query(Some("other=1")), None);
    assert_eq!(webpage_id_from_query(None), None);
}

#[test]
fn owner_keys() {
    assert_eq!(attach_owner_key(Some("c"), Some("w")), "c\u{1f}w");
    assert_eq!(attach_owner_key(Some("c"), None), "c");
    assert_eq!(attach_owner_key(None, None), "_unknown");
    assert_ne!(attach_owner_key(Some("c"), Some("w1")), attach_owner_key(Some("c"), Some("w2")));
}

#[test]
fn export_naming() {
    assert_eq!(sanitize_export_filename("my session!"), "my_session_");
    assert_eq!(sanitize_export_filename(""), "session");
    assert_eq!(sanitize_export_filename("日本"), "__");
    assert_eq!(sanitize_export_filename(&sanitize_export_filename("a/b")), "a_b");
    assert_eq!(
        export_content_disposition("my session!"),
        "attachment; filename=\"my_session_.gtmux-session.json\""
    );
}

#[test]
fn rfc3339_timestamps() {
    assert_eq!(rfc3339_utc(0), "1970-01-01T00:00:00Z");
    assert_eq!(rfc3339_utc(1_700_000_000), "2023-11-14T22:13:20Z");
    assert_eq!(rfc3339_utc(951_782_400), "2000-02-29T00:00:00Z");
    assert_eq!(rfc3339_utc(-1), "1969-12-31T23:59:59Z");
    assert_eq!(civil_from_unix(86_399), (1970, 1, 1, 23, 59, 59));
    assert_eq!(civil_from_unix(-86_400), (1969, 12, 31, 0, 0, 0));
}

#[test]
fn terminal_diff() {
    let (removed, added) = diff_terminal_uuids(&strings(&["a", "b"]), &strings(&["b", "c"]));
    assert_eq!(removed, strings(&["a"]));
    assert_eq!(added, strings(&["c"]));
    let (removed, added) = diff_terminal_uuids(&strings(&["a"]), &strings(&["a"]));
    assert!(removed.is_empty() && added.is_empty());
}

#[test]
fn terminal_uuids_and_matching() {
    let mut l = Layout::empty();
    l.items.push(Item::Terminal { common: common(UUID_A) });
    l.items.push(note(UUID_B));
    assert_eq!(terminal_uuids_in(&l), strings(&[UUID_A]));
    assert_eq!(session_counts(&l), (2, 1));
    let (m, u) = split_matched(&strings(&["a", "b", "c"]), &vec![true, false, true]);
    assert_eq!(m, strings(&["a", "c"]));
    assert_eq!(u, strings(&["b"]));
}

#[test]
fn remove_item_from_layout() {
    let mut l = Layout::empty();
    l.items.push(Item::Terminal { common: common(UUID_A) });
    l.items.push(note(UUID_B));
    assert_eq!(remove_item(&mut l, UUID_A), (true, Some(UUID_A.to_string())));
    assert_eq!(l.items.len(), 1);
    assert_eq!(remove_item(&mut l, UUID_A), (false, None));
    assert_eq!(remove_item(&mut l, UUID_B), (true, None));
    assert!(l.items.is_empty());
}

#[test]
fn next_order_appends() {
    assert_eq!(next_session_order(&vec![]), 1);
    assert_eq!(next_session_order(&vec![3, -5, 7]), 8);
    assert_eq!(next_session_order(&vec![-4, -2]), -1);
    assert_eq!(next_session_order(&vec![i64::MAX]), i64::MAX);
}

#[test]
fn session_error_statuses_and_codes() {
    let cases: Vec<(SessionError, u16, &str)> = vec![
        (SessionError::NotFound("x".into()), 404, "session_not_found"),
        (SessionError::AlreadyExists("x".into()), 409, "session_already_exists"),
        (SessionError::Validation(ValidationError::LabelTooLong), 400, "label_too_long"),
        (SessionError::Workspace(WorkspaceError::InvalidSessionName("x".into())), 400, "invalid_session_name"),
        (SessionError::Workspace(WorkspaceError::InvalidManifest("x".into())), 400, "invalid_manifest"),
        (SessionError::Workspace(WorkspaceError::Other("x".into())), 500, "workspace_error"),
        (SessionError::Corrupt("x".into()), 500, "session_corrupt"),
        (SessionError::Io("x".into()), 500, "io_error"),
        (SessionError::PayloadTooLarge, 413, "payload_too_large"),
        (SessionError::PreconditionRequired, 428, "precondition_required"),
        (SessionError::PreconditionFailed, 412, "precondition_failed"),
        (SessionError::BadJson("x".into()), 400, "bad_request"),
    ];
    for (e, status, code) in cases {
        assert_eq!(e.status(), status);
        assert_eq!(e.code(), code);
    }
}

#[test]
fn attach_table_single_holder() {
    let o1 = "cookie\u{1f}tab1".to_string();
    let o2 = "cookie\u{1f}tab2".to_string();
    let s1 = "alpha".to_string();
    let s2 = "beta".to_string();
    let mut t = AttachTable::new();

    let d = t.begin_attach(&o1, &s1);
    assert_eq!(d.outcome, AttachOutcome::Acquire);
    assert_eq!(d.released, None);
    t.commit_attach(&o1, &s1);
    assert!(t.is_held(&s1));
    assert_eq!(t.session_of(&o1), Some(s1.clone()));

    // Re-attach by the same owner is idempotent.
    let d = t.begin_attach(&o1, &s1);
    assert_eq!(d.outcome, AttachOutcome::Reuse);
    assert!(t.owner_holds_session(&o1, &s1));

    // Another owner gets a conflict; no takeover.
    let d = t.begin_attach(&o2, &s1);
    assert_eq!(d.outcome, AttachOutcome::Conflict);
    assert!(t.owner_holds_session(&o1, &s1));

    // Switching sessions releases the previous one first.
    let d = t.begin_attach(&o1, &s2);
    assert_eq!(d.released, Some(s1.clone()));
    assert_eq!(d.outcome, AttachOutcome::Acquire);
    assert!(!t.is_held(&s1));
    t.commit_attach(&o1, &s2);

    assert!(!t.detach(&o2, &s2));
    assert!(t.detach(&o1, &s2));
    assert_eq!(t.session_of(&o1), None);

    t.commit_attach(&o1, &s1);
    t.commit_attach(&o2, &s2);
    assert_eq!(t.release_owner(&o2), Some(s2.clone()));
    assert_eq!(t.release_owner(&o2), None);
    assert!(t.release_session(&s1));
    assert!(!t.release_session(&s1));
    t.commit_attach(&o1, &s1);
    t.commit_attach(&o2, &s2);
    let mut all = t.release_all();
    all.sort();
    assert_eq!(all, vec![s1.clone(), s2.clone()]);
    assert!(!t.is_held(&s1) && !t.is_held(&s2));
}

#[test]
fn item_ids() {
    assert_eq!(item_id(&note(UUID_B)), UUID_B);
    assert_eq!(item_id(&Item::Terminal { common: common(UUID_A) }), UUID_A);
}

fn valid_body() -> PutBody {
    let mut l = Layout::empty();
    l.items.push(note(UUID_A));
    PutBody::Parsed { layout: l, bytes: b"{\"next\":1}".to_vec() }
}

#[test]
fn layout_put_compare_and_swap() {
    let current = SessionLayout::new_with_bytes(Layout::empty(), b"{}");
    let good = quote_etag(&current.etag_hex);

    // Success: the stored record is the new layout with the ETag of its bytes.
    let rec = layout_put_decision(Some(&good), valid_body(), &current.etag_hex).unwrap();
    assert_eq!(rec.layout.items.len(), 1);
    assert_eq!(rec.etag_hex, sha256_128(b"{\"next\":1}").1);
    assert_ne!(rec.etag_hex, current.etag_hex);

    // The returned ETag is the one the next write must carry.
    let next = quote_etag(&rec.etag_hex);
    assert!(layout_put_decision(Some(&next), valid_body(), &rec.etag_hex).is_ok());
    // The old one is now stale.
    assert_eq!(
        layout_put_decision(Some(&good), valid_body(), &rec.etag_hex).unwrap_err(),
        SessionError::PreconditionFailed
    );
}

#[test]
fn layout_put_refusals() {
    let current = SessionLayout::new_with_bytes(Layout::empty(), b"{}");
    let good = quote_etag(&current.etag_hex);
    let cur = current.etag_hex.as_str();
    assert_eq!(layout_put_decision(None, valid_body(), cur).unwrap_err(), SessionError::PreconditionRequired);
    assert_eq!(layout_put_decision(Some("*"), valid_body(), cur).unwrap_err(), SessionError::PreconditionRequired);
    assert_eq!(layout_put_decision(Some(&good), PutBody::TooLarge, cur).unwrap_err(), SessionError::PayloadTooLarge);
    assert_eq!(
        layout_put_decision(Some(&good), PutBody::ReadFailed("eof".into()), cur).unwrap_err(),
        SessionError::BadJson("eof".into())
    );
    assert_eq!(
        layout_put_decision(Some(&good), PutBody::Malformed("bad".into()), cur).unwrap_err(),
        SessionError::BadJson("bad".into())
    );
    let mut bad = Layout::empty();
    bad.schema_version = 1;
    assert_eq!(
        layout_put_decision(Some(&good), PutBody::Parsed { layout: bad, bytes: vec![] }, cur).unwrap_err(),
        SessionError::Validation(ValidationError::BadSchemaVersion { expected: 2, actual: 1 })
    );
    // A missing If-Match is reported before an oversized body.
    assert_eq!(layout_put_decision(None, PutBody::TooLarge, cur).unwrap_err(), SessionError::PreconditionRequired);
}

#[test]
fn webpage_id_from_header_value() {
    assert_eq!(webpage_id_from_header(Some("  tab-1 \t")), Some("tab-1".to_string()));
    assert_eq!(webpage_id_from_header(Some("a b")), None);
    assert_eq!(webpage_id_from_header(Some("   ")), None);
    assert_eq!(webpage_id_from_header(None), None);
}

#[test]
fn manifest_write_preconditions() {
    let hex = "0123456789abcdef0123456789abcdef";
    let quoted = quote_etag(hex);
    assert_eq!(manifest_if_match(Some(&quoted)), Ok(hex.to_string()));
    assert_eq!(manifest_if_match(None), Err(ManifestPrecondition::Required));
    assert_eq!(manifest_if_match(Some("W/\"x\"")), Err(ManifestPrecondition::Required));
    assert_eq!(manifest_etag_current(hex, hex), Ok(()));
    let other = "ffffffffffffffffffffffffffffffff";
    let e = manifest_etag_current(hex, other).unwrap_err();
    assert_eq!(e, ManifestPrecondition::Stale);
    assert_eq!(e.status(), 412);
    assert_eq!(e.code(), "manifest_stale");
    assert_eq!(ManifestPrecondition::Required.status(), 428);
    assert_eq!(ManifestPrecondition::Required.code(), "precondition_required");
}

#[test]
fn calendar_edges() {
    // 2100 is not a leap year: the day after 2100-02-28 is 2100-03-01.
    assert_eq!(civil_from_unix(4_107_542_400), (2100, 3, 1, 0, 0, 0));
    assert_eq!(civil_from_unix(4_107_542_400 - 1), (2100, 2, 28, 23, 59, 59));
    assert_eq!(civil_from_unix(-2_203_934_400), (1900, 2, 28, 12, 0, 0));
    assert_eq!(rfc3339_utc(-1), "1969-12-31T23:59:59Z");
}
