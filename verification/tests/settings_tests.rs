use gtmux_http_api::settings::{
    apply_settings_patch, default_reload_on_session_switch, password_change_decision,
    password_validates, session_cookie_check, settings_patch_from_body, BehaviorSettings, PasswordRejection, PatchError,
    PatchSection, PatchValue, SettingsPatch, MIN_PASSWORD_LENGTH,
};

fn behavior(fields: Vec<(&str, PatchValue)>) -> SettingsPatch {
    SettingsPatch::Object(vec![(
        "behavior".to_string(),
        PatchSection::Object(fields.into_iter().map(|(k, v)| (k.to_string(), v)).collect()),
    )])
}

fn top(keys: &[&str]) -> SettingsPatch {
    SettingsPatch::Object(
        keys.iter().map(|k| (k.to_string(), PatchSection::Object(vec![]))).collect(),
    )
}

#[test]
fn defaults() {
    let d = BehaviorSettings::default();
    assert!(!d.auto_kill_terminal_on_panel_close);
    assert!(!d.picker_show_hidden);
    assert!(d.reload_on_session_switch);
    assert!(!d.osc52_clipboard_write_enabled);
    assert!(default_reload_on_session_switch());
}

#[test]
fn patch_behavior_toggle_succeeds() {
    let cur = BehaviorSettings::default();
    let next = apply_settings_patch(
        cur,
        &behavior(vec![("auto_kill_terminal_on_panel_close", PatchValue::Bool(true))]),
    )
    .unwrap();
    assert!(next.auto_kill_terminal_on_panel_close);
    assert_eq!(next.picker_show_hidden, cur.picker_show_hidden);
    assert_eq!(next.reload_on_session_switch, cur.reload_on_session_switch);
}

#[test]
fn patch_osc52_roundtrips() {
    let cur = BehaviorSettings::default();
    let on = apply_settings_patch(
        cur,
        &behavior(vec![("osc52_clipboard_write_enabled", PatchValue::Bool(true))]),
    )
    .unwrap();
    assert!(on.osc52_clipboard_write_enabled);
    let off = apply_settings_patch(
        on,
        &behavior(vec![("osc52_clipboard_write_enabled", PatchValue::Bool(false))]),
    )
    .unwrap();
    assert_eq!(off, cur);
}

#[test]
fn patch_last_value_wins_and_is_idempotent() {
    let cur = BehaviorSettings::default();
    let p = behavior(vec![
        ("picker_show_hidden", PatchValue::Bool(true)),
        ("picker_show_hidden", PatchValue::Bool(false)),
        ("auto_kill_terminal_on_panel_close", PatchValue::Bool(true)),
    ]);
    let once = apply_settings_patch(cur, &p).unwrap();
    assert!(!once.picker_show_hidden);
    assert!(once.auto_kill_terminal_on_panel_close);
    let twice = apply_settings_patch(once, &p).unwrap();
    assert_eq!(once, twice);
}

#[test]
fn patch_empty_body_returns_current() {
    let mut cur = BehaviorSettings::default();
    cur.picker_show_hidden = true;
    assert_eq!(apply_settings_patch(cur, &SettingsPatch::Empty).unwrap(), cur);
    assert_eq!(apply_settings_patch(cur, &SettingsPatch::Object(vec![])).unwrap(), cur);
    assert_eq!(apply_settings_patch(cur, &behavior(vec![])).unwrap(), cur);
}

#[test]
fn patch_boot_immutable_section_rejected() {
    let cur = BehaviorSettings::default();
    for key in ["build", "server", "auth"] {
        let err = apply_settings_patch(cur, &top(&["behavior", key])).unwrap_err();
        assert!(matches!(&err, PatchError::BootImmutable(f) if f == key));
        assert_eq!(err.code(), "boot_immutable");
    }
    // `build` is checked before `server` and `auth`.
    let err = apply_settings_patch(cur, &top(&["auth", "server", "build"])).unwrap_err();
    assert!(matches!(&err, PatchError::BootImmutable(f) if f == "build"));
}

#[test]
fn patch_unknown_fields_rejected() {
    let cur = BehaviorSettings::default();
    let err = apply_settings_patch(cur, &top(&["behaviour"])).unwrap_err();
    assert!(matches!(&err, PatchError::UnknownField(f) if f == "behaviour"));
    assert_eq!(err.code(), "unknown_field");

    let err =
        apply_settings_patch(cur, &behavior(vec![("auto_kill", PatchValue::Bool(true))])).unwrap_err();
    assert!(matches!(&err, PatchError::UnknownField(f) if f == "behavior.auto_kill"));

    // `reload_on_session_switch` is not patchable.
    let err = apply_settings_patch(
        cur,
        &behavior(vec![("reload_on_session_switch", PatchValue::Bool(false))]),
    )
    .unwrap_err();
    assert!(matches!(&err, PatchError::UnknownField(f) if f == "behavior.reload_on_session_switch"));
}

#[test]
fn patch_type_mismatch_rejected() {
    let cur = BehaviorSettings::default();
    let err = apply_settings_patch(
        cur,
        &behavior(vec![("osc52_clipboard_write_enabled", PatchValue::NotBool)]),
    )
    .unwrap_err();
    assert!(
        matches!(&err, PatchError::TypeMismatch(f) if f == "behavior.osc52_clipboard_write_enabled")
    );
    assert_eq!(err.code(), "type_mismatch");
}

#[test]
fn patch_shape_errors() {
    let cur = BehaviorSettings::default();
    let err = apply_settings_patch(cur, &SettingsPatch::InvalidJson("eof".into())).unwrap_err();
    assert!(matches!(&err, PatchError::InvalidJson(m) if m == "eof"));
    assert_eq!(err.code(), "invalid_json");
    let err = apply_settings_patch(cur, &SettingsPatch::NotObject).unwrap_err();
    assert_eq!(err.code(), "body_not_object");
    let err = apply_settings_patch(
        cur,
        &SettingsPatch::Object(vec![("behavior".to_string(), PatchSection::NotObject)]),
    )
    .unwrap_err();
    assert_eq!(err.code(), "behavior_not_object");
}

#[test]
fn refused_patch_error_does_not_depend_on_current() {
    let p = behavior(vec![
        ("picker_show_hidden", PatchValue::Bool(true)),
        ("nope", PatchValue::Bool(true)),
    ]);
    let mut other = BehaviorSettings::default();
    other.picker_show_hidden = true;
    let a = apply_settings_patch(BehaviorSettings::default(), &p).unwrap_err();
    let b = apply_settings_patch(other, &p).unwrap_err();
    assert!(matches!((&a, &b), (PatchError::UnknownField(x), PatchError::UnknownField(y)) if x == y));
}

#[test]
fn password_rule() {
    assert_eq!(MIN_PASSWORD_LENGTH, 8);
    assert!(password_validates("abcdefg1"));
    assert!(!password_validates("abcdef1"));
    assert!(!password_validates("abcdefgh"));
    assert!(!password_validates("12345678"));
    // Length counts bytes: a two-byte letter counts twice.
    assert!(password_validates("éééé1a"));
    assert!(password_validates("ééé1a"));
    assert!(!password_validates("éé1ab"));
}

#[test]
fn password_change_decisions() {
    // Initial set: no current password asked for.
    assert_eq!(password_change_decision(false, None, "newpass123"), Ok(()));
    assert_eq!(
        password_change_decision(false, None, "short1"),
        Err(PasswordRejection::WeakPassword)
    );
    // Change: the current password must be given and verify.
    assert_eq!(
        password_change_decision(true, None, "newpass123"),
        Err(PasswordRejection::CurrentPasswordMismatch)
    );
    assert_eq!(
        password_change_decision(true, Some(false), "newpass123"),
        Err(PasswordRejection::CurrentPasswordMismatch)
    );
    // The mismatch is reported before the weakness of the new password.
    assert_eq!(
        password_change_decision(true, Some(false), "weak"),
        Err(PasswordRejection::CurrentPasswordMismatch)
    );
    assert_eq!(password_change_decision(true, Some(true), "newpass123"), Ok(()));
    assert_eq!(
        password_change_decision(true, Some(true), "weak"),
        Err(PasswordRejection::WeakPassword)
    );
}

#[test]
fn rejection_statuses_and_codes() {
    assert_eq!(session_cookie_check(true), Ok(()));
    let e = session_cookie_check(false).unwrap_err();
    assert_eq!(e, PasswordRejection::SessionCookieRequired);
    assert_eq!(e.status(), 403);
    assert_eq!(e.code(), "session_cookie_required");
    assert_eq!(PasswordRejection::CurrentPasswordMismatch.status(), 401);
    assert_eq!(PasswordRejection::CurrentPasswordMismatch.code(), "current_password_mismatch");
    assert_eq!(PasswordRejection::WeakPassword.status(), 400);
    assert_eq!(PasswordRejection::WeakPassword.code(), "weak_password");
}

#[test]
fn patch_from_raw_body() {
    let cur = BehaviorSettings::default();
    // Empty body: no change.
    assert_eq!(settings_patch_from_body(cur, b"").unwrap(), cur);
    assert_eq!(settings_patch_from_body(cur, b"{}").unwrap(), cur);
    let next = settings_patch_from_body(
        cur,
        br#"{"behavior":{"picker_show_hidden":true,"osc52_clipboard_write_enabled":true}}"#,
    )
    .unwrap();
    assert!(next.picker_show_hidden && next.osc52_clipboard_write_enabled);
    assert!(!next.auto_kill_terminal_on_panel_close);

    let err = settings_patch_from_body(cur, b"{not json").unwrap_err();
    assert_eq!(err.code(), "invalid_json");
    assert_eq!(settings_patch_from_body(cur, b"[1,2]").unwrap_err().code(), "body_not_object");
    assert_eq!(settings_patch_from_body(cur, b"true").unwrap_err().code(), "body_not_object");
    assert_eq!(
        settings_patch_from_body(cur, br#"{"behavior":3}"#).unwrap_err().code(),
        "behavior_not_object"
    );
    let err = settings_patch_from_body(cur, br#"{"behavior":{"picker_show_hidden":"yes"}}"#)
        .unwrap_err();
    assert!(matches!(&err, PatchError::TypeMismatch(f) if f == "behavior.picker_show_hidden"));
    // Keys are judged in sorted order: "auth" before "build".
    let err = settings_patch_from_body(cur, br#"{"build":{},"auth":{}}"#).unwrap_err();
    assert!(matches!(&err, PatchError::BootImmutable(f) if f == "build"));
    let err = settings_patch_from_body(cur, br#"{"zeta":1,"alpha":2}"#).unwrap_err();
    assert!(matches!(&err, PatchError::UnknownField(f) if f == "alpha"));
}
