use gtmux_http_api::auth::{normalise_redirect_target, COOKIE_NAME_STR};
use gtmux_http_api::http::{
    bootstrap_location, check_host, check_origin, security_headers, urlencode_query,
    HttpApiError,
};
use gtmux_http_api::shutdown::{shutdown_decision, ShutdownOutcome, EXIT_GRACEFUL};

fn list(v: &[&str]) -> Vec<String> {
    v.iter().map(|s| s.to_string()).collect()
}

#[test]
fn normalise_redirect_blocks_open_redirect() {
    assert_eq!(normalise_redirect_target(None), "/");
    assert_eq!(normalise_redirect_target(Some("//evil")), "/");
    assert_eq!(normalise_redirect_target(Some("/\\evil")), "/");
    assert_eq!(normalise_redirect_target(Some("https://evil")), "/");
    assert_eq!(normalise_redirect_target(Some("evil")), "/");
    assert_eq!(normalise_redirect_target(Some("/canvas")), "/canvas");
    assert_eq!(normalise_redirect_target(Some("/x\r\nSet-Cookie: ev")), "/");
}

#[test]
fn normalise_redirect_is_stable() {
    for t in ["/", "/a/b?c=d", "", "//x", "/\u{7f}"] {
        let once = normalise_redirect_target(Some(t));
        assert_eq!(normalise_redirect_target(Some(&once)), once);
    }
}

#[test]
fn cookie_name() {
    assert_eq!(COOKIE_NAME_STR, "gtmux_auth");
}

#[test]
fn error_taxonomy() {
    let cases: Vec<(HttpApiError, u16, &str)> = vec![
        (HttpApiError::OriginForbidden, 403, "origin_forbidden"),
        (HttpApiError::HostForbidden, 403, "host_forbidden"),
        (HttpApiError::Unauthorized, 401, "unauthorized"),
        (HttpApiError::PreconditionRequired, 428, "precondition_required"),
        (HttpApiError::PreconditionFailed, 412, "precondition_failed"),
        (HttpApiError::BadRequest("x".into()), 400, "bad_request"),
        (HttpApiError::PayloadTooLarge, 413, "payload_too_large"),
        (HttpApiError::MissingToken, 400, "missing_token"),
    ];
    for (e, status, code) in cases {
        assert_eq!(e.status(), status);
        assert_eq!(e.code(), code);
    }
    assert_eq!(HttpApiError::BadRequest("label_too_long".into()).message(), "bad_request: label_too_long");
    assert_eq!(HttpApiError::Unauthorized.message(), "unauthorized");
}

#[test]
fn origin_rules() {
    let allowed = list(&["http://localhost:9001"]);
    assert!(check_origin("/api/layout", None, &allowed).is_ok());
    assert!(check_origin("/api/layout", Some("http://localhost:9001"), &allowed).is_ok());
    assert!(matches!(
        check_origin("/api/layout", Some("http://evil"), &allowed),
        Err(HttpApiError::OriginForbidden)
    ));
    assert!(check_origin("/api/layout", Some("null"), &allowed).is_err());
    assert!(check_origin("/api/layout", Some(""), &allowed).is_err());
    // `null` stays forbidden even if someone lists it.
    assert!(check_origin("/api/x", Some("null"), &list(&["null"])).is_err());
    for exempt in ["/healthz", "/auth/bootstrap", "/auth", "/auth/login", "/auth/logout"] {
        assert!(check_origin(exempt, Some("http://evil"), &allowed).is_ok());
    }
    assert!(check_origin("/auth/other", Some("http://evil"), &allowed).is_err());
}

#[test]
fn host_rules() {
    let allow = list(&["127.0.0.1:9001", "localhost:9001"]);
    assert!(check_host(Some("127.0.0.1:9001"), &allow).is_ok());
    assert!(matches!(check_host(None, &allow), Err(HttpApiError::HostForbidden)));
    assert!(check_host(Some(""), &allow).is_err());
    assert!(check_host(Some("evil:9001"), &allow).is_err());
}

#[test]
fn query_encoding() {
    assert_eq!(urlencode_query("AZaz09-_.~"), "AZaz09-_.~");
    assert_eq!(urlencode_query("a b&c=d+e#f"), "a%20b%26c%3Dd%2Be%23f");
    assert_eq!(urlencode_query("\r\n"), "%0D%0A");
    assert_eq!(urlencode_query("é"), "%C3%A9");
    assert_eq!(urlencode_query(""), "");
}

#[test]
fn bootstrap_redirect() {
    assert_eq!(bootstrap_location(Some("tok"), None).unwrap(), "/auth?t=tok");
    assert_eq!(
        bootstrap_location(Some("t k"), Some("/canvas?x=1")).unwrap(),
        "/auth?t=t%20k&redirect=%2Fcanvas%3Fx%3D1"
    );
    assert!(matches!(bootstrap_location(None, None), Err(HttpApiError::MissingToken)));
    assert!(matches!(bootstrap_location(Some(""), Some("/x")), Err(HttpApiError::MissingToken)));
}

#[test]
fn security_header_sets() {
    let local = security_headers(false);
    assert_eq!(local.len(), 5);
    assert!(local.contains(&("x-content-type-options", "nosniff")));
    assert!(local.contains(&("referrer-policy", "no-referrer")));
    assert!(local.iter().all(|(n, _)| *n != "strict-transport-security"));
    let cloud = security_headers(true);
    assert_eq!(cloud.len(), 6);
    assert_eq!(cloud[5], ("strict-transport-security", "max-age=31536000; includeSubDomains"));
}

#[test]
fn shutdown_outcomes() {
    assert_eq!(EXIT_GRACEFUL, 6);
    assert_eq!(shutdown_decision(true), ShutdownOutcome::Scheduled);
    assert_eq!(shutdown_decision(true).status(), 202);
    assert_eq!(shutdown_decision(false), ShutdownOutcome::HubNotConfigured);
    assert_eq!(shutdown_decision(false).status(), 503);
}
