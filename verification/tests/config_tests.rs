use fairsched::auth::{build_cookie, clear_cookie, cookie_name, is_bootstrap_active};
use fairsched::config::AppConfig;

/// Build a minimal `AppConfig` with all fields defaulted. Override specific
/// fields in each test via struct update syntax.
fn base_config() -> AppConfig {
    AppConfig {
        listen_addr: "0.0.0.0:443".into(),
        database_url: "sqlite://:memory:".into(),
        tls_cert_path: None,
        tls_key_path: None,
        bootstrap_user: None,
        bootstrap_password: None,
        break_glass: false,
        docker_host: "unix:///var/run/docker.sock".into(),
        model_path: "/models".into(),
        model_host_path: "/models".into(),
        ui_path: "/app/ui".into(),
        api_hostname: "localhost".into(),
        chat_hostname: "localhost".into(),
        cookie_domain: None,
        backend_network: "sovereign-internal".into(),
        acme_contact: None,
        acme_staging: false,
        webui_backend_url: "http://open-webui:8080".into(),
        webui_api_key: None,
        queue_timeout_secs: 30,
        secure_cookies: true,
        db_encryption_key: None,
        db_encryption_key_old: None,
    }
}

fn test_config(break_glass: bool, user: Option<&str>, password: Option<&str>) -> AppConfig {
    AppConfig {
        bootstrap_user: user.map(String::from),
        bootstrap_password: password.map(String::from),
        break_glass,
        ..base_config()
    }
}

// -----------------------------------------------------------------------
// has_bootstrap_creds
// -----------------------------------------------------------------------

#[test]
fn has_bootstrap_creds_both_present() {
    let cfg = AppConfig {
        bootstrap_user: Some("admin".into()),
        bootstrap_password: Some("secret".into()),
        ..base_config()
    };
    assert!(cfg.has_bootstrap_creds());
}

#[test]
fn has_bootstrap_creds_user_only() {
    let cfg = AppConfig {
        bootstrap_user: Some("admin".into()),
        bootstrap_password: None,
        ..base_config()
    };
    assert!(!cfg.has_bootstrap_creds());
}

#[test]
fn has_bootstrap_creds_password_only() {
    let cfg = AppConfig {
        bootstrap_user: None,
        bootstrap_password: Some("secret".into()),
        ..base_config()
    };
    assert!(!cfg.has_bootstrap_creds());
}

#[test]
fn has_bootstrap_creds_neither() {
    let cfg = base_config();
    assert!(!cfg.has_bootstrap_creds());
}

// -----------------------------------------------------------------------
// validate_bootstrap_creds
// -----------------------------------------------------------------------

#[test]
fn validate_bootstrap_creds_correct() {
    let cfg = AppConfig {
        bootstrap_user: Some("admin".into()),
        bootstrap_password: Some("hunter2".into()),
        ..base_config()
    };
    assert!(cfg.validate_bootstrap_creds("admin", "hunter2"));
}

#[test]
fn validate_bootstrap_creds_wrong_password() {
    let cfg = AppConfig {
        bootstrap_user: Some("admin".into()),
        bootstrap_password: Some("hunter2".into()),
        ..base_config()
    };
    assert!(!cfg.validate_bootstrap_creds("admin", "wrong"));
}

#[test]
fn validate_bootstrap_creds_wrong_username() {
    let cfg = AppConfig {
        bootstrap_user: Some("admin".into()),
        bootstrap_password: Some("hunter2".into()),
        ..base_config()
    };
    assert!(!cfg.validate_bootstrap_creds("root", "hunter2"));
}

#[test]
fn validate_bootstrap_creds_empty_strings() {
    let cfg = AppConfig {
        bootstrap_user: Some("admin".into()),
        bootstrap_password: Some("hunter2".into()),
        ..base_config()
    };
    assert!(!cfg.validate_bootstrap_creds("", ""));
}

#[test]
fn validate_bootstrap_creds_no_creds_configured() {
    let cfg = base_config();
    assert!(!cfg.validate_bootstrap_creds("admin", "hunter2"));
}

#[test]
fn validate_bootstrap_creds_empty_configured_and_provided() {
    let cfg = AppConfig {
        bootstrap_user: Some("".into()),
        bootstrap_password: Some("".into()),
        ..base_config()
    };
    assert!(cfg.validate_bootstrap_creds("", ""));
}

// -----------------------------------------------------------------------
// tls_paths
// -----------------------------------------------------------------------

#[test]
fn tls_paths_both_present() {
    let cfg = AppConfig {
        tls_cert_path: Some("/cert.pem".into()),
        tls_key_path: Some("/key.pem".into()),
        ..base_config()
    };
    let (cert, key) = cfg.tls_paths().unwrap();
    assert_eq!(cert, "/cert.pem");
    assert_eq!(key, "/key.pem");
}

#[test]
fn tls_paths_missing_cert() {
    let cfg = AppConfig {
        tls_cert_path: None,
        tls_key_path: Some("/key.pem".into()),
        ..base_config()
    };
    let err = cfg.tls_paths().unwrap_err();
    assert!(err.message().contains("TLS_CERT_PATH"));
}

#[test]
fn tls_paths_missing_key() {
    let cfg = AppConfig {
        tls_cert_path: Some("/cert.pem".into()),
        tls_key_path: None,
        ..base_config()
    };
    let err = cfg.tls_paths().unwrap_err();
    assert!(err.message().contains("TLS_KEY_PATH"));
}

// -----------------------------------------------------------------------
// acme_config
// -----------------------------------------------------------------------

#[test]
fn acme_config_contact_present() {
    let cfg = AppConfig {
        api_hostname: "api.example.com".into(),
        chat_hostname: "chat.example.com".into(),
        acme_contact: Some("admin@example.com".into()),
        acme_staging: false,
        ..base_config()
    };
    let result = cfg.acme_config().unwrap();
    assert_eq!(result.domains, vec!["api.example.com", "chat.example.com"]);
    assert_eq!(result.contact, "admin@example.com");
    assert!(!result.staging);
}

#[test]
fn acme_config_staging() {
    let cfg = AppConfig {
        api_hostname: "api.example.com".into(),
        chat_hostname: "chat.example.com".into(),
        acme_contact: Some("admin@example.com".into()),
        acme_staging: true,
        ..base_config()
    };
    let result = cfg.acme_config().unwrap();
    assert!(result.staging);
}

#[test]
fn acme_config_no_contact_returns_none() {
    let cfg = base_config();
    let result = cfg.acme_config();
    assert!(result.is_none());
}

#[test]
fn api_external_url_secure() {
    let cfg = AppConfig {
        api_hostname: "api.example.com".into(),
        secure_cookies: true,
        ..base_config()
    };
    assert_eq!(cfg.api_external_url(), "https://api.example.com");
}

#[test]
fn api_external_url_insecure() {
    let cfg = AppConfig {
        api_hostname: "api.example.com".into(),
        secure_cookies: false,
        ..base_config()
    };
    assert_eq!(cfg.api_external_url(), "http://api.example.com");
}

#[test]
fn chat_external_url_secure() {
    let cfg = AppConfig {
        chat_hostname: "chat.example.com".into(),
        secure_cookies: true,
        ..base_config()
    };
    assert_eq!(cfg.chat_external_url(), "https://chat.example.com");
}

// -----------------------------------------------------------------------
// bootstrap gating
// -----------------------------------------------------------------------

#[test]
fn bootstrap_active_when_break_glass_and_creds() {
    let config = test_config(true, Some("admin"), Some("password"));
    assert!(is_bootstrap_active(&config));
}

#[test]
fn bootstrap_inactive_when_break_glass_false() {
    let config = test_config(false, Some("admin"), Some("password"));
    assert!(!is_bootstrap_active(&config));
}

#[test]
fn bootstrap_inactive_when_no_user() {
    let config = test_config(true, None, Some("password"));
    assert!(!is_bootstrap_active(&config));
}

#[test]
fn bootstrap_inactive_when_no_password() {
    let config = test_config(true, Some("admin"), None);
    assert!(!is_bootstrap_active(&config));
}

#[test]
fn bootstrap_inactive_when_no_creds_at_all() {
    let config = test_config(true, None, None);
    assert!(!is_bootstrap_active(&config));
}

// -----------------------------------------------------------------------
// session cookies
// -----------------------------------------------------------------------

#[test]
fn build_cookie_contains_required_parts() {
    let cookie = build_cookie("abc123", 86400, false);
    assert!(cookie.contains("se_session=abc123"), "should contain token");
    assert!(cookie.contains("Max-Age=86400"), "should contain max_age");
    assert!(cookie.contains("HttpOnly"), "should contain HttpOnly");
    assert!(cookie.contains("SameSite=Lax"), "should contain SameSite");
    assert!(cookie.contains("Path=/"), "should contain Path");
}

#[test]
fn build_cookie_secure_flag_when_true() {
    let cookie = build_cookie("tok", 3600, true);
    assert!(cookie.contains("; Secure"), "should contain Secure flag");
}

#[test]
fn build_cookie_no_secure_flag_when_false() {
    let cookie = build_cookie("tok", 3600, false);
    assert!(!cookie.contains("Secure"), "should not contain Secure flag");
}

#[test]
fn clear_cookie_sets_max_age_zero() {
    let cookie = clear_cookie(false);
    assert!(cookie.contains("Max-Age=0"), "should set Max-Age=0");
    assert!(
        cookie.contains("se_session="),
        "should reference the session cookie name"
    );
}

#[test]
fn clear_cookie_secure_flag() {
    let secure = clear_cookie(true);
    let insecure = clear_cookie(false);
    assert!(secure.contains("; Secure"), "secure=true should set Secure");
    assert!(
        !insecure.contains("Secure"),
        "secure=false should not set Secure"
    );
}

#[test]
fn cookie_name_is_stable() {
    assert_eq!(cookie_name(), "se_session");
}
