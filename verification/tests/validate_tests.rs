use fairsched::download::{format_bytes, urlencoded};
use fairsched::util::{period_to_interval, period_to_interval_and_bucket};
use fairsched::validate::{validate_hf_repo, validate_len};

// -----------------------------------------------------------------------
// validate_len
// -----------------------------------------------------------------------

#[test]
fn validate_len_under_max_is_ok() {
    assert!(validate_len("name", "hello", 10).is_none());
}

#[test]
fn validate_len_at_max_is_ok() {
    assert!(validate_len("name", "12345", 5).is_none());
}

#[test]
fn validate_len_over_max_returns_error() {
    let resp = validate_len("name", "123456", 5);
    assert!(resp.is_some());
}

#[test]
fn validate_len_empty_string_is_ok() {
    assert!(validate_len("name", "", 5).is_none());
}

#[test]
fn validate_len_zero_max_empty_string_ok() {
    assert!(validate_len("name", "", 0).is_none());
}

#[test]
fn validate_len_zero_max_nonempty_returns_error() {
    assert!(validate_len("name", "a", 0).is_some());
}

// -----------------------------------------------------------------------
// validate_hf_repo
// -----------------------------------------------------------------------

#[test]
fn validate_hf_repo_valid_simple() {
    assert!(validate_hf_repo("owner/model-name").is_none());
}

#[test]
fn validate_hf_repo_valid_with_dots_and_underscores() {
    assert!(validate_hf_repo("Org_Name/Model.v2").is_none());
}

#[test]
fn validate_hf_repo_path_traversal_rejected() {
    assert!(validate_hf_repo("../etc/passwd").is_some());
}

#[test]
fn validate_hf_repo_double_dot_in_middle_rejected() {
    assert!(validate_hf_repo("owner/..sneaky").is_some());
}

#[test]
fn validate_hf_repo_no_slash_rejected() {
    assert!(validate_hf_repo("justmodelname").is_some());
}

#[test]
fn validate_hf_repo_empty_rejected() {
    assert!(validate_hf_repo("").is_some());
}

#[test]
fn validate_hf_repo_invalid_chars_rejected() {
    assert!(validate_hf_repo("owner/model name").is_some()); // space
    assert!(validate_hf_repo("owner/model@v2").is_some()); // @
    assert!(validate_hf_repo("owner/model;rm").is_some()); // semicolon
}

#[test]
fn validate_hf_repo_multiple_slashes_ok() {
    // Only the presence of '/' and safe characters are checked;
    // "a/b/c" passes the validation.
    assert!(validate_hf_repo("a/b/c").is_none());
}

// -----------------------------------------------------------------------
// period mapping
// -----------------------------------------------------------------------

#[test]
fn period_mapping_known_values() {
    assert_eq!(period_to_interval("hour"), "-1 hour");
    assert_eq!(period_to_interval("day"), "-1 day");
    assert_eq!(period_to_interval("week"), "-7 days");
    assert_eq!(period_to_interval("month"), "-30 days");
    assert_eq!(period_to_interval("bogus"), "-1 day");
}

#[test]
fn period_mapping_with_bucket() {
    assert_eq!(
        period_to_interval_and_bucket("hour"),
        ("-1 hour", "%Y-%m-%dT%H:%M:00")
    );
    assert_eq!(
        period_to_interval_and_bucket("week"),
        ("-7 days", "%Y-%m-%d")
    );
    assert_eq!(
        period_to_interval_and_bucket("nonsense"),
        ("-1 day", "%Y-%m-%dT%H:00:00")
    );
}

// -----------------------------------------------------------------------
// byte formatting and URL encoding
// -----------------------------------------------------------------------

#[test]
fn format_bytes_small_values() {
    assert_eq!(format_bytes(0), "0 B");
    assert_eq!(format_bytes(1023), "1023 B");
}

#[test]
fn format_bytes_units() {
    assert_eq!(format_bytes(1024), "1.0 KB");
    assert_eq!(format_bytes(1536), "1.5 KB");
    assert_eq!(format_bytes(1048576), "1.0 MB");
    assert_eq!(format_bytes(5 * 1024 * 1024 * 1024), "5.0 GB");
}

#[test]
fn urlencoded_keeps_unreserved() {
    assert_eq!(urlencoded("abc-XYZ_0.9~"), "abc-XYZ_0.9~");
}

#[test]
fn urlencoded_escapes_specials() {
    assert_eq!(urlencoded("a b"), "a+b");
    assert_eq!(urlencoded("a/b?c"), "a%2Fb%3Fc");
}
