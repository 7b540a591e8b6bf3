use my_http_server::security::{constant_time_eq, ct_eq_str_opt};

#[test]
fn test_constant_time_eq_identical_strings() {
    let a = b"password";
    let b = b"password";

    assert!(
        constant_time_eq(a, b),
        "Identical passwords should be equal"
    );
}

#[test]
fn main_test_constant_time_eq_different_strings() {
    let a = b"password1";
    let b = b"password2";

    assert!(
        !constant_time_eq(a, b),
        "Different passwords should not be equal"
    );
}

#[test]
fn main_test_constant_time_eq_empty_strings() {
    let a = b"";
    let b = b"";

    assert!(constant_time_eq(a, b), "Empty strings should be equal");
}

#[test]
fn main_test_constant_time_eq_one_empty() {
    let a = b"";
    let b = b"nonempty";

    assert!(
        !constant_time_eq(a, b),
        "Empty and non-empty should not be equal"
    );
}

#[test]
fn test_constant_time_eq_length_diff() {
    let a = b"short";
    let b = b"much_longer_string";

    assert!(
        !constant_time_eq(a, b),
        "Different length strings should not be equal"
    );
}

#[test]
fn test_constant_time_eq_single_char_diff() {
    let a = b"abcdef";
    let b = b"abcdeg";

    assert!(
        !constant_time_eq(a, b),
        "Strings differing by one character should not be equal"
    );
}

#[test]
fn test_constant_time_eq_first_char_diff() {
    let a = b"xbcdef";
    let b = b"abcdef";

    assert!(
        !constant_time_eq(a, b),
        "Strings differing in first char should not be equal"
    );
}

#[test]
fn test_constant_time_eq_last_char_diff() {
    let a = b"abcdex";
    let b = b"abcdef";

    assert!(
        !constant_time_eq(a, b),
        "Strings differing in last char should not be equal"
    );
}

#[test]
fn test_constant_time_eq_timing_resistance() {
    // Test that we compare all bytes regardless of early differences
    let correct = b"secret_password_123";
    let wrong_early = b"x__________________";
    let wrong_late = b"secret_password_xx_";

    // All should return false
    assert!(!constant_time_eq(correct, wrong_early));
    assert!(!constant_time_eq(correct, wrong_late));

    // And be true for identical
    assert!(constant_time_eq(correct, correct));
}

#[test]
fn main_test_ct_eq_str_opt_both_some_equal() {
    let a = Some("password");
    let b = Some("password");

    assert!(ct_eq_str_opt(a, b), "Same values should be equal");
}

#[test]
fn main_test_ct_eq_str_opt_both_some_different() {
    let a = Some("password1");
    let b = Some("password2");

    assert!(!ct_eq_str_opt(a, b), "Different values should not be equal");
}

#[test]
fn main_test_ct_eq_str_opt_both_none() {
    let a: Option<&str> = None;
    let b: Option<&str> = None;

    assert!(ct_eq_str_opt(a, b), "Both None should be equal");
}

#[test]
fn test_ct_eq_str_opt_one_some_one_none() {
    let a = Some("password");
    let b: Option<&str> = None;

    assert!(!ct_eq_str_opt(a, b), "Some and None should not be equal");
}

#[test]
fn test_ct_eq_str_opt_none_some() {
    let a: Option<&str> = None;
    let b = Some("password");

    assert!(!ct_eq_str_opt(a, b), "None and Some should not be equal");
}

#[test]
fn test_ct_eq_str_opt_empty_string() {
    let a = Some("");
    let b = Some("");

    assert!(ct_eq_str_opt(a, b), "Empty strings should be equal");
}

#[test]
fn test_ct_eq_str_opt_one_empty() {
    let a = Some("");
    let b = Some("nonempty");

    assert!(
        !ct_eq_str_opt(a, b),
        "Empty and non-empty should not be equal"
    );
}

#[test]
fn test_constant_time_eq_unicode() {
    let a = "café".as_bytes();
    let b = "café".as_bytes();

    assert!(
        constant_time_eq(a, b),
        "Unicode strings should be comparable"
    );
}

#[test]
fn test_constant_time_eq_unicode_different() {
    let a = "café".as_bytes();
    let b = "cafe".as_bytes();

    assert!(
        !constant_time_eq(a, b),
        "Different unicode strings should not be equal"
    );
}

#[test]
fn test_constant_time_eq_large_inputs() {
    let large_a = vec![b'a'; 10000];
    let large_b = vec![b'a'; 10000];
    let large_c = vec![b'b'; 10000];

    assert!(
        constant_time_eq(&large_a, &large_b),
        "Large identical inputs should be equal"
    );
    assert!(
        !constant_time_eq(&large_a, &large_c),
        "Large different inputs should not be equal"
    );
}

#[test]
fn test_ct_eq_str_opt_long_strings() {
    let long_str = "a".repeat(1000);
    let a = Some(long_str.as_str());
    let b = Some(long_str.as_str());

    assert!(
        ct_eq_str_opt(a, b),
        "Long identical strings should be equal"
    );
}

#[test]
fn test_constant_time_eq_symmetric() {
    // Verify that comparison is symmetric
    let a = b"test";
    let b = b"different";

    assert_eq!(
        constant_time_eq(a, b),
        constant_time_eq(b, a),
        "Comparison should be symmetric"
    );
}

#[test]
fn test_constant_time_eq_reflexive() {
    let a = b"test";

    assert!(constant_time_eq(a, a), "Comparison should be reflexive");
}

#[test]
fn test_ct_eq_str_opt_reflexive() {
    let a = Some("test");

    assert!(ct_eq_str_opt(a, a), "Option comparison should be reflexive");
}

#[test]
fn test_constant_time_eq_equal_strings() {
    let a = b"password123";
    let b = b"password123";
    assert!(constant_time_eq(a, b));
}

#[test]
fn security_test_constant_time_eq_different_strings() {
    let a = b"password123";
    let b = b"password456";
    assert!(!constant_time_eq(a, b));
}

#[test]
fn test_constant_time_eq_different_lengths() {
    let a = b"short";
    let b = b"muchlongerstring";
    assert!(!constant_time_eq(a, b));
}

#[test]
fn security_test_constant_time_eq_empty_strings() {
    let a = b"";
    let b = b"";
    assert!(constant_time_eq(a, b));
}

#[test]
fn security_test_constant_time_eq_one_empty() {
    let a = b"nonempty";
    let b = b"";
    assert!(!constant_time_eq(a, b));
}

#[test]
fn test_constant_time_eq_similar_prefix() {
    // Test that similar prefixes don't cause early exit
    let a = b"password123";
    let b = b"password999";
    assert!(!constant_time_eq(a, b));
}

#[test]
fn security_test_ct_eq_str_opt_both_some_equal() {
    assert!(ct_eq_str_opt(Some("test"), Some("test")));
}

#[test]
fn security_test_ct_eq_str_opt_both_some_different() {
    assert!(!ct_eq_str_opt(Some("test"), Some("other")));
}

#[test]
fn security_test_ct_eq_str_opt_both_none() {
    assert!(ct_eq_str_opt(None, None));
}

#[test]
fn test_ct_eq_str_opt_one_none() {
    assert!(!ct_eq_str_opt(Some("test"), None));
    assert!(!ct_eq_str_opt(None, Some("test")));
}

#[test]
fn test_ct_eq_str_opt_empty_strings() {
    assert!(ct_eq_str_opt(Some(""), Some("")));
}

#[test]
fn test_ct_eq_str_opt_unicode() {
    assert!(ct_eq_str_opt(Some("测试"), Some("测试")));
    assert!(!ct_eq_str_opt(Some("测试"), Some("テスト")));
}

#[test]
fn test_constant_time_eq_timing_property() {
    // This is a basic property test - in production, use proper timing analysis
    // We verify that different positions of difference don't cause different behavior
    let base = b"0123456789abcdef";

    // Differ at first position
    let diff_start = b"X123456789abcdef";
    assert!(!constant_time_eq(base, diff_start));

    // Differ at middle
    let diff_mid = b"01234567X9abcdef";
    assert!(!constant_time_eq(base, diff_mid));

    // Differ at end
    let diff_end = b"0123456789abcdeX";
    assert!(!constant_time_eq(base, diff_end));
}

#[test]
fn test_constant_time_eq_zero_bytes() {
    // Test with zero bytes (null characters)
    let a = b"test\x00data";
    let b = b"test\x00data";
    assert!(constant_time_eq(a, b));

    let c = b"test\x00other";
    assert!(!constant_time_eq(a, c));
}

#[test]
fn test_constant_time_eq_all_zero_bytes() {
    let a = b"\x00\x00\x00\x00";
    let b = b"\x00\x00\x00\x00";
    assert!(constant_time_eq(a, b));

    let c = b"\x00\x00\x01\x00";
    assert!(!constant_time_eq(a, c));
}

#[test]
fn test_ct_eq_str_opt_special_characters() {
    assert!(ct_eq_str_opt(Some("!@#$%^&*()"), Some("!@#$%^&*()")));
    assert!(!ct_eq_str_opt(Some("!@#$%^&*()"), Some("!@#$%^&*(]")));
}

use my_http_server::config::CofgUser;
use my_http_server::security::{authorize, AuthOutcome};

fn users() -> Option<Vec<CofgUser>> {
    Some(vec![
        CofgUser {
            name: "alice".to_string(),
            passwords: Some("pw".to_string()),
            allow: Some(vec!["/docs".to_string()]),
            disallow: Some(vec!["/docs/private".to_string()]),
        },
        CofgUser { name: "bob".to_string(), passwords: None, allow: None, disallow: None },
        CofgUser { name: "alice".to_string(), passwords: Some("other".to_string()), allow: None, disallow: None },
    ])
}

#[test]
fn basic_auth_checks_user_password_and_path() {
    assert_eq!(authorize(&users(), "alice", Some("pw"), "/docs/a.md"), AuthOutcome::Granted);
    assert_eq!(authorize(&users(), "alice", Some("pw"), "/other"), AuthOutcome::PathNotAllowed);
    assert_eq!(authorize(&users(), "alice", Some("pw"), "/docs/private/x"), AuthOutcome::PathNotAllowed);
    assert_eq!(authorize(&users(), "alice", Some("other"), "/docs/a.md"), AuthOutcome::BadCredentials);
    assert_eq!(authorize(&users(), "carol", Some("pw"), "/"), AuthOutcome::BadCredentials);
    assert_eq!(authorize(&users(), "bob", None, "/anything"), AuthOutcome::Granted);
    assert_eq!(authorize(&users(), "bob", Some(""), "/anything"), AuthOutcome::BadCredentials);
    assert_eq!(authorize(&None, "alice", Some("pw"), "/"), AuthOutcome::NoUsers);
}
