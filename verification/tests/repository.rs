use cargo_rail_action::repository::{base64, check_repository_token, head_relative_depth, is_sha, is_zero_sha, validate_ref};

#[test]
fn rejects_option_like_and_padded_refs() {
    assert!(validate_ref("main", "ref").is_ok());
    assert!(validate_ref("-main", "ref").is_err());
    assert!(validate_ref(" main", "ref").is_err());
    assert!(validate_ref("main\nother", "ref").is_err());
}

#[test]
fn recognizes_only_bounded_shas() {
    assert!(is_sha(&"a".repeat(40)));
    for length in [39, 41, 63, 65] {
        assert!(!is_sha(&"a".repeat(length)), "accepted {length} digits");
        assert!(
            !is_zero_sha(&"0".repeat(length)),
            "accepted {length}-digit zero sentinel"
        );
    }
    assert!(is_zero_sha(&"0".repeat(64)));
}

#[test]
fn bounds_head_relative_history_and_encodes_basic_authority() {
    assert_eq!(head_relative_depth("HEAD~12"), Some(12));
    assert_eq!(head_relative_depth("HEAD~1000001"), None);
    assert_eq!(head_relative_depth("HEAD~-1"), None);
    assert_eq!(base64(b"x-access-token:test"), "eC1hY2Nlc3MtdG9rZW46dGVzdA==");
}

#[test]
fn repository_tokens_are_one_bounded_line() {
    assert!(check_repository_token("").is_ok());
    assert!(check_repository_token("ghs_example").is_ok());
    assert!(check_repository_token(&"a".repeat(4096)).is_ok());
    for rejected in ["a\nb".to_string(), "a\rb".to_string(), "a".repeat(4097)] {
        let error = check_repository_token(&rejected).expect_err("token accepted");
        assert_eq!(error.exit_code(), 2);
        assert_eq!(error.text(), "repository-token must be one value within the 4 KiB bound");
    }
}
