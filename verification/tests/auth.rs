use blog::authn;
use blog::site::auth::verify_bearer;

#[test]
fn bearer_accepts_the_exact_token() {
    assert!(authn::verify_bearer("s3cret", Some("Bearer s3cret")));
}

#[test]
fn bearer_rejects_everything_else() {
    assert!(!authn::verify_bearer("s3cret", None));
    assert!(!authn::verify_bearer("s3cret", Some("s3cret")));
    assert!(!authn::verify_bearer("s3cret", Some("Bearer wrong")));
    assert!(!authn::verify_bearer("s3cret", Some("Bearer s3cret ")));
    assert!(!authn::verify_bearer("s3cret", Some("Bearer s3cret extra")));
    assert!(!authn::verify_bearer("s3cret", Some("bearer s3cret")));
    assert!(!authn::verify_bearer("s3cret", Some("Bearer")));
    assert!(!authn::verify_bearer("s3cret", Some("")));
}

#[test]
fn verify_bearer_accepts_the_exact_token() {
    assert!(verify_bearer("s3cret", Some("Bearer s3cret")));
}

#[test]
fn verify_bearer_rejects_everything_else() {
    assert!(!verify_bearer("s3cret", None));
    assert!(!verify_bearer("s3cret", Some("s3cret")));
    assert!(!verify_bearer("s3cret", Some("Bearer wrong")));
    assert!(!verify_bearer("s3cret", Some("Bearer s3cret ")));
    assert!(!verify_bearer("s3cret", Some("bearer s3cret")));
    assert!(!verify_bearer("s3cret", Some("Bearer")));
    assert!(!verify_bearer("s3cret", Some("")));
}

#[test]
fn the_two_bearer_checks_key_their_macs_differently_but_agree() {
    for header in [Some("Bearer k"), Some("Bearer  k"), Some("Bearer K"), None] {
        assert_eq!(authn::verify_bearer("k", header), verify_bearer("k", header));
    }
}
