use anicargo::auth::{
    clamp_role_level, extract_token, hash_password, is_admin_level, media_error_status,
    parse_role, role_to_str, verify_password, UserRole,
};
use anicargo::media::MediaError;

#[test]
fn roles_round_trip() {
    assert_eq!(parse_role("admin").unwrap(), UserRole::Admin);
    assert_eq!(parse_role(role_to_str(UserRole::User)).unwrap(), UserRole::User);
    let e = parse_role("root").unwrap_err();
    assert_eq!(e.status, 500);
}

#[test]
fn role_levels_are_clamped() {
    assert_eq!(clamp_role_level(0), 1);
    assert_eq!(clamp_role_level(9), 5);
    assert_eq!(clamp_role_level(3), 3);
    assert!(is_admin_level(3));
    assert!(is_admin_level(42));
    assert!(!is_admin_level(2));
}

#[test]
fn token_sources_in_order() {
    assert_eq!(extract_token(Some("p"), Some("q"), Some("Bearer h")), Some("p".to_string()));
    assert_eq!(extract_token(None, Some("q"), Some("Bearer h")), Some("q".to_string()));
    assert_eq!(extract_token(None, None, Some("Bearer h.t.s")), Some("h.t.s".to_string()));
    assert_eq!(extract_token(None, None, Some("Basic abc")), None);
    assert_eq!(extract_token(None, None, None), None);
}

#[test]
fn media_errors_map_to_statuses() {
    assert_eq!(media_error_status(&MediaError::NotFound("x".to_string())), 404);
    assert_eq!(media_error_status(&MediaError::MissingMediaDir), 400);
    assert_eq!(media_error_status(&MediaError::Io("disk".to_string())), 500);
}

#[test]
fn argon2_hash_then_verify() {
    let h = hash_password("s3cret").unwrap();
    assert!(h.starts_with("$argon2"));
    assert!(verify_password("s3cret", &h).is_ok());
    let h2 = hash_password("s3cret").unwrap();
    assert_ne!(h, h2);
    assert_eq!(verify_password("wrong", &h).unwrap_err().status, 401);
    assert_eq!(verify_password("s3cret", "not-a-hash").unwrap_err().status, 500);
}
