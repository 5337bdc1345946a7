use lineup_cards::auth::{
    check_email_free, check_login, has_oversized_p, check_signup, clear_cookie, cookie_value, hash_password,
    new_token, normalize_email, require_session_token, session_lifetime, session_user, set_cookie,
    COOKIE_NAME, SESSION_DAYS,
};
use lineup_cards::models::AuthPayload;

fn payload(email: &str, password: &str) -> AuthPayload {
    AuthPayload { email: email.to_string(), password: password.to_string() }
}

#[test]
fn set_cookie_keeps_session_thirty_days() {
    assert_eq!(
        set_cookie("abc123"),
        "session=abc123; HttpOnly; Path=/; SameSite=Lax; Max-Age=2592000"
    );
}

#[test]
fn clear_cookie_expires_session() {
    assert_eq!(clear_cookie(), "session=; HttpOnly; Path=/; SameSite=Lax; Max-Age=0");
}

#[test]
fn cookie_value_finds_named_cookie() {
    assert_eq!(cookie_value(Some("a=1; session=xyz; b=2"), "session"), Some("xyz".to_string()));
    assert_eq!(cookie_value(Some("  session=abc  "), "session"), Some("abc".to_string()));
    assert_eq!(cookie_value(Some("session=first; session=second"), "session"), Some("first".to_string()));
    assert_eq!(cookie_value(Some("session="), "session"), Some(String::new()));
}

#[test]
fn cookie_value_missing() {
    assert_eq!(cookie_value(None, "session"), None);
    assert_eq!(cookie_value(Some(""), "session"), None);
    assert_eq!(cookie_value(Some("a=1; b=2"), "session"), None);
    assert_eq!(cookie_value(Some("sessionx=1"), "session"), None);
    assert_eq!(cookie_value(Some("session"), "session"), None);
}

#[test]
fn session_cookie_round_trip() {
    let token = new_token();
    let set = set_cookie(&token);
    let sent_back = set.split(';').next().unwrap();
    assert_eq!(cookie_value(Some(sent_back), COOKIE_NAME), Some(token));
}

#[test]
fn new_token_is_64_hex_digits() {
    let a = new_token();
    let b = new_token();
    assert_eq!(a.len(), 64);
    assert!(a.chars().all(|c| c.is_ascii_digit() || ('a'..='f').contains(&c)));
    assert_ne!(a, b);
}

#[test]
fn normalize_email_trims_and_lowercases() {
    assert_eq!(normalize_email("  Bob@Example.COM \t"), "bob@example.com");
    assert_eq!(normalize_email(""), "");
    assert_eq!(normalize_email(" ÀB@X "), "àb@x");
}

#[test]
fn check_signup_rules() {
    let err = check_signup(&payload("   ", "secret1")).unwrap_err();
    assert_eq!((err.status, err.message.as_str()), (400, "a valid email is required"));
    let err = check_signup(&payload("no-at-sign", "secret1")).unwrap_err();
    assert_eq!(err.message, "a valid email is required");
    let err = check_signup(&payload("a@b.c", "12345")).unwrap_err();
    assert_eq!((err.status, err.message.as_str()), (400, "password must be at least 6 characters"));
    assert_eq!(check_signup(&payload(" A@B.C ", "123456")).unwrap(), "a@b.c");
    // the length counts UTF-8 bytes: three two-byte characters are enough
    assert_eq!(check_signup(&payload("a@b.c", "ééé")).unwrap(), "a@b.c");
}

#[test]
fn email_taken_is_conflict() {
    assert!(check_email_free(None).is_ok());
    let err = check_email_free(Some(4)).unwrap_err();
    assert_eq!((err.status, err.message.as_str()), (409, "an account with that email already exists"));
}

#[test]
fn login_after_signup_hash() {
    let hash = hash_password("secret1").unwrap();
    assert!(hash.starts_with("$argon2id$v=19$m=19456,t=2,p=1$"));
    assert_ne!(hash, "secret1");
    assert_eq!(check_login("secret1", Some((7, hash.clone()))).unwrap(), 7);
    let err = check_login("secret2", Some((7, hash))).unwrap_err();
    assert_eq!((err.status, err.message.as_str()), (401, "invalid email or password"));
    let err = check_login("secret1", None).unwrap_err();
    assert_eq!((err.status, err.message.as_str()), (401, "invalid email or password"));
    assert!(check_login("secret1", Some((7, "not a hash".to_string()))).is_err());
}

#[test]
fn session_checks() {
    let err = require_session_token(None).unwrap_err();
    assert_eq!((err.status, err.message.as_str()), (401, "not logged in"));
    assert_eq!(require_session_token(Some("t".to_string())).unwrap(), "t");
    let err = session_user(None).unwrap_err();
    assert_eq!((err.status, err.message.as_str()), (401, "session expired"));
    let user = session_user(Some((3, "a@b.c".to_string()))).unwrap();
    assert_eq!((user.id, user.email.as_str()), (3, "a@b.c"));
}

#[test]
fn session_lifetime_modifier() {
    assert_eq!(SESSION_DAYS, 30);
    assert_eq!(session_lifetime(), "+30 days");
}

#[test]
fn session_cookie_after_other_cookies() {
    let token = new_token();
    let header = format!("theme=dark; lang=en; {COOKIE_NAME}={token}");
    assert_eq!(cookie_value(Some(&header), COOKIE_NAME), Some(token));
}

#[test]
fn login_refuses_text_that_is_no_hash() {
    let err = check_login("secret1", Some((7, "secret1".to_string()))).unwrap_err();
    assert_eq!((err.status, err.message.as_str()), (401, "invalid email or password"));
    assert!(check_login("", Some((7, String::new()))).is_err());
}

#[test]
fn hash_password_accepts_empty_and_long_passwords() {
    let empty = hash_password("").unwrap();
    assert_eq!(check_login("", Some((1, empty))).unwrap(), 1);
    let long = "x".repeat(1000);
    let h = hash_password(&long).unwrap();
    assert_eq!(check_login(&long, Some((2, h))).unwrap(), 2);
}

#[test]
fn login_refuses_oversized_parallelism() {
    let good = hash_password("secret1").unwrap();
    assert!(!has_oversized_p(&good));
    // the same hash text with the parallelism raised past argon2's limits
    let huge = good.replacen("p=1$", "p=536870912$", 1);
    assert!(has_oversized_p(&huge));
    let err = check_login("secret1", Some((7, huge))).unwrap_err();
    assert_eq!((err.status, err.message.as_str()), (401, "invalid email or password"));
    let above_limit = good.replacen("p=1$", "p=16777216$", 1);
    assert!(!has_oversized_p(&above_limit));
    assert!(check_login("secret1", Some((7, above_limit))).is_err());
    assert!(has_oversized_p("p=123456789"));
    assert!(!has_oversized_p("p=12345678"));
    assert!(!has_oversized_p("p=12345678x"));
}
