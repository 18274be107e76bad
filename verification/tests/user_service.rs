use desk::user_service::{
    access_ttl_secs, check_api_signature, check_password, compute_api_signature, decode_hex,
    encode_hex, hash_password, login, make_token, new_user, refresh_token, register, resolve_jwt_secret,
    session_expiry, signup_grants, verify_api_key, verify_api_key_signed, verify_token, ApiKeyRow,
    AuthError, LoginRequest, RegisterRequest, SecretError, StoredUser, API_SIGNATURE_WINDOW_SECS, DEFAULT_ACCESS_TTL_SECS,
    DEV_JWT_SECRET, MIN_JWT_SECRET_LEN,
};

/// Far enough ahead that a session signed then has not run out.
const NOW: i64 = 4_000_000_000;

#[test]
fn jwt_secret_resolution_rules() {
    let strong = "s".repeat(MIN_JWT_SECRET_LEN);

    assert_eq!(
        resolve_jwt_secret(Some(strong.clone()), Some("production".into())).unwrap(),
        strong.as_bytes()
    );
    assert_eq!(resolve_jwt_secret(Some(strong.clone()), None).unwrap(), strong.as_bytes());

    // A configured but weak secret is an error, never a fallback.
    let err = resolve_jwt_secret(Some("short".into()), None).unwrap_err();
    assert!(err.message().contains("too short"), "{}", err.message());
    assert!(matches!(err, SecretError::TooShort(5)));

    // Production without a secret refuses to start.
    let err = resolve_jwt_secret(None, Some("production".into())).unwrap_err();
    assert!(err.message().contains("EXCHANGE_ENV=production"), "{}", err.message());

    assert_eq!(resolve_jwt_secret(None, None).unwrap(), DEV_JWT_SECRET.as_bytes());
    assert_eq!(
        resolve_jwt_secret(None, Some("dev".into())).unwrap(),
        DEV_JWT_SECRET.as_bytes()
    );
}

#[test]
fn api_signature_roundtrip_and_rejections() {
    let secret = "k".repeat(32);
    let ts = "1750000000";
    let sig = compute_api_signature(&secret, ts);
    let now: i64 = 1_750_000_000;

    check_api_signature(&secret, ts, &sig, now).expect("valid");
    check_api_signature(&secret, ts, &sig, now + API_SIGNATURE_WINDOW_SECS).expect("edge ok");

    // The same signature outside of the window.
    let err = check_api_signature(&secret, ts, &sig, now + API_SIGNATURE_WINDOW_SECS + 1)
        .unwrap_err();
    assert!(err.message().contains("window"), "{}", err.message());

    assert!(check_api_signature("wrong-secret-wrong-secret-wrong!", ts, &sig, now).is_err());
    let mut bad = sig.clone();
    let flipped = if bad.ends_with('0') { '1' } else { '0' };
    bad.pop();
    bad.push(flipped);
    assert!(check_api_signature(&secret, ts, &bad, now).is_err());
    assert!(check_api_signature(&secret, "1750000001", &sig, now).is_err());

    assert!(check_api_signature(&secret, ts, "zz", now).is_err());
    assert!(check_api_signature(&secret, ts, "abc", now).is_err());
    assert!(check_api_signature(&secret, "not_a_number", &sig, now).is_err());
    assert!(check_api_signature(&secret, ts, "", now).is_err());
    assert_eq!(sig.len(), 64);
}

#[test]
fn refresh_reissues_token_for_same_subject() {
    let secret = DEV_JWT_SECRET.as_bytes();
    let token = make_token(42, "user@example.com", secret, NOW, DEFAULT_ACCESS_TTL_SECS)
        .expect("sign");
    let claims = verify_token(&token, secret).expect("verify");
    let refreshed =
        refresh_token(&claims, secret, NOW + 60, DEFAULT_ACCESS_TTL_SECS).expect("refresh");
    let claims2 = verify_token(&refreshed, secret).expect("verify refreshed");
    assert_eq!(claims2.sub, 42);
    assert_eq!(claims2.email, "user@example.com");
    assert!(claims2.exp >= claims.exp, "sliding expiry must not shrink");
}

#[test]
fn token_roundtrip_with_resolved_secret() {
    let secret = resolve_jwt_secret(None, None).unwrap();
    let token = make_token(42, "user@example.com", &secret, NOW, DEFAULT_ACCESS_TTL_SECS)
        .expect("sign");
    let claims = verify_token(&token, &secret).expect("verify");
    assert_eq!(claims.sub, 42);
    assert_eq!(claims.email, "user@example.com");
    assert_eq!(claims.exp, session_expiry(NOW, DEFAULT_ACCESS_TTL_SECS));
}

#[test]
fn a_token_is_refused_under_another_secret_or_once_spent() {
    let secret = DEV_JWT_SECRET.as_bytes();
    let token = make_token(42, "user@example.com", secret, NOW, 60).unwrap();
    assert!(matches!(
        verify_token(&token, b"another secret of some length!!!"),
        Err(AuthError::InvalidToken)
    ));
    assert!(matches!(verify_token("no token", secret), Err(AuthError::InvalidToken)));
    let spent = make_token(42, "user@example.com", secret, 1_000, 60).unwrap();
    assert!(matches!(verify_token(&spent, secret), Err(AuthError::InvalidToken)));
}

#[test]
fn signature_is_the_keyed_digest_of_the_timestamp() {
    // HMAC-SHA256 under thirty-two times "k" of "1750000000".
    let sig = compute_api_signature(&"k".repeat(32), "1750000000");
    assert_eq!(sig.len(), 64);
    assert_ne!(sig, compute_api_signature(&"k".repeat(32), "1750000001"));
    // A well-known pair.
    assert_eq!(
        compute_api_signature("key", "The quick brown fox jumps over the lazy dog"),
        "f7bc83f430538424b13298e6aa6fb143ef4d59a14946175997479dbc2d1a3cd8"
    );
}

#[test]
fn hex_reads_back_and_rejects_what_is_not_hex() {
    let bytes = [0u8, 1, 15, 16, 127, 128, 255];
    assert_eq!(encode_hex(&bytes), "00010f107f80ff");
    assert_eq!(decode_hex("00010f107f80ff"), Some(bytes.to_vec()));
    assert_eq!(decode_hex("00010F107F80FF"), Some(bytes.to_vec()));
    assert_eq!(decode_hex("abc"), None);
    assert_eq!(decode_hex("zz"), None);
}

#[test]
fn api_keys_go_the_way_that_their_secret_decides() {
    let plain = Some(ApiKeyRow { user_id: 9, secret: None });
    let signed = Some(ApiKeyRow { user_id: 9, secret: Some("k".repeat(32)) });
    assert!(matches!(verify_api_key(&plain), Ok(9)));
    assert!(matches!(verify_api_key(&signed), Err(AuthError::SignedAuthRequired)));
    assert!(matches!(verify_api_key(&None), Err(AuthError::InvalidApiKey)));

    let ts = "1750000000";
    let sig = compute_api_signature(&"k".repeat(32), ts);
    let now = 1_750_000_000;
    assert!(matches!(verify_api_key_signed(&signed, ts, &sig, now), Ok(9)));
    assert!(matches!(
        verify_api_key_signed(&plain, ts, &sig, now),
        Err(AuthError::NoSigningSecret)
    ));
    assert!(matches!(
        verify_api_key_signed(&None, ts, &sig, now),
        Err(AuthError::InvalidApiKey)
    ));
    assert!(matches!(
        verify_api_key_signed(&signed, ts, &"0".repeat(64), now),
        Err(AuthError::SignatureMismatch)
    ));
    assert!(matches!(
        verify_api_key_signed(&signed, "soon", &sig, now),
        Err(AuthError::InvalidTimestamp)
    ));
    assert!(matches!(
        verify_api_key_signed(&signed, ts, "xyz", now),
        Err(AuthError::InvalidEncoding)
    ));
}

#[test]
fn a_password_is_accepted_against_its_own_hash_alone() {
    let hash = hash_password("correct horse").unwrap();
    assert_ne!(hash, "correct horse");
    assert!(check_password("correct horse", &hash).is_ok());
    assert!(matches!(
        check_password("battery staple", &hash),
        Err(AuthError::InvalidCredentials)
    ));
    assert!(check_password("correct horse", "no hash").is_err());
}

#[test]
fn login_answers_with_a_session_of_the_stored_user() {
    let secret = DEV_JWT_SECRET.as_bytes();
    let user = StoredUser {
        id: 6,
        email: "a@b.c".to_string(),
        password_hash: hash_password("password1").unwrap(),
    };
    let with = |password: &str| LoginRequest {
        email: "a@b.c".to_string(),
        password: password.to_string(),
    };
    let answer = login(Some(&user), &with("password1"), secret, NOW, 60).unwrap();
    assert_eq!(answer.user_id, 6);
    assert_eq!(verify_token(&answer.token, secret).unwrap().sub, 6);
    assert!(matches!(
        login(Some(&user), &with("password2"), secret, NOW, 60),
        Err(AuthError::InvalidCredentials)
    ));
    assert!(matches!(
        login(None, &with("password1"), secret, NOW, 60),
        Err(AuthError::InvalidCredentials)
    ));
}

#[test]
fn session_length_follows_its_setting() {
    assert_eq!(access_ttl_secs(None), DEFAULT_ACCESS_TTL_SECS);
    assert_eq!(access_ttl_secs(Some("900")), 900);
    assert_eq!(access_ttl_secs(Some("soon")), DEFAULT_ACCESS_TTL_SECS);
    assert_eq!(access_ttl_secs(Some("0")), DEFAULT_ACCESS_TTL_SECS);
}

#[test]
fn new_users_are_granted_their_opening_balances() {
    assert_eq!(signup_grants(), vec![("USDT", 1_000_000_000_000), ("BTC", 100_000_000)]);
}

#[test]
fn a_new_user_is_stored_under_the_hash_that_was_made() {
    let request = || RegisterRequest {
        email: "ada@example.com".to_string(),
        password: "correct horse".to_string(),
        full_name: None,
    };
    let row = new_user(request(), Some("::1".to_string()), Ok("$2b$12$".to_string())).unwrap();
    assert_eq!(row.email, "ada@example.com");
    assert_eq!(row.password_hash, "$2b$12$");
    assert_eq!(row.full_name, None);
    assert_eq!(row.registration_ip.as_deref(), Some("::1"));
    assert_eq!(
        new_user(request(), None, Err(AuthError::PasswordNotHashed)).unwrap_err(),
        AuthError::PasswordNotHashed
    );
}

#[test]
fn a_new_user_can_log_in_with_the_chosen_password() {
    let row = register(
        RegisterRequest {
            email: "ada@example.com".to_string(),
            password: "correct horse".to_string(),
            full_name: Some("Ada".to_string()),
        },
        Some("1.2.3.4".to_string()),
    )
    .unwrap();
    assert_eq!(row.email, "ada@example.com");
    assert_eq!(row.full_name.as_deref(), Some("Ada"));
    assert_eq!(row.registration_ip.as_deref(), Some("1.2.3.4"));
    let stored = StoredUser { id: 3, email: row.email, password_hash: row.password_hash };
    let attempt = LoginRequest {
        email: "ada@example.com".to_string(),
        password: "correct horse".to_string(),
    };
    let answer = login(Some(&stored), &attempt, DEV_JWT_SECRET.as_bytes(), NOW, 60).unwrap();
    assert_eq!(answer.user_id, 3);
}
