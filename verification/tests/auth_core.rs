use bailbridge::{
    authorize, authorize_owner_or_roles, hash_password, issue_at, parse_at, verify_password,
    AuthError, Claims, UserRole,
};

const SECRET: &str = "unit-test-signing-secret";

#[test]
fn hash_then_verify_accepts_the_same_plaintext() {
    let digest = hash_password("correct horse battery staple").expect("hashing should succeed");
    let ok = verify_password("correct horse battery staple", &digest)
        .expect("digest should parse");
    assert!(ok);
}

#[test]
fn verify_rejects_a_different_plaintext() {
    let digest = hash_password("first secret").expect("hashing should succeed");
    let ok = verify_password("second secret", &digest).expect("digest should parse");
    assert!(!ok);
}

#[test]
fn two_hashes_of_one_plaintext_differ_yet_both_verify() {
    let d1 = hash_password("same plaintext").expect("hashing should succeed");
    let d2 = hash_password("same plaintext").expect("hashing should succeed");
    assert_ne!(d1, d2);
    assert!(verify_password("same plaintext", &d1).unwrap());
    assert!(verify_password("same plaintext", &d2).unwrap());
}

#[test]
fn verify_rejects_a_malformed_digest() {
    let r = verify_password("anything", "not a phc string");
    assert_eq!(r, Err(AuthError::MalformedDigest));
}

#[test]
fn token_round_trip_recovers_sub_role_and_exp() {
    let token = issue_at("7f1e9d04-1111-2222-3333-444455556666", "lawyer", 4_000_000, SECRET);
    let claims = parse_at(&token, SECRET, 1_000_000).expect("fresh token should parse");
    assert_eq!(claims.sub, "7f1e9d04-1111-2222-3333-444455556666");
    assert_eq!(claims.role, "lawyer");
    assert_eq!(claims.exp, 4_000_000);
}

#[test]
fn token_is_three_base64url_segments() {
    let token = issue_at("subject-1", "user", 99, SECRET);
    let parts: Vec<&str> = token.split('.').collect();
    assert_eq!(parts.len(), 3);
    for part in parts {
        assert!(!part.is_empty());
        assert!(part
            .bytes()
            .all(|b| b.is_ascii_alphanumeric() || b == b'-' || b == b'_'));
    }
}

#[test]
fn flipped_signature_byte_fails_with_invalid_signature() {
    let token = issue_at("subject-2", "judge", 4_000_000, SECRET);
    let dot = token.rfind('.').unwrap();
    let mut bytes = token.into_bytes();
    let last = *bytes.last().unwrap();
    assert!(dot < bytes.len() - 1);
    let n = bytes.len();
    bytes[n - 1] = if last == b'A' { b'B' } else { b'A' };
    let tampered = String::from_utf8(bytes).unwrap();
    let r = parse_at(&tampered, SECRET, 1_000_000);
    assert_eq!(r.unwrap_err(), AuthError::InvalidSignature);
}

#[test]
fn tampered_payload_fails_with_invalid_signature() {
    let token = issue_at("subject-3", "user", 4_000_000, SECRET);
    let honest = issue_at("subject-x", "user", 4_000_000, SECRET);
    let sig = token.rsplit('.').next().unwrap();
    let mut parts: Vec<&str> = honest.split('.').collect();
    parts[2] = sig;
    let franken = parts.join(".");
    let r = parse_at(&franken, SECRET, 1_000_000);
    assert_eq!(r.unwrap_err(), AuthError::InvalidSignature);
}

#[test]
fn wrong_secret_fails_with_invalid_signature() {
    let token = issue_at("subject-4", "user", 4_000_000, SECRET);
    let r = parse_at(&token, "a different secret", 1_000_000);
    assert_eq!(r.unwrap_err(), AuthError::InvalidSignature);
}

#[test]
fn past_expiry_fails_with_expired() {
    let token = issue_at("subject-5", "user", 1_000, SECRET);
    let r = parse_at(&token, SECRET, 2_000);
    assert_eq!(r.unwrap_err(), AuthError::Expired);
    // the boundary: a token is invalid at its own expiry second
    let r = parse_at(&issue_at("subject-5", "user", 2_000, SECRET), SECRET, 2_000);
    assert_eq!(r.unwrap_err(), AuthError::Expired);
}

#[test]
fn garbage_tokens_fail_with_malformed() {
    assert_eq!(parse_at("", SECRET, 0).unwrap_err(), AuthError::Malformed);
    assert_eq!(parse_at("nonsense", SECRET, 0).unwrap_err(), AuthError::Malformed);
    assert_eq!(parse_at("a.b", SECRET, 0).unwrap_err(), AuthError::Malformed);
}

#[test]
fn authorize_checks_role_membership() {
    let user_claims = Claims { sub: "id-1".to_string(), role: "user".to_string(), exp: 10 };
    let judge_claims = Claims { sub: "id-2".to_string(), role: "judge".to_string(), exp: 10 };
    let required = vec![UserRole::Lawyer, UserRole::Judge];
    assert!(!authorize(&user_claims, &required));
    assert!(authorize(&judge_claims, &required));
}

#[test]
fn authorize_denies_on_empty_required_set() {
    let claims = Claims { sub: "id-3".to_string(), role: "judge".to_string(), exp: 10 };
    assert!(!authorize(&claims, &vec![]));
}

#[test]
fn owner_override_allows_the_record_owner() {
    let claims = Claims { sub: "owner-9".to_string(), role: "user".to_string(), exp: 10 };
    let required = vec![UserRole::Lawyer, UserRole::Judge];
    assert!(authorize_owner_or_roles(&claims, "owner-9", &required));
    assert!(!authorize_owner_or_roles(&claims, "someone-else", &required));
}

#[test]
fn role_names_parse_exactly() {
    assert_eq!(UserRole::parse("user"), Ok(UserRole::User));
    assert_eq!(UserRole::parse("lawyer"), Ok(UserRole::Lawyer));
    assert_eq!(UserRole::parse("judge"), Ok(UserRole::Judge));
    assert_eq!(UserRole::parse("admin"), Err(AuthError::InvalidRole));
    assert_eq!(UserRole::parse("Judge"), Err(AuthError::InvalidRole));
    assert_eq!(UserRole::parse(""), Err(AuthError::InvalidRole));
}

#[test]
fn role_names_round_trip() {
    for role in [UserRole::User, UserRole::Lawyer, UserRole::Judge] {
        assert_eq!(UserRole::parse(&role.as_str()), Ok(role));
    }
}

#[test]
fn error_statuses_follow_the_taxonomy() {
    assert_eq!(AuthError::HashingFailure.status_code(), 500);
    assert_eq!(AuthError::MalformedDigest.status_code(), 500);
    assert_eq!(AuthError::IssuanceFailure.status_code(), 500);
    assert_eq!(AuthError::InvalidSignature.status_code(), 401);
    assert_eq!(AuthError::Expired.status_code(), 401);
    assert_eq!(AuthError::Malformed.status_code(), 401);
    assert_eq!(AuthError::DuplicateIdentity.status_code(), 409);
    assert_eq!(AuthError::InvalidRole.status_code(), 400);
    assert_eq!(AuthError::IdentityNotFound.status_code(), 401);
    assert_eq!(AuthError::InvalidCredential.status_code(), 401);
    assert_eq!(AuthError::DirectoryFailure.status_code(), 500);
}

#[test]
fn empty_password_hashes_and_verifies() {
    let digest = hash_password("").expect("hashing should succeed");
    assert!(verify_password("", &digest).unwrap());
    assert!(!verify_password("x", &digest).unwrap());
}

#[test]
fn maximal_expiry_round_trips() {
    let token = issue_at("subject-6", "user", usize::MAX, SECRET);
    let claims = parse_at(&token, SECRET, usize::MAX - 1).expect("token should parse");
    assert_eq!(claims.exp, usize::MAX);
}

#[test]
fn digest_embeds_the_fixed_cost_parameters() {
    let digest = hash_password("pw").expect("hashing should succeed");
    assert!(digest.starts_with("$argon2id$"));
    assert!(digest.contains("m=19456,t=2,p=1"));
}
