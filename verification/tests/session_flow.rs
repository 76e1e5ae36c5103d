use bailbridge::{
    generate_application_number, login_user, register_user, register_with_role_str, verify_jwt,
    AuthError, Directory, LoginUser, RegisterUser, UserRole,
};

const SECRET: &str = "session-test-signing-secret";

fn registration(email: &str, password: &str, role: UserRole) -> RegisterUser {
    RegisterUser {
        username: "Ada".to_string(),
        email: email.to_string(),
        password: password.to_string(),
        role,
    }
}

#[test]
fn register_returns_a_token_with_the_chosen_role() {
    let mut dir = Directory::new();
    let resp = register_user(&mut dir, &registration("a@x.com", "pw-1", UserRole::Lawyer), SECRET)
        .expect("registration should succeed");
    assert_eq!(resp.role, "lawyer");
    let claims = verify_jwt(&resp.token, SECRET).expect("fresh token should verify");
    assert_eq!(claims.role, "lawyer");
    assert_eq!(claims.sub.len(), 36, "the subject should be a generated 36-char id");
    assert_eq!(dir.len(), 1);
}

#[test]
fn second_registration_with_same_handle_is_a_duplicate() {
    let mut dir = Directory::new();
    register_user(&mut dir, &registration("a@x.com", "pw-1", UserRole::Lawyer), SECRET)
        .expect("first registration should succeed");
    let r = register_user(&mut dir, &registration("a@x.com", "pw-2", UserRole::User), SECRET);
    assert_eq!(r.unwrap_err(), AuthError::DuplicateIdentity);
    assert_eq!(dir.len(), 1);
}

#[test]
fn login_succeeds_with_the_registered_password() {
    let mut dir = Directory::new();
    register_user(&mut dir, &registration("b@x.com", "open sesame", UserRole::Judge), SECRET)
        .expect("registration should succeed");
    let resp = login_user(
        &dir,
        &LoginUser { email: "b@x.com".to_string(), password: "open sesame".to_string() },
        SECRET,
    )
    .expect("login should succeed");
    assert_eq!(resp.role, "judge");
    let claims = verify_jwt(&resp.token, SECRET).expect("fresh token should verify");
    assert_eq!(claims.role, "judge");
}

#[test]
fn wrong_password_and_unknown_handle_look_the_same_outside() {
    let mut dir = Directory::new();
    register_user(&mut dir, &registration("c@x.com", "right-pw", UserRole::User), SECRET)
        .expect("registration should succeed");
    let wrong_pw = login_user(
        &dir,
        &LoginUser { email: "c@x.com".to_string(), password: "wrong-pw".to_string() },
        SECRET,
    )
    .unwrap_err();
    let unknown = login_user(
        &dir,
        &LoginUser { email: "nobody@x.com".to_string(), password: "right-pw".to_string() },
        SECRET,
    )
    .unwrap_err();
    // internally distinct, externally uniform
    assert_eq!(wrong_pw, AuthError::InvalidCredential);
    assert_eq!(unknown, AuthError::IdentityNotFound);
    assert_eq!(wrong_pw.status_code(), unknown.status_code());
    assert_eq!(wrong_pw.public_message(), unknown.public_message());
    assert_eq!(wrong_pw.public_message(), "authentication failed");
}

#[test]
fn role_outside_the_closed_set_is_rejected_and_nothing_persists() {
    let mut dir = Directory::new();
    let r = register_with_role_str(&mut dir, "Ada", "d@x.com", "pw", "admin", SECRET);
    assert_eq!(r.unwrap_err(), AuthError::InvalidRole);
    assert_eq!(dir.len(), 0);
}

#[test]
fn role_in_the_closed_set_registers_through_the_text_form() {
    let mut dir = Directory::new();
    let resp = register_with_role_str(&mut dir, "Ada", "e@x.com", "pw", "lawyer", SECRET)
        .expect("registration should succeed");
    assert_eq!(resp.role, "lawyer");
    assert_eq!(dir.len(), 1);
}

#[test]
fn registered_token_subject_matches_the_stored_identity() {
    let mut dir = Directory::new();
    let resp = register_user(&mut dir, &registration("f@x.com", "pw", UserRole::User), SECRET)
        .expect("registration should succeed");
    let claims = verify_jwt(&resp.token, SECRET).expect("fresh token should verify");
    let login = login_user(
        &dir,
        &LoginUser { email: "f@x.com".to_string(), password: "pw".to_string() },
        SECRET,
    )
    .expect("login should succeed");
    let login_claims = verify_jwt(&login.token, SECRET).expect("fresh token should verify");
    assert_eq!(claims.sub, login_claims.sub, "register and login mint tokens for one identity");
}

#[test]
fn application_numbers_have_the_documented_shape() {
    let n = generate_application_number();
    assert!(n.starts_with("BAIL-"));
    let suffix = n.rsplit('-').next().unwrap();
    assert_eq!(suffix.len(), 4);
    assert!(suffix.bytes().all(|b| b.is_ascii_digit()));
}
