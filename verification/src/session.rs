use vstd::prelude::*;
use vstd::string::{StrSliceExecFns, StringExecFns, StringSliceAdditionalSpecFns};
use vstd::utf8::is_ascii_chars;

use crate::bytes::{ascii_of, jtext_wf};
use crate::directory::{Directory, Identity};
use crate::errors::AuthError;
use crate::hasher::{
    digest_matches, digest_params, digest_wf, hash_password, verify_password, HASH_M_COST,
    HASH_P_COST, HASH_T_COST,
};
use crate::jwt::{create_jwt, now_timestamp, token_of, TOKEN_VALIDITY_SECS};
use crate::models::{role_bytes, role_chars, RegisterUser, UserRole};

verus! {

/// Body of a successful registration or login: the minted token and the
/// role's name.
#[derive(Debug)]
pub struct AuthResponse {
    pub token: String,
    pub role: String,
}

/// Shape of a generated identity id: the 36-character hyphenated lowercase
/// hex form of a 128-bit identifier.
pub open spec fn uuid_text(s: Seq<char>) -> bool {
    s.len() == 36 && forall|i: int|
        0 <= i < s.len() ==> ('0' <= #[trigger] s[i] <= '9' || 'a' <= s[i] <= 'f' || s[i] == '-')
}

/// Relies on uuid's `Uuid::new_v4` and its hyphenated `to_string`: 36 ASCII
/// characters, lowercase hex digits and hyphens; nothing is assumed of which
/// value comes back.
#[verifier::external_body]
fn fresh_identity_id() -> (r: String)
    ensures
        uuid_text(r@),
{
    uuid::Uuid::new_v4().to_string()
}

/// Generated ids embed in token text fields.
proof fn lemma_id_text_wf(s: Seq<char>)
    requires
        forall|i: int|
            0 <= i < s.len() ==> ('0' <= #[trigger] s[i] <= '9' || 'a' <= s[i] <= 'f' || s[i]
                == '-'),
    ensures
        jtext_wf(ascii_of(s)),
        is_ascii_chars(s),
{
    assert forall|i: int|
        0 <= i < ascii_of(s).len() implies 32 <= #[trigger] ascii_of(s)[i] && ascii_of(s)[i]
        < 127 && ascii_of(s)[i] != 34 && ascii_of(s)[i] != 92 by {
        assert(ascii_of(s)[i] == s[i] as u8);
    }
}

/// Role names are ASCII.
proof fn lemma_role_chars_ascii(r: UserRole)
    ensures
        is_ascii_chars(role_chars(r)),
{
    match r {
        UserRole::User => {},
        UserRole::Lawyer => {},
        UserRole::Judge => {},
    }
}

/// What registration leaves behind, for a directory, a request, and an
/// outcome.
pub open spec fn register_post(
    old_dir: Directory,
    new_dir: Directory,
    username: Seq<char>,
    email: Seq<char>,
    password: Seq<char>,
    role: UserRole,
    sb: Seq<u8>,
    r: Result<AuthResponse, AuthError>,
) -> bool {
    &&& new_dir.wf()
    &&& (old_dir.has_handle(email) ==> r == Err::<AuthResponse, AuthError>(
        AuthError::DuplicateIdentity,
    ) && new_dir.records@ == old_dir.records@)
    &&& (!old_dir.has_handle(email) ==> match r {
        Ok(resp) => {
            &&& new_dir.records@.len() == old_dir.records@.len() + 1
            &&& new_dir.records@.subrange(0, old_dir.records@.len() as int)
                == old_dir.records@
            &&& new_dir.records@.last().email@ == email
            &&& new_dir.records@.last().username@ == username
            &&& new_dir.records@.last().role == role
            &&& digest_wf(new_dir.records@.last().digest@)
            &&& digest_matches(new_dir.records@.last().digest@, password)
            &&& digest_params(new_dir.records@.last().digest@) == (
                HASH_M_COST,
                HASH_T_COST,
                HASH_P_COST,
            )
            &&& uuid_text(new_dir.records@.last().id@)
            &&& jtext_wf(ascii_of(new_dir.records@.last().id@))
            &&& resp.role@ == role_chars(role)
            &&& is_ascii_chars(resp.token@)
            &&& exists|e: nat|
                TOKEN_VALIDITY_SECS as nat <= e <= usize::MAX && ascii_of(resp.token@)
                    == #[trigger] token_of(
                    ascii_of(new_dir.records@.last().id@),
                    role_bytes(role),
                    e,
                    sb,
                )
        },
        Err(e) => (e == AuthError::HashingFailure || e == AuthError::IssuanceFailure)
            && new_dir.records@ == old_dir.records@,
    })
}

/// Register a new identity: refuse a known handle, hash the secret, persist
/// the identity, and mint a token carrying the new id and role.
pub fn register_user(dir: &mut Directory, payload: &RegisterUser, secret: &str) -> (r: Result<
    AuthResponse,
    AuthError,
>)
    requires
        old(dir).wf(),
    ensures
        register_post(
            *old(dir),
            *final(dir),
            payload.username@,
            payload.email@,
            payload.password@,
            payload.role,
            secret.spec_bytes(),
            r,
        ),
{
    if let Some(_) = dir.find_index(payload.email.as_str()) {
        return Err(AuthError::DuplicateIdentity);
    }
    let digest = match hash_password(payload.password.as_str()) {
        Ok(d) => d,
        Err(e) => {
            return Err(e);
        },
    };
    let id = fresh_identity_id();
    proof {
        assert(uuid_text(id@));
        lemma_id_text_wf(id@);
        lemma_role_chars_ascii(payload.role);
        crate::models::lemma_role_bytes_wf(payload.role);
    }
    let now = now_timestamp();
    let role_str = payload.role.as_str();
    let id_ref = id.as_str();
    let role_ref = role_str.as_str();
    proof {
        vstd::string::is_ascii_spec_bytes(id_ref);
        vstd::string::is_ascii_spec_bytes(role_ref);
        assert(id_ref.spec_bytes() =~= ascii_of(id@));
        assert(role_ref.spec_bytes() =~= ascii_of(role_chars(payload.role)));
    }
    let token = match create_jwt(id_ref, role_ref, secret) {
        Ok(t) => t,
        Err(_) => {
            return Err(AuthError::IssuanceFailure);
        },
    };
    let rec = Identity {
        id,
        username: payload.username.clone(),
        email: payload.email.clone(),
        digest,
        role: payload.role,
        created_at: now,
    };
    match dir.insert(rec) {
        Ok(()) => {
            proof {
                assert(dir.records@.last() == dir.records@[dir.records@.len() - 1]);
                assert(dir.records@.subrange(0, old(dir).records@.len() as int)
                    =~= old(dir).records@);
            }
            Ok(AuthResponse { token, role: role_str })
        },
        Err(_) => {
            // unreachable: the handle was checked to be absent just above
            proof {
                assert(false);
            }
            Err(AuthError::DirectoryFailure)
        },
    }
}

/// Register with a role given as text: a name outside the closed role set is
/// refused and nothing is persisted.
pub fn register_with_role_str(
    dir: &mut Directory,
    username: &str,
    email: &str,
    password: &str,
    role: &str,
    secret: &str,
) -> (r: Result<AuthResponse, AuthError>)
    requires
        old(dir).wf(),
    ensures
        final (dir).wf(),
        (forall|ro: UserRole| role@ != role_chars(ro)) ==> r == Err::<AuthResponse, AuthError>(
            AuthError::InvalidRole,
        ) && final (dir).records@ == old(dir).records@,
        forall|ro: UserRole|
            role@ == role_chars(ro) ==> register_post(
                *old(dir),
                *final (dir),
                username@,
                email@,
                password@,
                ro,
                secret.spec_bytes(),
                r,
            ),
{
    let ro = match UserRole::parse(role) {
        Ok(ro) => ro,
        Err(e) => {
            return Err(e);
        },
    };
    let payload = RegisterUser {
        username: String::from_str(username),
        email: String::from_str(email),
        password: String::from_str(password),
        role: ro,
    };
    let r = register_user(dir, &payload, secret);
    proof {
        assert forall|ro2: UserRole| role@ == role_chars(ro2) implies ro2 == ro by {
            crate::models::lemma_role_chars_injective(ro, ro2);
        }
    }
    r
}

/// What login returns, for a directory, a request, and an outcome.
pub open spec fn login_post(
    dir: Directory,
    email: Seq<char>,
    password: Seq<char>,
    sb: Seq<u8>,
    r: Result<AuthResponse, AuthError>,
) -> bool {
    &&& (!dir.has_handle(email) ==> r == Err::<AuthResponse, AuthError>(
        AuthError::IdentityNotFound,
    ))
    &&& forall|i: int|
        0 <= i < dir.records@.len() && (#[trigger] dir.records@[i]).email@ == email ==> match r {
            Ok(resp) => {
                &&& digest_wf(dir.records@[i].digest@)
                &&& digest_matches(dir.records@[i].digest@, password)
                &&& resp.role@ == role_chars(dir.records@[i].role)
                &&& is_ascii_chars(resp.token@)
                &&& exists|e: nat|
                    TOKEN_VALIDITY_SECS as nat <= e <= usize::MAX && ascii_of(resp.token@)
                        == #[trigger] token_of(
                        ascii_of(dir.records@[i].id@),
                        role_bytes(dir.records@[i].role),
                        e,
                        sb,
                    )
            },
            Err(e) => {
                ||| e == AuthError::InvalidCredential && digest_wf(dir.records@[i].digest@)
                    && !digest_matches(dir.records@[i].digest@, password)
                ||| e == AuthError::MalformedDigest && !digest_wf(dir.records@[i].digest@)
                ||| e == AuthError::IssuanceFailure && digest_wf(dir.records@[i].digest@)
                    && digest_matches(dir.records@[i].digest@, password)
            },
        }
}

/// Log an identity in: an unknown handle and a wrong secret are both
/// authentication failures; on success a token carries the stored id and
/// role.
pub fn login_user(dir: &Directory, payload: &crate::models::LoginUser, secret: &str) -> (r:
    Result<AuthResponse, AuthError>)
    requires
        dir.wf(),
    ensures
        login_post(*dir, payload.email@, payload.password@, secret.spec_bytes(), r),
{
    let idx = match dir.find_index(payload.email.as_str()) {
        None => {
            return Err(AuthError::IdentityNotFound);
        },
        Some(i) => i,
    };
    let matches_digest = match verify_password(
        payload.password.as_str(),
        dir.records[idx].digest.as_str(),
    ) {
        Ok(b) => b,
        Err(e) => {
            proof {
                lemma_unique_handle(dir, idx as int, payload.email@);
            }
            return Err(e);
        },
    };
    if !matches_digest {
        proof {
            lemma_unique_handle(dir, idx as int, payload.email@);
        }
        return Err(AuthError::InvalidCredential);
    }
    let role_str = dir.records[idx].role.as_str();
    let id_ref = dir.records[idx].id.as_str();
    let role_ref = role_str.as_str();
    proof {
        lemma_role_chars_ascii(dir.records@[idx as int].role);
        crate::models::lemma_role_bytes_wf(dir.records@[idx as int].role);
        assert(jtext_wf(ascii_of(dir.records@[idx as int].id@)));
        assert(is_ascii_chars(id_ref@));
        vstd::string::is_ascii_spec_bytes(id_ref);
        vstd::string::is_ascii_spec_bytes(role_ref);
        assert(id_ref.spec_bytes() =~= ascii_of(dir.records@[idx as int].id@));
        assert(role_ref.spec_bytes() =~= ascii_of(role_chars(dir.records@[idx as int].role)));
    }
    let token = match create_jwt(id_ref, role_ref, secret) {
        Ok(t) => t,
        Err(_) => {
            proof {
                lemma_unique_handle(dir, idx as int, payload.email@);
            }
            return Err(AuthError::IssuanceFailure);
        },
    };
    proof {
        lemma_unique_handle(dir, idx as int, payload.email@);
    }
    Ok(AuthResponse { token, role: role_str })
}

/// In a well-formed directory only one record carries a handle.
proof fn lemma_unique_handle(dir: &Directory, idx: int, email: Seq<char>)
    requires
        dir.wf(),
        0 <= idx < dir.records@.len(),
        dir.records@[idx].email@ == email,
    ensures
        forall|i: int|
            0 <= i < dir.records@.len() && (#[trigger] dir.records@[i]).email@ == email ==> i
                == idx,
{
    assert forall|i: int|
        0 <= i < dir.records@.len() && (#[trigger] dir.records@[i]).email@ == email implies i
        == idx by {
        if i < idx {
            assert(dir.records@[i].email@ != dir.records@[idx].email@);
        }
        if i > idx {
            assert(dir.records@[idx].email@ != dir.records@[i].email@);
        }
    }
}

} // verus!
