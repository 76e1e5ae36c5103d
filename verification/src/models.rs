use vstd::prelude::*;
use vstd::string::StringExecFns;

use crate::bytes::{ascii_of, jtext_wf};
use crate::errors::AuthError;

verus! {

/// The closed role set.
#[derive(Clone, Copy, Debug, PartialEq, Eq, Structural)]
pub enum UserRole {
    User,
    Lawyer,
    Judge,
}

/// The lowercase name of a role.
pub open spec fn role_chars(r: UserRole) -> Seq<char> {
    match r {
        UserRole::User => seq!['u', 's', 'e', 'r'],
        UserRole::Lawyer => seq!['l', 'a', 'w', 'y', 'e', 'r'],
        UserRole::Judge => seq!['j', 'u', 'd', 'g', 'e'],
    }
}

/// The role name as bytes, as it stands inside a token payload.
pub open spec fn role_bytes(r: UserRole) -> Seq<u8> {
    ascii_of(role_chars(r))
}

/// Role names embed in token text fields.
pub proof fn lemma_role_bytes_wf(r: UserRole)
    ensures
        jtext_wf(role_bytes(r)),
        role_bytes(r).len() == role_chars(r).len(),
{
    match r {
        UserRole::User => {
            assert(role_bytes(r) =~= seq![117u8, 115, 101, 114]);
        },
        UserRole::Lawyer => {
            assert(role_bytes(r) =~= seq![108u8, 97, 119, 121, 101, 114]);
        },
        UserRole::Judge => {
            assert(role_bytes(r) =~= seq![106u8, 117, 100, 103, 101]);
        },
    }
}

/// Distinct roles have distinct names.
pub proof fn lemma_role_chars_injective(a: UserRole, b: UserRole)
    requires
        role_chars(a) == role_chars(b),
    ensures
        a == b,
{
}

impl UserRole {
    /// The role's name.
    pub fn as_str(&self) -> (r: String)
        ensures
            r@ == role_chars(*self),
    {
        match self {
            UserRole::User => {
                let s = String::from_str("user");
                proof {
                    reveal_strlit("user");
                    assert(s@ =~= role_chars(UserRole::User));
                }
                s
            },
            UserRole::Lawyer => {
                let s = String::from_str("lawyer");
                proof {
                    reveal_strlit("lawyer");
                    assert(s@ =~= role_chars(UserRole::Lawyer));
                }
                s
            },
            UserRole::Judge => {
                let s = String::from_str("judge");
                proof {
                    reveal_strlit("judge");
                    assert(s@ =~= role_chars(UserRole::Judge));
                }
                s
            },
        }
    }

    /// Parse a role name; anything outside the closed set is rejected.
    pub fn parse(s: &str) -> (r: Result<UserRole, AuthError>)
        ensures
            match r {
                Ok(ro) => s@ == role_chars(ro),
                Err(e) => e == AuthError::InvalidRole && forall|ro: UserRole|
                    s@ != role_chars(ro),
            },
    {
        let ss = String::from_str(s);
        let u = String::from_str("user");
        let l = String::from_str("lawyer");
        let j = String::from_str("judge");
        proof {
            reveal_strlit("user");
            reveal_strlit("lawyer");
            reveal_strlit("judge");
            assert(u@ =~= role_chars(UserRole::User));
            assert(l@ =~= role_chars(UserRole::Lawyer));
            assert(j@ =~= role_chars(UserRole::Judge));
        }
        if ss == u {
            return Ok(UserRole::User);
        }
        if ss == l {
            return Ok(UserRole::Lawyer);
        }
        if ss == j {
            return Ok(UserRole::Judge);
        }
        proof {
            assert forall|ro: UserRole| s@ != role_chars(ro) by {
                match ro {
                    UserRole::User => {},
                    UserRole::Lawyer => {},
                    UserRole::Judge => {},
                }
            }
        }
        Err(AuthError::InvalidRole)
    }
}

/// A registration request: handle, display name, secret, and desired role.
#[derive(Debug)]
pub struct RegisterUser {
    pub username: String,
    pub email: String,
    pub password: String,
    pub role: UserRole,
}

/// A login request: handle and secret.
#[derive(Debug)]
pub struct LoginUser {
    pub email: String,
    pub password: String,
}

} // verus!
