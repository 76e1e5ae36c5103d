use vstd::prelude::*;
use vstd::string::StringExecFns;

verus! {

/// Failure taxonomy of the authentication and authorization core.
///
/// `IdentityNotFound` and `InvalidCredential` are kept distinct internally
/// (for auditing) but map to one externally visible outcome, so a caller
/// cannot distinguish an unknown handle from a wrong password.
#[derive(Clone, Copy, Debug, PartialEq, Eq, Structural)]
pub enum AuthError {
    /// Internal error while deriving a credential digest.
    HashingFailure,
    /// A stored credential digest could not be parsed.
    MalformedDigest,
    /// Internal error (clock or signing key) while minting a token.
    IssuanceFailure,
    /// A token's signature does not verify against the service secret.
    InvalidSignature,
    /// A token's expiry lies in the past.
    Expired,
    /// A token cannot be decoded into the expected claim shape.
    Malformed,
    /// A registration handle is already present in the directory.
    DuplicateIdentity,
    /// A role value outside the closed role set.
    InvalidRole,
    /// No identity with the given handle exists.
    IdentityNotFound,
    /// The presented secret does not match the stored digest.
    InvalidCredential,
    /// The identity directory reported a persistence error.
    DirectoryFailure,
}

/// HTTP-equivalent status class of each failure.
pub open spec fn spec_status_code(e: AuthError) -> u16 {
    match e {
        AuthError::HashingFailure => 500,
        AuthError::MalformedDigest => 500,
        AuthError::IssuanceFailure => 500,
        AuthError::InvalidSignature => 401,
        AuthError::Expired => 401,
        AuthError::Malformed => 401,
        AuthError::DuplicateIdentity => 409,
        AuthError::InvalidRole => 400,
        AuthError::IdentityNotFound => 401,
        AuthError::InvalidCredential => 401,
        AuthError::DirectoryFailure => 500,
    }
}

/// The message shown to a caller; deliberately uniform for the two
/// authentication failures.
pub open spec fn spec_public_message(e: AuthError) -> Seq<char> {
    match e {
        AuthError::HashingFailure => "internal error"@,
        AuthError::MalformedDigest => "internal error"@,
        AuthError::IssuanceFailure => "internal error"@,
        AuthError::InvalidSignature => "invalid token"@,
        AuthError::Expired => "invalid token"@,
        AuthError::Malformed => "invalid token"@,
        AuthError::DuplicateIdentity => "identity already exists"@,
        AuthError::InvalidRole => "invalid role"@,
        AuthError::IdentityNotFound => "authentication failed"@,
        AuthError::InvalidCredential => "authentication failed"@,
        AuthError::DirectoryFailure => "internal error"@,
    }
}

impl AuthError {
    /// HTTP-equivalent status class of this failure.
    pub fn status_code(&self) -> (r: u16)
        ensures
            r == spec_status_code(*self),
    {
        match self {
            AuthError::HashingFailure => 500,
            AuthError::MalformedDigest => 500,
            AuthError::IssuanceFailure => 500,
            AuthError::InvalidSignature => 401,
            AuthError::Expired => 401,
            AuthError::Malformed => 401,
            AuthError::DuplicateIdentity => 409,
            AuthError::InvalidRole => 400,
            AuthError::IdentityNotFound => 401,
            AuthError::InvalidCredential => 401,
            AuthError::DirectoryFailure => 500,
        }
    }

    /// The externally visible message for this failure.
    pub fn public_message(&self) -> (r: String)
        ensures
            r@ == spec_public_message(*self),
    {
        match self {
            AuthError::HashingFailure => String::from_str("internal error"),
            AuthError::MalformedDigest => String::from_str("internal error"),
            AuthError::IssuanceFailure => String::from_str("internal error"),
            AuthError::InvalidSignature => String::from_str("invalid token"),
            AuthError::Expired => String::from_str("invalid token"),
            AuthError::Malformed => String::from_str("invalid token"),
            AuthError::DuplicateIdentity => String::from_str("identity already exists"),
            AuthError::InvalidRole => String::from_str("invalid role"),
            AuthError::IdentityNotFound => String::from_str("authentication failed"),
            AuthError::InvalidCredential => String::from_str("authentication failed"),
            AuthError::DirectoryFailure => String::from_str("internal error"),
        }
    }
}

/// An unknown handle and a wrong password are externally indistinguishable:
/// both authentication failures carry the same status and the same message.
pub proof fn lemma_authentication_failures_indistinguishable()
    ensures
        spec_status_code(AuthError::IdentityNotFound) == spec_status_code(
            AuthError::InvalidCredential,
        ),
        spec_public_message(AuthError::IdentityNotFound) == spec_public_message(
            AuthError::InvalidCredential,
        ),
{
}

} // verus!
