//! Credential-and-claims authority for a case-management service.
//!
//! The crate covers the authentication and authorization core: credential
//! hashing, signed token issuance and validation, role-based access
//! decisions, and the session issuer that orchestrates registration and
//! login against an identity directory.

pub mod appnum;
pub mod b64;
pub mod claims_json;
pub mod numstr;
pub mod bytes;
pub mod directory;
pub mod errors;
pub mod hasher;
pub mod models;
pub mod jwt;
pub mod policy;
pub mod session;

pub use appnum::generate_application_number;
pub use directory::{Directory, Identity};
pub use errors::AuthError;
pub use policy::{authorize, authorize_owner_or_roles};
pub use session::{register_user, register_with_role_str, login_user, AuthResponse};
pub use hasher::{hash_password, verify_password};
pub use models::{LoginUser, RegisterUser, UserRole};
pub use jwt::{Claims, create_jwt, verify_jwt, issue_at, parse_at};
