use vstd::prelude::*;
use vstd::string::StringExecFns;

use crate::jwt::Claims;
use crate::models::{role_chars, UserRole};

verus! {

/// Whether a role name is one of a set of required roles.
pub open spec fn role_allowed(role: Seq<char>, required: Seq<UserRole>) -> bool {
    exists|i: int| 0 <= i < required.len() && role == role_chars(#[trigger] required[i])
}

/// Allow exactly when the caller's role is one of the required roles.
pub fn authorize(claims: &Claims, required: &Vec<UserRole>) -> (allow: bool)
    ensures
        allow == role_allowed(claims.role@, required@),
{
    let mut i: usize = 0;
    while i < required.len()
        invariant
            i <= required@.len(),
            forall|j: int| 0 <= j < i ==> claims.role@ != role_chars(#[trigger] required@[j]),
        decreases required@.len() - i,
    {
        let rs = required[i].as_str();
        if claims.role == rs {
            proof {
                assert(claims.role@ == role_chars(required@[i as int]));
            }
            return true;
        }
        i += 1;
    }
    false
}

/// Allow when the caller owns the record or the role check passes.
pub fn authorize_owner_or_roles(
    claims: &Claims,
    record_owner_id: &str,
    required: &Vec<UserRole>,
) -> (allow: bool)
    ensures
        allow == (claims.sub@ == record_owner_id@ || role_allowed(claims.role@, required@)),
{
    let owner = String::from_str(record_owner_id);
    if claims.sub == owner {
        return true;
    }
    authorize(claims, required)
}

} // verus!
