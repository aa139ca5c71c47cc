//! The authorization guard: an authenticated identity and the role gate that
//! every mutating category operation must pass.

use vstd::prelude::*;
use crate::errors::AppError;

verus! {

/// An authenticated identity: a 128-bit token and a free-text role, of which
/// the value "admin" is the privileged one.
pub struct Identity {
    pub id: u128,
    pub role: String,
}

/// Whether a role string names the privileged role.
pub open spec fn spec_is_admin(role: Seq<char>) -> bool {
    role == "admin"@
}

/// Whether this identity carries the privileged role.
pub fn is_admin(ident: &Identity) -> (r: bool)
    ensures
        r == spec_is_admin(ident.role@),
{
    ident.role == "admin".to_owned()
}

/// Whether the guard lets a mutating operation proceed: an identity is
/// present and it carries the privileged role.
pub open spec fn guard_passes(ident: Option<&Identity>) -> bool {
    ident matches Some(u) && spec_is_admin(u.role@)
}

/// The role gate. Fails closed: a missing identity is Unauthenticated, a
/// present identity without the privileged role is Forbidden, distinct from
/// one another; only an admin identity passes.
pub fn require_admin(ident: Option<&Identity>) -> (r: Result<(), AppError>)
    ensures
        ident is None ==> r == Err::<(), AppError>(AppError::Unauthenticated),
        (ident matches Some(u) && !spec_is_admin(u.role@)) ==> r == Err::<(), AppError>(
            AppError::Forbidden,
        ),
        guard_passes(ident) ==> r == Ok::<(), AppError>(()),
        r is Ok <==> guard_passes(ident),
{
    match ident {
        None => Err(AppError::Unauthenticated),
        Some(u) => {
            if is_admin(u) {
                Ok(())
            } else {
                Err(AppError::Forbidden)
            }
        },
    }
}

} // verus!
