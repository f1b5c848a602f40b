//! The access guard: resolves a caller's authorization header into a
//! verified identity before any protected operation runs.

use vstd::prelude::*;
use vstd::string::StrSliceExecFns;

use crate::errors::AuthError;
use crate::models::AuthenticatedUser;
use crate::strutil::str_eq;
use crate::token::{token_claims, PasetoManager};

verus! {

/// Whether a header value follows the `Bearer <token>` convention.
pub open spec fn bearer_shaped(h: Seq<char>) -> bool {
    h.len() >= 7 && h.take(7) == "Bearer "@
}

/// The token a bearer header carries.
pub open spec fn bearer_token(h: Seq<char>) -> Seq<char> {
    h.skip(7)
}

/// Resolves the authorization header into the authenticated user id:
/// a missing header fails `MissingCredential`, one that does not
/// follow the bearer convention fails `MalformedCredential`, and the
/// carried token goes to the token authority, whose failure kinds
/// pass through unchanged.
pub fn authenticate(manager: &PasetoManager, header: Option<&str>) -> (r: Result<
    AuthenticatedUser,
    AuthError,
>)
    requires
        manager.wf(),
    ensures
        match header {
            None => r == Err::<AuthenticatedUser, AuthError>(AuthError::MissingCredential),
            Some(h) => if !bearer_shaped(h@) {
                r == Err::<AuthenticatedUser, AuthError>(AuthError::MalformedCredential)
            } else {
                match r {
                    Ok(u) => match token_claims(manager.key_v(), bearer_token(h@)) {
                        Some(c) => u.user_id@ == c.0,
                        None => false,
                    },
                    Err(e) => match token_claims(manager.key_v(), bearer_token(h@)) {
                        Some(_) => e == AuthError::Expired,
                        None => e == AuthError::Malformed,
                    },
                }
            },
        },
{
    let h = match header {
        Some(h) => h,
        None => {
            return Err(AuthError::MissingCredential);
        },
    };
    let len = h.unicode_len();
    if len < 7 {
        return Err(AuthError::MalformedCredential);
    }
    let prefix = h.substring_char(0, 7);
    if !str_eq(prefix, "Bearer ") {
        proof {
            assert(prefix@ =~= h@.take(7));
        }
        return Err(AuthError::MalformedCredential);
    }
    proof {
        assert(prefix@ =~= h@.take(7));
    }
    let token = h.substring_char(7, len);
    proof {
        assert(token@ =~= bearer_token(h@));
    }
    match manager.verify_token(token) {
        Ok(claims) => Ok(AuthenticatedUser { user_id: claims.sub }),
        Err(e) => Err(e),
    }
}

} // verus!
