//! Request admission: the fixed order of checks ahead of slot acquisition,
//! reservation rule, and usage attribution for internal credentials.

use vstd::prelude::*;

use crate::reservation::ActiveReservation;
use crate::resolver::{ResolveError, ResolvedModel};

verus! {

/// The authenticated caller, as token validation yields it.
#[derive(Debug, Clone)]
pub struct AuthUser {
    pub user_id: String,
    pub token_id: String,
    pub category_id: Option<String>,
    pub specific_model_id: Option<String>,
    pub is_admin: bool,
    pub is_internal: bool,
}

/// A `user` email resolved to a bookkeeping token for usage attribution.
#[derive(Debug, Clone)]
pub struct MetaResolution {
    pub user_id: String,
    pub token_id: String,
}

/// Why a request was refused before slot acquisition.
#[derive(Debug, Clone, Copy, PartialEq, Eq, Structural)]
pub enum AdmissionError {
    ModelNotFound,
    CategoryEmpty,
    ModelNotLoaded,
    SystemReserved,
}

/// An active reservation blocks this caller: someone else holds the system
/// and the caller's credential is not internal. Admin status grants no
/// bypass; only the internal flag does.
pub open spec fn spec_reservation_blocks(
    active: Option<ActiveReservation>,
    user_id: Seq<char>,
    is_internal: bool,
) -> bool {
    !is_internal && (active matches Some(a) && a.user_id@ != user_id)
}

pub fn reservation_blocks(active: &Option<ActiveReservation>, user_id: &str, is_internal: bool) -> (r:
    bool)
    ensures
        r == spec_reservation_blocks(*active, user_id@, is_internal),
{
    if is_internal {
        return false;
    }
    match active {
        Some(a) => !crate::util::str_eq(a.user_id.as_str(), user_id),
        None => false,
    }
}

/// The admission decision for a resolved request, in the fixed order:
/// resolution failure first, then the loaded check, then — only for loaded
/// models — the reservation rule, so an unloaded model never masks as
/// "reserved".
pub fn admission_decision(
    resolved: Result<ResolvedModel, ResolveError>,
    active: &Option<ActiveReservation>,
    user_id: &str,
    is_internal: bool,
) -> (r: Result<ResolvedModel, AdmissionError>)
    ensures
        match resolved {
            Err(ResolveError::ModelNotFound) => r == Err::<ResolvedModel, AdmissionError>(
                AdmissionError::ModelNotFound,
            ),
            Err(ResolveError::CategoryEmpty) => r == Err::<ResolvedModel, AdmissionError>(
                AdmissionError::CategoryEmpty,
            ),
            Ok(m) => if !m.loaded {
                r == Err::<ResolvedModel, AdmissionError>(AdmissionError::ModelNotLoaded)
            } else if spec_reservation_blocks(*active, user_id@, is_internal) {
                r == Err::<ResolvedModel, AdmissionError>(AdmissionError::SystemReserved)
            } else {
                r == Ok::<ResolvedModel, AdmissionError>(m)
            },
        },
{
    let m = match resolved {
        Ok(m) => m,
        Err(ResolveError::ModelNotFound) => {
            return Err(AdmissionError::ModelNotFound);
        },
        Err(ResolveError::CategoryEmpty) => {
            return Err(AdmissionError::CategoryEmpty);
        },
    };
    if !m.loaded {
        return Err(AdmissionError::ModelNotLoaded);
    }
    if reservation_blocks(active, user_id, is_internal) {
        return Err(AdmissionError::SystemReserved);
    }
    Ok(m)
}

/// Who a completed request is logged under: the meta token's owner when the
/// request arrived on an internal credential and the email resolved, and the
/// credential's own owner otherwise.
pub fn attribute_usage(auth: &AuthUser, meta: &Option<MetaResolution>) -> (r: (String, String))
    ensures
        auth.is_internal ==> (meta matches Some(m) ==> r.0@ == m.user_id@ && r.1@ == m.token_id@),
        !(auth.is_internal && meta is Some) ==> r.0@ == auth.user_id@ && r.1@ == auth.token_id@,
{
    if auth.is_internal {
        match meta {
            Some(m) => (m.user_id.clone(), m.token_id.clone()),
            None => (auth.user_id.clone(), auth.token_id.clone()),
        }
    } else {
        (auth.user_id.clone(), auth.token_id.clone())
    }
}

} // verus!
