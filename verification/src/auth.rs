//! Session and token helpers: bootstrap gating, session cookies, token
//! hashing, and the expiry decision for bearer tokens.

use vstd::prelude::*;
use vstd::string::StringSliceAdditionalSpecFns;

use crate::config::AppConfig;

verus! {

/// Session-authenticated caller attached to a request.
#[derive(Debug, Clone)]
pub struct SessionAuth {
    pub user_id: String,
    pub is_admin: bool,
    pub email: Option<String>,
    pub display_name: Option<String>,
}

/// A session row joined with its user.
#[derive(Debug, Clone)]
pub struct SessionUser {
    pub session_id: String,
    pub user_id: String,
    pub is_admin: bool,
    pub email: Option<String>,
    pub display_name: Option<String>,
}

/// Bootstrap credentials work only while break-glass is on and both are
/// configured.
pub fn is_bootstrap_active(config: &AppConfig) -> (r: bool)
    ensures
        r == (config.break_glass && config.bootstrap_user is Some
            && config.bootstrap_password is Some),
{
    config.break_glass && config.has_bootstrap_creds()
}

/// The session cookie's name.
pub fn cookie_name() -> (r: &'static str)
    ensures
        r@ == "se_session"@,
{
    "se_session"
}

/// A Set-Cookie header value for the session cookie.
pub fn build_cookie(token: &str, max_age: i64, secure: bool) -> (r: String)
    ensures
        r@ == "se_session="@ + token@ + "; Path=/; HttpOnly; SameSite=Lax; Max-Age="@
            + crate::numfmt::spec_dec_i64(max_age as int) + (if secure {
            "; Secure"@
        } else {
            Seq::<char>::empty()
        }),
{
    let mut s = String::from_str("se_session=");
    s.append(token);
    s.append("; Path=/; HttpOnly; SameSite=Lax; Max-Age=");
    let age = crate::numfmt::i64_to_string(max_age);
    s.append(age.as_str());
    if secure {
        s.append("; Secure");
    }
    proof {
        if !secure {
            assert(s@ =~= "se_session="@ + token@ + "; Path=/; HttpOnly; SameSite=Lax; Max-Age="@
                + crate::numfmt::spec_dec_i64(max_age as int) + Seq::<char>::empty());
        }
    }
    s
}

/// A Set-Cookie header value that clears the session cookie.
pub fn clear_cookie(secure: bool) -> (r: String)
    ensures
        r@ == "se_session=; Path=/; HttpOnly; SameSite=Lax; Max-Age=0"@ + (if secure {
            "; Secure"@
        } else {
            Seq::<char>::empty()
        }),
{
    let mut s = String::from_str("se_session=; Path=/; HttpOnly; SameSite=Lax; Max-Age=0");
    if secure {
        s.append("; Secure");
    }
    proof {
        if !secure {
            assert(s@ =~= "se_session=; Path=/; HttpOnly; SameSite=Lax; Max-Age=0"@
                + Seq::<char>::empty());
        }
    }
    s
}

/// A token row joined with its user, as the validation query yields it.
#[derive(Debug, Clone)]
pub struct TokenRow {
    pub token_id: String,
    pub user_id: String,
    pub category_id: Option<String>,
    pub specific_model_id: Option<String>,
    pub revoked: bool,
    /// Expiry timestamp, minutes from the civil epoch; `None` never expires.
    pub expires_at_min: Option<i64>,
    pub internal: bool,
    pub is_admin: bool,
}

/// Why a bearer token was refused.
#[derive(Debug, Clone, Copy, PartialEq, Eq, Structural)]
pub enum TokenError {
    Invalid,
    Revoked,
    Expired,
}

/// The validation decision for a bearer token, given the looked-up row (or
/// none) and the clock: unknown tokens are invalid, revoked ones refused,
/// and expiry is strict.
pub fn token_decision(row: Option<&TokenRow>, now_min: i64) -> (r: Result<
    crate::admission::AuthUser,
    TokenError,
>)
    ensures
        match row {
            None => r == Err::<crate::admission::AuthUser, TokenError>(TokenError::Invalid),
            Some(t) => {
                if t.revoked {
                    r == Err::<crate::admission::AuthUser, TokenError>(TokenError::Revoked)
                } else if t.expires_at_min matches Some(e) && e < now_min {
                    r == Err::<crate::admission::AuthUser, TokenError>(TokenError::Expired)
                } else {
                    r matches Ok(u) && u.user_id@ == t.user_id@ && u.token_id@ == t.token_id@
                        && u.is_admin == t.is_admin && u.is_internal == t.internal && (
                    match (u.category_id, t.category_id) {
                        (Some(a), Some(b)) => a@ == b@,
                        (None, None) => true,
                        _ => false,
                    }) && (match (u.specific_model_id, t.specific_model_id) {
                        (Some(a), Some(b)) => a@ == b@,
                        (None, None) => true,
                        _ => false,
                    })
                }
            },
        },
{
    let t = match row {
        Some(t) => t,
        None => {
            return Err(TokenError::Invalid);
        },
    };
    if t.revoked {
        return Err(TokenError::Revoked);
    }
    if let Some(e) = t.expires_at_min {
        if e < now_min {
            return Err(TokenError::Expired);
        }
    }
    Ok(
        crate::admission::AuthUser {
            user_id: t.user_id.clone(),
            token_id: t.token_id.clone(),
            category_id: match &t.category_id {
                Some(c) => Some(c.clone()),
                None => None,
            },
            specific_model_id: match &t.specific_model_id {
                Some(m) => Some(m.clone()),
                None => None,
            },
            is_admin: t.is_admin,
            is_internal: t.internal,
        },
    )
}

} // verus!
