use vstd::prelude::*;

verus! {

broadcast use vstd::string::group_string_axioms;

/// The claims a session token carries: the user, the role and the expiry (seconds since
/// the Unix epoch).
#[derive(Debug, Clone)]
pub struct Claims {
    pub sub: String,
    pub role: String,
    pub exp: u64,
}

/// How long a session token is valid: 24 hours, in seconds.
pub const TOKEN_LIFETIME_SECS: u64 = 24 * 3600;

/// The fewest bytes a signing secret may have.
pub const MIN_SECRET_LEN: usize = 32;

/// The claims of a token issued at `now` (seconds since the Unix epoch) for `username`
/// with `role`: it expires [`TOKEN_LIFETIME_SECS`] later.
pub fn claims_for(username: &str, role: &str, now: u64) -> (c: Claims)
    requires
        now + TOKEN_LIFETIME_SECS <= u64::MAX,
    ensures
        c.sub@ == username@,
        c.role@ == role@,
        c.exp == now + TOKEN_LIFETIME_SECS,
{
    Claims { sub: username.to_owned(), role: role.to_owned(), exp: now + TOKEN_LIFETIME_SECS }
}

/// The example secret from the documentation, which must never be used.
pub open spec fn placeholder_secret() -> Seq<char> {
    "change-me-to-a-strong-random-secret"@
}

/// What is wrong with a signing secret: fewer than [`MIN_SECRET_LEN`] bytes, or the
/// documentation's placeholder. `None` when it is acceptable.
pub open spec fn secret_problem_spec(secret: &str) -> Option<Seq<char>> {
    if secret.len() < MIN_SECRET_LEN {
        Some(
            "GATEKEEPER_JWT_SECRET must be at least 32 characters of high-entropy randomness; a weak secret allows JWTs to be forged and the admin API to be taken over"@,
        )
    } else if secret@ == placeholder_secret() {
        Some(
            "GATEKEEPER_JWT_SECRET is still set to the example placeholder; generate a unique random secret before running"@,
        )
    } else {
        None
    }
}

/// What is wrong with a signing secret, if anything.
pub fn secret_problem(secret: &str) -> (r: Option<String>)
    ensures
        match r {
            Some(m) => secret_problem_spec(secret) == Some(m@),
            None => secret_problem_spec(secret) is None,
        },
{
    if secret.len() < MIN_SECRET_LEN {
        return Some(
            "GATEKEEPER_JWT_SECRET must be at least 32 characters of high-entropy randomness; a weak secret allows JWTs to be forged and the admin API to be taken over".to_owned(),
        );
    }
    if crate::text::str_eq(secret, "change-me-to-a-strong-random-secret") {
        return Some(
            "GATEKEEPER_JWT_SECRET is still set to the example placeholder; generate a unique random secret before running".to_owned(),
        );
    }
    None
}

} // verus!
