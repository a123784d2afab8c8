use vstd::prelude::*;
use crate::credential::{password_matches, verify_password};
use crate::error::Error;
use crate::model::User;
use crate::payload::{has_at, has_at_exec};
use crate::role::Role;
use crate::token::{check_token, token_of, Clains, TOKEN_LIFETIME};

verus! {

/// `Bearer `, the scheme prefix of the credential header.
pub open spec fn bearer_prefix() -> Seq<u8> {
    seq![66u8, 101, 97, 114, 101, 114, 32]
}

/// What authenticating a request with credential header `header` under
/// `secret` at time `now` yields.
pub open spec fn authenticate(header: Option<Seq<u8>>, secret: Seq<u8>, now: u64) -> Result<
    (Seq<char>, Role, u64),
    Error,
> {
    match header {
        None => Err(Error::MissingToken),
        Some(h) => if !has_at(h, 0, bearer_prefix()) {
            Err(Error::MissingToken)
        } else {
            match check_token(secret, h.subrange(7, h.len() as int), now) {
                Ok(c) => Ok(c),
                Err(e) => Err(Error::Token(e)),
            }
        },
    }
}

/// The bytes of a header value, if present.
pub open spec fn header_view(header: Option<&[u8]>) -> Option<Seq<u8>> {
    match header {
        Some(h) => Some(h@),
        None => None,
    }
}

/// The identity of an authenticated request: the claims of its token.
pub struct IsAuth(pub Clains);

/// Whether an authentication outcome is the one the spec gives.
pub open spec fn auth_outcome(r: Result<IsAuth, Error>, s: Result<(Seq<char>, Role, u64), Error>) -> bool {
    match r {
        Ok(a) => s == Ok::<_, Error>((a.0.username@, a.0.role, a.0.exp)),
        Err(e) => s == Err::<(Seq<char>, Role, u64), _>(e),
    }
}

impl IsAuth {
    /// Authenticates a request from its `Authorization` header value at time
    /// `now`, the current Unix time in seconds: the header must be
    /// `Bearer <token>` and the token must verify.
    pub fn from_header(header: Option<&[u8]>, secret: &[u8], now: u64) -> (r: Result<
        IsAuth,
        Error,
    >)
        ensures
            auth_outcome(r, authenticate(header_view(header), secret@, now)),
    {
        let h = match header {
            Some(h) => h,
            None => {
                return Err(Error::MissingToken);
            },
        };
        let prefix: [u8; 7] = [66u8, 101, 97, 114, 101, 114, 32];
        assert(prefix@ =~= bearer_prefix());
        if !has_at_exec(h, 0, prefix.as_slice()) {
            return Err(Error::MissingToken);
        }
        match Clains::from_token(&h[7..h.len()], secret, now) {
            Ok(c) => Ok(IsAuth(c)),
            Err(e) => Err(Error::Token(e)),
        }
    }
}

/// The outcome of a login whose password check gave `password_ok`, at time
/// `now`: the token, or the failure.
pub open spec fn login_outcome(
    stored: Option<Role>,
    username: Seq<char>,
    password_ok: bool,
    secret: Seq<u8>,
    now: u64,
) -> Result<Seq<u8>, Error> {
    match stored {
        None => Err(Error::InvalidCredentials),
        Some(role) => if !password_ok {
            Err(Error::InvalidCredentials)
        } else if now + TOKEN_LIFETIME > u64::MAX {
            Err(Error::Conversion)
        } else {
            Ok(token_of(secret, username, role, (now + TOKEN_LIFETIME) as u64))
        },
    }
}

pub open spec fn role_of_user(stored: Option<&User>) -> Option<Role> {
    match stored {
        Some(u) => Some(u.role),
        None => None,
    }
}

/// Finishes a login once the password check has given `password_ok`: an
/// unknown user and a wrong password fail alike; otherwise the token for
/// `username` with the stored role, valid from `now` for the fixed lifetime.
pub fn authorize_login(
    stored: Option<&User>,
    username: &str,
    password_ok: bool,
    secret: &[u8],
    now: u64,
) -> (r: Result<Vec<u8>, Error>)
    ensures
        match r {
            Ok(t) => login_outcome(role_of_user(stored), username@, password_ok, secret@, now)
                == Ok::<_, Error>(t@),
            Err(e) => login_outcome(role_of_user(stored), username@, password_ok, secret@, now)
                == Err::<Seq<u8>, _>(e),
        },
{
    let user = match stored {
        Some(u) => u,
        None => {
            return Err(Error::InvalidCredentials);
        },
    };
    if !password_ok {
        return Err(Error::InvalidCredentials);
    }
    match Clains::new(username.to_owned(), user.role, now) {
        Some(c) => Ok(c.to_token(secret)),
        None => Err(Error::Conversion),
    }
}

/// Whether `password` matches the stored user's hash; false for an unknown user.
pub open spec fn credentials_ok(stored: Option<&User>, password: Seq<char>) -> bool {
    match stored {
        Some(u) => password_matches(password, u.password@),
        None => false,
    }
}

/// Logs in `username` with `password` against the stored user, if any, at
/// time `now`, the current Unix time in seconds: an unknown user and a wrong
/// password fail alike; otherwise the token for `username` with the stored
/// role, valid for the fixed lifetime from `now`.
pub fn login(stored: Option<&User>, username: &str, password: &str, secret: &[u8], now: u64) -> (r:
    Result<Vec<u8>, Error>)
    ensures
        match r {
            Ok(t) => login_outcome(
                role_of_user(stored),
                username@,
                credentials_ok(stored, password@),
                secret@,
                now,
            ) == Ok::<_, Error>(t@),
            Err(e) => login_outcome(
                role_of_user(stored),
                username@,
                credentials_ok(stored, password@),
                secret@,
                now,
            ) == Err::<Seq<u8>, _>(e),
        },
{
    let ok = match stored {
        Some(u) => verify_password(password, u.password.as_str()),
        None => false,
    };
    authorize_login(stored, username, ok, secret, now)
}

} // verus!
