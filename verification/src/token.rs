//! The token lifecycle: the credential for the upstream API, when it is
//! valid, and what becomes of it when the identity provider answers a refresh
//! exchange.
use vstd::prelude::*;

verus! {

/// Why the upstream API cannot be used.
#[derive(Clone, Copy, Debug, PartialEq, Eq, Structural)]
pub enum AuthError {
    /// No client id is configured, or a blank one.
    MissingClientId,
    /// No client secret is configured, or a blank one.
    MissingClientSecret,
    /// The identity provider did not hand out a token.
    Rejected,
    /// No valid token is at hand: none was ever handed out, or the one that
    /// was is expired.
    Expired,
}

impl AuthError {
    /// A missing configuration is fatal: it is found when the refresh loop
    /// starts, and no retry will mend it.
    pub open spec fn spec_is_fatal(self) -> bool {
        self == AuthError::MissingClientId || self == AuthError::MissingClientSecret
    }

    /// Whether the error is fatal. Every other error may pass, and is met by
    /// trying again.
    pub fn is_fatal(&self) -> (fatal: bool)
        ensures
            fatal == self.spec_is_fatal(),
    {
        match self {
            AuthError::MissingClientId => true,
            AuthError::MissingClientSecret => true,
            AuthError::Rejected => false,
            AuthError::Expired => false,
        }
    }
}

/// A credential for the upstream API, valid before the moment `expires_at`.
#[derive(Debug)]
pub struct AuthToken {
    pub value: String,
    pub expires_at: i64,
}

impl AuthToken {
    /// The token is valid at `now`.
    pub open spec fn valid_at(self, now: i64) -> bool {
        now < self.expires_at
    }
}

/// Holds the token. The token leaves the manager only by reference, and only
/// while it is valid.
pub struct TokenManager {
    token: Option<AuthToken>,
}

impl View for TokenManager {
    type V = Option<AuthToken>;

    closed spec fn view(&self) -> Option<AuthToken> {
        self.token
    }
}

/// A token is held and is valid at `now`.
pub open spec fn holds_valid(held: Option<AuthToken>, now: i64) -> bool {
    held matches Some(token) && token.valid_at(now)
}

/// What is held after the identity provider answered a refresh exchange at
/// `now`: the new token where it is valid, else what was held before.
pub open spec fn held_after(
    held: Option<AuthToken>,
    reply: Result<AuthToken, AuthError>,
    now: i64,
) -> Option<AuthToken> {
    match reply {
        Ok(token) => if token.valid_at(now) {
            Some(token)
        } else {
            held
        },
        Err(_) => held,
    }
}

/// What the refresh exchange came to: success where a valid token was handed
/// out, the provider's error where it gave one, and `Expired` where the token
/// handed out is not valid.
pub open spec fn exchange_result(reply: Result<AuthToken, AuthError>, now: i64) -> Result<
    (),
    AuthError,
> {
    match reply {
        Ok(token) => if token.valid_at(now) {
            Ok(())
        } else {
            Err(AuthError::Expired)
        },
        Err(error) => Err(error),
    }
}

impl TokenManager {
    /// A manager that holds no token.
    pub fn new() -> (manager: TokenManager)
        ensures
            manager@ is None,
    {
        TokenManager { token: None }
    }

    /// Checks that a token is held that is valid at `now`. Where none is, a
    /// refresh exchange with the identity provider is due, whose answer
    /// [`TokenManager::install`] takes.
    pub fn ensure_valid(&self, now: i64) -> (checked: Result<(), AuthError>)
        ensures
            checked == (if holds_valid(self@, now) {
                Ok::<(), AuthError>(())
            } else {
                Err::<(), AuthError>(AuthError::Expired)
            }),
    {
        match &self.token {
            Some(token) => if now < token.expires_at {
                Ok(())
            } else {
                Err(AuthError::Expired)
            },
            None => Err(AuthError::Expired),
        }
    }

    /// The value of the token, while a valid one is held.
    pub fn value(&self, now: i64) -> (value: Option<&String>)
        ensures
            value is Some <==> holds_valid(self@, now),
            value matches Some(text) ==> *text == self@->0.value,
    {
        match &self.token {
            Some(token) => if now < token.expires_at {
                Some(&token.value)
            } else {
                None
            },
            None => None,
        }
    }

    /// Takes the identity provider's answer to a refresh exchange made at
    /// `now`. A valid token replaces the one held. An error, or a token that
    /// is expired already, leaves what is held as it is and is reported.
    pub fn install(&mut self, reply: Result<AuthToken, AuthError>, now: i64) -> (result: Result<
        (),
        AuthError,
    >)
        ensures
            final(self)@ == held_after(old(self)@, reply, now),
            result == exchange_result(reply, now),
            result is Ok ==> holds_valid(final(self)@, now),
    {
        match reply {
            Ok(token) => {
                if now < token.expires_at {
                    self.token = Some(token);
                    Ok(())
                } else {
                    Err(AuthError::Expired)
                }
            },
            Err(error) => Err(error),
        }
    }
}

/// Seconds to wait before a refresh exchange that gave no valid token is
/// made again.
pub const TOKEN_RETRY_SECS: u64 = 10;

} // verus!
