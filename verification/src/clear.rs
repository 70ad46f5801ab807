//! The one-time token that guards clearing the cache.

use vstd::prelude::*;

verus! {

/// How long an issued token stays valid, in nanoseconds (five minutes).
pub const TOKEN_TTL_NANOS: u64 = 300_000_000_000;

/// Nanoseconds per millisecond.
pub const NANOS_PER_MILLI: u64 = 1_000_000;

/// The token that may clear the cache and when it expires (nanoseconds
/// since the epoch; zero when there is none).
pub struct TokenState {
    pub token: Option<String>,
    pub expires: u64,
}

impl TokenState {
    /// No token.
    pub fn new() -> (r: Self)
        ensures
            r.token is None,
            r.expires == 0,
    {
        TokenState { token: None, expires: 0 }
    }
}

/// What a clear request is answered with.
pub enum ClearOutcome {
    /// The token matched and had not expired: the cache is cleared.
    Cleared,
    /// The token did not match or had expired (answered 403).
    Rejected,
    /// A token to clear with, and when it expires (milliseconds since the
    /// epoch).
    Token { token: String, expires_at: i64 },
}

/// The lower-case hexadecimal digit of a value below 16.
pub open spec fn hex_digit(v: u8) -> char {
    if v < 10 {
        (48 + v) as char
    } else {
        (87 + v) as char
    }
}

/// Each byte as two lower-case hexadecimal digits, high half first.
pub open spec fn hex_text(bytes: Seq<u8>) -> Seq<char>
    decreases bytes.len(),
{
    if bytes.len() == 0 {
        Seq::empty()
    } else {
        hex_text(bytes.drop_last()) + seq![hex_digit(bytes.last() / 16), hex_digit(bytes.last() % 16)]
    }
}

/// Calls `hex::encode`, which writes each byte as two lower-case hexadecimal
/// digits, high half first.
#[verifier::external_body]
fn hex_encode(bytes: &[u8]) -> (r: String)
    ensures
        r@ == hex_text(bytes@),
{
    hex::encode(bytes)
}

/// The state and answer of one clear request, as `handle_clear` gives them
/// when a token is presented.
pub open spec fn clear_with_token(before: TokenState, after: TokenState, now: u64, token: String, cleared: bool) -> bool {
    &&& after.token is None
    &&& after.expires == 0
    &&& (cleared <==> (before.token matches Some(h) && h@ == token@ && now < before.expires))
}

/// The token held at `now` that has not expired.
pub open spec fn live_token(state: TokenState, now: u64) -> Option<String> {
    if now < state.expires {
        state.token
    } else {
        None
    }
}

/// What a clear request at `now` does to the token state and answers.
/// With a token: the cache is cleared when it equals the live token; the
/// held token is dropped either way. Without one: the live token is handed
/// out again, or a new one (`fresh` in hexadecimal) that expires five
/// minutes from now replaces it.
pub open spec fn clear_step(
    before: TokenState,
    after: TokenState,
    now: u64,
    provided: Option<String>,
    fresh: Seq<u8>,
    r: ClearOutcome,
) -> bool {
    match provided {
        Some(t) => {
            &&& clear_with_token(before, after, now, t, r is Cleared)
            &&& (r is Cleared || r is Rejected)
        },
        None => match live_token(before, now) {
            Some(t) => {
                &&& after == before
                &&& r matches ClearOutcome::Token { token, expires_at }
                &&& token == t
                &&& expires_at == (before.expires / NANOS_PER_MILLI) as i64
            },
            None => {
                &&& after.token matches Some(nt)
                &&& nt@ == hex_text(fresh)
                &&& after.expires == now + TOKEN_TTL_NANOS
                &&& r matches ClearOutcome::Token { token, expires_at }
                &&& token@ == nt@
                &&& expires_at == ((now + TOKEN_TTL_NANOS) / (NANOS_PER_MILLI as int)) as i64
            },
        },
    }
}

/// Answers a clear request at time `now` (nanoseconds since the epoch).
pub fn handle_clear(state: &mut TokenState, now: u64, provided: Option<String>, fresh: &[u8; 16]) -> (r: ClearOutcome)
    requires
        now <= u64::MAX - TOKEN_TTL_NANOS,
    ensures
        clear_step(*old(state), *final(state), now, provided, fresh@, r),
{
    match provided {
        Some(t) => {
            let valid = match &state.token {
                Some(held) => *held == t && now < state.expires,
                None => false,
            };
            state.token = None;
            state.expires = 0;
            if valid {
                ClearOutcome::Cleared
            } else {
                ClearOutcome::Rejected
            }
        },
        None => {
            if now < state.expires {
                match &state.token {
                    Some(held) => {
                        let expires_at = (state.expires / NANOS_PER_MILLI) as i64;
                        return ClearOutcome::Token { token: held.clone(), expires_at };
                    },
                    None => {},
                }
            }
            let token = hex_encode(fresh);
            let expires = now + TOKEN_TTL_NANOS;
            state.token = Some(token.clone());
            state.expires = expires;
            ClearOutcome::Token { token, expires_at: (expires / NANOS_PER_MILLI) as i64 }
        },
    }
}

/// The endpoint that clears the cache, guarded by a one-time token.
pub struct ClearController {
    state: TokenState,
}

impl ClearController {
    /// A controller that holds no token yet.
    pub fn new() -> (r: Self)
        ensures
            r.token_state().token is None,
            r.token_state().expires == 0,
    {
        ClearController { state: TokenState::new() }
    }

    /// The token state.
    pub closed spec fn token_state(&self) -> TokenState {
        self.state
    }

    /// Answers a clear request at time `now`; see `clear_step`.
    pub fn handle_clear(&mut self, now: u64, provided: Option<String>, fresh: &[u8; 16]) -> (r: ClearOutcome)
        requires
            now <= u64::MAX - TOKEN_TTL_NANOS,
        ensures
            clear_step(old(self).token_state(), final(self).token_state(), now, provided, fresh@, r),
    {
        handle_clear(&mut self.state, now, provided, fresh)
    }
}

} // verus!
