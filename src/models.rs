//! The account, location and request records that the HTTP side exchanges,
//! and the access rule between players and locations.

use vstd::prelude::*;
use crate::event::Identity;

verus! {

#[derive(Clone, Copy, Debug, PartialEq, Eq, Structural)]
pub enum UserRole {
    User,
    Moderator,
    Architect,
    Admin,
    Creator,
}

/// What a signed access token says about its holder.
pub struct Claims {
    pub sub: u128,
    pub username: String,
    pub pk: String,
    pub role: UserRole,
    pub exp: i64,
}

impl Claims {
    /// The identity under which the holder appears to other occupants.
    pub fn identity(&self) -> (r: Identity)
        ensures
            r.id == self.sub,
            r.username == self.username,
    {
        Identity { id: self.sub, username: self.username.clone() }
    }
}

/// Query of a location request.
pub struct AccessQuery {
    pub access_level: Option<i32>,
}

/// Query of a websocket upgrade: the access token.
pub struct WsQuery {
    pub token: String,
}

pub struct CreateUserPayload {
    pub username: String,
    pub email: String,
    pub password: String,
    pub public_key: String,
    pub encrypted_private_key: String,
}

pub struct LoginPayload {
    pub email: String,
    pub password: String,
}

pub struct AuthResponse {
    pub token: String,
    pub encrypted_private_key: Option<String>,
}

/// A player may enter, or see, a location whose security level does not
/// exceed their access level.
pub fn may_enter(access_level: i32, security_level: i32) -> (r: bool)
    ensures
        r == (access_level >= security_level),
{
    access_level >= security_level
}

/// The token of an `Authorization` header value of the form `Bearer <token>`.
pub open spec fn bearer_of(header: Seq<char>) -> Option<Seq<char>> {
    if header.len() >= 7 && header.subrange(0, 7) == "Bearer "@ {
        Some(header.subrange(7, header.len() as int))
    } else {
        None
    }
}

pub fn bearer_token(header: &str) -> (r: Option<String>)
    ensures
        match r {
            Some(t) => bearer_of(header@) == Some(t@),
            None => bearer_of(header@).is_none(),
        },
{
    let prefix = "Bearer ";
    proof {
        reveal_strlit("Bearer ");
    }
    let n = header.unicode_len();
    if n < 7 {
        return None;
    }
    let mut i: usize = 0;
    while i < 7
        invariant
            i <= 7,
            n == header@.len(),
            n >= 7,
            prefix@ == "Bearer "@,
            prefix@.len() == 7,
            header@.subrange(0, i as int) == prefix@.subrange(0, i as int),
        decreases 7 - i,
    {
        if header.get_char(i) != prefix.get_char(i) {
            assert(header@.subrange(0, 7)[i as int] != prefix@[i as int]);
            return None;
        }
        i = i + 1;
        assert(header@.subrange(0, i as int) =~= prefix@.subrange(0, i as int));
    }
    assert(prefix@.subrange(0, 7) =~= prefix@);
    let token = header.substring_char(7, n);
    Some(token.to_string())
}

} // verus!
