//! Device tokens and their environment tag.
use vstd::prelude::*;

verus! {

/// The length, in characters, of the sandbox marker.
pub const SANDBOX_PREFIX_LEN: usize = 8;

/// The reserved marker that tags a stored token as a sandbox token.
pub open spec fn sandbox_prefix() -> Seq<char> {
    seq!['s', 'a', 'n', 'd', 'b', 'o', 'x', ':']
}

/// The push gateway a token belongs to.
#[derive(Debug, Clone, Copy, PartialEq, Eq, Structural)]
pub enum Environment {
    Production,
    Sandbox,
}

/// True when the token carries the sandbox marker at its start.
pub open spec fn has_sandbox_prefix(t: Seq<char>) -> bool {
    t.len() >= sandbox_prefix().len() && t.subrange(0, sandbox_prefix().len() as int)
        == sandbox_prefix()
}

/// The gateway that a stored token is sent to.
pub open spec fn environment_of(t: Seq<char>) -> Environment {
    if has_sandbox_prefix(t) {
        Environment::Sandbox
    } else {
        Environment::Production
    }
}

/// The token as the gateway sees it: the sandbox marker stripped, if present.
pub open spec fn gateway_token_of(t: Seq<char>) -> Seq<char> {
    if has_sandbox_prefix(t) {
        t.subrange(sandbox_prefix().len() as int, t.len() as int)
    } else {
        t
    }
}

/// Where one token is sent, and under which name.
#[derive(Debug, Clone, PartialEq, Eq)]
pub struct Route {
    pub environment: Environment,
    pub device_token: String,
}

/// Tells whether `token` starts with the sandbox marker.
pub fn has_sandbox_marker(token: &str) -> (b: bool)
    ensures
        b == has_sandbox_prefix(token@),
{
    let marker = "sandbox:";
    proof {
        reveal_strlit("sandbox:");
        assert(marker@ =~= sandbox_prefix());
    }
    let n = token.unicode_len();
    let m = marker.unicode_len();
    if n < m {
        return false;
    }
    let mut i: usize = 0;
    while i < m
        invariant
            m == sandbox_prefix().len(),
            marker@ == sandbox_prefix(),
            n == token@.len(),
            m <= n,
            i <= m,
            token@.subrange(0, i as int) =~= sandbox_prefix().subrange(0, i as int),
        decreases m - i,
    {
        if token.get_char(i) != marker.get_char(i) {
            assert(token@.subrange(0, m as int)[i as int] != sandbox_prefix()[i as int]);
            return false;
        }
        i = i + 1;
        assert(token@.subrange(0, i as int) =~= sandbox_prefix().subrange(0, i as int));
    }
    assert(sandbox_prefix().subrange(0, m as int) =~= sandbox_prefix());
    true
}

/// Resolves the environment of a token: a token with the sandbox marker goes,
/// marker stripped, to the sandbox gateway; any other goes unchanged to
/// production.
pub fn route_token(token: &str) -> (r: Route)
    ensures
        r.environment == environment_of(token@),
        r.device_token@ == gateway_token_of(token@),
{
    if has_sandbox_marker(token) {
        let n = token.unicode_len();
        let rest = token.substring_char(SANDBOX_PREFIX_LEN, n);
        Route { environment: Environment::Sandbox, device_token: rest.to_owned() }
    } else {
        Route { environment: Environment::Production, device_token: token.to_owned() }
    }
}

} // verus!
