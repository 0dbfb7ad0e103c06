//! The admission rule, applied to every HTTP request: the block list rejects
//! first, even while token protection is off; after that a request is let in
//! while protection is disabled, when the client address is allow-listed,
//! when no token is configured, when a bearer token matches, or — on the
//! socket endpoint only — when an `api_key` query parameter matches.
//! Everything else is refused.

use vstd::prelude::*;

use crate::config::AuthConfig;
use crate::ip::{is_ip_in_list, spec_ip_in_list};
use crate::text::{is_prefix_of, seq_views, spec_split, split_char, str_eq, strip_prefix_str};

verus! {

/// What the admission rule says about one request.
#[derive(Clone, Copy, PartialEq, Eq, Structural, Debug)]
pub enum AuthOutcome {
    /// The address is block-listed: refuse with a forbidden status.
    Blocked,
    /// Let the request through.
    Admit,
    /// No credential fit: refuse with an unauthorized status.
    Unauthorized,
}

/// Whether a bearer header carries the required token.
pub open spec fn bearer_matches(header: Option<Seq<char>>, key: Seq<char>) -> bool {
    match header {
        Some(h) => is_prefix_of("Bearer "@, h) && h.skip(7) == key,
        None => false,
    }
}

/// Whether one query parameter reads `api_key=` with the required token.
pub open spec fn param_carries_key(param: Seq<char>, key: Seq<char>) -> bool {
    is_prefix_of("api_key="@, param) && param.skip(8) == key
}

/// Whether some `&`-separated parameter of the query carries the token.
pub open spec fn query_key_matches(q: Seq<char>, key: Seq<char>) -> bool {
    exists|i: int|
        0 <= i < spec_split(q, '&').len() && param_carries_key(
            #[trigger] spec_split(q, '&')[i],
            key,
        )
}

/// Scan a query string for an `api_key` parameter carrying the token.
fn query_has_key(q: &str, key: &str) -> (r: bool)
    ensures
        r == query_key_matches(q@, key@),
{
    let params = split_char(q, '&');
    let ghost qsplit = spec_split(q@, '&');
    proof {
        reveal_strlit("api_key=");
        assert("api_key="@.len() == 8);
    }
    let mut i: usize = 0;
    while i < params.len()
        invariant
            qsplit == spec_split(q@, '&'),
            seq_views(params@) == qsplit,
            "api_key="@.len() == 8,
            0 <= i <= params@.len(),
            forall|j: int| 0 <= j < i ==> !param_carries_key(#[trigger] qsplit[j], key@),
        decreases params@.len() - i,
    {
        assert(qsplit.len() == params@.len());
        assert(params@[i as int]@ == qsplit[i as int]);
        match strip_prefix_str(params[i].as_str(), "api_key=") {
            Some(value) => {
                if str_eq(value.as_str(), key) {
                    assert(value@ == qsplit[i as int].skip(8));
                    assert(param_carries_key(spec_split(q@, '&')[i as int], key@));
                    assert((i as int) < spec_split(q@, '&').len());
                    assert(query_key_matches(q@, key@));
                    return true;
                }
            },
            None => {},
        }
        i += 1;
    }
    assert(!query_key_matches(q@, key@));
    false
}

/// The admission rule, in its order of application.
pub open spec fn spec_authorize(
    auth: AuthConfig,
    client: Seq<char>,
    header: Option<Seq<char>>,
    is_ws_endpoint: bool,
    query: Option<Seq<char>>,
) -> AuthOutcome {
    if spec_ip_in_list(client, seq_views(auth.blocked_ips@)) {
        AuthOutcome::Blocked
    } else if !auth.enabled {
        AuthOutcome::Admit
    } else if spec_ip_in_list(client, seq_views(auth.allowed_ips@)) {
        AuthOutcome::Admit
    } else {
        match auth.api_key {
            None => AuthOutcome::Admit,
            Some(key) => if bearer_matches(header, key@) {
                AuthOutcome::Admit
            } else if is_ws_endpoint && query is Some && query_key_matches(query->Some_0, key@) {
                AuthOutcome::Admit
            } else {
                AuthOutcome::Unauthorized
            },
        }
    }
}

/// Apply the admission rule. A block-listed address is refused whatever the
/// token, the query and the `enabled` switch say.
#[verifier::rlimit(100)]
pub fn authorize(
    auth: &AuthConfig,
    client_ip: &str,
    authorization: Option<&str>,
    is_ws_endpoint: bool,
    query: Option<&str>,
) -> (r: AuthOutcome)
    ensures
        r == spec_authorize(
            *auth,
            client_ip@,
            match authorization {
                Some(h) => Some(h@),
                None => None::<Seq<char>>,
            },
            is_ws_endpoint,
            match query {
                Some(q) => Some(q@),
                None => None::<Seq<char>>,
            },
        ),
        spec_ip_in_list(client_ip@, seq_views(auth.blocked_ips@)) ==> r is Blocked,
{
    if is_ip_in_list(client_ip, &auth.blocked_ips) {
        return AuthOutcome::Blocked;
    }
    if !auth.enabled {
        return AuthOutcome::Admit;
    }
    if is_ip_in_list(client_ip, &auth.allowed_ips) {
        return AuthOutcome::Admit;
    }
    let key = match &auth.api_key {
        None => {
            return AuthOutcome::Admit;
        },
        Some(k) => k,
    };
    match authorization {
        Some(h) => {
            match strip_prefix_str(h, "Bearer ") {
                Some(token) => {
                    proof {
                        reveal_strlit("Bearer ");
                    }
                    if str_eq(token.as_str(), key.as_str()) {
                        return AuthOutcome::Admit;
                    }
                },
                None => {},
            }
        },
        None => {},
    }
    if is_ws_endpoint {
        match query {
            Some(q) => {
                if query_has_key(q, key.as_str()) {
                    return AuthOutcome::Admit;
                }
            },
            None => {},
        }
    }
    AuthOutcome::Unauthorized
}

} // verus!
