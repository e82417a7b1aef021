//! The sessions that a request comes with: which one is used on which server.
use vstd::prelude::*;

use crate::models::{AuthorizationSession, Server, STATUS_UNAUTHORIZED};

verus! {

/// The first session on the server with the given identifier, and the server.
pub open spec fn session_for(
    sessions: Seq<(AuthorizationSession, Server)>,
    server_id: i64,
) -> Option<(AuthorizationSession, Server)>
    decreases sessions.len(),
{
    if sessions.len() == 0 {
        None
    } else if sessions[0].1.id == server_id {
        Some(sessions[0])
    } else {
        session_for(sessions.drop_first(), server_id)
    }
}

/// A copy of the first session on the server with the given identifier, and of the server.
pub fn find_session(
    sessions: &Vec<(AuthorizationSession, Server)>,
    server_id: i64,
) -> (r: Option<(AuthorizationSession, Server)>)
    ensures
        r == session_for(sessions@, server_id),
{
    let mut i: usize = 0;
    assert(sessions@.skip(0) == sessions@);
    while i < sessions.len()
        invariant
            i <= sessions@.len(),
            session_for(sessions@, server_id) == session_for(sessions@.skip(i as int), server_id),
        decreases sessions@.len() - i,
    {
        assert(sessions@.skip(i as int).drop_first() == sessions@.skip(i + 1));
        if sessions[i].1.id == server_id {
            return Some((sessions[i].0.clone(), sessions[i].1.clone()));
        }
        i += 1;
    }
    None
}

/// Whether some session is on the server with the given identifier.
pub fn reaches_server(
    sessions: &Vec<(AuthorizationSession, Server)>,
    server_id: i64,
) -> (r: bool)
    ensures
        r == session_for(sessions@, server_id) is Some,
{
    find_session(sessions, server_id).is_some()
}

/// There is a session for a server exactly where one of the sessions is on it, and it is on it.
pub proof fn a_session_is_found_where_there_is_one(
    sessions: Seq<(AuthorizationSession, Server)>,
    server_id: i64,
)
    ensures
        session_for(sessions, server_id) is Some <==> exists|i: int|
            0 <= i < sessions.len() && (#[trigger] sessions[i]).1.id == server_id,
        session_for(sessions, server_id) is Some ==> sessions.contains(
            session_for(sessions, server_id)->0,
        ) && (session_for(sessions, server_id)->0).1.id == server_id,
    decreases sessions.len(),
{
    if sessions.len() > 0 && sessions[0].1.id != server_id {
        let rest = sessions.drop_first();
        a_session_is_found_where_there_is_one(rest, server_id);
        if session_for(rest, server_id) is Some {
            let i = choose|i: int|
                0 <= i < rest.len() && rest[i] == session_for(rest, server_id)->0;
            assert(sessions[i + 1].1.id == server_id);
            assert(sessions[i + 1] == session_for(sessions, server_id)->0);
        }
        if exists|i: int| 0 <= i < sessions.len() && (#[trigger] sessions[i]).1.id == server_id {
            let i = choose|i: int|
                0 <= i < sessions.len() && (#[trigger] sessions[i]).1.id == server_id;
            assert(rest[i - 1].1.id == server_id);
        }
    }
}

/// The sessions of a request that needs some: without any the request is not authorized.
pub fn require_sessions(sessions: Option<Vec<(AuthorizationSession, Server)>>) -> (r: Result<
    Vec<(AuthorizationSession, Server)>,
    u16,
>)
    ensures
        match (sessions, r) {
            (Some(given), Ok(kept)) => kept == given && given@.len() > 0,
            (Some(given), Err(status)) => given@.len() == 0 && status == STATUS_UNAUTHORIZED,
            (None, Ok(_)) => false,
            (None, Err(status)) => status == STATUS_UNAUTHORIZED,
        },
{
    match sessions {
        Some(given) => {
            if given.len() == 0 {
                Err(STATUS_UNAUTHORIZED)
            } else {
                Ok(given)
            }
        },
        None => Err(STATUS_UNAUTHORIZED),
    }
}

/// On each server the first of the sessions that are on it is used, and there is none only where
/// no session is on the server.
pub proof fn the_first_session_on_a_server_is_used(
    sessions: Seq<(AuthorizationSession, Server)>,
    server_id: i64,
) -> (i: int)
    ensures
        match session_for(sessions, server_id) {
            Some(found) => {
                &&& 0 <= i < sessions.len()
                &&& found == sessions[i]
                &&& sessions[i].1.id == server_id
                &&& forall|k: int| 0 <= k < i ==> (#[trigger] sessions[k]).1.id != server_id
            },
            None => forall|k: int|
                0 <= k < sessions.len() ==> (#[trigger] sessions[k]).1.id != server_id,
        },
    decreases sessions.len(),
{
    if sessions.len() > 0 && sessions[0].1.id != server_id {
        let rest = sessions.drop_first();
        let i = the_first_session_on_a_server_is_used(rest, server_id);
        let n = if session_for(rest, server_id) is Some {
            i + 1
        } else {
            sessions.len() as int
        };
        assert forall|k: int| 0 <= k < n implies (#[trigger] sessions[k]).1.id != server_id by {
            if k > 0 {
                assert(rest[k - 1] == sessions[k]);
            }
        }
        i + 1
    } else {
        0
    }
}

} // verus!
