//! What holds of a sync of watch data, whatever it is told: what it takes from each answer, where
//! it goes next and what it counts.
use vstd::prelude::*;

use crate::media_storage_service::{MediaDedupeGroup, MediaDedupeMember};
use crate::models::{AuthorizationSession, Server};
use crate::order::{
    are_places, filtering_keeps_what_is_wanted, lemma_next_place, lemma_no_places,
    lemma_same_places, picking_takes_all_there_is, ranking_is_a_permutation, ranking_is_stable,
    ranking_orders_by_rank, same_rank, Ranked,
};
use crate::text::without_trailing;
use crate::watch_sync_service::{
    action_of, after_answer, authenticated, candidate_of, candidates_of, context_on, fresh_sync,
    has_room, is_awaited, is_sound, item_path, mapped_servers, misses, misses_in, next_group,
    played_path, problem_at, reachable_members, refusals, resolved_groups, resolved_members,
    server_at, shared_groups, sync_device_id, AuthenticatedServerContext, AuthenticationStage,
    CandidateMember, MappedServer, MarkOutcome, PlayedState, ResolvedGroupMember, SyncAction,
    SyncAnswer, SyncStage, SyncView, WatchSyncReport,
};

verus! {

// ---------------------------------------------------------------------------
// What is taken from an answer
// ---------------------------------------------------------------------------

/// At an address stands the last of the servers whose addresses are the same but for slashes at
/// the end, and none only where there is no such server.
pub proof fn the_last_server_at_an_address_counts(servers: Seq<Server>, url: Seq<char>) -> (i: int)
    ensures
        -1 <= i < servers.len(),
        forall|k: int|
            i < k < servers.len() ==> without_trailing((#[trigger] servers[k]).url@, '/')
                != without_trailing(url, '/'),
        i < 0 ==> server_at(servers, url) is None,
        i >= 0 ==> {
            &&& server_at(servers, url) == Some(servers[i])
            &&& without_trailing(servers[i].url@, '/') == without_trailing(url, '/')
        },
    decreases servers.len(),
{
    if servers.len() == 0 {
        -1
    } else if without_trailing(servers.last().url@, '/') == without_trailing(url, '/') {
        servers.len() - 1
    } else {
        let rest = servers.drop_last();
        let i = the_last_server_at_an_address_counts(rest, url);
        assert forall|k: int| i < k < servers.len() implies without_trailing(
            (#[trigger] servers[k]).url@,
            '/',
        ) != without_trailing(url, '/') by {
            if k < rest.len() {
                assert(rest[k] == servers[k]);
            }
        }
        i
    }
}

/// The members of exactly those groups are looked up that have two members or more.
pub proof fn groups_of_two_or_more_are_looked_up(groups: Seq<MediaDedupeGroup>) -> (places: Seq<
    int,
>)
    ensures
        are_places(places, groups.len() as int, |k: int| groups[k].members@.len() >= 2),
        shared_groups(groups).len() == places.len(),
        forall|i: int|
            0 <= i < places.len() ==> 0 <= #[trigger] places[i] < groups.len() && shared_groups(
                groups,
            )[i] == groups[places[i]],
{
    let shared = |group: MediaDedupeGroup| group.members@.len() >= 2;
    let places = filtering_keeps_what_is_wanted(groups, shared);
    let before = |k: int| shared(groups[k]);
    let chosen = |k: int| groups[k].members@.len() >= 2;
    assert forall|k: int| 0 <= k < groups.len() implies #[trigger] before(k) == chosen(k) by {}
    lemma_same_places(places, groups.len() as int, before, chosen);
    places
}

/// Of a group exactly those members are kept whose own identifier was found, each with that
/// identifier and in their order. The others are counted.
pub proof fn members_with_an_own_identifier_are_kept(
    members: Seq<MediaDedupeMember>,
    found: Seq<Option<String>>,
) -> (places: Seq<int>)
    requires
        found.len() == members.len(),
    ensures
        are_places(places, members.len() as int, |k: int| found[k] is Some),
        resolved_members(members, found).len() == places.len(),
        forall|i: int|
            0 <= i < places.len() ==> {
                let kept = resolved_members(members, found)[i];
                &&& 0 <= #[trigger] places[i] < members.len()
                &&& kept.server_id == members[places[i]].server_id
                &&& found[places[i]] == Some(kept.original_media_id)
            },
        misses_in(found) + places.len() == members.len(),
    decreases members.len(),
{
    let chosen = |k: int| found[k] is Some;
    if members.len() == 0 {
        lemma_no_places(chosen);
        let none = Seq::<int>::empty();
        assert(none.len() == 0);
        none
    } else {
        let rest = members.drop_last();
        let told = found.drop_last();
        let n = rest.len() as int;
        let places = members_with_an_own_identifier_are_kept(rest, told);
        let before = |k: int| told[k] is Some;
        assert forall|k: int| 0 <= k < n implies #[trigger] before(k) == chosen(k) by {
            assert(told[k] == found[k]);
        }
        let next = lemma_next_place(places, n, before, chosen);
        assert forall|i: int| 0 <= i < next.len() implies {
            let kept = resolved_members(members, found)[i];
            &&& 0 <= #[trigger] next[i] < members.len()
            &&& kept.server_id == members[next[i]].server_id
            &&& found[next[i]] == Some(kept.original_media_id)
        } by {
            if i < places.len() {
                assert(next[i] == places[i]);
                assert(0 <= places[i] < rest.len());
                assert(rest[places[i]] == members[places[i]]);
                assert(told[places[i]] == found[places[i]]);
            }
        }
        next
    }
}

/// Exactly those groups are looked at further of which two members or more are kept, in their
/// order and with the members that are kept.
pub proof fn groups_with_two_identifiers_or_more_are_kept(
    groups: Seq<MediaDedupeGroup>,
    found: Seq<Vec<Option<String>>>,
) -> (places: Seq<int>)
    requires
        found.len() == groups.len(),
    ensures
        are_places(
            places,
            groups.len() as int,
            |k: int| resolved_members(groups[k].members@, found[k]@).len() >= 2,
        ),
        resolved_groups(groups, found).len() == places.len(),
        forall|i: int|
            0 <= i < places.len() ==> 0 <= #[trigger] places[i] < groups.len() && resolved_groups(
                groups,
                found,
            )[i] == resolved_members(groups[places[i]].members@, found[places[i]]@),
    decreases groups.len(),
{
    let chosen = |k: int| resolved_members(groups[k].members@, found[k]@).len() >= 2;
    if groups.len() == 0 {
        lemma_no_places(chosen);
        let none = Seq::<int>::empty();
        assert(none.len() == 0);
        none
    } else {
        let rest = groups.drop_last();
        let told = found.drop_last();
        let n = rest.len() as int;
        let places = groups_with_two_identifiers_or_more_are_kept(rest, told);
        let before = |k: int| resolved_members(rest[k].members@, told[k]@).len() >= 2;
        assert forall|k: int| 0 <= k < n implies #[trigger] before(k) == chosen(k) by {
            assert(told[k] == found[k]);
            assert(rest[k] == groups[k]);
        }
        let next = lemma_next_place(places, n, before, chosen);
        assert forall|i: int| 0 <= i < next.len() implies 0 <= #[trigger] next[i] < groups.len()
            && resolved_groups(groups, found)[i] == resolved_members(
            groups[next[i]].members@,
            found[next[i]]@,
        ) by {
            if i < places.len() {
                assert(next[i] == places[i]);
                assert(0 <= places[i] < rest.len());
                assert(rest[places[i]] == groups[places[i]]);
                assert(told[places[i]] == found[places[i]]);
            }
        }
        next
    }
}

/// The identifiers that were not found are counted over all groups.
pub proof fn misses_are_counted_over_all_groups(
    one: Seq<Vec<Option<String>>>,
    other: Seq<Vec<Option<String>>>,
)
    ensures
        misses(Seq::<Vec<Option<String>>>::empty()) == 0,
        one.len() == 1 ==> misses(one) == misses_in(one[0]@),
        misses(one + other) == misses(one) + misses(other),
    decreases other.len(),
{
    if one.len() == 1 {
        assert(misses(one.drop_last()) == 0);
        assert(one.last() == one[0]);
    }
    if other.len() == 0 {
        assert(one + other =~= one);
    } else {
        misses_are_counted_over_all_groups(one, other.drop_last());
        assert((one + other).drop_last() =~= one + other.drop_last());
        assert((one + other).last() == other.last());
    }
}

/// A user is authenticated for exactly those mappings at whose address a server is known, in their
/// order: for each on the server at its address.
pub proof fn mappings_to_known_servers_are_tried(
    servers: Seq<Server>,
    urls: Seq<String>,
) -> (places: Seq<int>)
    requires
        urls.len() <= usize::MAX,
    ensures
        are_places(
            places,
            urls.len() as int,
            |k: int|
                exists|j: int|
                    0 <= j < servers.len() && without_trailing((#[trigger] servers[j]).url@, '/')
                        == without_trailing(urls[k]@, '/'),
        ),
        mapped_servers(servers, urls).len() == places.len(),
        forall|i: int|
            0 <= i < places.len() ==> {
                let tried = mapped_servers(servers, urls)[i];
                &&& 0 <= #[trigger] places[i] < urls.len()
                &&& tried.mapping == places[i]
                &&& server_at(servers, urls[places[i]]@) == Some(tried.server)
            },
    decreases urls.len(),
{
    let chosen = |k: int|
        exists|j: int|
            0 <= j < servers.len() && without_trailing((#[trigger] servers[j]).url@, '/')
                == without_trailing(urls[k]@, '/');
    if urls.len() == 0 {
        lemma_no_places(chosen);
        let none = Seq::<int>::empty();
        assert(none.len() == 0);
        none
    } else {
        let rest = urls.drop_last();
        let n = rest.len() as int;
        let places = mappings_to_known_servers_are_tried(servers, rest);
        let before = |k: int|
            exists|j: int|
                0 <= j < servers.len() && without_trailing((#[trigger] servers[j]).url@, '/')
                    == without_trailing(rest[k]@, '/');
        assert forall|k: int| 0 <= k < n implies #[trigger] before(k) == chosen(k) by {
            assert(rest[k] == urls[k]);
        }
        let next = lemma_next_place(places, n, before, chosen);
        let j = the_last_server_at_an_address_counts(servers, urls[n]@);
        if j >= 0 {
            assert(without_trailing(servers[j].url@, '/') == without_trailing(urls[n]@, '/'));
            assert(chosen(n));
        } else {
            assert(!chosen(n));
        }
        assert forall|i: int| 0 <= i < next.len() implies {
            let tried = mapped_servers(servers, urls)[i];
            &&& 0 <= #[trigger] next[i] < urls.len()
            &&& tried.mapping == next[i]
            &&& server_at(servers, urls[next[i]]@) == Some(tried.server)
        } by {
            if i < places.len() {
                assert(next[i] == places[i]);
                assert(0 <= places[i] < rest.len());
                assert(rest[places[i]] == urls[places[i]]);
                assert(mapped_servers(servers, urls)[i] == mapped_servers(servers, rest)[i]);
            }
        }
        next
    }
}

/// A user is authenticated on exactly the servers that gave a session, each with that session and
/// in their order. The others are counted.
pub proof fn servers_that_give_a_session_are_kept(
    attempts: Seq<MappedServer>,
    sessions: Seq<Option<AuthorizationSession>>,
) -> (places: Seq<int>)
    requires
        sessions.len() == attempts.len(),
    ensures
        are_places(places, attempts.len() as int, |k: int| sessions[k] is Some),
        authenticated(attempts, sessions).len() == places.len(),
        forall|i: int|
            0 <= i < places.len() ==> {
                let kept = authenticated(attempts, sessions)[i];
                &&& 0 <= #[trigger] places[i] < attempts.len()
                &&& kept.server == attempts[places[i]].server
                &&& sessions[places[i]] == Some(kept.session)
            },
        refusals(sessions) + places.len() == attempts.len(),
    decreases attempts.len(),
{
    let chosen = |k: int| sessions[k] is Some;
    if attempts.len() == 0 {
        lemma_no_places(chosen);
        let none = Seq::<int>::empty();
        assert(none.len() == 0);
        none
    } else {
        let rest = attempts.drop_last();
        let told = sessions.drop_last();
        let n = rest.len() as int;
        let places = servers_that_give_a_session_are_kept(rest, told);
        let before = |k: int| told[k] is Some;
        assert forall|k: int| 0 <= k < n implies #[trigger] before(k) == chosen(k) by {
            assert(told[k] == sessions[k]);
        }
        let next = lemma_next_place(places, n, before, chosen);
        assert forall|i: int| 0 <= i < next.len() implies {
            let kept = authenticated(attempts, sessions)[i];
            &&& 0 <= #[trigger] next[i] < attempts.len()
            &&& kept.server == attempts[next[i]].server
            &&& sessions[next[i]] == Some(kept.session)
        } by {
            if i < places.len() {
                assert(next[i] == places[i]);
                assert(0 <= places[i] < rest.len());
                assert(rest[places[i]] == attempts[places[i]]);
                assert(told[places[i]] == sessions[places[i]]);
            }
        }
        next
    }
}

/// Whether the context at place `j` is the last on the server with the given identifier.
pub open spec fn is_last_context(
    contexts: Seq<AuthenticatedServerContext>,
    j: int,
    server_id: i64,
) -> bool {
    &&& 0 <= j < contexts.len()
    &&& contexts[j].server.id == server_id
    &&& forall|k: int| j < k < contexts.len() ==> (#[trigger] contexts[k]).server.id != server_id
}

/// On each server the last of the contexts that are on it is used, and there is none only where no
/// context is on the server.
pub proof fn the_last_context_on_a_server_is_used(
    contexts: Seq<AuthenticatedServerContext>,
    server_id: i64,
) -> (j: int)
    ensures
        match context_on(contexts, server_id) {
            Some(context) => is_last_context(contexts, j, server_id) && context == contexts[j],
            None => forall|k: int|
                0 <= k < contexts.len() ==> (#[trigger] contexts[k]).server.id != server_id,
        },
    decreases contexts.len(),
{
    if contexts.len() == 0 {
        0
    } else if contexts.last().server.id == server_id {
        contexts.len() - 1
    } else {
        let rest = contexts.drop_last();
        let j = the_last_context_on_a_server_is_used(rest, server_id);
        let from = if context_on(rest, server_id) is Some {
            j
        } else {
            -1
        };
        assert forall|k: int| from < k < contexts.len() implies (
        #[trigger] contexts[k]).server.id != server_id by {
            if k < rest.len() {
                assert(rest[k] == contexts[k]);
            }
        }
        j
    }
}

/// For each member of a group on whose server the user is authenticated there is a candidate, with
/// the member's own identifier and the last context on the server; there is no other.
pub proof fn members_on_authenticated_servers_are_compared(
    members: Seq<ResolvedGroupMember>,
    contexts: Seq<AuthenticatedServerContext>,
) -> (r: (Seq<int>, Seq<CandidateMember>))
    ensures
        are_places(
            r.0,
            members.len() as int,
            |k: int|
                exists|j: int|
                    0 <= j < contexts.len() && (#[trigger] contexts[j]).server.id
                        == members[k].server_id,
        ),
        r.1.len() == r.0.len(),
        forall|i: int|
            0 <= i < r.0.len() ==> {
                let member = members[#[trigger] r.0[i]];
                &&& 0 <= r.0[i] < members.len()
                &&& r.1[i].original_media_id == member.original_media_id
                &&& exists|j: int| #[trigger]
                    is_last_context(contexts, j, member.server_id) && r.1[i].session
                        == contexts[j].session && r.1[i].server == contexts[j].server
            },
        candidates_of(members, contexts).to_multiset() == r.1.to_multiset(),
        candidates_of(members, contexts).len() == r.1.len(),
        r.1 == reachable_members(members, contexts),
{
    let pick = |member: ResolvedGroupMember| candidate_of(member, contexts);
    let found = reachable_members(members, contexts);
    let places = picking_takes_all_there_is(members, pick);
    let before = |k: int| pick(members[k]) is Some;
    let chosen = |k: int|
        exists|j: int|
            0 <= j < contexts.len() && (#[trigger] contexts[j]).server.id == members[k].server_id;
    assert forall|k: int| 0 <= k < members.len() implies #[trigger] before(k) == chosen(k) by {
        let j = the_last_context_on_a_server_is_used(contexts, members[k].server_id);
        if before(k) {
            assert(contexts[j].server.id == members[k].server_id);
        }
    }
    lemma_same_places(places, members.len() as int, before, chosen);
    ranking_is_a_permutation(found);
    assert forall|i: int| 0 <= i < places.len() implies {
        let member = members[#[trigger] places[i]];
        &&& 0 <= places[i] < members.len()
        &&& found[i].original_media_id == member.original_media_id
        &&& exists|j: int| #[trigger]
            is_last_context(contexts, j, member.server_id) && found[i].session
                == contexts[j].session && found[i].server == contexts[j].server
    } by {
        let member = members[places[i]];
        assert(Some(found[i]) == pick(members[places[i]]));
        let j = the_last_context_on_a_server_is_used(contexts, member.server_id);
        assert(is_last_context(contexts, j, member.server_id));
    }
    (places, found)
}

/// The servers are compared by priority, the highest first, and then by identifier; where these
/// are the same, in the order of the group's members.
pub proof fn candidates_stand_by_priority_and_identifier(
    members: Seq<ResolvedGroupMember>,
    contexts: Seq<AuthenticatedServerContext>,
    i: int,
    j: int,
    x: CandidateMember,
)
    requires
        0 <= i < j < candidates_of(members, contexts).len(),
    ensures
        ({
            let one = candidates_of(members, contexts)[i].server;
            let other = candidates_of(members, contexts)[j].server;
            one.priority > other.priority || (one.priority == other.priority && one.id <= other.id)
        }),
        candidates_of(members, contexts).filter(
            |e: CandidateMember|
                e.server.priority == x.server.priority && e.server.id == x.server.id,
        ) == reachable_members(members, contexts).filter(
            |e: CandidateMember|
                e.server.priority == x.server.priority && e.server.id == x.server.id,
        ),
{
    let found = reachable_members(members, contexts);
    let all = candidates_of(members, contexts);
    ranking_orders_by_rank(found);
    assert(!all[j].before(all[i]));
    let same = |e: CandidateMember| same_rank(e, x);
    let alike = |e: CandidateMember|
        e.server.priority == x.server.priority && e.server.id == x.server.id;
    assert forall|e: CandidateMember| #[trigger] same(e) == alike(e) by {}
    assert(same =~= alike);
    ranking_is_stable(found, x);
}

// ---------------------------------------------------------------------------
// What a sync waits for
// ---------------------------------------------------------------------------

/// A sync waits for one thing at a time: for the servers, the groups, an own identifier for each
/// member of each pending group, the users, and then, user by user, for the mappings, a session or
/// none for each attempt, and the watched states and changes. Once it is done it waits for nothing.
pub proof fn a_sync_waits_for_one_thing(v: SyncView, answer: SyncAnswer)
    ensures
        is_awaited(v, answer) <==> match v.stage {
            SyncStage::ListServers => answer is Servers,
            SyncStage::ListGroups => answer is Groups,
            SyncStage::ResolveMembers => {
                &&& answer is Members
                &&& answer->Members_0@.len() == v.pending.len()
                &&& forall|i: int|
                    0 <= i < v.pending.len() ==> (#[trigger] answer->Members_0@[i])@.len()
                        == v.pending[i].members@.len()
            },
            SyncStage::ListUsers => answer is Users,
            SyncStage::ListMappings => answer is Mappings,
            SyncStage::Authenticate => answer is Sessions && answer->Sessions_0@.len()
                == v.attempts.len(),
            SyncStage::FetchSource => answer is Played,
            SyncStage::FetchTarget => answer is Played,
            SyncStage::MarkTarget => answer is Marked,
            SyncStage::Done => false,
        },
{
}

/// A sync asks for what it waits for: for the mappings and the sessions of the user in turn, for
/// the state on the first candidate and then on the target in turn, and for that target to be
/// changed to the state on the first candidate.
pub proof fn a_sync_asks_for_what_it_waits_for(v: SyncView)
    requires
        0 <= v.user <= usize::MAX,
        0 <= v.target <= usize::MAX,
    ensures
        match action_of(v) {
            SyncAction::ListServers => v.stage == SyncStage::ListServers,
            SyncAction::ListGroups => v.stage == SyncStage::ListGroups,
            SyncAction::ResolveMembers => v.stage == SyncStage::ResolveMembers,
            SyncAction::ListUsers => v.stage == SyncStage::ListUsers,
            SyncAction::ListMappings(user) => v.stage == SyncStage::ListMappings && user == v.user,
            SyncAction::Authenticate(user) => v.stage == SyncStage::Authenticate && user == v.user,
            SyncAction::FetchPlayed(candidate) => {
                ||| v.stage == SyncStage::FetchSource && candidate == 0
                ||| v.stage == SyncStage::FetchTarget && candidate == v.target
            },
            SyncAction::MarkPlayed(candidate, played) => v.stage == SyncStage::MarkTarget
                && candidate == v.target && played == v.source_played,
            SyncAction::Finished => v.stage == SyncStage::Done,
        },
{
}

/// A sync has room to count an answer where none of its counters that may grow is at its end.
pub proof fn a_sync_has_room_below_the_limits(v: SyncView, answer: SyncAnswer)
    ensures
        has_room(v, answer) <==> {
            &&& v.report.sync_pairs_checked < usize::MAX
            &&& v.report.updates_applied < usize::MAX
            &&& v.report.already_in_sync < usize::MAX
            &&& v.report.skipped_missing_items < usize::MAX
            &&& v.report.request_failures < usize::MAX
            &&& v.report.skipped_missing_sessions + v.groups.len() <= usize::MAX
            &&& v.report.authentication_failures + v.attempts.len() <= usize::MAX
            &&& answer is Members ==> v.report.mapping_resolution_misses + misses(
                answer->Members_0@,
            ) <= usize::MAX
        },
{
}

// ---------------------------------------------------------------------------
// What is in turn
// ---------------------------------------------------------------------------

/// Whether `group` is the first group from `from` on with two servers or more to compare; the
/// number of groups where there is none.
pub open spec fn is_first_to_compare(
    groups: Seq<Seq<ResolvedGroupMember>>,
    contexts: Seq<AuthenticatedServerContext>,
    from: int,
    group: int,
) -> bool {
    &&& from <= group <= groups.len()
    &&& forall|i: int|
        from <= i < group ==> candidates_of(#[trigger] groups[i], contexts).len() <= 1
    &&& group < groups.len() ==> candidates_of(groups[group], contexts).len() >= 2
}

/// Whether the sync has come to the given user; it is done where there is no such user.
pub open spec fn is_at_user(v: SyncView, user: int) -> bool {
    &&& v.user == user
    &&& v.stage == if user < v.report.users_total {
        SyncStage::ListMappings
    } else {
        SyncStage::Done
    }
}

/// Whether the sync has come to the source of the first group from `from` on with two servers or
/// more to compare; where there is none, to the user behind `user`.
pub open spec fn is_at_group(v: SyncView, user: int, from: int) -> bool {
    &&& is_first_to_compare(v.groups, v.contexts, from, v.group)
    &&& if v.group < v.groups.len() {
        &&& v.stage == SyncStage::FetchSource
        &&& v.user == user
        &&& v.candidates == candidates_of(v.groups[v.group], v.contexts)
    } else {
        is_at_user(v, user + 1)
    }
}

/// Whether two points of a sync are about the same servers, groups and number of users.
pub open spec fn is_same_sync(v: SyncView, next: SyncView) -> bool {
    &&& next.servers == v.servers
    &&& next.pending == v.pending
    &&& next.groups == v.groups
    &&& next.report.users_total == v.report.users_total
}

/// Whether two points of a sync are about the same group of the same user.
pub open spec fn is_same_group(v: SyncView, next: SyncView) -> bool {
    &&& is_same_sync(v, next)
    &&& next.user == v.user
    &&& next.attempts == v.attempts
    &&& next.contexts == v.contexts
    &&& next.group == v.group
    &&& next.candidates == v.candidates
}

proof fn lemma_first_to_compare(
    groups: Seq<Seq<ResolvedGroupMember>>,
    contexts: Seq<AuthenticatedServerContext>,
    from: int,
)
    requires
        0 <= from <= groups.len(),
    ensures
        is_first_to_compare(groups, contexts, from, next_group(groups, contexts, from)),
    decreases groups.len() - from,
{
    if from < groups.len() && candidates_of(groups[from], contexts).len() < 2 {
        lemma_first_to_compare(groups, contexts, from + 1);
    }
}

/// The state on the source is asked for first. Where the source gives it, the first target is
/// next; where it does not, the group is left.
pub proof fn the_source_is_followed_by_the_first_target(v: SyncView, state: PlayedState)
    requires
        v.stage == SyncStage::FetchSource,
        0 <= v.group < v.groups.len(),
        v.candidates.len() >= 2,
    ensures
        ({
            let next = after_answer(v, SyncAnswer::Played(state));
            match state {
                PlayedState::Played(played) => {
                    &&& next.stage == SyncStage::FetchTarget
                    &&& next.target == 1
                    &&& next.source_played == played
                    &&& is_same_group(v, next)
                },
                _ => {
                    &&& is_at_group(next, v.user, v.group + 1)
                    &&& is_same_sync(v, next)
                    &&& next.contexts == v.contexts
                },
            }
        }),
{
    lemma_first_to_compare(v.groups, v.contexts, v.group + 1);
}

/// A target whose state differs from that on the source is changed next. In every other case, and
/// whatever becomes of the change, the target behind it is next: a group is left only behind its
/// last target.
pub proof fn a_group_is_left_only_behind_its_last_target(v: SyncView, answer: SyncAnswer)
    requires
        v.stage == SyncStage::FetchTarget || v.stage == SyncStage::MarkTarget,
        is_awaited(v, answer),
        0 <= v.group < v.groups.len(),
        1 <= v.target < v.candidates.len(),
    ensures
        ({
            let next = after_answer(v, answer);
            let differs = v.stage == SyncStage::FetchTarget && answer == SyncAnswer::Played(
                PlayedState::Played(!v.source_played),
            );
            if differs {
                &&& next.stage == SyncStage::MarkTarget
                &&& next.target == v.target
                &&& next.source_played == v.source_played
                &&& is_same_group(v, next)
            } else if v.target + 1 < v.candidates.len() {
                &&& next.stage == SyncStage::FetchTarget
                &&& next.target == v.target + 1
                &&& next.source_played == v.source_played
                &&& is_same_group(v, next)
            } else {
                &&& is_at_group(next, v.user, v.group + 1)
                &&& is_same_sync(v, next)
                &&& next.contexts == v.contexts
            }
        }),
{
    lemma_first_to_compare(v.groups, v.contexts, v.group + 1);
}

/// The sync once the targets have answered one after the other: each with its state, and with what
/// became of the change where one is asked for.
pub open spec fn after_targets(v: SyncView, told: Seq<(PlayedState, MarkOutcome)>) -> SyncView
    decreases told.len(),
{
    if told.len() == 0 {
        v
    } else {
        let asked = after_answer(
            after_targets(v, told.drop_last()),
            SyncAnswer::Played(told.last().0),
        );
        if asked.stage == SyncStage::MarkTarget {
            after_answer(asked, SyncAnswer::Marked(told.last().1))
        } else {
            asked
        }
    }
}

/// Whatever the targets of a group answer, each of them is asked for its state, one after the
/// other, before the sync leaves the group.
pub proof fn every_target_is_asked_before_a_group_is_left(
    v: SyncView,
    told: Seq<(PlayedState, MarkOutcome)>,
)
    requires
        v.stage == SyncStage::FetchTarget,
        v.target == 1,
        0 <= v.group < v.groups.len(),
        told.len() < v.candidates.len(),
        v.candidates.len() >= 2,
    ensures
        ({
            let end = after_targets(v, told);
            if told.len() + 1 < v.candidates.len() {
                &&& end.stage == SyncStage::FetchTarget
                &&& end.target == told.len() + 1
                &&& end.source_played == v.source_played
                &&& is_same_group(v, end)
            } else {
                &&& is_at_group(end, v.user, v.group + 1)
                &&& is_same_sync(v, end)
                &&& end.contexts == v.contexts
            }
        }),
    decreases told.len(),
{
    if told.len() > 0 {
        let rest = told.drop_last();
        every_target_is_asked_before_a_group_is_left(v, rest);
        let before = after_targets(v, rest);
        let state = SyncAnswer::Played(told.last().0);
        let asked = after_answer(before, state);
        a_group_is_left_only_behind_its_last_target(before, state);
        if asked.stage == SyncStage::MarkTarget {
            a_group_is_left_only_behind_its_last_target(asked, SyncAnswer::Marked(told.last().1));
        }
    }
}

// ---------------------------------------------------------------------------
// What a sync does to the servers
// ---------------------------------------------------------------------------

/// What the servers say to what the sync asks for, where they have the given states and do what
/// they are asked to.
pub open spec fn willing_answer(action: SyncAction, states: Seq<bool>) -> SyncAnswer {
    match action {
        SyncAction::FetchPlayed(candidate) => SyncAnswer::Played(
            PlayedState::Played(states[candidate as int]),
        ),
        _ => SyncAnswer::Marked(MarkOutcome::Marked),
    }
}

/// The states on the servers once they have done what the sync asks for.
pub open spec fn states_after(action: SyncAction, states: Seq<bool>) -> Seq<bool> {
    match action {
        SyncAction::MarkPlayed(candidate, played) => states.update(candidate as int, played),
        _ => states,
    }
}

/// The sync and the states on the servers after so many questions.
pub open spec fn after_questions(v: SyncView, states: Seq<bool>, questions: nat) -> (
    SyncView,
    Seq<bool>,
)
    decreases questions,
{
    if questions == 0 {
        (v, states)
    } else {
        after_questions(
            after_answer(v, willing_answer(action_of(v), states)),
            states_after(action_of(v), states),
            (questions - 1) as nat,
        )
    }
}

/// The sync once the target in turn has told its state, and has been changed where it differs.
spec fn behind_target(v: SyncView, played: bool) -> SyncView {
    let asked = after_answer(v, SyncAnswer::Played(PlayedState::Played(played)));
    if asked.stage == SyncStage::MarkTarget {
        after_answer(asked, SyncAnswer::Marked(MarkOutcome::Marked))
    } else {
        asked
    }
}

proof fn lemma_behind_target(v: SyncView, played: bool)
    requires
        v.stage == SyncStage::FetchTarget,
        0 <= v.group < v.groups.len(),
        1 <= v.target < v.candidates.len(),
    ensures
        ({
            let asked = after_answer(v, SyncAnswer::Played(PlayedState::Played(played)));
            let next = behind_target(v, played);
            &&& asked.stage == SyncStage::MarkTarget <==> played != v.source_played
            &&& asked.stage == SyncStage::MarkTarget ==> asked.target == v.target
                && asked.source_played == v.source_played
            &&& if v.target + 1 < v.candidates.len() {
                &&& next.stage == SyncStage::FetchTarget
                &&& next.target == v.target + 1
                &&& next.source_played == v.source_played
                &&& is_same_group(v, next)
            } else {
                is_at_group(next, v.user, v.group + 1)
            }
        }),
{
    let state = SyncAnswer::Played(PlayedState::Played(played));
    let asked = after_answer(v, state);
    a_group_is_left_only_behind_its_last_target(v, state);
    if asked.stage == SyncStage::MarkTarget {
        a_group_is_left_only_behind_its_last_target(
            asked,
            SyncAnswer::Marked(MarkOutcome::Marked),
        );
    }
}

proof fn lemma_one_question(v: SyncView, states: Seq<bool>, more: nat)
    ensures
        after_questions(v, states, more + 1) == after_questions(
            after_answer(v, willing_answer(action_of(v), states)),
            states_after(action_of(v), states),
            more,
        ),
{
}

proof fn lemma_questions_of_target(v: SyncView, states: Seq<bool>, more: nat) -> (questions: nat)
    requires
        v.stage == SyncStage::FetchTarget,
        0 <= v.group < v.groups.len(),
        1 <= v.target < v.candidates.len() <= usize::MAX,
        states.len() == v.candidates.len(),
    ensures
        after_questions(v, states, questions) == after_questions(
            behind_target(v, states[v.target]),
            states.update(v.target, v.source_played),
            more,
        ),
{
    let played = states[v.target];
    let state = SyncAnswer::Played(PlayedState::Played(played));
    let asked = after_answer(v, state);
    lemma_behind_target(v, played);
    assert(willing_answer(action_of(v), states) == state);
    assert(states_after(action_of(v), states) == states);
    if asked.stage == SyncStage::MarkTarget {
        assert(willing_answer(action_of(asked), states) == SyncAnswer::Marked(MarkOutcome::Marked));
        assert(states_after(action_of(asked), states) == states.update(v.target, v.source_played));
        lemma_one_question(asked, states, more);
        lemma_one_question(v, states, more + 1);
        more + 2
    } else {
        assert(states.update(v.target, v.source_played) =~= states);
        lemma_one_question(v, states, more);
        more + 1
    }
}

proof fn lemma_targets_end_in_sync(v: SyncView, states: Seq<bool>) -> (questions: nat)
    requires
        v.stage == SyncStage::FetchTarget,
        0 <= v.group < v.groups.len(),
        1 <= v.target < v.candidates.len() <= usize::MAX,
        states.len() == v.candidates.len(),
        forall|i: int| 0 <= i < v.target ==> #[trigger] states[i] == v.source_played,
    ensures
        ({
            let (end, left) = after_questions(v, states, questions);
            &&& is_at_group(end, v.user, v.group + 1)
            &&& left.len() == states.len()
            &&& forall|i: int| 0 <= i < left.len() ==> #[trigger] left[i] == v.source_played
        }),
    decreases v.candidates.len() - v.target,
{
    let next = behind_target(v, states[v.target]);
    let marked = states.update(v.target, v.source_played);
    lemma_behind_target(v, states[v.target]);
    assert forall|i: int| 0 <= i < v.target + 1 implies #[trigger] marked[i] == v.source_played by {
        if i < v.target {
            assert(marked[i] == states[i]);
        }
    }
    let more: nat = if v.target + 1 < v.candidates.len() {
        lemma_targets_end_in_sync(next, marked)
    } else {
        0
    };
    lemma_questions_of_target(v, states, more)
}

/// Where the servers of a group have the item and do what they are asked to, all of them have the
/// state of the source once the sync leaves the group, whatever states they had.
pub proof fn servers_end_with_the_state_of_the_source(
    v: SyncView,
    states: Seq<bool>,
) -> (questions: nat)
    requires
        v.stage == SyncStage::FetchSource,
        0 <= v.group < v.groups.len(),
        2 <= v.candidates.len() <= usize::MAX,
        states.len() == v.candidates.len(),
    ensures
        ({
            let (end, left) = after_questions(v, states, questions);
            &&& is_at_group(end, v.user, v.group + 1)
            &&& left.len() == states.len()
            &&& forall|i: int| 0 <= i < left.len() ==> #[trigger] left[i] == states[0]
        }),
{
    let state = PlayedState::Played(states[0]);
    the_source_is_followed_by_the_first_target(v, state);
    let next = after_answer(v, SyncAnswer::Played(state));
    let more = lemma_targets_end_in_sync(next, states);
    assert(after_questions(v, states, more + 1) == after_questions(next, states, more));
    more + 1
}

// ---------------------------------------------------------------------------
// What is counted
// ---------------------------------------------------------------------------

/// Whether a report says as much more as given of pairs, changes, pairs in sync, missing items,
/// groups without sessions and failed requests, and the same of all else.
pub open spec fn has_counted(
    before: WatchSyncReport,
    after: WatchSyncReport,
    pairs: int,
    updates: int,
    in_sync: int,
    missing_items: int,
    missing_sessions: int,
    failures: int,
) -> bool {
    &&& after.dedupe_groups_total == before.dedupe_groups_total
    &&& after.dedupe_groups_eligible == before.dedupe_groups_eligible
    &&& after.users_total == before.users_total
    &&& after.users_with_mappings == before.users_with_mappings
    &&& after.users_authenticated == before.users_authenticated
    &&& after.sync_pairs_checked == before.sync_pairs_checked + pairs
    &&& after.updates_applied == before.updates_applied + updates
    &&& after.already_in_sync == before.already_in_sync + in_sync
    &&& after.skipped_missing_items == before.skipped_missing_items + missing_items
    &&& after.skipped_missing_sessions == before.skipped_missing_sessions + missing_sessions
    &&& after.mapping_resolution_misses == before.mapping_resolution_misses
    &&& after.authentication_failures == before.authentication_failures
    &&& after.request_failures == before.request_failures + failures
}

/// In a group each answer is counted for what it is: a target that was changed, is in sync, lacks
/// the item or failed; a source that lacks the item or failed; and a pair once its target is next.
/// The groups that are passed over behind the group are counted for their missing sessions.
pub proof fn answers_in_a_group_are_counted(v: SyncView, answer: SyncAnswer)
    requires
        is_sound(v),
        is_awaited(v, answer),
        has_room(v, answer),
        v.stage == SyncStage::FetchSource || v.stage == SyncStage::FetchTarget || v.stage
            == SyncStage::MarkTarget,
    ensures
        ({
            let next = after_answer(v, answer);
            has_counted(
                v.report,
                next.report,
                if next.stage == SyncStage::FetchTarget {
                    1
                } else {
                    0
                },
                if answer == SyncAnswer::Marked(MarkOutcome::Marked) {
                    1
                } else {
                    0
                },
                if v.stage == SyncStage::FetchTarget && answer == SyncAnswer::Played(
                    PlayedState::Played(v.source_played),
                ) {
                    1
                } else {
                    0
                },
                if answer == SyncAnswer::Played(PlayedState::Missing) || answer
                    == SyncAnswer::Marked(MarkOutcome::Missing) {
                    1
                } else {
                    0
                },
                if next.stage == SyncStage::FetchTarget || next.stage == SyncStage::MarkTarget {
                    0
                } else {
                    next.group - (v.group + 1)
                },
                if answer == SyncAnswer::Played(PlayedState::Failed) || answer
                    == SyncAnswer::Marked(MarkOutcome::Failed) {
                    1
                } else {
                    0
                },
            )
        }),
{
    lemma_first_to_compare(v.groups, v.contexts, v.group + 1);
}

/// The servers that are listed are the ones that mappings lead to, and the groups come next. A sync
/// that cannot list the servers is over, which counts as a failed request.
pub proof fn a_sync_needs_its_servers(v: SyncView, servers: Option<Vec<Server>>)
    requires
        has_room(v, SyncAnswer::Servers(servers)),
    ensures
        ({
            let next = after_answer(v, SyncAnswer::Servers(servers));
            match servers {
                Some(listed) => {
                    &&& next.stage == SyncStage::ListGroups
                    &&& next.servers == listed@
                    &&& next.report == v.report
                },
                None => {
                    &&& next.stage == SyncStage::Done
                    &&& has_counted(v.report, next.report, 0, 0, 0, 0, 0, 1)
                },
            }
        }),
{
}

/// All groups are counted, and the members of those with several are looked up next.
pub proof fn all_groups_are_counted(v: SyncView, groups: Vec<MediaDedupeGroup>)
    ensures
        ({
            let next = after_answer(v, SyncAnswer::Groups(groups));
            &&& next.stage == SyncStage::ResolveMembers
            &&& next.pending == shared_groups(groups@)
            &&& next.servers == v.servers
            &&& next.report == (WatchSyncReport {
                dedupe_groups_total: groups@.len() as usize,
                ..v.report
            })
        }),
{
}

/// The groups that are looked at further are counted, and so are the identifiers that were not
/// found. The users come next.
pub proof fn eligible_groups_are_counted(v: SyncView, found: Vec<Vec<Option<String>>>)
    requires
        is_sound(v),
        is_awaited(v, SyncAnswer::Members(found)),
        has_room(v, SyncAnswer::Members(found)),
    ensures
        ({
            let next = after_answer(v, SyncAnswer::Members(found));
            &&& next.stage == SyncStage::ListUsers
            &&& next.groups == resolved_groups(v.pending, found@)
            &&& next.servers == v.servers
            &&& next.report.dedupe_groups_eligible == next.groups.len()
            &&& next.report.mapping_resolution_misses == v.report.mapping_resolution_misses
                + misses(found@)
            &&& next.report == (WatchSyncReport {
                dedupe_groups_eligible: next.report.dedupe_groups_eligible,
                mapping_resolution_misses: next.report.mapping_resolution_misses,
                ..v.report
            })
        }),
{
    let places = groups_with_two_identifiers_or_more_are_kept(v.pending, found@);
    lemma_no_more_places(
        places,
        v.pending.len() as int,
        |k: int| resolved_members(v.pending[k].members@, found@[k]@).len() >= 2,
    );
}

proof fn lemma_no_more_places(places: Seq<int>, n: int, chosen: spec_fn(int) -> bool)
    requires
        0 <= n,
        are_places(places, n, chosen),
    ensures
        places.len() <= n,
{
    if places.len() > 0 {
        lemma_places_are_apart(places, n, chosen, places.len() - 1);
    }
}

proof fn lemma_places_are_apart(places: Seq<int>, n: int, chosen: spec_fn(int) -> bool, i: int)
    requires
        are_places(places, n, chosen),
        0 <= i < places.len(),
    ensures
        i <= places[i] < n,
    decreases i,
{
    assert(places.contains(places[i]));
    if i > 0 {
        lemma_places_are_apart(places, n, chosen, i - 1);
        assert(places[i - 1] < places[i]);
    }
}

/// The users that are listed come in turn, from the first on. A sync that cannot list them is over,
/// which counts as a failed request.
pub proof fn users_come_in_turn(v: SyncView, users: Option<usize>)
    requires
        has_room(v, SyncAnswer::Users(users)),
    ensures
        ({
            let next = after_answer(v, SyncAnswer::Users(users));
            match users {
                Some(count) => {
                    &&& is_at_user(next, 0)
                    &&& next.report == (WatchSyncReport { users_total: count, ..v.report })
                    &&& next.servers == v.servers
                    &&& next.groups == v.groups
                },
                None => {
                    &&& next.stage == SyncStage::Done
                    &&& has_counted(v.report, next.report, 0, 0, 0, 0, 0, 1)
                },
            }
        }),
{
}

/// A user with mappings is counted and authenticated on their servers next. A user without any, or
/// whose mappings cannot be listed, is left for the next; the latter counts as a failed request.
pub proof fn a_user_needs_mappings(v: SyncView, urls: Option<Vec<String>>)
    requires
        is_sound(v),
        v.stage == SyncStage::ListMappings,
        has_room(v, SyncAnswer::Mappings(urls)),
    ensures
        ({
            let next = after_answer(v, SyncAnswer::Mappings(urls));
            &&& is_same_sync(v, next)
            &&& urls is Some && (urls->0)@.len() > 0 ==> {
                &&& next.stage == SyncStage::Authenticate
                &&& next.user == v.user
                &&& next.attempts == mapped_servers(v.servers, (urls->0)@)
                &&& next.report.users_with_mappings == v.report.users_with_mappings + 1
                &&& next.report == (WatchSyncReport {
                    users_with_mappings: next.report.users_with_mappings,
                    ..v.report
                })
            }
            &&& urls is Some && (urls->0)@.len() == 0 ==> is_at_user(next, v.user + 1)
                && next.report == v.report
            &&& urls is None ==> is_at_user(next, v.user + 1) && has_counted(
                v.report,
                next.report,
                0,
                0,
                0,
                0,
                0,
                1,
            )
        }),
{
}

/// A user that is authenticated on a server is counted, and the groups come in turn from the first
/// on. A user that is authenticated on none is left for the next. Every refusal is counted.
pub proof fn a_user_needs_a_session(v: SyncView, sessions: Vec<Option<AuthorizationSession>>)
    requires
        is_sound(v),
        is_awaited(v, SyncAnswer::Sessions(sessions)),
        has_room(v, SyncAnswer::Sessions(sessions)),
    ensures
        ({
            let next = after_answer(v, SyncAnswer::Sessions(sessions));
            let any = exists|k: int| 0 <= k < sessions@.len() && #[trigger] sessions@[k] is Some;
            &&& is_same_sync(v, next)
            &&& next.contexts == authenticated(v.attempts, sessions@)
            &&& next.report.authentication_failures == v.report.authentication_failures + refusals(
                sessions@,
            )
            &&& any ==> {
                &&& is_at_group(next, v.user, 0)
                &&& next.report.users_authenticated == v.report.users_authenticated + 1
                &&& next.report.skipped_missing_sessions == v.report.skipped_missing_sessions
                    + next.group
            }
            &&& !any ==> {
                &&& is_at_user(next, v.user + 1)
                &&& next.report.users_authenticated == v.report.users_authenticated
                &&& next.report.skipped_missing_sessions == v.report.skipped_missing_sessions
            }
            &&& next.report == (WatchSyncReport {
                authentication_failures: next.report.authentication_failures,
                users_authenticated: next.report.users_authenticated,
                skipped_missing_sessions: next.report.skipped_missing_sessions,
                ..v.report
            })
        }),
{
    let contexts = authenticated(v.attempts, sessions@);
    let places = servers_that_give_a_session_are_kept(v.attempts, sessions@);
    if exists|k: int| 0 <= k < sessions@.len() && #[trigger] sessions@[k] is Some {
        let k = choose|k: int| 0 <= k < sessions@.len() && #[trigger] sessions@[k] is Some;
        assert(places.contains(k));
    } else if places.len() > 0 {
        assert(places.contains(places[0]));
        assert(sessions@[places[0]] is Some);
    }
    lemma_first_to_compare(v.groups, contexts, 0);
}

/// A sync begins with the servers, with nothing counted.
pub proof fn a_sync_begins_with_nothing_counted()
    ensures
        fresh_sync().stage == SyncStage::ListServers,
        fresh_sync().user == 0,
        ({
            let report = fresh_sync().report;
            &&& report.dedupe_groups_total == 0
            &&& report.dedupe_groups_eligible == 0
            &&& report.users_total == 0
            &&& report.users_with_mappings == 0
            &&& report.users_authenticated == 0
            &&& report.sync_pairs_checked == 0
            &&& report.updates_applied == 0
            &&& report.already_in_sync == 0
            &&& report.skipped_missing_items == 0
            &&& report.skipped_missing_sessions == 0
            &&& report.mapping_resolution_misses == 0
            &&& report.authentication_failures == 0
            &&& report.request_failures == 0
        }),
{
}

// ---------------------------------------------------------------------------
// What is said to servers
// ---------------------------------------------------------------------------

/// A sync introduces itself as a device of its own, told by the proxy's device and this ending.
pub proof fn a_sync_is_a_device_of_its_own(device_id: Seq<char>, other: Seq<char>)
    ensures
        sync_device_id(device_id) == device_id + "-watch-sync"@,
        sync_device_id(device_id) != device_id,
        sync_device_id(device_id) == sync_device_id(other) ==> device_id == other,
{
    reveal_strlit("-watch-sync");
    let n = device_id.len() as int;
    assert(sync_device_id(device_id).len() == n + 11);
    assert(sync_device_id(device_id).take(n) =~= device_id);
    if sync_device_id(device_id) == sync_device_id(other) {
        assert(sync_device_id(other).len() == other.len() + 11);
        assert(sync_device_id(other).take(other.len() as int) =~= other);
    }
}

/// The paths name the user and the medium: the item, and its watched state.
pub proof fn paths_name_the_user_and_the_medium(user_id: Seq<char>, media_id: Seq<char>)
    ensures
        item_path(user_id, media_id) == "/Users/"@ + user_id + "/Items/"@ + media_id,
        played_path(user_id, media_id) == "/Users/"@ + user_id + "/PlayedItems/"@ + media_id,
{
}

/// What is said of a failed authentication tells the stage that failed, and what it says where it
/// says something.
pub proof fn a_refusal_tells_the_stage_that_failed(cause: Seq<char>)
    ensures
        problem_at(AuthenticationStage::SetUpClient).message_text(cause) == "client init error: "@
            + cause,
        problem_at(AuthenticationStage::SignIn).message_text(cause) == "authentication error: "@
            + cause,
        problem_at(AuthenticationStage::ReadToken).message_text(cause)
            == "missing token after successful authentication"@,
        problem_at(AuthenticationStage::StoreSession).message_text(cause)
            == "failed to store authorization session: "@ + cause,
{
}

} // verus!
