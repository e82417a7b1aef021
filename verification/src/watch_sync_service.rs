//! Watch data follows the server of the highest priority: for each user and each medium that
//! several servers have, the other servers get the watched state of that server.
use vstd::prelude::*;

use crate::media_storage_service::{MediaDedupeGroup, MediaDedupeMember};
use crate::models::{
    is_success, is_success_status, Authorization, AuthorizationSession, Device, Server,
    STATUS_NOT_FOUND,
};
use crate::order::{rank_list, ranked, ranking_orders_by_rank, Ranked};
use crate::text::{copy_text, trim_end_of, without_trailing};

verus! {

// ---------------------------------------------------------------------------
// What is counted
// ---------------------------------------------------------------------------

/// What a sync came to.
#[derive(Debug, Clone, Copy)]
pub struct WatchSyncReport {
    pub dedupe_groups_total: usize,
    pub dedupe_groups_eligible: usize,
    pub users_total: usize,
    pub users_with_mappings: usize,
    pub users_authenticated: usize,
    pub sync_pairs_checked: usize,
    pub updates_applied: usize,
    pub already_in_sync: usize,
    pub skipped_missing_items: usize,
    pub skipped_missing_sessions: usize,
    pub mapping_resolution_misses: usize,
    pub authentication_failures: usize,
    pub request_failures: usize,
}

/// A report with nothing in it.
pub open spec fn empty_report() -> WatchSyncReport {
    WatchSyncReport {
        dedupe_groups_total: 0,
        dedupe_groups_eligible: 0,
        users_total: 0,
        users_with_mappings: 0,
        users_authenticated: 0,
        sync_pairs_checked: 0,
        updates_applied: 0,
        already_in_sync: 0,
        skipped_missing_items: 0,
        skipped_missing_sessions: 0,
        mapping_resolution_misses: 0,
        authentication_failures: 0,
        request_failures: 0,
    }
}

impl Default for WatchSyncReport {
    fn default() -> (r: Self)
        ensures
            r == empty_report(),
    {
        WatchSyncReport {
            dedupe_groups_total: 0,
            dedupe_groups_eligible: 0,
            users_total: 0,
            users_with_mappings: 0,
            users_authenticated: 0,
            sync_pairs_checked: 0,
            updates_applied: 0,
            already_in_sync: 0,
            skipped_missing_items: 0,
            skipped_missing_sessions: 0,
            mapping_resolution_misses: 0,
            authentication_failures: 0,
            request_failures: 0,
        }
    }
}

// ---------------------------------------------------------------------------
// Servers by address
// ---------------------------------------------------------------------------

/// The address of a server without the slashes at its end.
pub fn normalize_server_url(url: &str) -> (r: String)
    ensures
        r@ == without_trailing(url@, '/'),
{
    trim_end_of(url, '/')
}

/// Whether two addresses are the same but for slashes at the end.
pub open spec fn same_address(a: Seq<char>, b: Seq<char>) -> bool {
    without_trailing(a, '/') == without_trailing(b, '/')
}

/// The server at an address: the last one in the list where several have it.
pub open spec fn server_at(servers: Seq<Server>, url: Seq<char>) -> Option<Server>
    decreases servers.len(),
{
    if servers.len() == 0 {
        None
    } else if same_address(servers.last().url@, url) {
        Some(servers.last())
    } else {
        server_at(servers.drop_last(), url)
    }
}

/// A copy of the server at an address.
pub fn find_server_at(servers: &Vec<Server>, url: &str) -> (r: Option<Server>)
    ensures
        r == server_at(servers@, url@),
{
    let wanted: String = normalize_server_url(url);
    let mut i: usize = servers.len();
    assert(servers@.take(i as int) == servers@);
    while i > 0
        invariant
            i <= servers@.len(),
            wanted@ == without_trailing(url@, '/'),
            server_at(servers@, url@) == server_at(servers@.take(i as int), url@),
        decreases i,
    {
        assert(servers@.take(i as int).drop_last() == servers@.take(i - 1));
        let address: String = normalize_server_url(servers[i - 1].url.as_str());
        if address == wanted {
            return Some(servers[i - 1].clone());
        }
        i -= 1;
    }
    None
}

// ---------------------------------------------------------------------------
// Groups whose media are known
// ---------------------------------------------------------------------------

/// A server's own identifier for a medium.
#[derive(Debug)]
pub struct ResolvedGroupMember {
    pub server_id: i64,
    pub original_media_id: String,
}

/// The identifiers that several servers have for one medium.
#[derive(Debug)]
pub struct ResolvedGroup {
    pub members: Vec<ResolvedGroupMember>,
}

/// Groups as lists of members.
pub open spec fn member_lists(groups: Seq<ResolvedGroup>) -> Seq<Seq<ResolvedGroupMember>> {
    groups.map_values(|group: ResolvedGroup| group.members@)
}

/// The groups with several members: only those are looked at.
pub open spec fn shared_groups(groups: Seq<MediaDedupeGroup>) -> Seq<MediaDedupeGroup> {
    groups.filter(|group: MediaDedupeGroup| group.members@.len() >= 2)
}

/// The members whose own identifier was found.
pub open spec fn resolved_members(
    members: Seq<MediaDedupeMember>,
    found: Seq<Option<String>>,
) -> Seq<ResolvedGroupMember>
    decreases members.len(),
{
    if members.len() == 0 || found.len() != members.len() {
        Seq::empty()
    } else {
        let rest = resolved_members(members.drop_last(), found.drop_last());
        match found.last() {
            Some(original_media_id) => rest.push(
                ResolvedGroupMember { server_id: members.last().server_id, original_media_id },
            ),
            None => rest,
        }
    }
}

/// The groups with several members whose own identifiers were found.
pub open spec fn resolved_groups(
    groups: Seq<MediaDedupeGroup>,
    found: Seq<Vec<Option<String>>>,
) -> Seq<Seq<ResolvedGroupMember>>
    decreases groups.len(),
{
    if groups.len() == 0 || found.len() != groups.len() {
        Seq::empty()
    } else {
        let rest = resolved_groups(groups.drop_last(), found.drop_last());
        let members = resolved_members(groups.last().members@, found.last()@);
        if members.len() >= 2 {
            rest.push(members)
        } else {
            rest
        }
    }
}

/// How many identifiers of one group were not found.
pub open spec fn misses_in(found: Seq<Option<String>>) -> nat
    decreases found.len(),
{
    if found.len() == 0 {
        0
    } else {
        misses_in(found.drop_last()) + if found.last() is None {
            1nat
        } else {
            0nat
        }
    }
}

/// How many identifiers were not found.
pub open spec fn misses(found: Seq<Vec<Option<String>>>) -> nat
    decreases found.len(),
{
    if found.len() == 0 {
        0
    } else {
        misses(found.drop_last()) + misses_in(found.last()@)
    }
}

/// Whether there is an answer for each member of each group.
pub open spec fn answers_each_member(
    groups: Seq<MediaDedupeGroup>,
    found: Seq<Vec<Option<String>>>,
) -> bool {
    &&& found.len() == groups.len()
    &&& forall|i: int|
        0 <= i < groups.len() ==> (#[trigger] found[i])@.len() == groups[i].members@.len()
}

fn keep_shared(groups: Vec<MediaDedupeGroup>) -> (r: Vec<MediaDedupeGroup>)
    ensures
        r@ == shared_groups(groups@),
{
    let ghost all = groups@;
    let ghost shared = |group: MediaDedupeGroup| group.members@.len() >= 2;
    let mut out: Vec<MediaDedupeGroup> = Vec::new();
    let ghost mut done: int = 0;
    proof {
        reveal(Seq::filter);
        assert(out@ =~= all.take(0).filter(shared));
    }
    for group in it: groups
        invariant
            it.seq() == all,
            done == it.index(),
            shared == |group: MediaDedupeGroup| group.members@.len() >= 2,
            out@ == all.take(done).filter(shared),
    {
        proof {
            reveal(Seq::filter);
            done = done + 1;
            assert(all.take(done).drop_last() == all.take(done - 1));
        }
        if group.members.len() >= 2 {
            out.push(group);
        }
    }
    assert(all.take(done) == all);
    out
}

/// The groups with several members whose own identifiers were found, and how many were not.
pub fn resolve_groups(
    groups: &Vec<MediaDedupeGroup>,
    found: Vec<Vec<Option<String>>>,
) -> (r: (Vec<ResolvedGroup>, usize))
    requires
        answers_each_member(groups@, found@),
        misses(found@) <= usize::MAX,
    ensures
        member_lists(r.0@) == resolved_groups(groups@, found@),
        r.1 == misses(found@),
{
    let ghost all = found@;
    let count: usize = groups.len();
    let mut out: Vec<ResolvedGroup> = Vec::new();
    let mut missed: usize = 0;
    let mut i: usize = 0;
    assert(member_lists(out@) =~= resolved_groups(groups@.take(0), all.take(0)));
    for answers in it: found
        invariant
            it.seq() == all,
            i == it.index(),
            count == groups@.len(),
            answers_each_member(groups@, all),
            misses(all) <= usize::MAX,
            member_lists(out@) == resolved_groups(groups@.take(i as int), all.take(i as int)),
            missed == misses(all.take(i as int)),
    {
        proof {
            assert(answers == all[i as int]);
            assert(all.take(i + 1).drop_last() == all.take(i as int));
            assert(groups@.take(i + 1).drop_last() == groups@.take(i as int));
            lemma_misses_grow(all, i + 1);
        }
        let ghost own = answers@;
        let (members, own_misses): (Vec<ResolvedGroupMember>, usize) = resolve_members(
            &groups[i].members,
            answers,
        );
        missed = missed + own_misses;
        let ghost before = out@;
        if members.len() >= 2 {
            let group: ResolvedGroup = ResolvedGroup { members };
            out.push(group);
            assert(member_lists(out@) =~= member_lists(before).push(members@));
        }
        i += 1;
    }
    assert(all.take(i as int) == all);
    assert(groups@.take(i as int) == groups@);
    (out, missed)
}

proof fn lemma_misses_grow(found: Seq<Vec<Option<String>>>, n: int)
    requires
        0 <= n <= found.len(),
    ensures
        misses(found.take(n)) <= misses(found),
    decreases found.len(),
{
    if n < found.len() {
        lemma_misses_grow(found.drop_last(), n);
        assert(found.drop_last().take(n) =~= found.take(n));
    } else {
        assert(found.take(n) =~= found);
    }
}

fn fits_members(groups: &Vec<MediaDedupeGroup>, found: &Vec<Vec<Option<String>>>) -> (r: bool)
    ensures
        r == answers_each_member(groups@, found@),
{
    if found.len() != groups.len() {
        return false;
    }
    let mut i: usize = 0;
    while i < groups.len()
        invariant
            i <= groups@.len(),
            found@.len() == groups@.len(),
            forall|k: int|
                0 <= k < i ==> (#[trigger] found@[k])@.len() == groups@[k].members@.len(),
        decreases groups@.len() - i,
    {
        if found[i].len() != groups[i].members.len() {
            assert(found@[i as int]@.len() != groups@[i as int].members@.len());
            return false;
        }
        i += 1;
    }
    true
}

fn can_count_misses(counted: usize, found: &Vec<Vec<Option<String>>>) -> (r: bool)
    ensures
        r == (counted + misses(found@) <= usize::MAX),
{
    let mut total: usize = counted;
    let mut i: usize = 0;
    while i < found.len()
        invariant
            i <= found@.len(),
            total == counted + misses(found@.take(i as int)),
        decreases found@.len() - i,
    {
        proof {
            assert(found@.take(i + 1).drop_last() == found@.take(i as int));
            lemma_misses_grow(found@, i + 1);
        }
        let mut own: usize = 0;
        let mut k: usize = 0;
        while k < found[i].len()
            invariant
                i < found@.len(),
                own <= k <= found@[i as int]@.len(),
                own == misses_in(found@[i as int]@.take(k as int)),
            decreases found@[i as int]@.len() - k,
        {
            assert(found@[i as int]@.take(k + 1).drop_last() == found@[i as int]@.take(k as int));
            if found[i][k].is_none() {
                own += 1;
            }
            k += 1;
        }
        assert(found@[i as int]@.take(k as int) == found@[i as int]@);
        match total.checked_add(own) {
            Some(sum) => {
                total = sum;
            },
            None => {
                return false;
            },
        }
        i += 1;
    }
    assert(found@.take(i as int) == found@);
    true
}

fn resolve_members(members: &Vec<MediaDedupeMember>, found: Vec<Option<String>>) -> (r: (
    Vec<ResolvedGroupMember>,
    usize,
))
    requires
        found@.len() == members@.len(),
    ensures
        r.0@ == resolved_members(members@, found@),
        r.1 == misses_in(found@),
{
    let ghost all = found@;
    let count: usize = members.len();
    let mut out: Vec<ResolvedGroupMember> = Vec::new();
    let mut missed: usize = 0;
    let mut i: usize = 0;
    assert(out@ =~= resolved_members(members@.take(0), all.take(0)));
    for answer in it: found
        invariant
            it.seq() == all,
            i == it.index(),
            count == members@.len(),
            all.len() == count,
            missed <= i,
            out@ == resolved_members(members@.take(i as int), all.take(i as int)),
            missed == misses_in(all.take(i as int)),
    {
        proof {
            assert(answer == all[i as int]);
            assert(all.take(i + 1).drop_last() == all.take(i as int));
            assert(members@.take(i + 1).drop_last() == members@.take(i as int));
        }
        match answer {
            Some(original_media_id) => {
                out.push(
                    ResolvedGroupMember { server_id: members[i].server_id, original_media_id },
                );
            },
            None => {
                missed += 1;
            },
        }
        i += 1;
    }
    assert(all.take(i as int) == all);
    assert(members@.take(i as int) == members@);
    (out, missed)
}

// ---------------------------------------------------------------------------
// The sessions of a user
// ---------------------------------------------------------------------------

/// The server that one of a user's mappings leads to. `mapping` is the place of the mapping.
#[derive(Debug)]
pub struct MappedServer {
    pub mapping: usize,
    pub server: Server,
}

/// A server that a user is authenticated on.
#[derive(Debug)]
pub struct AuthenticatedServerContext {
    pub server: Server,
    pub session: AuthorizationSession,
}

/// The servers that a user is authenticated on: those at the addresses of the mappings, in the
/// order of the mappings. A mapping to an unknown address leads nowhere.
pub open spec fn mapped_servers(servers: Seq<Server>, urls: Seq<String>) -> Seq<MappedServer>
    decreases urls.len(),
{
    if urls.len() == 0 {
        Seq::empty()
    } else {
        let rest = mapped_servers(servers, urls.drop_last());
        match server_at(servers, urls.last()@) {
            Some(server) => rest.push(
                MappedServer { mapping: (urls.len() - 1) as usize, server },
            ),
            None => rest,
        }
    }
}

fn map_servers(servers: &Vec<Server>, urls: &Vec<String>) -> (r: Vec<MappedServer>)
    ensures
        r@ == mapped_servers(servers@, urls@),
{
    let mut out: Vec<MappedServer> = Vec::new();
    let mut mapping: usize = 0;
    assert(out@ =~= mapped_servers(servers@, urls@.take(0)));
    while mapping < urls.len()
        invariant
            mapping <= urls@.len(),
            out@ == mapped_servers(servers@, urls@.take(mapping as int)),
        decreases urls@.len() - mapping,
    {
        assert(urls@.take(mapping + 1).drop_last() == urls@.take(mapping as int));
        if let Some(server) = find_server_at(servers, urls[mapping].as_str()) {
            out.push(MappedServer { mapping, server });
        }
        mapping += 1;
    }
    assert(urls@.take(mapping as int) == urls@);
    out
}

/// The contexts of the attempts that gave a session.
pub open spec fn authenticated(
    attempts: Seq<MappedServer>,
    sessions: Seq<Option<AuthorizationSession>>,
) -> Seq<AuthenticatedServerContext>
    decreases attempts.len(),
{
    if attempts.len() == 0 || sessions.len() != attempts.len() {
        Seq::empty()
    } else {
        let rest = authenticated(attempts.drop_last(), sessions.drop_last());
        match sessions.last() {
            Some(session) => rest.push(
                AuthenticatedServerContext { server: attempts.last().server, session },
            ),
            None => rest,
        }
    }
}

/// How many attempts gave no session.
pub open spec fn refusals(sessions: Seq<Option<AuthorizationSession>>) -> nat
    decreases sessions.len(),
{
    if sessions.len() == 0 {
        0
    } else {
        refusals(sessions.drop_last()) + if sessions.last() is None {
            1nat
        } else {
            0nat
        }
    }
}

fn collect_sessions(
    attempts: &Vec<MappedServer>,
    sessions: Vec<Option<AuthorizationSession>>,
) -> (r: (Vec<AuthenticatedServerContext>, usize))
    requires
        sessions@.len() == attempts@.len(),
    ensures
        r.0@ == authenticated(attempts@, sessions@),
        r.1 == refusals(sessions@),
        r.1 <= attempts@.len(),
{
    let ghost all = sessions@;
    let count: usize = attempts.len();
    let mut out: Vec<AuthenticatedServerContext> = Vec::new();
    let mut refused: usize = 0;
    let mut i: usize = 0;
    assert(out@ =~= authenticated(attempts@.take(0), all.take(0)));
    for answer in it: sessions
        invariant
            it.seq() == all,
            i == it.index(),
            count == attempts@.len(),
            all.len() == count,
            refused <= i,
            out@ == authenticated(attempts@.take(i as int), all.take(i as int)),
            refused == refusals(all.take(i as int)),
    {
        proof {
            assert(answer == all[i as int]);
            assert(all.take(i + 1).drop_last() == all.take(i as int));
            assert(attempts@.take(i + 1).drop_last() == attempts@.take(i as int));
        }
        match answer {
            Some(session) => {
                out.push(
                    AuthenticatedServerContext { server: attempts[i].server.clone(), session },
                );
            },
            None => {
                refused += 1;
            },
        }
        i += 1;
    }
    assert(all.take(i as int) == all);
    assert(attempts@.take(i as int) == attempts@);
    (out, refused)
}

// ---------------------------------------------------------------------------
// The servers that are compared
// ---------------------------------------------------------------------------

/// A server that has a medium, with the user's session on it.
#[derive(Debug)]
pub struct CandidateMember {
    pub server: Server,
    pub session: AuthorizationSession,
    pub original_media_id: String,
}

impl Ranked for CandidateMember {
    /// Servers of higher priority come first, and then servers by identifier.
    open spec fn before(self, other: Self) -> bool {
        self.server.priority > other.server.priority || (self.server.priority
            == other.server.priority && self.server.id < other.server.id)
    }

    fn ranks_before(&self, other: &Self) -> (r: bool) {
        self.server.priority > other.server.priority || (self.server.priority
            == other.server.priority && self.server.id < other.server.id)
    }

    proof fn rank_is_asymmetric(a: Self, b: Self) {
    }

    proof fn rank_is_negatively_transitive(a: Self, b: Self, c: Self) {
    }
}

/// The context on a server: that of the last mapping where several lead to the server.
pub open spec fn context_on(
    contexts: Seq<AuthenticatedServerContext>,
    server_id: i64,
) -> Option<AuthenticatedServerContext>
    decreases contexts.len(),
{
    if contexts.len() == 0 {
        None
    } else if contexts.last().server.id == server_id {
        Some(contexts.last())
    } else {
        context_on(contexts.drop_last(), server_id)
    }
}

/// How a member is asked, where the user is authenticated on its server.
pub open spec fn candidate_of(
    member: ResolvedGroupMember,
    contexts: Seq<AuthenticatedServerContext>,
) -> Option<CandidateMember> {
    match context_on(contexts, member.server_id) {
        Some(context) => Some(
            CandidateMember {
                server: context.server,
                session: context.session,
                original_media_id: member.original_media_id,
            },
        ),
        None => None,
    }
}

/// The servers that are compared, in no particular order.
pub open spec fn reachable_members(
    members: Seq<ResolvedGroupMember>,
    contexts: Seq<AuthenticatedServerContext>,
) -> Seq<CandidateMember> {
    members.filter_map(|member: ResolvedGroupMember| candidate_of(member, contexts))
}

/// The servers that are compared. The first is the source of the watched state.
pub open spec fn candidates_of(
    members: Seq<ResolvedGroupMember>,
    contexts: Seq<AuthenticatedServerContext>,
) -> Seq<CandidateMember> {
    ranked(reachable_members(members, contexts))
}

fn find_context(contexts: &Vec<AuthenticatedServerContext>, server_id: i64) -> (r: Option<usize>)
    ensures
        match r {
            Some(i) => i < contexts@.len() && context_on(contexts@, server_id) == Some(
                contexts@[i as int],
            ),
            None => context_on(contexts@, server_id) is None,
        },
{
    let mut i: usize = contexts.len();
    assert(contexts@.take(i as int) == contexts@);
    while i > 0
        invariant
            i <= contexts@.len(),
            context_on(contexts@, server_id) == context_on(contexts@.take(i as int), server_id),
        decreases i,
    {
        assert(contexts@.take(i as int).drop_last() == contexts@.take(i - 1));
        if contexts[i - 1].server.id == server_id {
            return Some(i - 1);
        }
        i -= 1;
    }
    None
}

fn list_candidates(
    members: &Vec<ResolvedGroupMember>,
    contexts: &Vec<AuthenticatedServerContext>,
) -> (r: Vec<CandidateMember>)
    ensures
        r@ == candidates_of(members@, contexts@),
{
    let ghost all = members@;
    let ghost pick = |member: ResolvedGroupMember| candidate_of(member, contexts@);
    let mut out: Vec<CandidateMember> = Vec::new();
    let mut i: usize = 0;
    assert(all.take(0).filter_map(pick) =~= Seq::<CandidateMember>::empty());
    while i < members.len()
        invariant
            i <= members@.len(),
            all == members@,
            pick == |member: ResolvedGroupMember| candidate_of(member, contexts@),
            out@ == all.take(i as int).filter_map(pick),
        decreases members@.len() - i,
    {
        assert(all.take(i + 1).drop_last() == all.take(i as int));
        let ghost before = out@;
        if let Some(k) = find_context(contexts, members[i].server_id) {
            let candidate: CandidateMember = CandidateMember {
                server: contexts[k].server.clone(),
                session: contexts[k].session.clone(),
                original_media_id: members[i].original_media_id.clone(),
            };
            assert(pick(all[i as int]) == Some(candidate));
            out.push(candidate);
            assert(out@ =~= before + seq![candidate]);
        }
        i += 1;
    }
    assert(all.take(i as int) == all);
    rank_list(out)
}

/// The first group from `from` on with several servers to compare; the number of groups where
/// there is none.
pub open spec fn next_group(
    groups: Seq<Seq<ResolvedGroupMember>>,
    contexts: Seq<AuthenticatedServerContext>,
    from: int,
) -> int
    decreases groups.len() - from,
{
    if from >= groups.len() {
        groups.len() as int
    } else if candidates_of(groups[from], contexts).len() >= 2 {
        from
    } else {
        next_group(groups, contexts, from + 1)
    }
}

// ---------------------------------------------------------------------------
// The course of a sync
// ---------------------------------------------------------------------------

/// What a sync waits for.
#[derive(Debug, Clone, Copy, PartialEq, Eq, Structural)]
pub enum SyncStage {
    ListServers,
    ListGroups,
    ResolveMembers,
    ListUsers,
    ListMappings,
    Authenticate,
    FetchSource,
    FetchTarget,
    MarkTarget,
    Done,
}

/// What a server says of the watched state of an item.
#[derive(Debug, Clone, Copy, PartialEq, Eq, Structural)]
pub enum PlayedState {
    Played(bool),
    Missing,
    Failed,
}

/// What became of a change of the watched state of an item.
#[derive(Debug, Clone, Copy, PartialEq, Eq, Structural)]
pub enum MarkOutcome {
    Marked,
    Missing,
    Failed,
}

/// What the sync is told.
#[derive(Debug)]
pub enum SyncAnswer {
    /// The servers, where they could be listed.
    Servers(Option<Vec<Server>>),
    /// The groups of media.
    Groups(Vec<MediaDedupeGroup>),
    /// The own identifier of each member of each group, where it was found.
    Members(Vec<Vec<Option<String>>>),
    /// The number of users, where they could be listed.
    Users(Option<usize>),
    /// The addresses of the mappings of the user in turn, where they could be listed.
    Mappings(Option<Vec<String>>),
    /// The session of each attempt, where it was successful.
    Sessions(Vec<Option<AuthorizationSession>>),
    /// The watched state on the server that was asked.
    Played(PlayedState),
    /// What became of the change on the server in turn.
    Marked(MarkOutcome),
}

/// What a sync asks for.
#[derive(Debug, Clone, Copy, PartialEq, Eq, Structural)]
pub enum SyncAction {
    ListServers,
    ListGroups,
    /// The members of the pending groups are looked up.
    ResolveMembers,
    ListUsers,
    /// The mappings of this user are listed.
    ListMappings(usize),
    /// This user is authenticated on the servers of the attempts.
    Authenticate(usize),
    /// The watched state on this candidate is fetched.
    FetchPlayed(usize),
    /// The watched state on this candidate is set.
    MarkPlayed(usize, bool),
    Finished,
}

/// A sync as values.
#[verifier::ext_equal]
pub struct SyncView {
    pub report: WatchSyncReport,
    pub stage: SyncStage,
    pub servers: Seq<Server>,
    pub pending: Seq<MediaDedupeGroup>,
    pub groups: Seq<Seq<ResolvedGroupMember>>,
    pub user: int,
    pub attempts: Seq<MappedServer>,
    pub contexts: Seq<AuthenticatedServerContext>,
    pub group: int,
    pub candidates: Seq<CandidateMember>,
    pub target: int,
    pub source_played: bool,
}

/// What a sync asks for.
pub open spec fn action_of(v: SyncView) -> SyncAction {
    match v.stage {
        SyncStage::ListServers => SyncAction::ListServers,
        SyncStage::ListGroups => SyncAction::ListGroups,
        SyncStage::ResolveMembers => SyncAction::ResolveMembers,
        SyncStage::ListUsers => SyncAction::ListUsers,
        SyncStage::ListMappings => SyncAction::ListMappings(v.user as usize),
        SyncStage::Authenticate => SyncAction::Authenticate(v.user as usize),
        SyncStage::FetchSource => SyncAction::FetchPlayed(0),
        SyncStage::FetchTarget => SyncAction::FetchPlayed(v.target as usize),
        SyncStage::MarkTarget => SyncAction::MarkPlayed(v.target as usize, v.source_played),
        SyncStage::Done => SyncAction::Finished,
    }
}

/// A sync before anything is known.
pub open spec fn fresh_sync() -> SyncView {
    SyncView {
        report: empty_report(),
        stage: SyncStage::ListServers,
        servers: Seq::empty(),
        pending: Seq::empty(),
        groups: Seq::empty(),
        user: 0,
        attempts: Seq::empty(),
        contexts: Seq::empty(),
        group: 0,
        candidates: Seq::empty(),
        target: 0,
        source_played: false,
    }
}

/// The sync with the given user in turn; done where there is no such user.
pub open spec fn to_user(v: SyncView, user: int) -> SyncView {
    SyncView {
        user,
        stage: if user < v.report.users_total {
            SyncStage::ListMappings
        } else {
            SyncStage::Done
        },
        ..v
    }
}

/// The sync with the next group in turn, from `from` on, that has several servers to compare; the
/// next user is in turn where there is none. The groups that are passed over are counted.
pub open spec fn to_group(v: SyncView, from: int) -> SyncView {
    let group = next_group(v.groups, v.contexts, from);
    let counted = SyncView {
        report: WatchSyncReport {
            skipped_missing_sessions: (v.report.skipped_missing_sessions + (group - from)) as usize,
            ..v.report
        },
        group,
        ..v
    };
    if group < v.groups.len() {
        SyncView {
            stage: SyncStage::FetchSource,
            candidates: candidates_of(v.groups[group], v.contexts),
            ..counted
        }
    } else {
        to_user(counted, v.user + 1)
    }
}

/// The sync with the given target in turn; the next group is in turn where there is no such
/// target.
pub open spec fn to_target(v: SyncView, target: int) -> SyncView {
    if target < v.candidates.len() {
        SyncView {
            report: WatchSyncReport {
                sync_pairs_checked: (v.report.sync_pairs_checked + 1) as usize,
                ..v.report
            },
            stage: SyncStage::FetchTarget,
            target,
            ..v
        }
    } else {
        to_group(SyncView { target, ..v }, v.group + 1)
    }
}

/// The sync with one more failed request.
pub open spec fn with_failure(v: SyncView) -> SyncView {
    SyncView {
        report: WatchSyncReport {
            request_failures: (v.report.request_failures + 1) as usize,
            ..v.report
        },
        ..v
    }
}

/// The sync with one more item that a server does not have.
pub open spec fn with_missing_item(v: SyncView) -> SyncView {
    SyncView {
        report: WatchSyncReport {
            skipped_missing_items: (v.report.skipped_missing_items + 1) as usize,
            ..v.report
        },
        ..v
    }
}

/// The sync once the servers have been listed.
pub open spec fn after_servers(v: SyncView, servers: Option<Vec<Server>>) -> SyncView {
    match servers {
        Some(listed) => SyncView { servers: listed@, stage: SyncStage::ListGroups, ..v },
        None => SyncView { stage: SyncStage::Done, ..with_failure(v) },
    }
}

/// The sync once the groups have been listed.
pub open spec fn after_groups(v: SyncView, groups: Seq<MediaDedupeGroup>) -> SyncView {
    SyncView {
        report: WatchSyncReport { dedupe_groups_total: groups.len() as usize, ..v.report },
        pending: shared_groups(groups),
        stage: SyncStage::ResolveMembers,
        ..v
    }
}

/// The sync once the members of the groups have been looked up.
pub open spec fn after_members(v: SyncView, found: Seq<Vec<Option<String>>>) -> SyncView {
    SyncView {
        report: WatchSyncReport {
            dedupe_groups_eligible: resolved_groups(v.pending, found).len() as usize,
            mapping_resolution_misses: (v.report.mapping_resolution_misses + misses(
                found,
            )) as usize,
            ..v.report
        },
        groups: resolved_groups(v.pending, found),
        stage: SyncStage::ListUsers,
        ..v
    }
}

/// The sync once the users have been listed.
pub open spec fn after_users(v: SyncView, users: Option<usize>) -> SyncView {
    match users {
        Some(count) => to_user(
            SyncView { report: WatchSyncReport { users_total: count, ..v.report }, ..v },
            0,
        ),
        None => SyncView { stage: SyncStage::Done, ..with_failure(v) },
    }
}

/// The sync once the mappings of the user in turn have been listed.
pub open spec fn after_mappings(v: SyncView, urls: Option<Vec<String>>) -> SyncView {
    match urls {
        Some(listed) => if listed@.len() == 0 {
            to_user(v, v.user + 1)
        } else {
            SyncView {
                report: WatchSyncReport {
                    users_with_mappings: (v.report.users_with_mappings + 1) as usize,
                    ..v.report
                },
                attempts: mapped_servers(v.servers, listed@),
                stage: SyncStage::Authenticate,
                ..v
            }
        },
        None => to_user(with_failure(v), v.user + 1),
    }
}

/// The sync once the user in turn has been authenticated.
pub open spec fn after_sessions(
    v: SyncView,
    sessions: Seq<Option<AuthorizationSession>>,
) -> SyncView {
    let contexts = authenticated(v.attempts, sessions);
    let counted = SyncView {
        report: WatchSyncReport {
            authentication_failures: (v.report.authentication_failures + refusals(
                sessions,
            )) as usize,
            ..v.report
        },
        contexts,
        ..v
    };
    if contexts.len() == 0 {
        to_user(counted, v.user + 1)
    } else {
        to_group(
            SyncView {
                report: WatchSyncReport {
                    users_authenticated: (counted.report.users_authenticated + 1) as usize,
                    ..counted.report
                },
                ..counted
            },
            0,
        )
    }
}

/// The sync once the watched state on the source is known.
pub open spec fn after_source(v: SyncView, state: PlayedState) -> SyncView {
    match state {
        PlayedState::Played(played) => to_target(SyncView { source_played: played, ..v }, 1),
        PlayedState::Missing => to_group(with_missing_item(v), v.group + 1),
        PlayedState::Failed => to_group(with_failure(v), v.group + 1),
    }
}

/// The sync once the watched state on the target in turn is known. It is changed only where it
/// differs from that on the source.
pub open spec fn after_target(v: SyncView, state: PlayedState) -> SyncView {
    match state {
        PlayedState::Played(played) => if played == v.source_played {
            to_target(
                SyncView {
                    report: WatchSyncReport {
                        already_in_sync: (v.report.already_in_sync + 1) as usize,
                        ..v.report
                    },
                    ..v
                },
                v.target + 1,
            )
        } else {
            SyncView { stage: SyncStage::MarkTarget, ..v }
        },
        PlayedState::Missing => to_target(with_missing_item(v), v.target + 1),
        PlayedState::Failed => to_target(with_failure(v), v.target + 1),
    }
}

/// The sync once the target in turn has been changed, or not.
pub open spec fn after_mark(v: SyncView, outcome: MarkOutcome) -> SyncView {
    let counted = match outcome {
        MarkOutcome::Marked => SyncView {
            report: WatchSyncReport {
                updates_applied: (v.report.updates_applied + 1) as usize,
                ..v.report
            },
            ..v
        },
        MarkOutcome::Missing => with_missing_item(v),
        MarkOutcome::Failed => with_failure(v),
    };
    to_target(counted, v.target + 1)
}

/// The sync once it has been told something that it waits for.
pub open spec fn after_answer(v: SyncView, answer: SyncAnswer) -> SyncView {
    match answer {
        SyncAnswer::Servers(servers) => after_servers(v, servers),
        SyncAnswer::Groups(groups) => after_groups(v, groups@),
        SyncAnswer::Members(found) => after_members(v, found@),
        SyncAnswer::Users(users) => after_users(v, users),
        SyncAnswer::Mappings(urls) => after_mappings(v, urls),
        SyncAnswer::Sessions(sessions) => after_sessions(v, sessions@),
        SyncAnswer::Played(state) => if v.stage == SyncStage::FetchSource {
            after_source(v, state)
        } else {
            after_target(v, state)
        },
        SyncAnswer::Marked(outcome) => after_mark(v, outcome),
    }
}

/// Whether the answer is one that the sync waits for: of the right sort, and with as many parts
/// as were asked for.
pub open spec fn is_awaited(v: SyncView, answer: SyncAnswer) -> bool {
    match answer {
        SyncAnswer::Servers(_) => v.stage == SyncStage::ListServers,
        SyncAnswer::Groups(_) => v.stage == SyncStage::ListGroups,
        SyncAnswer::Members(found) => v.stage == SyncStage::ResolveMembers
            && answers_each_member(v.pending, found@),
        SyncAnswer::Users(_) => v.stage == SyncStage::ListUsers,
        SyncAnswer::Mappings(_) => v.stage == SyncStage::ListMappings,
        SyncAnswer::Sessions(sessions) => v.stage == SyncStage::Authenticate
            && sessions@.len() == v.attempts.len(),
        SyncAnswer::Played(_) => v.stage == SyncStage::FetchSource || v.stage
            == SyncStage::FetchTarget,
        SyncAnswer::Marked(_) => v.stage == SyncStage::MarkTarget,
    }
}

/// Whether the counters have room for what the answer adds to them.
pub open spec fn has_room(v: SyncView, answer: SyncAnswer) -> bool {
    &&& v.report.sync_pairs_checked < usize::MAX
    &&& v.report.updates_applied < usize::MAX
    &&& v.report.already_in_sync < usize::MAX
    &&& v.report.skipped_missing_items < usize::MAX
    &&& v.report.request_failures < usize::MAX
    &&& v.report.skipped_missing_sessions + v.groups.len() <= usize::MAX
    &&& v.report.authentication_failures + v.attempts.len() <= usize::MAX
    &&& answer is Members ==> v.report.mapping_resolution_misses + misses(answer->Members_0@)
        <= usize::MAX
}

/// Whether a user is in turn.
pub open spec fn has_user(stage: SyncStage) -> bool {
    stage == SyncStage::ListMappings || stage == SyncStage::Authenticate || has_group(stage)
}

/// Whether a group is in turn.
pub open spec fn has_group(stage: SyncStage) -> bool {
    stage == SyncStage::FetchSource || has_target(stage)
}

/// Whether a target is in turn.
pub open spec fn has_target(stage: SyncStage) -> bool {
    stage == SyncStage::FetchTarget || stage == SyncStage::MarkTarget
}

/// What holds of every sync: what is in turn exists, there are several servers to compare in the
/// group in turn, the source is not a target, and each user is counted once at most.
pub open spec fn is_sound(v: SyncView) -> bool {
    &&& 0 <= v.user
    &&& v.stage == SyncStage::ListServers ==> v == fresh_sync()
    &&& has_user(v.stage) ==> v.user < v.report.users_total
    &&& has_group(v.stage) ==> {
        &&& 0 <= v.group < v.groups.len()
        &&& v.candidates == candidates_of(v.groups[v.group], v.contexts)
        &&& v.candidates.len() >= 2
    }
    &&& has_target(v.stage) ==> 1 <= v.target < v.candidates.len()
    &&& v.report.users_authenticated <= v.report.users_with_mappings
    &&& !has_user(v.stage) ==> v.report.users_with_mappings <= v.report.users_total
    &&& v.stage == SyncStage::ListMappings ==> v.report.users_with_mappings <= v.user
    &&& v.stage == SyncStage::Authenticate ==> v.report.users_with_mappings <= v.user + 1
        && v.report.users_authenticated < v.report.users_with_mappings
    &&& has_group(v.stage) ==> v.report.users_with_mappings <= v.user + 1
    &&& v.stage == SyncStage::ListGroups || v.stage == SyncStage::ResolveMembers || v.stage
        == SyncStage::ListUsers ==> v.report.users_with_mappings == 0
    &&& v.stage == SyncStage::ListGroups || v.stage == SyncStage::ResolveMembers
        ==> v.report.dedupe_groups_eligible == 0
    &&& v.report.dedupe_groups_eligible <= v.report.dedupe_groups_total
    &&& v.stage == SyncStage::ResolveMembers ==> v.pending.len() <= v.report.dedupe_groups_total
}

/// A sync from its start to its report. It says what it waits for, and goes on once it is told.
#[derive(Debug)]
pub struct WatchSync {
    report: WatchSyncReport,
    stage: SyncStage,
    servers: Vec<Server>,
    pending: Vec<MediaDedupeGroup>,
    groups: Vec<ResolvedGroup>,
    user: usize,
    attempts: Vec<MappedServer>,
    contexts: Vec<AuthenticatedServerContext>,
    group: usize,
    candidates: Vec<CandidateMember>,
    target: usize,
    source_played: bool,
}

impl View for WatchSync {
    type V = SyncView;

    closed spec fn view(&self) -> SyncView {
        SyncView {
            report: self.report,
            stage: self.stage,
            servers: self.servers@,
            pending: self.pending@,
            groups: member_lists(self.groups@),
            user: self.user as int,
            attempts: self.attempts@,
            contexts: self.contexts@,
            group: self.group as int,
            candidates: self.candidates@,
            target: self.target as int,
            source_played: self.source_played,
        }
    }
}

impl WatchSync {
    /// A sync that has not begun.
    pub fn new() -> (r: Self)
        ensures
            r@ == fresh_sync(),
            is_sound(r@),
    {
        let r: WatchSync = WatchSync {
            report: WatchSyncReport::default(),
            stage: SyncStage::ListServers,
            servers: Vec::new(),
            pending: Vec::new(),
            groups: Vec::new(),
            user: 0,
            attempts: Vec::new(),
            contexts: Vec::new(),
            group: 0,
            candidates: Vec::new(),
            target: 0,
            source_played: false,
        };
        assert(r@ =~= fresh_sync());
        r
    }

    /// What the sync has counted.
    pub fn report(&self) -> (r: WatchSyncReport)
        ensures
            r == self@.report,
    {
        self.report
    }

    /// The groups whose members are looked up.
    pub fn pending(&self) -> (r: &Vec<MediaDedupeGroup>)
        ensures
            r@ == self@.pending,
    {
        &self.pending
    }

    /// The servers that the user in turn is authenticated on.
    pub fn attempts(&self) -> (r: &Vec<MappedServer>)
        ensures
            r@ == self@.attempts,
    {
        &self.attempts
    }

    /// The servers that are compared.
    pub fn candidates(&self) -> (r: &Vec<CandidateMember>)
        ensures
            r@ == self@.candidates,
    {
        &self.candidates
    }

    /// What the sync waits for.
    pub fn action(&self) -> (r: SyncAction)
        ensures
            r == action_of(self@),
    {
        match self.stage {
            SyncStage::ListServers => SyncAction::ListServers,
            SyncStage::ListGroups => SyncAction::ListGroups,
            SyncStage::ResolveMembers => SyncAction::ResolveMembers,
            SyncStage::ListUsers => SyncAction::ListUsers,
            SyncStage::ListMappings => SyncAction::ListMappings(self.user),
            SyncStage::Authenticate => SyncAction::Authenticate(self.user),
            SyncStage::FetchSource => SyncAction::FetchPlayed(0),
            SyncStage::FetchTarget => SyncAction::FetchPlayed(self.target),
            SyncStage::MarkTarget => SyncAction::MarkPlayed(self.target, self.source_played),
            SyncStage::Done => SyncAction::Finished,
        }
    }

    fn go_to_user(&mut self, user: usize)
        ensures
            final(self)@ == to_user(old(self)@, user as int),
    {
        self.user = user;
        if user < self.report.users_total {
            self.stage = SyncStage::ListMappings;
        } else {
            self.stage = SyncStage::Done;
        }
        assert(self@ =~= to_user(old(self)@, user as int));
    }

    fn go_to_group(&mut self, from: usize)
        requires
            from <= old(self).groups@.len(),
            old(self).user < usize::MAX,
            old(self).report.skipped_missing_sessions + (old(self).groups@.len() - from)
                <= usize::MAX,
        ensures
            final(self)@ == to_group(old(self)@, from as int),
    {
        let ghost v = self@;
        let ghost lists = member_lists(self.groups@);
        let mut group: usize = from;
        while group < self.groups.len()
            invariant
                from <= group <= self.groups@.len(),
                *self == *old(self),
                v == self@,
                lists == member_lists(self.groups@),
                next_group(lists, self.contexts@, from as int) == next_group(
                    lists,
                    self.contexts@,
                    group as int,
                ),
                self.report.skipped_missing_sessions + (self.groups@.len() - from) <= usize::MAX,
            decreases self.groups@.len() - group,
        {
            assert(lists[group as int] == self.groups@[group as int].members@);
            let candidates: Vec<CandidateMember> = list_candidates(
                &self.groups[group].members,
                &self.contexts,
            );
            if candidates.len() >= 2 {
                self.report.skipped_missing_sessions = self.report.skipped_missing_sessions + (group
                    - from);
                self.group = group;
                self.candidates = candidates;
                self.stage = SyncStage::FetchSource;
                assert(self@ =~= to_group(v, from as int));
                return;
            }
            group += 1;
        }
        self.report.skipped_missing_sessions = self.report.skipped_missing_sessions + (group
            - from);
        self.group = group;
        let user: usize = self.user + 1;
        self.go_to_user(user);
        assert(self@ =~= to_group(v, from as int));
    }

    fn go_to_target(&mut self, target: usize)
        requires
            old(self).group < old(self).groups@.len(),
            old(self).user < usize::MAX,
            old(self).report.sync_pairs_checked < usize::MAX,
            old(self).report.skipped_missing_sessions + old(self).groups@.len() <= usize::MAX,
        ensures
            final(self)@ == to_target(old(self)@, target as int),
    {
        let ghost v = self@;
        self.target = target;
        if target < self.candidates.len() {
            self.report.sync_pairs_checked = self.report.sync_pairs_checked + 1;
            self.stage = SyncStage::FetchTarget;
            assert(self@ =~= to_target(v, target as int));
        } else {
            let from: usize = self.group + 1;
            assert(self@ =~= (SyncView { target: target as int, ..v }));
            self.go_to_group(from);
        }
    }

    fn count_failure(&mut self)
        requires
            old(self).report.request_failures < usize::MAX,
        ensures
            final(self)@ == with_failure(old(self)@),
            final(self).groups == old(self).groups,
    {
        self.report.request_failures = self.report.request_failures + 1;
        assert(self@ =~= with_failure(old(self)@));
    }

    fn count_missing_item(&mut self)
        requires
            old(self).report.skipped_missing_items < usize::MAX,
        ensures
            final(self)@ == with_missing_item(old(self)@),
            final(self).groups == old(self).groups,
    {
        self.report.skipped_missing_items = self.report.skipped_missing_items + 1;
        assert(self@ =~= with_missing_item(old(self)@));
    }

    fn take_servers(&mut self, servers: Option<Vec<Server>>)
        requires
            old(self).report.request_failures < usize::MAX,
        ensures
            final(self)@ == after_servers(old(self)@, servers),
    {
        match servers {
            Some(listed) => {
                self.servers = listed;
                self.stage = SyncStage::ListGroups;
            },
            None => {
                self.count_failure();
                self.stage = SyncStage::Done;
            },
        }
        assert(self@ =~= after_servers(old(self)@, servers));
    }

    fn take_groups(&mut self, groups: Vec<MediaDedupeGroup>)
        ensures
            final(self)@ == after_groups(old(self)@, groups@),
    {
        self.report.dedupe_groups_total = groups.len();
        self.pending = keep_shared(groups);
        self.stage = SyncStage::ResolveMembers;
        assert(self@ =~= after_groups(old(self)@, groups@));
    }

    fn take_members(&mut self, found: Vec<Vec<Option<String>>>)
        requires
            answers_each_member(old(self).pending@, found@),
            old(self).report.mapping_resolution_misses + misses(found@) <= usize::MAX,
        ensures
            final(self)@ == after_members(old(self)@, found@),
    {
        let (groups, missed): (Vec<ResolvedGroup>, usize) = resolve_groups(&self.pending, found);
        self.report.mapping_resolution_misses = self.report.mapping_resolution_misses + missed;
        self.report.dedupe_groups_eligible = groups.len();
        assert(member_lists(groups@).len() == groups@.len());
        self.groups = groups;
        self.stage = SyncStage::ListUsers;
        assert(self@ =~= after_members(old(self)@, found@));
    }

    fn take_users(&mut self, users: Option<usize>)
        requires
            old(self).report.request_failures < usize::MAX,
        ensures
            final(self)@ == after_users(old(self)@, users),
    {
        match users {
            Some(count) => {
                self.report.users_total = count;
                assert(self@ =~= (SyncView {
                    report: WatchSyncReport { users_total: count, ..old(self)@.report },
                    ..old(self)@
                }));
                self.go_to_user(0);
            },
            None => {
                self.count_failure();
                self.stage = SyncStage::Done;
                assert(self@ =~= after_users(old(self)@, users));
            },
        }
    }

    fn take_mappings(&mut self, urls: Option<Vec<String>>)
        requires
            old(self).user < usize::MAX,
            old(self).report.users_with_mappings < usize::MAX,
            old(self).report.request_failures < usize::MAX,
        ensures
            final(self)@ == after_mappings(old(self)@, urls),
    {
        match urls {
            Some(listed) => {
                if listed.len() == 0 {
                    let user: usize = self.user + 1;
                    self.go_to_user(user);
                } else {
                    self.report.users_with_mappings = self.report.users_with_mappings + 1;
                    self.attempts = map_servers(&self.servers, &listed);
                    self.stage = SyncStage::Authenticate;
                    assert(self@ =~= after_mappings(old(self)@, urls));
                }
            },
            None => {
                self.count_failure();
                let user: usize = self.user + 1;
                self.go_to_user(user);
            },
        }
    }

    fn take_sessions(&mut self, sessions: Vec<Option<AuthorizationSession>>)
        requires
            old(self).user < usize::MAX,
            sessions@.len() == old(self).attempts@.len(),
            old(self).report.users_authenticated < usize::MAX,
            old(self).report.authentication_failures + old(self).attempts@.len() <= usize::MAX,
            old(self).report.skipped_missing_sessions + old(self).groups@.len() <= usize::MAX,
        ensures
            final(self)@ == after_sessions(old(self)@, sessions@),
    {
        let ghost v = self@;
        let (contexts, refused): (Vec<AuthenticatedServerContext>, usize) = collect_sessions(
            &self.attempts,
            sessions,
        );
        self.report.authentication_failures = self.report.authentication_failures + refused;
        let none: bool = contexts.len() == 0;
        self.contexts = contexts;
        let ghost counted = SyncView {
            report: WatchSyncReport {
                authentication_failures: (v.report.authentication_failures + refusals(
                    sessions@,
                )) as usize,
                ..v.report
            },
            contexts: authenticated(v.attempts, sessions@),
            ..v
        };
        assert(self@ =~= counted);
        if none {
            let user: usize = self.user + 1;
            self.go_to_user(user);
        } else {
            self.report.users_authenticated = self.report.users_authenticated + 1;
            assert(self@ =~= (SyncView {
                report: WatchSyncReport {
                    users_authenticated: (counted.report.users_authenticated + 1) as usize,
                    ..counted.report
                },
                ..counted
            }));
            self.go_to_group(0);
        }
    }

    fn take_source(&mut self, state: PlayedState)
        requires
            old(self).group < old(self).groups@.len(),
            old(self).user < usize::MAX,
            old(self).report.sync_pairs_checked < usize::MAX,
            old(self).report.skipped_missing_items < usize::MAX,
            old(self).report.request_failures < usize::MAX,
            old(self).report.skipped_missing_sessions + old(self).groups@.len() <= usize::MAX,
        ensures
            final(self)@ == after_source(old(self)@, state),
    {
        match state {
            PlayedState::Played(played) => {
                self.source_played = played;
                assert(self@ =~= (SyncView { source_played: played, ..old(self)@ }));
                self.go_to_target(1);
            },
            PlayedState::Missing => {
                self.count_missing_item();
                let from: usize = self.group + 1;
                self.go_to_group(from);
            },
            PlayedState::Failed => {
                self.count_failure();
                let from: usize = self.group + 1;
                self.go_to_group(from);
            },
        }
    }

    fn take_target(&mut self, state: PlayedState)
        requires
            old(self).group < old(self).groups@.len(),
            old(self).target < old(self).candidates@.len(),
            old(self).user < usize::MAX,
            old(self).report.sync_pairs_checked < usize::MAX,
            old(self).report.already_in_sync < usize::MAX,
            old(self).report.skipped_missing_items < usize::MAX,
            old(self).report.request_failures < usize::MAX,
            old(self).report.skipped_missing_sessions + old(self).groups@.len() <= usize::MAX,
        ensures
            final(self)@ == after_target(old(self)@, state),
    {
        assert(self.candidates@.len() == self.candidates.len());
        let next: usize = self.target + 1;
        match state {
            PlayedState::Played(played) => {
                if played == self.source_played {
                    self.report.already_in_sync = self.report.already_in_sync + 1;
                    assert(self@ =~= (SyncView {
                        report: WatchSyncReport {
                            already_in_sync: (old(self)@.report.already_in_sync + 1) as usize,
                            ..old(self)@.report
                        },
                        ..old(self)@
                    }));
                    self.go_to_target(next);
                } else {
                    self.stage = SyncStage::MarkTarget;
                    assert(self@ =~= after_target(old(self)@, state));
                }
            },
            PlayedState::Missing => {
                self.count_missing_item();
                self.go_to_target(next);
            },
            PlayedState::Failed => {
                self.count_failure();
                self.go_to_target(next);
            },
        }
    }

    fn take_mark(&mut self, outcome: MarkOutcome)
        requires
            old(self).group < old(self).groups@.len(),
            old(self).target < old(self).candidates@.len(),
            old(self).user < usize::MAX,
            old(self).report.sync_pairs_checked < usize::MAX,
            old(self).report.updates_applied < usize::MAX,
            old(self).report.skipped_missing_items < usize::MAX,
            old(self).report.request_failures < usize::MAX,
            old(self).report.skipped_missing_sessions + old(self).groups@.len() <= usize::MAX,
        ensures
            final(self)@ == after_mark(old(self)@, outcome),
    {
        assert(self.candidates@.len() == self.candidates.len());
        let next: usize = self.target + 1;
        match outcome {
            MarkOutcome::Marked => {
                self.report.updates_applied = self.report.updates_applied + 1;
                assert(self@ =~= (SyncView {
                    report: WatchSyncReport {
                        updates_applied: (old(self)@.report.updates_applied + 1) as usize,
                        ..old(self)@.report
                    },
                    ..old(self)@
                }));
            },
            MarkOutcome::Missing => {
                self.count_missing_item();
            },
            MarkOutcome::Failed => {
                self.count_failure();
            },
        }
        self.go_to_target(next);
    }

    /// Whether the sync waits for the answer and has room to count it.
    pub fn accepts(&self, answer: &SyncAnswer) -> (r: bool)
        ensures
            r == (is_awaited(self@, *answer) && has_room(self@, *answer)),
    {
        assert(member_lists(self.groups@).len() == self.groups@.len());
        let counters: bool = self.report.sync_pairs_checked < usize::MAX
            && self.report.updates_applied < usize::MAX && self.report.already_in_sync < usize::MAX
            && self.report.skipped_missing_items < usize::MAX && self.report.request_failures
            < usize::MAX && self.report.skipped_missing_sessions <= usize::MAX - self.groups.len()
            && self.report.authentication_failures <= usize::MAX - self.attempts.len();
        if !counters {
            return false;
        }
        match answer {
            SyncAnswer::Servers(_) => self.stage == SyncStage::ListServers,
            SyncAnswer::Groups(_) => self.stage == SyncStage::ListGroups,
            SyncAnswer::Members(found) => {
                self.stage == SyncStage::ResolveMembers && fits_members(&self.pending, found)
                    && can_count_misses(self.report.mapping_resolution_misses, found)
            },
            SyncAnswer::Users(_) => self.stage == SyncStage::ListUsers,
            SyncAnswer::Mappings(_) => self.stage == SyncStage::ListMappings,
            SyncAnswer::Sessions(sessions) => {
                self.stage == SyncStage::Authenticate && sessions.len() == self.attempts.len()
            },
            SyncAnswer::Played(_) => {
                self.stage == SyncStage::FetchSource || self.stage == SyncStage::FetchTarget
            },
            SyncAnswer::Marked(_) => self.stage == SyncStage::MarkTarget,
        }
    }

    /// Tells the sync what it waits for.
    pub fn step(&mut self, answer: SyncAnswer)
        requires
            is_sound(old(self)@),
            is_awaited(old(self)@, answer),
            has_room(old(self)@, answer),
        ensures
            final(self)@ == after_answer(old(self)@, answer),
            is_sound(final(self)@),
    {
        proof {
            a_sync_stays_sound(self@, answer);
            assert(member_lists(self.groups@).len() == self.groups@.len());
        }
        match answer {
            SyncAnswer::Servers(servers) => self.take_servers(servers),
            SyncAnswer::Groups(groups) => self.take_groups(groups),
            SyncAnswer::Members(found) => self.take_members(found),
            SyncAnswer::Users(users) => self.take_users(users),
            SyncAnswer::Mappings(urls) => self.take_mappings(urls),
            SyncAnswer::Sessions(sessions) => self.take_sessions(sessions),
            SyncAnswer::Played(state) => {
                if self.stage == SyncStage::FetchSource {
                    self.take_source(state)
                } else {
                    self.take_target(state)
                }
            },
            SyncAnswer::Marked(outcome) => self.take_mark(outcome),
        }
    }
}

proof fn lemma_next_group(
    groups: Seq<Seq<ResolvedGroupMember>>,
    contexts: Seq<AuthenticatedServerContext>,
    from: int,
)
    requires
        0 <= from <= groups.len(),
    ensures
        from <= next_group(groups, contexts, from) <= groups.len(),
        next_group(groups, contexts, from) < groups.len() ==> candidates_of(
            groups[next_group(groups, contexts, from)],
            contexts,
        ).len() >= 2,
        forall|i: int|
            from <= i < next_group(groups, contexts, from) ==> candidates_of(
                #[trigger] groups[i],
                contexts,
            ).len() < 2,
    decreases groups.len() - from,
{
    if from < groups.len() && candidates_of(groups[from], contexts).len() < 2 {
        lemma_next_group(groups, contexts, from + 1);
    }
}

proof fn lemma_resolved_len(groups: Seq<MediaDedupeGroup>, found: Seq<Vec<Option<String>>>)
    ensures
        resolved_groups(groups, found).len() <= groups.len(),
    decreases groups.len(),
{
    if groups.len() > 0 && found.len() == groups.len() {
        lemma_resolved_len(groups.drop_last(), found.drop_last());
    }
}

/// Whatever a sync is told, it stays sound.
pub proof fn a_sync_stays_sound(v: SyncView, answer: SyncAnswer)
    requires
        is_sound(v),
        is_awaited(v, answer),
        has_room(v, answer),
    ensures
        is_sound(after_answer(v, answer)),
{
    if has_group(v.stage) {
        lemma_next_group(v.groups, v.contexts, v.group + 1);
    }
    match answer {
        SyncAnswer::Groups(groups) => {
            let shared = |group: MediaDedupeGroup| group.members@.len() >= 2;
            groups@.lemma_filter_len(shared);
            assert(groups@.len() == groups.len());
        },
        SyncAnswer::Members(found) => {
            lemma_resolved_len(v.pending, found@);
        },
        SyncAnswer::Sessions(sessions) => {
            lemma_next_group(v.groups, authenticated(v.attempts, sessions@), 0);
        },
        _ => {},
    }
}

/// In every group the source has the highest priority of the servers that are compared, and the
/// lowest identifier of those that have the same priority.
pub proof fn the_source_has_the_highest_priority(v: SyncView, i: int)
    requires
        is_sound(v),
        has_group(v.stage),
        0 <= i < v.candidates.len(),
    ensures
        v.candidates[0].server.priority > v.candidates[i].server.priority || (
        v.candidates[0].server.priority == v.candidates[i].server.priority
            && v.candidates[0].server.id <= v.candidates[i].server.id),
{
    if i > 0 {
        ranking_orders_by_rank(reachable_members(v.groups[v.group], v.contexts));
        assert(!v.candidates[i].before(v.candidates[0]));
    }
}

/// A server is changed only where it was just found to differ from the source, and never the
/// source itself.
pub proof fn only_differing_targets_are_changed(v: SyncView, answer: SyncAnswer)
    requires
        is_sound(v),
        is_awaited(v, answer),
        has_room(v, answer),
    ensures
        after_answer(v, answer).stage == SyncStage::MarkTarget <==> (v.stage
            == SyncStage::FetchTarget && answer == SyncAnswer::Played(
            PlayedState::Played(!v.source_played),
        )),
        after_answer(v, answer).stage == SyncStage::MarkTarget ==> {
            &&& after_answer(v, answer).target == v.target
            &&& v.target >= 1
            &&& after_answer(v, answer).source_played == v.source_played
            &&& after_answer(v, answer).report == v.report
        },
{
}

/// Whether the pairs that were checked are accounted for: each was changed, already in sync,
/// without the item or failed, but for the pair in turn.
pub open spec fn is_accounted(v: SyncView) -> bool {
    let open_pairs: int = if has_target(v.stage) {
        1
    } else {
        0
    };
    let settled = v.report.updates_applied + v.report.already_in_sync;
    &&& settled + open_pairs <= v.report.sync_pairs_checked
    &&& v.report.sync_pairs_checked <= settled + open_pairs + v.report.skipped_missing_items
        + v.report.request_failures
}

/// A sync that has not begun is accounted for.
pub proof fn a_fresh_sync_is_accounted()
    ensures
        is_sound(fresh_sync()),
        is_accounted(fresh_sync()),
{
}

/// Whatever a sync is told, the pairs that it has checked stay accounted for.
pub proof fn a_sync_stays_accounted(v: SyncView, answer: SyncAnswer)
    requires
        is_sound(v),
        is_accounted(v),
        is_awaited(v, answer),
        has_room(v, answer),
    ensures
        is_accounted(after_answer(v, answer)),
{
    if has_group(v.stage) {
        lemma_next_group(v.groups, v.contexts, v.group + 1);
    }
    if let SyncAnswer::Sessions(sessions) = answer {
        lemma_next_group(v.groups, authenticated(v.attempts, sessions@), 0);
    }
}

/// How far a sync has come: first the phase, then the user, the step for the user, the group and
/// the target.
pub open spec fn progress(v: SyncView) -> (int, int, int, int, int) {
    match v.stage {
        SyncStage::ListServers => (0, 0, 0, 0, 0),
        SyncStage::ListGroups => (1, 0, 0, 0, 0),
        SyncStage::ResolveMembers => (2, 0, 0, 0, 0),
        SyncStage::ListUsers => (3, 0, 0, 0, 0),
        SyncStage::ListMappings => (4, v.user, 0, 0, 0),
        SyncStage::Authenticate => (4, v.user, 1, 0, 0),
        SyncStage::FetchSource => (4, v.user, 2, v.group, 0),
        SyncStage::FetchTarget => (4, v.user, 2, v.group, 2 * v.target),
        SyncStage::MarkTarget => (4, v.user, 2, v.group, 2 * v.target + 1),
        SyncStage::Done => (5, 0, 0, 0, 0),
    }
}

/// Whether one point of a sync comes before another.
pub open spec fn is_earlier(a: (int, int, int, int, int), b: (int, int, int, int, int)) -> bool {
    ||| a.0 < b.0
    ||| a.0 == b.0 && a.1 < b.1
    ||| a.0 == b.0 && a.1 == b.1 && a.2 < b.2
    ||| a.0 == b.0 && a.1 == b.1 && a.2 == b.2 && a.3 < b.3
    ||| a.0 == b.0 && a.1 == b.1 && a.2 == b.2 && a.3 == b.3 && a.4 < b.4
}

/// Every answer moves a sync on: it never asks for the same thing twice, and there are only so
/// many users, groups and targets, so it comes to its end.
pub proof fn every_answer_moves_a_sync_on(v: SyncView, answer: SyncAnswer)
    requires
        is_sound(v),
        is_awaited(v, answer),
        has_room(v, answer),
    ensures
        is_earlier(progress(v), progress(after_answer(v, answer))),
{
    if has_group(v.stage) {
        lemma_next_group(v.groups, v.contexts, v.group + 1);
    }
    if let SyncAnswer::Sessions(sessions) = answer {
        lemma_next_group(v.groups, authenticated(v.attempts, sessions@), 0);
    }
}

/// Slashes at the end of an address do not matter.
pub proof fn a_slash_at_the_end_does_not_matter(servers: Seq<Server>, url: Seq<char>)
    ensures
        server_at(servers, url.push('/')) == server_at(servers, url),
    decreases servers.len(),
{
    assert(url.push('/').drop_last() =~= url);
    if servers.len() > 0 {
        a_slash_at_the_end_does_not_matter(servers.drop_last(), url);
    }
}

// ---------------------------------------------------------------------------
// Authentication
// ---------------------------------------------------------------------------

/// How the proxy introduces itself to servers.
#[derive(Debug)]
pub struct ClientInfo {
    pub client: String,
    pub device: String,
    pub device_id: String,
    pub version: String,
}

/// The device that a sync introduces itself as.
pub open spec fn sync_device_id(device_id: Seq<char>) -> Seq<char> {
    device_id + "-watch-sync"@
}

/// How a sync introduces itself with a token.
pub fn sync_authorization(info: &ClientInfo, token: &String) -> (r: Authorization)
    ensures
        r.client == info.client,
        r.device == info.device,
        r.device_id@ == sync_device_id(info.device_id@),
        r.version == info.version,
        r.token == Some(*token),
{
    let mut device_id: String = info.device_id.clone();
    device_id.append("-watch-sync");
    Authorization {
        client: info.client.clone(),
        device: info.device.clone(),
        device_id,
        version: info.version.clone(),
        token: Some(token.clone()),
    }
}

/// Why a user could not be authenticated on a server.
#[derive(Debug, Clone, Copy, PartialEq, Eq, Structural)]
pub enum AuthenticationProblem {
    ClientInit,
    Authentication,
    MissingToken,
    StoreSession,
}

impl AuthenticationProblem {
    /// The message that says so; `cause` is what the failed step says.
    pub open spec fn message_text(self, cause: Seq<char>) -> Seq<char> {
        match self {
            AuthenticationProblem::ClientInit => "client init error: "@ + cause,
            AuthenticationProblem::Authentication => "authentication error: "@ + cause,
            AuthenticationProblem::MissingToken =>
                "missing token after successful authentication"@,
            AuthenticationProblem::StoreSession =>
                "failed to store authorization session: "@ + cause,
        }
    }

    /// The message that says so; `cause` is what the failed step says.
    pub fn message(&self, cause: &str) -> (r: String)
        ensures
            r@ == self.message_text(cause@),
    {
        match self {
            AuthenticationProblem::ClientInit => {
                let mut text: String = copy_text("client init error: ");
                text.append(cause);
                text
            },
            AuthenticationProblem::Authentication => {
                let mut text: String = copy_text("authentication error: ");
                text.append(cause);
                text
            },
            AuthenticationProblem::MissingToken => copy_text(
                "missing token after successful authentication",
            ),
            AuthenticationProblem::StoreSession => {
                let mut text: String = copy_text("failed to store authorization session: ");
                text.append(cause);
                text
            },
        }
    }
}

/// What the authentication of a user on a server waits for.
#[derive(Debug, Clone, Copy, PartialEq, Eq, Structural)]
pub enum AuthenticationStage {
    /// A client for the server is set up.
    SetUpClient,
    /// The user signs in.
    SignIn,
    /// The token of the client is read.
    ReadToken,
    /// The session is stored.
    StoreSession,
}

/// What became of a stage.
#[derive(Debug)]
pub enum AuthenticationAnswer {
    /// It succeeded.
    Ready,
    /// It failed, for this reason. A token that is not there has none.
    Failed(String),
}

/// What the authentication does next.
#[derive(Debug)]
pub enum AuthenticationStep {
    Next(AuthenticationStage),
    /// The user is authenticated.
    Authenticated,
    /// The user is not authenticated, and this is why.
    Refused(String),
}

/// What it means that a stage failed.
pub open spec fn problem_at(stage: AuthenticationStage) -> AuthenticationProblem {
    match stage {
        AuthenticationStage::SetUpClient => AuthenticationProblem::ClientInit,
        AuthenticationStage::SignIn => AuthenticationProblem::Authentication,
        AuthenticationStage::ReadToken => AuthenticationProblem::MissingToken,
        AuthenticationStage::StoreSession => AuthenticationProblem::StoreSession,
    }
}

/// What the authentication of a user on a server does next: the stages follow one another, and
/// the first that fails ends it with its message.
pub fn after_authentication_stage(
    stage: AuthenticationStage,
    answer: AuthenticationAnswer,
) -> (r: AuthenticationStep)
    ensures
        match answer {
            AuthenticationAnswer::Ready => r == match stage {
                AuthenticationStage::SetUpClient => AuthenticationStep::Next(
                    AuthenticationStage::SignIn,
                ),
                AuthenticationStage::SignIn => AuthenticationStep::Next(
                    AuthenticationStage::ReadToken,
                ),
                AuthenticationStage::ReadToken => AuthenticationStep::Next(
                    AuthenticationStage::StoreSession,
                ),
                AuthenticationStage::StoreSession => AuthenticationStep::Authenticated,
            },
            AuthenticationAnswer::Failed(cause) => {
                &&& r is Refused
                &&& r->Refused_0@ == problem_at(stage).message_text(cause@)
            },
        },
{
    match answer {
        AuthenticationAnswer::Ready => match stage {
            AuthenticationStage::SetUpClient => AuthenticationStep::Next(
                AuthenticationStage::SignIn,
            ),
            AuthenticationStage::SignIn => AuthenticationStep::Next(AuthenticationStage::ReadToken),
            AuthenticationStage::ReadToken => AuthenticationStep::Next(
                AuthenticationStage::StoreSession,
            ),
            AuthenticationStage::StoreSession => AuthenticationStep::Authenticated,
        },
        AuthenticationAnswer::Failed(cause) => {
            let problem: AuthenticationProblem = match stage {
                AuthenticationStage::SetUpClient => AuthenticationProblem::ClientInit,
                AuthenticationStage::SignIn => AuthenticationProblem::Authentication,
                AuthenticationStage::ReadToken => AuthenticationProblem::MissingToken,
                AuthenticationStage::StoreSession => AuthenticationProblem::StoreSession,
            };
            AuthenticationStep::Refused(problem.message(cause.as_str()))
        },
    }
}

/// The session of a user that has just been authenticated on a server and stored under
/// `session_id`.
pub fn authenticate_mapping(
    session_id: i64,
    user_id: &String,
    mapping_id: i64,
    server_url: &String,
    authorization: Authorization,
    token: String,
    remote_user_id: String,
    now: i64,
) -> (r: AuthorizationSession)
    ensures
        r == (AuthorizationSession {
            id: session_id,
            user_id: *user_id,
            mapping_id,
            server_url: *server_url,
            device: Device {
                client: authorization.client,
                device: authorization.device,
                device_id: authorization.device_id,
                version: authorization.version,
            },
            jellyfin_token: token,
            original_user_id: remote_user_id,
            expires_at: None,
            created_at: now,
            updated_at: now,
        }),
{
    AuthorizationSession {
        id: session_id,
        user_id: user_id.clone(),
        mapping_id,
        server_url: server_url.clone(),
        device: Device {
            client: authorization.client,
            device: authorization.device,
            device_id: authorization.device_id,
            version: authorization.version,
        },
        jellyfin_token: token,
        original_user_id: remote_user_id,
        expires_at: None,
        created_at: now,
        updated_at: now,
    }
}

// ---------------------------------------------------------------------------
// The watched state on a server
// ---------------------------------------------------------------------------

/// The path of an item of a user.
pub open spec fn item_path(user_id: Seq<char>, media_id: Seq<char>) -> Seq<char> {
    "/Users/"@ + user_id + "/Items/"@ + media_id
}

/// The path of the watched state of an item of a user.
pub open spec fn played_path(user_id: Seq<char>, media_id: Seq<char>) -> Seq<char> {
    "/Users/"@ + user_id + "/PlayedItems/"@ + media_id
}

/// The path that a candidate's item is fetched from.
pub fn fetch_path(candidate: &CandidateMember) -> (r: String)
    ensures
        r@ == item_path(candidate.session.original_user_id@, candidate.original_media_id@),
{
    let mut path: String = copy_text("/Users/");
    path.append(candidate.session.original_user_id.as_str());
    path.append("/Items/");
    path.append(candidate.original_media_id.as_str());
    path
}

/// The path that the watched state of a candidate's item is changed at.
pub fn mark_path(candidate: &CandidateMember) -> (r: String)
    ensures
        r@ == played_path(candidate.session.original_user_id@, candidate.original_media_id@),
{
    let mut path: String = copy_text("/Users/");
    path.append(candidate.session.original_user_id.as_str());
    path.append("/PlayedItems/");
    path.append(candidate.original_media_id.as_str());
    path
}

/// The name and the value that the query of a candidate's item ends with: it asks for what the
/// user has done with it.
pub fn fetch_query() -> (r: (&'static str, &'static str))
    ensures
        r.0@ == "Fields"@,
        r.1@ == "UserData"@,
{
    ("Fields", "UserData")
}

/// How the watched state is changed.
#[derive(Debug, Clone, Copy, PartialEq, Eq, Structural)]
pub enum MarkMethod {
    Post,
    Delete,
}

/// How an item is marked as watched or as not watched: the mark is posted or deleted.
pub fn mark_method(played: bool) -> (r: MarkMethod)
    ensures
        r == if played {
            MarkMethod::Post
        } else {
            MarkMethod::Delete
        },
{
    if played {
        MarkMethod::Post
    } else {
        MarkMethod::Delete
    }
}

/// What a server says of the watched state: it has no such item, or the request failed, or it
/// gives the item. `played` is what the item says; `None` where it could not be read, and an item
/// that says nothing of it counts as not watched.
pub fn fetch_item_played_state(status: u16, played: Option<Option<bool>>) -> (r: PlayedState)
    ensures
        r == if status == STATUS_NOT_FOUND {
            PlayedState::Missing
        } else if !is_success(status) {
            PlayedState::Failed
        } else {
            match played {
                Some(Some(value)) => PlayedState::Played(value),
                Some(None) => PlayedState::Played(false),
                None => PlayedState::Failed,
            }
        },
        r is Missing <==> status == 404,
        r is Played <==> 200 <= status <= 299 && played is Some,
        r == PlayedState::Played(true) <==> 200 <= status <= 299 && played == Some(Some(true)),
{
    if status == STATUS_NOT_FOUND {
        return PlayedState::Missing;
    }
    if !is_success_status(status) {
        return PlayedState::Failed;
    }
    match played {
        Some(Some(value)) => PlayedState::Played(value),
        Some(None) => PlayedState::Played(false),
        None => PlayedState::Failed,
    }
}

/// What became of a change of the watched state, going by the answer's status.
pub fn apply_item_played_state(status: u16) -> (r: MarkOutcome)
    ensures
        r == if status == STATUS_NOT_FOUND {
            MarkOutcome::Missing
        } else if is_success(status) {
            MarkOutcome::Marked
        } else {
            MarkOutcome::Failed
        },
        r is Missing <==> status == 404,
        r is Marked <==> 200 <= status <= 299,
{
    if status == STATUS_NOT_FOUND {
        MarkOutcome::Missing
    } else if is_success_status(status) {
        MarkOutcome::Marked
    } else {
        MarkOutcome::Failed
    }
}

} // verus!
