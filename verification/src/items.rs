//! Single items, the items of a show, and playback: on one server, or on every server that has
//! the medium.
use vstd::prelude::*;

use crate::library_management_service::LibraryGroupWithSources;
use crate::media_storage_service::{MediaDedupeGroup, MediaDedupeMember};
use crate::models::{
    copy_optional, is_type_named, parse_collection_type, response_values, source_values,
    AuthorizationSession, BaseItemKind, CollectionType, MediaItem, MediaSource, MediaSourceView,
    PlaybackRequest, PlaybackResponse, PlaybackResponseView, Server, STATUS_BAD_REQUEST,
    STATUS_UNAUTHORIZED,
};
use crate::order::{
    are_places, first_per_key, first_per_key_keeps_each_key_once, has_key, lemma_next_place,
    lemma_no_places, lemma_place_is_chosen, lemma_same_places, picking_takes_all_there_is,
    rank_list, ranked, ranking_is_a_permutation, ranking_is_stable, ranking_orders_by_rank,
    same_rank, the_first_of_each_key_is_kept, Ranked,
};
use crate::sessions::{
    a_session_is_found_where_there_is_one, find_session, session_for,
    the_first_session_on_a_server_is_used,
};
use crate::text::{
    copy_text, count_text, decimal, eq_ignoring_case, is_before, lowered, path_segments,
    same_ignoring_case, segments_of, text_before, text_option, text_order_is_negatively_transitive,
    text_order_is_total, texts, to_lower, trim, trimmed,
};

verus! {

// ---------------------------------------------------------------------------
// Identifiers in paths
// ---------------------------------------------------------------------------

/// The segment behind the first `Items`, in any case, that has one behind it.
pub open spec fn item_id_among(segments: Seq<Seq<char>>) -> Option<Seq<char>>
    decreases segments.len(),
{
    if segments.len() < 2 {
        None
    } else if same_ignoring_case(segments[0], "items"@) {
        Some(segments[1])
    } else {
        item_id_among(segments.drop_first())
    }
}

/// The identifier of the item that a path is about.
pub fn extract_item_id_from_path(path: &str) -> (r: Option<String>)
    ensures
        text_option(r) == item_id_among(path_segments(path@)),
{
    let segments: Vec<String> = segments_of(path);
    let ghost all = texts(segments@);
    let n: usize = segments.len();
    let mut i: usize = 0;
    assert(all.skip(0) == all);
    while i < n
        invariant
            i <= n,
            n == segments@.len(),
            all == texts(segments@),
            all == path_segments(path@),
            item_id_among(all) == item_id_among(all.skip(i as int)),
        decreases n - i,
    {
        assert(all.skip(i as int).drop_first() == all.skip(i + 1));
        if eq_ignoring_case(segments[i].as_str(), "items") && i + 1 < n {
            return Some(segments[i + 1].clone());
        }
        i += 1;
    }
    None
}

/// The segment behind the first `Shows` that has `Seasons` or `Episodes` behind it. Case does not
/// count.
pub open spec fn series_id_among(segments: Seq<Seq<char>>) -> Option<Seq<char>>
    decreases segments.len(),
{
    if segments.len() < 3 {
        None
    } else if same_ignoring_case(segments[0], "shows"@) && (same_ignoring_case(
        segments[2],
        "seasons"@,
    ) || same_ignoring_case(segments[2], "episodes"@)) {
        Some(segments[1])
    } else {
        series_id_among(segments.drop_first())
    }
}

/// The identifier of the series whose seasons or episodes a path asks for.
pub fn extract_show_series_id_from_path(path: &str) -> (r: Option<String>)
    ensures
        text_option(r) == series_id_among(path_segments(path@)),
{
    let segments: Vec<String> = segments_of(path);
    let ghost all = texts(segments@);
    let n: usize = segments.len();
    let mut i: usize = 0;
    assert(all.skip(0) == all);
    while i < n
        invariant
            i <= n,
            n == segments@.len(),
            all == texts(segments@),
            all == path_segments(path@),
            series_id_among(all) == series_id_among(all.skip(i as int)),
        decreases n - i,
    {
        assert(all.skip(i as int).drop_first() == all.skip(i + 1));
        if eq_ignoring_case(segments[i].as_str(), "shows") && n - i > 2 {
            if eq_ignoring_case(segments[i + 2].as_str(), "seasons") || eq_ignoring_case(
                segments[i + 2].as_str(),
                "episodes",
            ) {
                return Some(segments[i + 1].clone());
            }
        }
        i += 1;
    }
    None
}

// ---------------------------------------------------------------------------
// An item that is a library group
// ---------------------------------------------------------------------------

/// What an item shows in place of its own data where it stands for a library group.
#[derive(Debug)]
pub struct LibraryOverride {
    pub virtual_id: String,
    pub name: String,
    pub collection_type: CollectionType,
}

/// What the requested item shows where the request names a group. A group that could not be
/// looked up counts as none.
pub fn library_override(
    requested_item_id: Option<String>,
    group: Option<LibraryGroupWithSources>,
) -> (r: Option<LibraryOverride>)
    ensures
        match (requested_item_id, group) {
            (Some(id), Some(found)) => {
                &&& r is Some
                &&& (r->0).virtual_id == id
                &&& (r->0).name == found.group.name
                &&& is_type_named((r->0).collection_type, found.group.collection_type@)
            },
            _ => r is None,
        },
{
    match (requested_item_id, group) {
        (Some(id), Some(found)) => Some(
            LibraryOverride {
                virtual_id: id,
                collection_type: parse_collection_type(found.group.collection_type.as_str()),
                name: found.group.name,
            },
        ),
        _ => None,
    }
}

/// An item as it is shown in place of a library group: its data but for the identifier, the name,
/// and what makes it a folder of the group's collection type.
pub open spec fn shown_as_library(item: MediaItem, library: LibraryOverride) -> MediaItem {
    MediaItem {
        id: library.virtual_id,
        name: Some(library.name),
        collection_type: Some(library.collection_type),
        item_type: BaseItemKind::CollectionFolder,
        is_folder: Some(true),
        display_preferences_id: Some(library.virtual_id),
        ..item
    }
}

/// The item that answers a request: as it is, or in place of the library group that it names.
pub fn get_item(item: MediaItem, library: Option<LibraryOverride>) -> (r: MediaItem)
    ensures
        r == match library {
            Some(found) => shown_as_library(item, found),
            None => item,
        },
{
    match library {
        Some(found) => {
            let mut out: MediaItem = item;
            out.id = found.virtual_id.clone();
            out.name = Some(found.name);
            out.collection_type = Some(found.collection_type);
            out.item_type = BaseItemKind::CollectionFolder;
            out.is_folder = Some(true);
            out.display_preferences_id = Some(found.virtual_id);
            out
        },
        None => item,
    }
}

// ---------------------------------------------------------------------------
// The servers that have a medium
// ---------------------------------------------------------------------------

/// A server that has a medium, with the identifier and the session to ask it with.
#[derive(Debug)]
pub struct GroupedCandidate {
    pub virtual_media_id: String,
    pub session: AuthorizationSession,
    pub server: Server,
}

impl Ranked for GroupedCandidate {
    /// Servers of higher priority come first, and then servers by name.
    open spec fn before(self, other: Self) -> bool {
        self.server.priority > other.server.priority || (self.server.priority
            == other.server.priority && text_before(self.server.name@, other.server.name@))
    }

    fn ranks_before(&self, other: &Self) -> (r: bool) {
        self.server.priority > other.server.priority || (self.server.priority
            == other.server.priority && is_before(
            self.server.name.as_str(),
            other.server.name.as_str(),
        ))
    }

    proof fn rank_is_asymmetric(a: Self, b: Self) {
        text_order_is_total(a.server.name@, b.server.name@);
    }

    proof fn rank_is_negatively_transitive(a: Self, b: Self, c: Self) {
        if a.server.priority == b.server.priority && b.server.priority == c.server.priority {
            text_order_is_negatively_transitive(a.server.name@, b.server.name@, c.server.name@);
        }
    }
}

/// How a member is asked, where there is a session on its server.
pub open spec fn candidate_for(
    member: MediaDedupeMember,
    sessions: Seq<(AuthorizationSession, Server)>,
) -> Option<GroupedCandidate> {
    match session_for(sessions, member.server_id) {
        Some((session, server)) => Some(
            GroupedCandidate { virtual_media_id: member.virtual_media_id, session, server },
        ),
        None => None,
    }
}

/// The servers that can be asked for a medium, in the order in which they are asked.
pub open spec fn candidates_for(
    members: Seq<MediaDedupeMember>,
    sessions: Seq<(AuthorizationSession, Server)>,
) -> Seq<GroupedCandidate> {
    ranked(members.filter_map(|member: MediaDedupeMember| candidate_for(member, sessions)))
}

/// Whether several servers are known to have a medium.
pub open spec fn is_shared(group: Option<MediaDedupeGroup>) -> bool {
    group is Some && (group->0).members@.len() >= 2
}

/// The servers that can be asked for a medium, in the order in which they are asked. Nothing
/// where the medium is not shared, or where the request comes without sessions.
pub fn grouped_candidates(
    group: &Option<MediaDedupeGroup>,
    sessions: &Option<Vec<(AuthorizationSession, Server)>>,
) -> (r: Option<Vec<GroupedCandidate>>)
    ensures
        match r {
            Some(candidates) => {
                &&& is_shared(*group)
                &&& sessions is Some
                &&& candidates@ == candidates_for((group->0).members@, (sessions->0)@)
            },
            None => !is_shared(*group) || sessions is None,
        },
{
    match (group, sessions) {
        (Some(found), Some(used)) => {
            if found.members.len() < 2 {
                return None;
            }
            let ghost all = found.members@;
            let ghost pick = |member: MediaDedupeMember| candidate_for(member, used@);
            let mut out: Vec<GroupedCandidate> = Vec::new();
            let mut i: usize = 0;
            assert(all.take(0).filter_map(pick) =~= Seq::<GroupedCandidate>::empty());
            while i < found.members.len()
                invariant
                    i <= found.members@.len(),
                    all == found.members@,
                    pick == |member: MediaDedupeMember| candidate_for(member, used@),
                    out@ == all.take(i as int).filter_map(pick),
                decreases found.members@.len() - i,
            {
                assert(all.take(i + 1).drop_last() == all.take(i as int));
                let ghost before = out@;
                if let Some((session, server)) = find_session(used, found.members[i].server_id) {
                    let candidate: GroupedCandidate = GroupedCandidate {
                        virtual_media_id: found.members[i].virtual_media_id.clone(),
                        session,
                        server,
                    };
                    assert(pick(all[i as int]) == Some(candidate));
                    out.push(candidate);
                    assert(out@ =~= before + seq![candidate]);
                }
                i += 1;
            }
            assert(all.take(i as int) == all);
            Some(rank_list(out))
        },
        _ => None,
    }
}

/// Servers are asked by priority: none is asked before a server of higher priority.
pub proof fn servers_are_asked_by_priority(
    members: Seq<MediaDedupeMember>,
    sessions: Seq<(AuthorizationSession, Server)>,
    i: int,
    j: int,
)
    requires
        0 <= i < j < candidates_for(members, sessions).len(),
    ensures
        candidates_for(members, sessions)[i].server.priority >= candidates_for(
            members,
            sessions,
        )[j].server.priority,
{
    let pick = |member: MediaDedupeMember| candidate_for(member, sessions);
    ranking_orders_by_rank(members.filter_map(pick));
    let all = candidates_for(members, sessions);
    assert(!all[j].before(all[i]));
}

// ---------------------------------------------------------------------------
// The items of a show
// ---------------------------------------------------------------------------

/// The sessions on the servers that have a show, in the order of the show's members.
pub open spec fn show_sessions(
    members: Seq<MediaDedupeMember>,
    sessions: Seq<(AuthorizationSession, Server)>,
) -> Seq<(AuthorizationSession, Server)> {
    members.filter_map(|member: MediaDedupeMember| session_for(sessions, member.server_id))
}

/// Whether one of the members is on the server.
pub open spec fn has_member_on(members: Seq<MediaDedupeMember>, server_id: i64) -> bool {
    exists|i: int| 0 <= i < members.len() && (#[trigger] members[i]).server_id == server_id
}

/// Whether a server is asked about a season: one of the servers that share it; or the server that
/// has it; or any, where nothing is known of it.
pub open spec fn is_asked_about_season(
    server_id: i64,
    season_group: Option<MediaDedupeGroup>,
    season_server: Option<i64>,
) -> bool {
    match season_group {
        Some(group) => has_member_on(group.members@, server_id),
        None => match season_server {
            Some(id) => server_id == id,
            None => true,
        },
    }
}

fn finds_member_on(members: &Vec<MediaDedupeMember>, server_id: i64) -> (r: bool)
    ensures
        r == has_member_on(members@, server_id),
{
    let mut i: usize = 0;
    while i < members.len()
        invariant
            i <= members@.len(),
            forall|k: int| 0 <= k < i ==> (#[trigger] members@[k]).server_id != server_id,
        decreases members@.len() - i,
    {
        if members[i].server_id == server_id {
            assert(members@[i as int].server_id == server_id);
            return true;
        }
        i += 1;
    }
    false
}

/// The servers that are asked for the seasons or episodes of a shared show. Where the request
/// names a season, `season_group` are the servers that share it and `season_server` is the server
/// that has it.
pub fn show_targets(
    members: &Vec<MediaDedupeMember>,
    sessions: &Vec<(AuthorizationSession, Server)>,
    season_group: &Option<MediaDedupeGroup>,
    season_server: Option<i64>,
) -> (r: Vec<(AuthorizationSession, Server)>)
    ensures
        r@ == show_sessions(members@, sessions@).filter(
            |target: (AuthorizationSession, Server)|
                is_asked_about_season(target.1.id, *season_group, season_server),
        ),
{
    let ghost all = members@;
    let ghost pick = |member: MediaDedupeMember| session_for(sessions@, member.server_id);
    let ghost asked = |target: (AuthorizationSession, Server)|
        is_asked_about_season(target.1.id, *season_group, season_server);
    let mut out: Vec<(AuthorizationSession, Server)> = Vec::new();
    let mut i: usize = 0;
    proof {
        reveal(Seq::filter);
        assert(all.take(0).filter_map(pick) =~= Seq::empty());
        assert(out@ =~= all.take(0).filter_map(pick).filter(asked));
    }
    while i < members.len()
        invariant
            i <= members@.len(),
            all == members@,
            pick == |member: MediaDedupeMember| session_for(sessions@, member.server_id),
            asked == |target: (AuthorizationSession, Server)|
                is_asked_about_season(target.1.id, *season_group, season_server),
            out@ == all.take(i as int).filter_map(pick).filter(asked),
        decreases members@.len() - i,
    {
        let ghost found_before = all.take(i as int).filter_map(pick);
        assert(all.take(i + 1).drop_last() == all.take(i as int));
        if let Some((session, server)) = find_session(sessions, members[i].server_id) {
            let ghost target = (session, server);
            proof {
                reveal(Seq::filter);
                assert(pick(all[i as int]) == Some(target));
                assert(found_before + seq![target] =~= found_before.push(target));
                assert(found_before.push(target).drop_last() =~= found_before);
            }
            let wanted: bool = match season_group {
                Some(group) => finds_member_on(&group.members, server.id),
                None => match season_server {
                    Some(id) => server.id == id,
                    None => true,
                },
            };
            if wanted {
                out.push((session, server));
            }
        }
        i += 1;
    }
    assert(all.take(i as int) == all);
    out
}

// ---------------------------------------------------------------------------
// The versions of an item
// ---------------------------------------------------------------------------

/// The name of a version that tells which server it is on.
pub open spec fn source_name(name: Option<Seq<char>>, server_name: Seq<char>) -> Seq<char> {
    if name is Some && trimmed(name->0).len() > 0 {
        name->0 + " ["@ + server_name + "]"@
    } else {
        server_name + " source"@
    }
}

/// A version under the name that tells which server it is on.
pub open spec fn decorated(source: MediaSourceView, server_name: Seq<char>) -> MediaSourceView {
    MediaSourceView { name: Some(source_name(source.name, server_name)), ..source }
}

/// The version under the name that tells which server it is on.
pub fn decorate_source(source: MediaSource, server_name: &str) -> (r: MediaSource)
    ensures
        r@ == decorated(source@, server_name@),
        r.id == source.id,
{
    let mut out: MediaSource = source;
    let mut name: String = String::new();
    let mut named: bool = false;
    if let Some(existing) = &out.name {
        let bare: String = trim(existing.as_str());
        if !bare.as_str().is_empty() {
            name = copy_text(existing.as_str());
            name.append(" [");
            name.append(server_name);
            name.append("]");
            named = true;
        }
    }
    if !named {
        name = copy_text(server_name);
        name.append(" source");
    }
    out.name = Some(name);
    out
}

/// An item as one server has it.
#[derive(Debug)]
pub struct FetchedItem {
    pub server: Server,
    pub item: MediaItem,
}

/// The versions of an item as values.
pub open spec fn sources_of(item: MediaItem) -> Seq<MediaSourceView> {
    match item.media_sources {
        Some(sources) => sources@.map_values(|source: MediaSource| source@),
        None => Seq::empty(),
    }
}

/// The versions that a server offers, under names that tell the server.
pub open spec fn offered_by(fetched: FetchedItem) -> Seq<MediaSourceView> {
    sources_of(fetched.item).map_values(
        |source: MediaSourceView| decorated(source, fetched.server.name@),
    )
}

/// The versions that the servers offer, one server after the other.
pub open spec fn offered(fetched: Seq<FetchedItem>) -> Seq<MediaSourceView>
    decreases fetched.len(),
{
    if fetched.len() == 0 {
        Seq::empty()
    } else {
        offered(fetched.drop_last()) + offered_by(fetched.last())
    }
}

/// What tells versions apart.
pub open spec fn source_id() -> spec_fn(MediaSourceView) -> Seq<char> {
    |source: MediaSourceView| source.id
}

/// The versions of an item on all servers, each identifier once.
pub open spec fn merged_sources(fetched: Seq<FetchedItem>) -> Seq<MediaSourceView> {
    first_per_key(offered(fetched), source_id())
}

/// Whether the item of one server is rather shown than that of another: its server has the higher
/// priority, or the same and a name that comes first without regard to case.
pub open spec fn is_preferred(server: Server, other: Server) -> bool {
    server.priority > other.priority || (server.priority == other.priority && text_before(
        lowered(server.name@),
        lowered(other.name@),
    ))
}

fn prefers(server: &Server, other: &Server) -> (r: bool)
    ensures
        r == is_preferred(*server, *other),
{
    if server.priority == other.priority {
        let name: String = to_lower(server.name.as_str());
        let other_name: String = to_lower(other.name.as_str());
        is_before(name.as_str(), other_name.as_str())
    } else {
        server.priority > other.priority
    }
}

/// The place of the item that is shown: the first that no other is preferred to.
pub open spec fn shown_place(fetched: Seq<FetchedItem>) -> int
    decreases fetched.len(),
{
    if fetched.len() <= 1 {
        0
    } else {
        let rest = shown_place(fetched.drop_last());
        if is_preferred(fetched.last().server, fetched[rest].server) {
            fetched.len() - 1
        } else {
            rest
        }
    }
}

/// No server's item is preferred to the one that is shown, and the one that is shown is preferred
/// to every one before it.
pub proof fn the_preferred_item_is_shown(fetched: Seq<FetchedItem>)
    requires
        fetched.len() > 0,
    ensures
        0 <= shown_place(fetched) < fetched.len(),
        forall|i: int|
            0 <= i < fetched.len() ==> !is_preferred(
                (#[trigger] fetched[i]).server,
                fetched[shown_place(fetched)].server,
            ),
        forall|i: int|
            0 <= i < shown_place(fetched) ==> is_preferred(
                fetched[shown_place(fetched)].server,
                (#[trigger] fetched[i]).server,
            ),
    decreases fetched.len(),
{
    if fetched.len() > 1 {
        let rest = fetched.drop_last();
        let last = fetched.last().server;
        let place = shown_place(rest);
        let best = fetched[place].server;
        the_preferred_item_is_shown(rest);
        assert(rest[place] == fetched[place]);
        assert forall|i: int| 0 <= i < fetched.len() implies !is_preferred(
            (#[trigger] fetched[i]).server,
            fetched[shown_place(fetched)].server,
        ) by {
            if i < rest.len() {
                assert(rest[i] == fetched[i]);
                if is_preferred(last, best) {
                    lemma_preference_is_asymmetric(last, best);
                    lemma_preference_is_negatively_transitive(fetched[i].server, best, last);
                }
            } else {
                lemma_preference_is_asymmetric(last, last);
            }
        }
        assert forall|i: int| 0 <= i < shown_place(fetched) implies is_preferred(
            fetched[shown_place(fetched)].server,
            (#[trigger] fetched[i]).server,
        ) by {
            assert(rest[i] == fetched[i]);
            if is_preferred(last, best) {
                assert(!is_preferred(fetched[i].server, best));
                if !is_preferred(last, fetched[i].server) {
                    lemma_preference_is_negatively_transitive(last, fetched[i].server, best);
                }
            }
        }
    } else {
        lemma_preference_is_asymmetric(fetched[0].server, fetched[0].server);
    }
}

proof fn lemma_preference_is_asymmetric(a: Server, b: Server)
    ensures
        !(is_preferred(a, b) && is_preferred(b, a)),
{
    text_order_is_total(lowered(a.name@), lowered(b.name@));
}

proof fn lemma_preference_is_negatively_transitive(a: Server, b: Server, c: Server)
    requires
        !is_preferred(a, b),
        !is_preferred(b, c),
    ensures
        !is_preferred(a, c),
{
    if a.priority == b.priority && b.priority == c.priority {
        text_order_is_negatively_transitive(
            lowered(a.name@),
            lowered(b.name@),
            lowered(c.name@),
        );
    }
}

fn is_known_source_id(sources: &Vec<MediaSource>, id: &String) -> (r: bool)
    ensures
        r == has_key(source_values(sources@), source_id(), id@),
{
    let mut i: usize = 0;
    while i < sources.len()
        invariant
            i <= sources@.len(),
            forall|k: int|
                0 <= k < i ==> source_id()(#[trigger] source_values(sources@)[k]) != id@,
        decreases sources@.len() - i,
    {
        assert(source_values(sources@)[i as int] == sources@[i as int]@);
        if sources[i].id == *id {
            assert(source_id()(source_values(sources@)[i as int]) == id@);
            return true;
        }
        i += 1;
    }
    false
}

fn add_sources(
    merged: Vec<MediaSource>,
    offered_before: Ghost<Seq<MediaSourceView>>,
    sources: Vec<MediaSource>,
    server_name: &str,
) -> (r: Vec<MediaSource>)
    requires
        source_values(merged@) == first_per_key(offered_before@, source_id()),
    ensures
        source_values(r@) == first_per_key(
            offered_before@ + source_values(sources@).map_values(
                |source: MediaSourceView| decorated(source, server_name@),
            ),
            source_id(),
        ),
{
    let ghost before = offered_before@;
    let ghost more = source_values(sources@).map_values(
        |source: MediaSourceView| decorated(source, server_name@),
    );
    let mut out: Vec<MediaSource> = merged;
    let ghost all = sources@;
    let ghost mut done: int = 0;
    assert(before + more.take(0) =~= before);
    for source in it: sources
        invariant
            it.seq() == all,
            done == it.index(),
            more == source_values(all).map_values(
                |source: MediaSourceView| decorated(source, server_name@),
            ),
            source_values(out@) == first_per_key(before + more.take(done), source_id()),
    {
        let ghost sofar = before + more.take(done);
        let known: bool = is_known_source_id(&out, &source.id);
        let ghost fresh = decorated(source@, server_name@);
        proof {
            assert(more[done] == fresh);
            first_per_key_keeps_each_key_once(sofar, source_id());
            assert(known == has_key(sofar, source_id(), source_id()(fresh)));
            done = done + 1;
            assert((before + more.take(done)).drop_last() =~= sofar);
        }
        let ghost held = out@;
        if !known {
            out.push(decorate_source(source, server_name));
            assert(source_values(out@) =~= source_values(held).push(fresh));
        }
    }
    assert(before + more.take(done) =~= before + more);
    out
}

/// One item out of what the servers have of it: the preferred item under the identifier that was
/// asked for, with the versions of all servers.
pub fn merge_grouped_item(requested_item_id: &str, fetched: Vec<FetchedItem>) -> (r: Option<
    MediaItem,
>)
    ensures
        r is Some <==> fetched@.len() > 0,
        r is Some ==> {
            let item = r->0;
            &&& item.id@ == requested_item_id@
            &&& sources_of(item) == merged_sources(fetched@)
            &&& item.media_sources is Some <==> merged_sources(fetched@).len() > 0
            &&& item == (MediaItem {
                id: item.id,
                media_sources: item.media_sources,
                ..fetched@[shown_place(fetched@)].item
            })
        },
{
    let ghost all = fetched@;
    let mut shown: Option<(Server, MediaItem)> = None;
    let mut merged: Vec<MediaSource> = Vec::new();
    let ghost mut done: int = 0;
    assert(source_values(merged@) =~= first_per_key(offered(all.take(0)), source_id()));
    for one in it: fetched
        invariant
            it.seq() == all,
            done == it.index(),
            source_values(merged@) == first_per_key(offered(all.take(done)), source_id()),
            done == 0 <==> shown is None,
            shown is Some ==> {
                let place = shown_place(all.take(done));
                &&& 0 <= place < done
                &&& (shown->0).0 == all[place].server
                &&& (shown->0).1 == (MediaItem { media_sources: None, ..all[place].item })
            },
    {
        proof {
            assert(one == all[done]);
            done = done + 1;
            assert(all.take(done).drop_last() == all.take(done - 1));
        }
        let ghost whole = one;
        let server: Server = one.server;
        let mut item: MediaItem = one.item;
        let taken: Option<Vec<MediaSource>> = item.media_sources.take();
        match taken {
            Some(sources) => {
                merged = add_sources(
                    merged,
                    Ghost(offered(all.take(done - 1))),
                    sources,
                    server.name.as_str(),
                );
                assert(offered_by(whole) =~= source_values(sources@).map_values(
                    |source: MediaSourceView| decorated(source, server.name@),
                ));
            },
            None => {
                assert(offered_by(whole) =~= Seq::<MediaSourceView>::empty());
                assert(offered(all.take(done)) =~= offered(all.take(done - 1)));
            },
        }
        let replace: bool = match &shown {
            Some(best) => prefers(&server, &best.0),
            None => true,
        };
        if replace {
            shown = Some((server, item));
        }
    }
    assert(all.take(done) == all);
    match shown {
        Some((_, item)) => {
            let mut out: MediaItem = item;
            let ghost place = shown_place(all);
            if merged.len() > 0 {
                out.media_sources = Some(merged);
            } else {
                assert(merged_sources(all).len() == 0);
                assert(sources_of(out) =~= merged_sources(all));
            }
            out.id = copy_text(requested_item_id);
            Some(out)
        },
        None => None,
    }
}

/// A merged item has every version that some server offers, and none twice.
pub proof fn merged_versions_are_complete_and_apart(fetched: Seq<FetchedItem>)
    ensures
        forall|id: Seq<char>| #[trigger]
            has_key(merged_sources(fetched), source_id(), id) == has_key(
                offered(fetched),
                source_id(),
                id,
            ),
        forall|i: int, j: int|
            0 <= i < j < merged_sources(fetched).len() ==> (
            #[trigger] merged_sources(fetched)[i]).id != (#[trigger] merged_sources(fetched)[j]).id,
{
    first_per_key_keeps_each_key_once(offered(fetched), source_id());
    let all = merged_sources(fetched);
    assert forall|i: int, j: int| 0 <= i < j < all.len() implies (#[trigger] all[i]).id != (
    #[trigger] all[j]).id by {
        assert(source_id()(all[i]) != source_id()(all[j]));
    }
}

// ---------------------------------------------------------------------------
// Playback
// ---------------------------------------------------------------------------

/// The candidates on the server that the client has selected; all of them where it has selected
/// none.
pub fn selected_candidates(
    candidates: Vec<GroupedCandidate>,
    selected_server_id: Option<i64>,
) -> (r: Vec<GroupedCandidate>)
    ensures
        r@ == candidates@.filter(
            |candidate: GroupedCandidate|
                selected_server_id is None || candidate.server.id == selected_server_id->0,
        ),
{
    let ghost all = candidates@;
    let ghost kept = |candidate: GroupedCandidate|
        selected_server_id is None || candidate.server.id == selected_server_id->0;
    let mut out: Vec<GroupedCandidate> = Vec::new();
    let ghost mut done: int = 0;
    proof {
        reveal(Seq::filter);
        assert(out@ =~= all.take(0).filter(kept));
    }
    for candidate in it: candidates
        invariant
            it.seq() == all,
            done == it.index(),
            kept == |candidate: GroupedCandidate|
                selected_server_id is None || candidate.server.id == selected_server_id->0,
            out@ == all.take(done).filter(kept),
    {
        proof {
            reveal(Seq::filter);
            done = done + 1;
            assert(all.take(done).drop_last() == all.take(done - 1));
        }
        let wanted: bool = match selected_server_id {
            Some(id) => candidate.server.id == id,
            None => true,
        };
        if wanted {
            out.push(candidate);
        }
    }
    assert(all.take(done) == all);
    out
}

/// What is forwarded to a server: the user is the server's own, and the version is given by its
/// identifier on the server where that is known.
pub open spec fn forwarded(
    payload: PlaybackRequest,
    original_user_id: String,
    mapped_source_id: Option<String>,
) -> PlaybackRequest {
    PlaybackRequest {
        user_id: if payload.user_id is Some {
            Some(original_user_id)
        } else {
            None
        },
        media_source_id: if payload.media_source_id is Some && mapped_source_id is Some {
            mapped_source_id
        } else {
            payload.media_source_id
        },
        ..payload
    }
}

/// What is forwarded to the one server that is asked.
pub fn forward_payload(
    payload: &PlaybackRequest,
    original_user_id: &String,
    mapped_source_id: Option<String>,
) -> (r: PlaybackRequest)
    ensures
        r == forwarded(*payload, *original_user_id, mapped_source_id),
{
    let mut out: PlaybackRequest = payload.clone();
    if out.user_id.is_some() {
        out.user_id = Some(original_user_id.clone());
    }
    if out.media_source_id.is_some() && mapped_source_id.is_some() {
        out.media_source_id = mapped_source_id;
    }
    out
}

/// The version to look up before a server of a group is asked: the one that the client has
/// selected, on its server.
pub fn source_to_look_up(
    payload: &PlaybackRequest,
    server_id: i64,
    selected_server_id: Option<i64>,
) -> (r: Option<String>)
    ensures
        r == if selected_server_id == Some(server_id) {
            payload.media_source_id
        } else {
            None
        },
{
    match selected_server_id {
        Some(id) => {
            if id == server_id {
                copy_optional(&payload.media_source_id)
            } else {
                None
            }
        },
        None => None,
    }
}

/// What is forwarded to a server of a group. A server that the client has not selected is asked
/// for all of its versions.
pub fn payload_for_server(
    payload: &PlaybackRequest,
    original_user_id: &String,
    server_id: i64,
    selected_server_id: Option<i64>,
    mapped_source_id: Option<String>,
) -> (r: PlaybackRequest)
    ensures
        r == if selected_server_id == Some(server_id) {
            forwarded(*payload, *original_user_id, mapped_source_id)
        } else {
            PlaybackRequest {
                media_source_id: None,
                ..forwarded(*payload, *original_user_id, None)
            }
        },
{
    let selected: bool = match selected_server_id {
        Some(id) => id == server_id,
        None => false,
    };
    if selected {
        forward_payload(payload, original_user_id, mapped_source_id)
    } else {
        let mut out: PlaybackRequest = forward_payload(payload, original_user_id, None);
        out.media_source_id = None;
        out
    }
}

/// A response with its versions under the names that tell which server they are on.
pub open spec fn named(
    response: PlaybackResponseView,
    server_name: Seq<char>,
) -> PlaybackResponseView {
    PlaybackResponseView {
        media_sources: response.media_sources.map_values(
            |source: MediaSourceView| decorated(source, server_name),
        ),
        ..response
    }
}

/// The response with its versions under the names that tell which server they are on.
pub fn name_sources(response: PlaybackResponse, server_name: &str) -> (r: PlaybackResponse)
    ensures
        r@ == named(response@, server_name@),
{
    let ghost all = response.media_sources@;
    let ghost wanted = source_values(all).map_values(
        |source: MediaSourceView| decorated(source, server_name@),
    );
    let mut media_sources: Vec<MediaSource> = Vec::new();
    let ghost mut done: int = 0;
    assert(source_values(media_sources@) =~= wanted.take(0));
    let play_session_id: String = response.play_session_id;
    for source in it: response.media_sources
        invariant
            it.seq() == all,
            done == it.index(),
            wanted == source_values(all).map_values(
                |source: MediaSourceView| decorated(source, server_name@),
            ),
            source_values(media_sources@) == wanted.take(done),
    {
        let ghost before = media_sources@;
        proof {
            assert(source == all[done]);
            assert(wanted[done] == decorated(source@, server_name@));
            done = done + 1;
            assert(wanted.take(done) =~= wanted.take(done - 1).push(wanted[done - 1]));
        }
        media_sources.push(decorate_source(source, server_name));
        assert(source_values(media_sources@) =~= source_values(before).push(wanted[done - 1]));
    }
    assert(wanted.take(done) == wanted);
    PlaybackResponse { media_sources, play_session_id }
}

/// The versions of the responses, one response after the other.
pub open spec fn all_sources(responses: Seq<PlaybackResponseView>) -> Seq<MediaSourceView>
    decreases responses.len(),
{
    if responses.len() == 0 {
        Seq::empty()
    } else {
        all_sources(responses.drop_last()) + responses.last().media_sources
    }
}

/// One response out of those of several servers: all versions, in the session of the server that
/// was asked first. There is none where no server has a version.
pub fn merge_playback_responses(responses: Vec<PlaybackResponse>) -> (r: Option<PlaybackResponse>)
    ensures
        match r {
            Some(merged) => {
                &&& merged@.media_sources == all_sources(response_values(responses@))
                &&& merged@.media_sources.len() > 0
                &&& responses@.len() > 0
                &&& merged@.play_session_id == responses@[0]@.play_session_id
            },
            None => all_sources(response_values(responses@)).len() == 0,
        },
{
    let ghost all = responses@;
    let ghost values = response_values(all);
    let mut media_sources: Vec<MediaSource> = Vec::new();
    let mut play_session_id: Option<String> = None;
    let ghost mut done: int = 0;
    assert(source_values(media_sources@) =~= all_sources(values.take(0)));
    for response in it: responses
        invariant
            it.seq() == all,
            done == it.index(),
            values == response_values(all),
            source_values(media_sources@) == all_sources(values.take(done)),
            done == 0 <==> play_session_id is None,
            play_session_id is Some ==> play_session_id->0 == all[0].play_session_id,
    {
        let ghost before = media_sources@;
        let ghost more = response.media_sources@;
        proof {
            assert(response == all[done]);
            assert(values[done] == response@);
            done = done + 1;
            assert(values.take(done).drop_last() == values.take(done - 1));
        }
        if play_session_id.is_none() {
            play_session_id = Some(response.play_session_id);
        }
        let mut sources: Vec<MediaSource> = response.media_sources;
        media_sources.append(&mut sources);
        assert(source_values(media_sources@) =~= source_values(before) + source_values(more));
    }
    assert(values.take(done) == values);
    assert(source_values(media_sources@).len() == media_sources@.len());
    if media_sources.len() == 0 {
        return None;
    }
    match play_session_id {
        Some(id) => Some(PlaybackResponse { media_sources, play_session_id: id }),
        None => None,
    }
}

/// The request for playback that a client has sent: `original` is what its body says, or the
/// status that reading it came to. A request that is not there is a bad one.
pub fn playback_payload(original: Option<Result<PlaybackRequest, u16>>) -> (r: Result<
    PlaybackRequest,
    u16,
>)
    ensures
        r == match original {
            Some(read) => read,
            None => Err::<PlaybackRequest, u16>(STATUS_BAD_REQUEST),
        },
{
    match original {
        Some(read) => read,
        None => Err(STATUS_BAD_REQUEST),
    }
}

/// What is forwarded to the one server that is asked. Without a session on it the request is not
/// authorized.
pub fn post_playback_info(
    payload: &PlaybackRequest,
    session: &Option<AuthorizationSession>,
    mapped_source_id: Option<String>,
) -> (r: Result<PlaybackRequest, u16>)
    ensures
        r == match *session {
            Some(used) => Ok::<PlaybackRequest, u16>(
                forwarded(*payload, used.original_user_id, mapped_source_id),
            ),
            None => Err::<PlaybackRequest, u16>(STATUS_UNAUTHORIZED),
        },
{
    match session {
        Some(used) => Ok(forward_payload(payload, &used.original_user_id, mapped_source_id)),
        None => Err(STATUS_UNAUTHORIZED),
    }
}

/// The value of the header that gives the length of a body.
pub fn content_length(body: &Vec<u8>) -> (r: String)
    ensures
        r@ == decimal(body@.len() as int),
{
    count_text(body.len())
}

// ---------------------------------------------------------------------------
// What is read from a path
// ---------------------------------------------------------------------------

/// The item of a path is named by the segment behind the first segment `items`, in any letter
/// case, that is not the last; there is none where no segment is such.
pub proof fn the_segment_behind_items_names_the_item(segments: Seq<Seq<char>>) -> (i: int)
    ensures
        match item_id_among(segments) {
            Some(id) => {
                &&& 0 <= i < segments.len() - 1
                &&& lowered(segments[i]) == "items"@
                &&& id == segments[i + 1]
                &&& forall|k: int| 0 <= k < i ==> lowered(#[trigger] segments[k]) != "items"@
            },
            None => forall|k: int|
                0 <= k < segments.len() - 1 ==> lowered(#[trigger] segments[k]) != "items"@,
        },
    decreases segments.len(),
{
    reveal_strlit("items");
    assert(lowered("items"@) =~= "items"@);
    if segments.len() >= 2 && !same_ignoring_case(segments[0], "items"@) {
        let rest = segments.drop_first();
        let i = the_segment_behind_items_names_the_item(rest);
        let n = if item_id_among(rest) is Some {
            i + 1
        } else {
            segments.len() - 1
        };
        assert forall|k: int| 0 <= k < n implies lowered(#[trigger] segments[k]) != "items"@ by {
            if k > 0 {
                assert(rest[k - 1] == segments[k]);
            }
        }
        i + 1
    } else {
        0
    }
}

/// Whether a path speaks of the seasons or episodes of a show from the segment `i` on.
pub open spec fn speaks_of_show(segments: Seq<Seq<char>>, i: int) -> bool {
    &&& 0 <= i < segments.len() - 2
    &&& lowered(segments[i]) == "shows"@
    &&& lowered(segments[i + 2]) == "seasons"@ || lowered(segments[i + 2]) == "episodes"@
}

/// The series of a path is named by the segment between the first `shows` and `seasons` or
/// `episodes`, in any letter case; there is none where no segments are such.
pub proof fn the_segment_behind_shows_names_the_series(segments: Seq<Seq<char>>) -> (i: int)
    ensures
        match series_id_among(segments) {
            Some(id) => {
                &&& speaks_of_show(segments, i)
                &&& id == segments[i + 1]
                &&& forall|k: int| 0 <= k < i ==> !#[trigger] speaks_of_show(segments, k)
            },
            None => forall|k: int| !#[trigger] speaks_of_show(segments, k),
        },
    decreases segments.len(),
{
    reveal_strlit("shows");
    reveal_strlit("seasons");
    reveal_strlit("episodes");
    assert(lowered("shows"@) =~= "shows"@);
    assert(lowered("seasons"@) =~= "seasons"@);
    assert(lowered("episodes"@) =~= "episodes"@);
    if segments.len() >= 3 && !speaks_of_show(segments, 0) {
        let rest = segments.drop_first();
        let i = the_segment_behind_shows_names_the_series(rest);
        assert forall|k: int| 1 <= k implies #[trigger] speaks_of_show(segments, k)
            == speaks_of_show(rest, k - 1) by {
            if k < segments.len() - 2 {
                assert(rest[k - 1] == segments[k]);
                assert(rest[k + 1] == segments[k + 2]);
            }
        }
        i + 1
    } else {
        0
    }
}

/// An item that stands for a library group has the group's identifier, name and collection type,
/// is a folder, and is otherwise what it was.
pub proof fn a_library_shows_its_own_data(item: MediaItem, library: LibraryOverride)
    ensures
        ({
            let shown = shown_as_library(item, library);
            &&& shown.id == library.virtual_id
            &&& shown.display_preferences_id == Some(library.virtual_id)
            &&& shown.name == Some(library.name)
            &&& shown.collection_type == Some(library.collection_type)
            &&& shown.item_type is CollectionFolder
            &&& shown.is_folder == Some(true)
            &&& item == (MediaItem {
                id: item.id,
                display_preferences_id: item.display_preferences_id,
                name: item.name,
                collection_type: item.collection_type,
                item_type: item.item_type,
                is_folder: item.is_folder,
                ..shown
            })
        }),
{
}

// ---------------------------------------------------------------------------
// Which servers are asked
// ---------------------------------------------------------------------------

/// Whether the session at place `j` is the first on the server with the given identifier.
pub open spec fn is_first_session(
    sessions: Seq<(AuthorizationSession, Server)>,
    j: int,
    server_id: i64,
) -> bool {
    &&& 0 <= j < sessions.len()
    &&& sessions[j].1.id == server_id
    &&& forall|k: int| 0 <= k < j ==> (#[trigger] sessions[k]).1.id != server_id
}

/// For each member of a group whose server one of the sessions is on there is a candidate, with
/// the member's identifier and the first session on the server; there is no other.
pub proof fn every_reachable_member_is_a_candidate(
    members: Seq<MediaDedupeMember>,
    sessions: Seq<(AuthorizationSession, Server)>,
) -> (r: (Seq<int>, Seq<GroupedCandidate>))
    ensures
        are_places(
            r.0,
            members.len() as int,
            |k: int|
                exists|j: int|
                    0 <= j < sessions.len() && (#[trigger] sessions[j]).1.id
                        == members[k].server_id,
        ),
        r.1.len() == r.0.len(),
        forall|i: int|
            0 <= i < r.0.len() ==> {
                let member = members[#[trigger] r.0[i]];
                &&& 0 <= r.0[i] < members.len()
                &&& r.1[i].virtual_media_id == member.virtual_media_id
                &&& r.1[i].server.id == member.server_id
                &&& exists|j: int| #[trigger]
                    is_first_session(sessions, j, member.server_id) && r.1[i].session
                        == sessions[j].0 && r.1[i].server == sessions[j].1
            },
        candidates_for(members, sessions).to_multiset() == r.1.to_multiset(),
        candidates_for(members, sessions).len() == r.1.len(),
{
    let pick = |member: MediaDedupeMember| candidate_for(member, sessions);
    let found = members.filter_map(pick);
    let places = picking_takes_all_there_is(members, pick);
    let before = |k: int| pick(members[k]) is Some;
    let chosen = |k: int|
        exists|j: int|
            0 <= j < sessions.len() && (#[trigger] sessions[j]).1.id == members[k].server_id;
    assert forall|k: int| 0 <= k < members.len() implies #[trigger] before(k) == chosen(k) by {
        a_session_is_found_where_there_is_one(sessions, members[k].server_id);
    }
    lemma_same_places(places, members.len() as int, before, chosen);
    ranking_is_a_permutation(found);
    assert forall|i: int| 0 <= i < places.len() implies {
        let member = members[#[trigger] places[i]];
        &&& 0 <= places[i] < members.len()
        &&& found[i].virtual_media_id == member.virtual_media_id
        &&& found[i].server.id == member.server_id
        &&& exists|j: int| #[trigger]
            is_first_session(sessions, j, member.server_id) && found[i].session == sessions[j].0
                && found[i].server == sessions[j].1
    } by {
        let member = members[places[i]];
        assert(Some(found[i]) == pick(members[places[i]]));
        let j = the_first_session_on_a_server_is_used(sessions, member.server_id);
        assert(is_first_session(sessions, j, member.server_id));
    }
    (places, found)
}

/// Candidates stand by the priority of their servers, the highest first, and then by the names of
/// the servers; where these are the same, in the order of the group's members.
pub proof fn candidates_stand_by_priority_and_name(
    members: Seq<MediaDedupeMember>,
    sessions: Seq<(AuthorizationSession, Server)>,
    i: int,
    j: int,
    x: GroupedCandidate,
)
    requires
        0 <= i < j < candidates_for(members, sessions).len(),
    ensures
        ({
            let one = candidates_for(members, sessions)[i].server;
            let other = candidates_for(members, sessions)[j].server;
            one.priority > other.priority || (one.priority == other.priority && (text_before(
                one.name@,
                other.name@,
            ) || one.name@ == other.name@))
        }),
        candidates_for(members, sessions).filter(
            |e: GroupedCandidate|
                e.server.priority == x.server.priority && e.server.name@ == x.server.name@,
        ) == members.filter_map(
            |member: MediaDedupeMember| candidate_for(member, sessions),
        ).filter(
            |e: GroupedCandidate|
                e.server.priority == x.server.priority && e.server.name@ == x.server.name@,
        ),
{
    let pick = |member: MediaDedupeMember| candidate_for(member, sessions);
    let found = members.filter_map(pick);
    let all = candidates_for(members, sessions);
    ranking_orders_by_rank(found);
    assert(!all[j].before(all[i]));
    text_order_is_total(all[i].server.name@, all[j].server.name@);
    let same = |e: GroupedCandidate| same_rank(e, x);
    let alike = |e: GroupedCandidate|
        e.server.priority == x.server.priority && e.server.name@ == x.server.name@;
    assert forall|e: GroupedCandidate| #[trigger] same(e) == alike(e) by {
        text_order_is_total(e.server.name@, x.server.name@);
    }
    assert(same =~= alike);
    ranking_is_stable(found, x);
}

/// Whether a server is asked for a season, by what is known of it: the members of the season's
/// group, else the one server that has the season, else nothing.
pub open spec fn may_have_season(
    server_id: i64,
    season_group: Option<MediaDedupeGroup>,
    season_server: Option<i64>,
) -> bool {
    if season_group is Some {
        exists|i: int|
            0 <= i < (season_group->0).members@.len() && (
            #[trigger] (season_group->0).members@[i]).server_id == server_id
    } else {
        season_server is None || season_server == Some(server_id)
    }
}

/// For each member of a show's group whose server one of the sessions is on and may have the
/// season there is a target, with the first session on the server, in the order of the members;
/// there is no other.
pub proof fn every_server_that_may_have_the_season_is_asked(
    members: Seq<MediaDedupeMember>,
    sessions: Seq<(AuthorizationSession, Server)>,
    season_group: Option<MediaDedupeGroup>,
    season_server: Option<i64>,
) -> (places: Seq<int>)
    ensures
        are_places(
            places,
            members.len() as int,
            |k: int|
                (exists|j: int|
                    0 <= j < sessions.len() && (#[trigger] sessions[j]).1.id
                        == members[k].server_id) && may_have_season(
                    members[k].server_id,
                    season_group,
                    season_server,
                ),
        ),
        ({
            let targets = show_sessions(members, sessions).filter(
                |target: (AuthorizationSession, Server)|
                    is_asked_about_season(target.1.id, season_group, season_server),
            );
            &&& targets.len() == places.len()
            &&& forall|i: int|
                0 <= i < places.len() ==> {
                    let server_id = members[#[trigger] places[i]].server_id;
                    &&& 0 <= places[i] < members.len()
                    &&& exists|j: int| #[trigger]
                        is_first_session(sessions, j, server_id) && targets[i] == sessions[j]
                }
        }),
    decreases members.len(),
{
    reveal(Seq::filter);
    let asked = |target: (AuthorizationSession, Server)|
        is_asked_about_season(target.1.id, season_group, season_server);
    let pick = |member: MediaDedupeMember| session_for(sessions, member.server_id);
    let chosen = |k: int|
        (exists|j: int|
            0 <= j < sessions.len() && (#[trigger] sessions[j]).1.id == members[k].server_id)
            && may_have_season(members[k].server_id, season_group, season_server);
    let targets = show_sessions(members, sessions).filter(asked);
    if members.len() == 0 {
        lemma_no_places(chosen);
        assert(show_sessions(members, sessions) =~= Seq::empty());
        assert(targets.len() == 0);
        let none = Seq::<int>::empty();
        assert(none.len() == 0);
        none
    } else {
        let rest = members.drop_last();
        let n = rest.len() as int;
        let last = members.last();
        let before = |k: int|
            (exists|j: int|
                0 <= j < sessions.len() && (#[trigger] sessions[j]).1.id == rest[k].server_id)
                && may_have_season(rest[k].server_id, season_group, season_server);
        let places = every_server_that_may_have_the_season_is_asked(
            rest,
            sessions,
            season_group,
            season_server,
        );
        assert forall|k: int| 0 <= k < n implies #[trigger] before(k) == chosen(k) by {
            assert(rest[k] == members[k]);
        }
        let next = lemma_next_place(places, n, before, chosen);
        let short = show_sessions(rest, sessions);
        let j = the_first_session_on_a_server_is_used(sessions, last.server_id);
        a_session_is_found_where_there_is_one(sessions, last.server_id);
        assert(members[n] == last);
        match session_for(sessions, last.server_id) {
            Some(target) => {
                assert(show_sessions(members, sessions) =~= short.push(target));
                assert(short.push(target).drop_last() =~= short);
                assert(asked(target) == may_have_season(
                    last.server_id,
                    season_group,
                    season_server,
                )) by {
                    lemma_season_on_server(last.server_id, season_group, season_server);
                }
                assert(is_first_session(sessions, j, last.server_id));
            },
            None => {
                assert(show_sessions(members, sessions) =~= short);
            },
        }
        let short_targets = short.filter(asked);
        assert(targets == if chosen(n) {
            short_targets.push(session_for(sessions, last.server_id)->0)
        } else {
            short_targets
        });
        assert forall|i: int| 0 <= i < next.len() implies {
            let server_id = members[#[trigger] next[i]].server_id;
            &&& 0 <= next[i] < members.len()
            &&& exists|j: int| #[trigger]
                is_first_session(sessions, j, server_id) && targets[i] == sessions[j]
        } by {
            lemma_place_is_chosen(next, members.len() as int, chosen, i);
            if i < places.len() {
                assert(rest[places[i]] == members[next[i]]);
                assert(targets[i] == short_targets[i]);
            }
        }
        next
    }
}

proof fn lemma_season_on_server(
    server_id: i64,
    season_group: Option<MediaDedupeGroup>,
    season_server: Option<i64>,
)
    ensures
        is_asked_about_season(server_id, season_group, season_server) == may_have_season(
            server_id,
            season_group,
            season_server,
        ),
{
    if let Some(group) = season_group {
        if has_member_on(group.members@, server_id) {
            let i = choose|i: int|
                0 <= i < group.members@.len() && (#[trigger] group.members@[i]).server_id
                    == server_id;
            assert((season_group->0).members@[i].server_id == server_id);
        }
        if may_have_season(server_id, season_group, season_server) {
            let i = choose|i: int|
                0 <= i < (season_group->0).members@.len() && (
                #[trigger] (season_group->0).members@[i]).server_id == server_id;
            assert(group.members@[i].server_id == server_id);
        }
    }
}

// ---------------------------------------------------------------------------
// Which versions are shown
// ---------------------------------------------------------------------------

/// A version keeps everything but its name. The name is followed by that of the server in
/// brackets; a version without a name, or with a blank one, is called after the server.
pub proof fn a_version_tells_its_server(source: MediaSourceView, server_name: Seq<char>)
    ensures
        ({
            let shown = decorated(source, server_name);
            &&& shown.id == source.id
            &&& shown.rest == source.rest
            &&& source.name is Some && trimmed(source.name->0).len() > 0 ==> shown.name == Some(
                source.name->0 + seq![' ', '['] + server_name + seq![']'],
            )
            &&& source.name is None || trimmed(source.name->0).len() == 0 ==> shown.name == Some(
                server_name + seq![' ', 's', 'o', 'u', 'r', 'c', 'e'],
            )
        }),
{
    reveal_strlit(" [");
    reveal_strlit("]");
    reveal_strlit(" source");
    assert(" ["@ =~= seq![' ', '[']);
    assert("]"@ =~= seq![']']);
    assert(" source"@ =~= seq![' ', 's', 'o', 'u', 'r', 'c', 'e']);
}

/// Whether a server offers a version at place `k` of its item, being the server at place `i`.
pub open spec fn offers(fetched: Seq<FetchedItem>, i: int, k: int) -> bool {
    &&& 0 <= i < fetched.len()
    &&& fetched[i].item.media_sources is Some
    &&& 0 <= k < (fetched[i].item.media_sources->0)@.len()
}

/// The version that a server offers at place `k` of its item.
pub open spec fn offer_at(fetched: Seq<FetchedItem>, i: int, k: int) -> MediaSourceView {
    (fetched[i].item.media_sources->0)@[k]@
}

/// Whether a version with the same identifier is offered earlier: by a server before, or before it
/// by the same server.
pub open spec fn is_offered_earlier(fetched: Seq<FetchedItem>, i: int, k: int) -> bool {
    exists|a: int, b: int| #[trigger]
        offers(fetched, a, b) && (a < i || (a == i && b < k)) && offer_at(fetched, a, b).id
            == offer_at(fetched, i, k).id
}

spec fn offer_place(fetched: Seq<FetchedItem>, i: int, k: int) -> int {
    offered(fetched.take(i)).len() + k
}

proof fn lemma_offer_stands(fetched: Seq<FetchedItem>, i: int, k: int)
    requires
        offers(fetched, i, k),
    ensures
        0 <= offer_place(fetched, i, k) < offered(fetched).len(),
        offered(fetched)[offer_place(fetched, i, k)] == decorated(
            offer_at(fetched, i, k),
            fetched[i].server.name@,
        ),
    decreases fetched.len(),
{
    let rest = fetched.drop_last();
    if i < rest.len() {
        assert(rest.take(i) =~= fetched.take(i));
        assert(rest[i] == fetched[i]);
        lemma_offer_stands(rest, i, k);
    } else {
        assert(fetched.take(i) =~= rest);
        assert(offered_by(fetched.last())[k] == decorated(
            offer_at(fetched, i, k),
            fetched[i].server.name@,
        ));
    }
}

proof fn lemma_offers_before(fetched: Seq<FetchedItem>, i: int, n: int)
    requires
        0 <= i < n <= fetched.len(),
    ensures
        offered(fetched.take(i)).len() + sources_of(fetched[i].item).len() <= offered(
            fetched.take(n),
        ).len(),
    decreases n,
{
    assert(fetched.take(n).drop_last() =~= fetched.take(n - 1));
    if i < n - 1 {
        lemma_offers_before(fetched, i, n - 1);
    } else {
        assert(offered_by(fetched.take(n).last()).len() == sources_of(fetched[i].item).len());
    }
}

proof fn lemma_offer_order(fetched: Seq<FetchedItem>, i: int, k: int, a: int, b: int)
    requires
        offers(fetched, i, k),
        offers(fetched, a, b),
        i < a || (i == a && k < b),
    ensures
        offer_place(fetched, i, k) < offer_place(fetched, a, b),
{
    if i < a {
        lemma_offers_before(fetched, i, a);
    }
}

proof fn lemma_offer_of(fetched: Seq<FetchedItem>, p: int) -> (r: (int, int))
    requires
        0 <= p < offered(fetched).len(),
    ensures
        offers(fetched, r.0, r.1),
        offer_place(fetched, r.0, r.1) == p,
    decreases fetched.len(),
{
    let rest = fetched.drop_last();
    let before = offered(rest);
    if p < before.len() {
        let r = lemma_offer_of(rest, p);
        assert(rest.take(r.0) =~= fetched.take(r.0));
        assert(rest[r.0] == fetched[r.0]);
        r
    } else {
        assert(fetched.take(fetched.len() - 1) =~= rest);
        assert(offered_by(fetched.last()).len() == sources_of(fetched.last().item).len());
        (fetched.len() - 1, p - before.len())
    }
}

/// A version that is not offered earlier is shown, under the name that tells its server.
pub proof fn each_version_is_shown_as_it_is_first_offered(
    fetched: Seq<FetchedItem>,
    i: int,
    k: int,
) -> (m: int)
    requires
        offers(fetched, i, k),
        !is_offered_earlier(fetched, i, k),
    ensures
        0 <= m < merged_sources(fetched).len(),
        merged_sources(fetched)[m] == decorated(
            offer_at(fetched, i, k),
            fetched[i].server.name@,
        ),
{
    let all = offered(fetched);
    let p = offer_place(fetched, i, k);
    lemma_offer_stands(fetched, i, k);
    let places = the_first_of_each_key_is_kept(all, source_id());
    assert forall|m: int| 0 <= m < p implies source_id()(#[trigger] all[m]) != source_id()(
        all[p],
    ) by {
        let (a, b) = lemma_offer_of(fetched, m);
        lemma_offer_stands(fetched, a, b);
        if !(a < i || (a == i && b < k)) {
            if a != i || b != k {
                lemma_offer_order(fetched, i, k, a, b);
            }
        }
    }
    assert(places.contains(p));
    choose|m: int| 0 <= m < places.len() && places[m] == p
}

/// Every version that is shown is one that a server offers and that is not offered earlier.
pub proof fn only_first_offers_are_shown(fetched: Seq<FetchedItem>, m: int) -> (r: (int, int))
    requires
        0 <= m < merged_sources(fetched).len(),
    ensures
        offers(fetched, r.0, r.1),
        !is_offered_earlier(fetched, r.0, r.1),
        merged_sources(fetched)[m] == decorated(
            offer_at(fetched, r.0, r.1),
            fetched[r.0].server.name@,
        ),
{
    let all = offered(fetched);
    let chosen = |k: int|
        forall|m: int| 0 <= m < k ==> source_id()(#[trigger] all[m]) != source_id()(all[k]);
    let places = the_first_of_each_key_is_kept(all, source_id());
    let p = places[m];
    lemma_place_is_chosen(places, all.len() as int, chosen, m);
    let (i, k) = lemma_offer_of(fetched, p);
    lemma_offer_stands(fetched, i, k);
    if is_offered_earlier(fetched, i, k) {
        let (a, b) = choose|a: int, b: int| #[trigger]
            offers(fetched, a, b) && (a < i || (a == i && b < k)) && offer_at(fetched, a, b).id
                == offer_at(fetched, i, k).id;
        lemma_offer_stands(fetched, a, b);
        lemma_offer_order(fetched, a, b, i, k);
        assert(source_id()(all[offer_place(fetched, a, b)]) != source_id()(all[p]));
    }
    (i, k)
}

/// Versions are shown in the order in which they are first offered: server by server, and in the
/// order of each server.
pub proof fn versions_are_shown_in_the_order_of_offers(
    fetched: Seq<FetchedItem>,
    i: int,
    k: int,
    a: int,
    b: int,
) -> (r: (int, int))
    requires
        offers(fetched, i, k),
        offers(fetched, a, b),
        !is_offered_earlier(fetched, i, k),
        !is_offered_earlier(fetched, a, b),
        i < a || (i == a && k < b),
    ensures
        0 <= r.0 < r.1 < merged_sources(fetched).len(),
        merged_sources(fetched)[r.0].id == offer_at(fetched, i, k).id,
        merged_sources(fetched)[r.1].id == offer_at(fetched, a, b).id,
{
    let all = offered(fetched);
    let merged = merged_sources(fetched);
    let m = each_version_is_shown_as_it_is_first_offered(fetched, i, k);
    let n = each_version_is_shown_as_it_is_first_offered(fetched, a, b);
    let places = the_first_of_each_key_is_kept(all, source_id());
    let chosen = |k: int|
        forall|m: int| 0 <= m < k ==> source_id()(#[trigger] all[m]) != source_id()(all[k]);
    lemma_offer_stands(fetched, i, k);
    lemma_offer_stands(fetched, a, b);
    lemma_offer_order(fetched, i, k, a, b);
    let p = offer_place(fetched, i, k);
    let q = offer_place(fetched, a, b);
    lemma_place_is_chosen(places, all.len() as int, chosen, m);
    lemma_place_is_chosen(places, all.len() as int, chosen, n);
    lemma_first_offer_place(fetched, i, k, places[m]);
    lemma_first_offer_place(fetched, a, b, places[n]);
    assert(places[m] < places[n]);
    if m > n {
        assert(places[n] < places[m]);
    }
    (m, n)
}

proof fn lemma_first_offer_place(fetched: Seq<FetchedItem>, i: int, k: int, p: int)
    requires
        offers(fetched, i, k),
        !is_offered_earlier(fetched, i, k),
        0 <= p < offered(fetched).len(),
        offered(fetched)[p].id == offer_at(fetched, i, k).id,
        forall|m: int|
            0 <= m < p ==> source_id()(#[trigger] offered(fetched)[m]) != source_id()(
                offered(fetched)[p],
            ),
    ensures
        p == offer_place(fetched, i, k),
{
    let all = offered(fetched);
    let q = offer_place(fetched, i, k);
    lemma_offer_stands(fetched, i, k);
    if q < p {
        assert(source_id()(all[q]) != source_id()(all[p]));
    }
    if p < q {
        let (a, b) = lemma_offer_of(fetched, p);
        lemma_offer_stands(fetched, a, b);
        if !(a < i || (a == i && b < k)) {
            if a != i || b != k {
                lemma_offer_order(fetched, i, k, a, b);
            }
        }
        assert(is_offered_earlier(fetched, i, k));
    }
}

/// The item that is shown is from a server of the highest priority; of these, from one whose name
/// comes first without regard to letter case; of these, from the one that was asked first.
pub proof fn the_item_of_the_highest_priority_is_shown(fetched: Seq<FetchedItem>, i: int)
    requires
        0 <= i < fetched.len(),
    ensures
        0 <= shown_place(fetched) < fetched.len(),
        ({
            let shown = fetched[shown_place(fetched)].server;
            let other = fetched[i].server;
            &&& shown.priority >= other.priority
            &&& shown.priority == other.priority ==> text_before(
                lowered(shown.name@),
                lowered(other.name@),
            ) || lowered(shown.name@) == lowered(other.name@)
            &&& shown.priority == other.priority && lowered(shown.name@) == lowered(other.name@)
                ==> shown_place(fetched) <= i
        }),
{
    the_preferred_item_is_shown(fetched);
    let shown = fetched[shown_place(fetched)].server;
    text_order_is_total(lowered(shown.name@), lowered(fetched[i].server.name@));
}

// ---------------------------------------------------------------------------
// What is passed on for playback
// ---------------------------------------------------------------------------

/// What is passed on for playback names the server's own user where the client names one, and the
/// version by the server's own identifier where the client names one and that is known. All else is
/// what the client said.
pub proof fn playback_is_passed_on_in_the_servers_terms(
    payload: PlaybackRequest,
    original_user_id: String,
    mapped_source_id: Option<String>,
)
    ensures
        ({
            let sent = forwarded(payload, original_user_id, mapped_source_id);
            &&& sent.rest == payload.rest
            &&& sent.user_id is Some <==> payload.user_id is Some
            &&& sent.user_id is Some ==> sent.user_id->0 == original_user_id
            &&& sent.media_source_id is Some <==> payload.media_source_id is Some
            &&& payload.media_source_id is Some && mapped_source_id is Some ==> sent.media_source_id
                == mapped_source_id
            &&& mapped_source_id is None ==> sent.media_source_id == payload.media_source_id
        }),
{
}

/// Naming the versions of a response changes their names only.
pub proof fn naming_versions_keeps_the_response(
    response: PlaybackResponseView,
    server_name: Seq<char>,
    k: int,
)
    ensures
        named(response, server_name).play_session_id == response.play_session_id,
        named(response, server_name).media_sources.len() == response.media_sources.len(),
        0 <= k < response.media_sources.len() ==> named(response, server_name).media_sources[k]
            == decorated(response.media_sources[k], server_name),
{
}

/// The versions of several responses are those of the first, then those of the second, and so on;
/// none is left out and none is added.
pub proof fn the_versions_of_all_responses_stand_one_after_the_other(
    one: Seq<PlaybackResponseView>,
    other: Seq<PlaybackResponseView>,
)
    ensures
        all_sources(Seq::<PlaybackResponseView>::empty()) == Seq::<MediaSourceView>::empty(),
        one.len() == 1 ==> all_sources(one) == one[0].media_sources,
        all_sources(one + other) == all_sources(one) + all_sources(other),
    decreases other.len(),
{
    if one.len() == 1 {
        assert(all_sources(one.drop_last()) =~= Seq::<MediaSourceView>::empty());
        assert(one.last() == one[0]);
        assert(all_sources(one) =~= one[0].media_sources);
    }
    if other.len() == 0 {
        assert(one + other =~= one);
        assert(all_sources(one) + all_sources(other) =~= all_sources(one));
    } else {
        the_versions_of_all_responses_stand_one_after_the_other(one, other.drop_last());
        assert((one + other).drop_last() =~= one + other.drop_last());
        assert((one + other).last() == other.last());
        assert(all_sources(one + other) =~= all_sources(one) + all_sources(other));
    }
}

} // verus!
