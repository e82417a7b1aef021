//! Browsing over several servers at once: which servers are asked, and how their answers are
//! put together.
use vstd::prelude::*;
use vstd::multiset::Multiset;

use crate::library_management_service::{LibraryGroupSource, LibraryGroupWithSources};
use crate::models::{
    is_type_named, parse_collection_type, AuthorizationSession, BaseItemKind, CollectionType,
    ItemsResponseVariants, ItemsResponseWithCount, MediaItem, Server, STATUS_NOT_FOUND,
    STATUS_UNAUTHORIZED,
};
use crate::query::{
    extract_parent_id_from_query, form_pairs, is_constrained, is_constrained_query, parent_id,
};
use crate::items::is_first_session;
use crate::order::{
    are_places, filtering_keeps_what_is_wanted, lemma_next_place, lemma_no_places,
    lemma_place_is_chosen, lemma_same_places,
};
use crate::sessions::{
    a_session_is_found_where_there_is_one, find_session, reaches_server, require_sessions,
    session_for, the_first_session_on_a_server_is_used,
};
use crate::text::{
    copy_text, eq_ignoring_case, lowered, path_segments, same_ignoring_case, segments_of,
    text_option, to_lower,
};
use vstd::utf8::encode_utf8;

verus! {

// ---------------------------------------------------------------------------
// Requests for the user's views
// ---------------------------------------------------------------------------

/// Whether a path asks for the views of a user: its last segment is `UserViews`, or it ends in
/// `Users`, anything, `Views`. Case does not count.
pub open spec fn asks_for_user_views(path: Seq<char>) -> bool {
    let segments = path_segments(path);
    ||| segments.len() >= 1 && same_ignoring_case(segments.last(), "userviews"@)
    ||| {
        &&& segments.len() >= 3
        &&& same_ignoring_case(segments[segments.len() - 3], "users"@)
        &&& same_ignoring_case(segments[segments.len() - 1], "views"@)
    }
}

/// Whether a path asks for the views of a user.
pub fn is_user_views_request(path: &str) -> (r: bool)
    ensures
        r == asks_for_user_views(path@),
{
    let segments: Vec<String> = segments_of(path);
    let n: usize = segments.len();
    assert(n == path_segments(path@).len());
    if n >= 1 {
        assert(segments@[n - 1]@ == path_segments(path@)[n - 1]);
        if eq_ignoring_case(segments[n - 1].as_str(), "userviews") {
            return true;
        }
    }
    if n >= 3 {
        assert(segments@[n - 3]@ == path_segments(path@)[n - 3]);
        if eq_ignoring_case(segments[n - 3].as_str(), "users") && eq_ignoring_case(
            segments[n - 1].as_str(),
            "views",
        ) {
            return true;
        }
    }
    false
}

// ---------------------------------------------------------------------------
// Which servers are asked
// ---------------------------------------------------------------------------

/// Where a request for items is answered from.
#[derive(Debug)]
pub enum ItemsRoute {
    /// The sources of the group with this virtual identifier.
    GroupedParent(String),
    /// The one server that the folder or the series is on.
    OneServer,
    /// Every server.
    AllServers,
}

/// The parent library that a request for items names: it may be a group.
pub fn parent_to_look_up(query: Option<&str>) -> (r: Option<String>)
    ensures
        text_option(r) == match query {
            Some(text) => parent_id(form_pairs(encode_utf8(text@))),
            None => None,
        },
{
    match query {
        Some(text) => extract_parent_id_from_query(text),
        None => None,
    }
}

/// Where a request for items is answered from, given the parent library that it names where that
/// is a group: from the group; else from one server where the query names a series or a parent;
/// else from all.
pub fn get_items_from_all_servers_if_not_restricted(
    query: Option<&str>,
    grouped_parent: Option<String>,
) -> (r: ItemsRoute)
    ensures
        match grouped_parent {
            Some(id) => r == ItemsRoute::GroupedParent(id),
            None => r == if query is Some && is_constrained(query->0@) {
                ItemsRoute::OneServer
            } else {
                ItemsRoute::AllServers
            },
        },
{
    if let Some(id) = grouped_parent {
        return ItemsRoute::GroupedParent(id);
    }
    if let Some(text) = query {
        if is_constrained_query(text) {
            return ItemsRoute::OneServer;
        }
    }
    ItemsRoute::AllServers
}

/// A server that is asked for items, with the session and the parent library to ask with.
/// `index` is its place among the answers.
#[derive(Debug)]
pub struct FederatedTarget {
    pub index: usize,
    pub session: AuthorizationSession,
    pub server: Server,
    pub parent_override: Option<String>,
}

/// One target for each session, in the order of the sessions.
pub fn targets_of_sessions(sessions: Vec<(AuthorizationSession, Server)>) -> (r: Vec<
    FederatedTarget,
>)
    ensures
        are_session_targets(r@, sessions@),
{
    let mut out: Vec<FederatedTarget> = Vec::new();
    let mut index: usize = 0;
    while index < sessions.len()
        invariant
            index <= sessions@.len(),
            out@.len() == index,
            forall|i: int|
                0 <= i < index ==> #[trigger] out@[i] == (FederatedTarget {
                    index: i as usize,
                    session: sessions@[i].0,
                    server: sessions@[i].1,
                    parent_override: None,
                }),
        decreases sessions@.len() - index,
    {
        let target: FederatedTarget = FederatedTarget {
            index,
            session: sessions[index].0.clone(),
            server: sessions[index].1.clone(),
            parent_override: None,
        };
        out.push(target);
        index += 1;
    }
    out
}

/// One target for each source of a group whose server there is a session on, in the order of the
/// sources. It is numbered by the source and asks for the source library.
pub open spec fn source_targets(
    sources: Seq<LibraryGroupSource>,
    sessions: Seq<(AuthorizationSession, Server)>,
) -> Seq<FederatedTarget>
    decreases sources.len(),
{
    if sources.len() == 0 {
        Seq::empty()
    } else {
        let rest = source_targets(sources.drop_last(), sessions);
        let source = sources.last();
        match session_for(sessions, source.server_id) {
            Some((session, server)) => rest.push(
                FederatedTarget {
                    index: (sources.len() - 1) as usize,
                    session,
                    server,
                    parent_override: Some(source.source_library_id),
                },
            ),
            None => rest,
        }
    }
}

/// The servers that are asked for the items of a group.
pub fn targets_of_sources(
    sources: &Vec<LibraryGroupSource>,
    sessions: &Vec<(AuthorizationSession, Server)>,
) -> (r: Vec<FederatedTarget>)
    ensures
        r@ == source_targets(sources@, sessions@),
{
    let mut out: Vec<FederatedTarget> = Vec::new();
    let mut index: usize = 0;
    assert(source_targets(sources@.take(0), sessions@) =~= Seq::<FederatedTarget>::empty());
    while index < sources.len()
        invariant
            index <= sources@.len(),
            out@ == source_targets(sources@.take(index as int), sessions@),
        decreases sources@.len() - index,
    {
        assert(sources@.take(index + 1).drop_last() == sources@.take(index as int));
        let source: &LibraryGroupSource = &sources[index];
        if let Some((session, server)) = find_session(sessions, source.server_id) {
            let target: FederatedTarget = FederatedTarget {
                index,
                session,
                server,
                parent_override: Some(source.source_library_id.clone()),
            };
            out.push(target);
        }
        index += 1;
    }
    assert(sources@.take(index as int) == sources@);
    out
}

/// Each target of a group asks the server of a source for the library of that source, and no two
/// targets have the same number.
pub proof fn targets_ask_each_source_on_its_server(
    sources: Seq<LibraryGroupSource>,
    sessions: Seq<(AuthorizationSession, Server)>,
)
    requires
        sources.len() <= usize::MAX,
    ensures
        forall|i: int|
            #![trigger source_targets(sources, sessions)[i]]
            0 <= i < source_targets(sources, sessions).len() ==> {
                let target = source_targets(sources, sessions)[i];
                &&& target.index < sources.len()
                &&& target.server.id == sources[target.index as int].server_id
                &&& target.parent_override == Some(sources[target.index as int].source_library_id)
            },
        forall|i: int, j: int|
            0 <= i < j < source_targets(sources, sessions).len() ==> (
            #[trigger] source_targets(sources, sessions)[i]).index < (
            #[trigger] source_targets(sources, sessions)[j]).index,
    decreases sources.len(),
{
    if sources.len() > 0 {
        let before = sources.drop_last();
        let source = sources.last();
        let rest = source_targets(before, sessions);
        let out = source_targets(sources, sessions);
        targets_ask_each_source_on_its_server(before, sessions);
        a_session_is_found_where_there_is_one(sessions, source.server_id);
        assert forall|i: int| #![trigger out[i]] 0 <= i < out.len() implies {
            let target = out[i];
            &&& target.index < sources.len()
            &&& target.server.id == sources[target.index as int].server_id
            &&& target.parent_override == Some(sources[target.index as int].source_library_id)
        } by {
            if i < rest.len() {
                assert(out[i] == rest[i]);
                assert(before[rest[i].index as int] == sources[rest[i].index as int]);
            }
        }
        assert forall|i: int, j: int| 0 <= i < j < out.len() implies (#[trigger] out[i]).index < (
        #[trigger] out[j]).index by {
            assert(out[i] == rest[i]);
            if j < rest.len() {
                assert(out[j] == rest[j]);
            }
        }
    }
}

/// What a request to all servers comes to.
#[derive(Debug)]
pub enum AllServersPlan {
    /// The views of the user with these sessions are shown.
    UserViews(Vec<(AuthorizationSession, Server)>),
    /// These servers are asked.
    Fetch(Vec<FederatedTarget>),
}

/// Whether the targets are one for each session, in the order of the sessions.
pub open spec fn are_session_targets(
    targets: Seq<FederatedTarget>,
    sessions: Seq<(AuthorizationSession, Server)>,
) -> bool {
    &&& targets.len() == sessions.len()
    &&& forall|i: int|
        0 <= i < targets.len() ==> #[trigger] targets[i] == (FederatedTarget {
            index: i as usize,
            session: sessions[i].0,
            server: sessions[i].1,
            parent_override: None,
        })
}

/// Whether a request comes with no session.
pub open spec fn lacks_sessions(sessions: Option<Vec<(AuthorizationSession, Server)>>) -> bool {
    sessions is None || (sessions->0)@.len() == 0
}

/// What a request to all servers comes to. Without a session it is not authorized.
pub fn get_items_from_all_servers(
    path: &str,
    sessions: Option<Vec<(AuthorizationSession, Server)>>,
) -> (r: Result<AllServersPlan, u16>)
    ensures
        match r {
            Ok(AllServersPlan::UserViews(used)) => {
                &&& !lacks_sessions(sessions)
                &&& asks_for_user_views(path@)
                &&& used == sessions->0
            },
            Ok(AllServersPlan::Fetch(targets)) => {
                &&& !lacks_sessions(sessions)
                &&& !asks_for_user_views(path@)
                &&& are_session_targets(targets@, (sessions->0)@)
            },
            Err(status) => lacks_sessions(sessions) && status == STATUS_UNAUTHORIZED,
        },
{
    match require_sessions(sessions) {
        Ok(used) => {
            if is_user_views_request(path) {
                Ok(AllServersPlan::UserViews(used))
            } else {
                Ok(AllServersPlan::Fetch(targets_of_sessions(used)))
            }
        },
        Err(status) => Err(status),
    }
}

/// The group that a request is about. A group that is not there is not found.
pub fn require_group(group: Option<LibraryGroupWithSources>) -> (r: Result<
    LibraryGroupWithSources,
    u16,
>)
    ensures
        r == match group {
            Some(found) => Ok::<LibraryGroupWithSources, u16>(found),
            None => Err::<LibraryGroupWithSources, u16>(STATUS_NOT_FOUND),
        },
{
    match group {
        Some(found) => Ok(found),
        None => Err(STATUS_NOT_FOUND),
    }
}

/// What a request for the items of a group comes to.
#[derive(Debug)]
pub enum GroupedParentPlan {
    /// No server can be asked: this is the answer.
    Respond(ItemsResponseVariants),
    /// These servers are asked.
    Fetch(Vec<FederatedTarget>),
}

/// What a request for the items of a group comes to. Without a session it is not authorized.
pub fn get_items_from_grouped_parent(
    group: &LibraryGroupWithSources,
    sessions: Option<Vec<(AuthorizationSession, Server)>>,
) -> (r: Result<GroupedParentPlan, u16>)
    ensures
        match r {
            Ok(GroupedParentPlan::Fetch(targets)) => {
                &&& !lacks_sessions(sessions)
                &&& targets@ == source_targets(group.sources@, (sessions->0)@)
                &&& targets@.len() > 0
            },
            Ok(GroupedParentPlan::Respond(response)) => {
                &&& !lacks_sessions(sessions)
                &&& source_targets(group.sources@, (sessions->0)@).len() == 0
                &&& is_empty_response(response)
            },
            Err(status) => lacks_sessions(sessions) && status == STATUS_UNAUTHORIZED,
        },
{
    match require_sessions(sessions) {
        Ok(used) => {
            let targets: Vec<FederatedTarget> = targets_of_sources(&group.sources, &used);
            if targets.len() == 0 {
                Ok(GroupedParentPlan::Respond(no_items()))
            } else {
                Ok(GroupedParentPlan::Fetch(targets))
            }
        },
        Err(status) => Err(status),
    }
}

/// Whether a response holds no items and counts none.
pub open spec fn is_empty_response(response: ItemsResponseVariants) -> bool {
    &&& response is WithCount
    &&& response.items().len() == 0
    &&& response->WithCount_0.total_record_count == 0
    &&& response->WithCount_0.start_index == 0
}

/// The answer where no server can be asked: no items.
pub fn no_items() -> (r: ItemsResponseVariants)
    ensures
        is_empty_response(r),
{
    ItemsResponseVariants::WithCount(
        ItemsResponseWithCount { items: Vec::new(), total_record_count: 0, start_index: 0 },
    )
}

// ---------------------------------------------------------------------------
// The views of a user
// ---------------------------------------------------------------------------

/// Whether `item` is how a group with `source_count` sources shows among the views of a user.
pub open spec fn is_group_view(
    item: MediaItem,
    virtual_library_id: Seq<char>,
    name: Seq<char>,
    collection_type: Seq<char>,
    server_id: Seq<char>,
    source_count: i32,
) -> bool {
    &&& item.id@ == virtual_library_id
    &&& text_option(item.name) == Some(name)
    &&& text_option(item.sort_name) == Some(lowered(name))
    &&& text_option(item.server_id) == Some(server_id)
    &&& text_option(item.display_preferences_id) == Some(virtual_library_id)
    &&& item.item_type is CollectionFolder
    &&& item.collection_type is Some
    &&& is_type_named(item.collection_type->0, collection_type)
    &&& item.child_count == Some(source_count)
    &&& item.is_folder == Some(true)
    &&& item.can_delete == Some(false)
    &&& item.can_download == Some(false)
    &&& item.enable_media_source_display == Some(true)
    &&& item.image_tags is Some
    &&& (item.image_tags->0)@.len() == 1
    &&& (item.image_tags->0)@[0].0@ == "Primary"@
    &&& (item.image_tags->0)@[0].1@ == virtual_library_id
    &&& item.external_urls is Some && (item.external_urls->0)@.len() == 0
    &&& item.parent_backdrop_image_tags is Some && (item.parent_backdrop_image_tags->0)@.len() == 0
    &&& item.tags is Some && (item.tags->0)@.len() == 0
    &&& item.backdrop_image_tags is Some && (item.backdrop_image_tags->0)@.len() == 0
    &&& item.extra@.len() == 0
    &&& says_nothing_else(item)
}

/// Whether the item leaves out everything that a group has nothing to say about.
pub open spec fn says_nothing_else(item: MediaItem) -> bool {
    &&& item.item_id is None
    &&& item.series_id is None
    &&& item.series_name is None
    &&& item.season_id is None
    &&& item.etag is None
    &&& item.date_created is None
    &&& item.path is None
    &&& item.channel_id is None
    &&& item.provider_ids is None
    &&& item.parent_id is None
    &&& item.parent_logo_item_id is None
    &&& item.parent_backdrop_item_id is None
    &&& item.parent_logo_image_tag is None
    &&& item.parent_thumb_item_id is None
    &&& item.parent_thumb_image_tag is None
    &&& item.user_data is None
    &&& item.series_primary_image_tag is None
    &&& item.image_blur_hashes is None
    &&& item.original_title is None
    &&& item.media_sources is None
    &&& item.media_streams is None
    &&& item.chapters is None
    &&& item.trickplay is None
}

/// How a group shows among the views of a user.
pub fn build_grouped_user_view_item(
    virtual_library_id: &str,
    name: &str,
    collection_type: &str,
    server_id: &str,
    source_count: i32,
) -> (r: MediaItem)
    ensures
        is_group_view(
            r,
            virtual_library_id@,
            name@,
            collection_type@,
            server_id@,
            source_count,
        ),
{
    let mut image_tags: Vec<(String, String)> = Vec::new();
    image_tags.push((copy_text("Primary"), copy_text(virtual_library_id)));
    MediaItem {
        name: Some(copy_text(name)),
        server_id: Some(copy_text(server_id)),
        id: copy_text(virtual_library_id),
        item_id: None,
        series_id: None,
        series_name: None,
        season_id: None,
        etag: None,
        date_created: None,
        can_delete: Some(false),
        can_download: Some(false),
        sort_name: Some(to_lower(name)),
        external_urls: Some(Vec::new()),
        path: None,
        enable_media_source_display: Some(true),
        channel_id: None,
        provider_ids: None,
        is_folder: Some(true),
        parent_id: None,
        parent_logo_item_id: None,
        parent_backdrop_item_id: None,
        parent_backdrop_image_tags: Some(Vec::new()),
        parent_logo_image_tag: None,
        parent_thumb_item_id: None,
        parent_thumb_image_tag: None,
        item_type: BaseItemKind::CollectionFolder,
        collection_type: Some(parse_collection_type(collection_type)),
        user_data: None,
        child_count: Some(source_count),
        display_preferences_id: Some(copy_text(virtual_library_id)),
        tags: Some(Vec::new()),
        series_primary_image_tag: None,
        image_tags: Some(image_tags),
        backdrop_image_tags: Some(Vec::new()),
        image_blur_hashes: None,
        original_title: None,
        media_sources: None,
        media_streams: None,
        chapters: None,
        trickplay: None,
        extra: Vec::new(),
    }
}

/// The sources that are on a server that there is a session on.
pub open spec fn accessible_sources(
    sources: Seq<LibraryGroupSource>,
    sessions: Seq<(AuthorizationSession, Server)>,
) -> Seq<LibraryGroupSource> {
    sources.filter(|source: LibraryGroupSource| session_for(sessions, source.server_id) is Some)
}

/// The groups with a source that the user can reach. The others are hidden from the user.
pub open spec fn visible_groups(
    groups: Seq<LibraryGroupWithSources>,
    sessions: Seq<(AuthorizationSession, Server)>,
) -> Seq<LibraryGroupWithSources> {
    groups.filter(
        |group: LibraryGroupWithSources|
            accessible_sources(group.sources@, sessions).len() > 0,
    )
}

fn count_accessible(
    sources: &Vec<LibraryGroupSource>,
    sessions: &Vec<(AuthorizationSession, Server)>,
) -> (r: usize)
    ensures
        r == accessible_sources(sources@, sessions@).len(),
{
    let mut count: usize = 0;
    let mut i: usize = 0;
    proof {
        reveal(Seq::filter);
        assert(accessible_sources(sources@.take(0), sessions@).len() == 0);
    }
    while i < sources.len()
        invariant
            count <= i <= sources@.len(),
            count == accessible_sources(sources@.take(i as int), sessions@).len(),
        decreases sources@.len() - i,
    {
        proof {
            reveal(Seq::filter);
            assert(sources@.take(i + 1).drop_last() == sources@.take(i as int));
        }
        if reaches_server(sessions, sources[i].server_id) {
            count += 1;
        }
        i += 1;
    }
    assert(sources@.take(i as int) == sources@);
    count
}

/// The views of a user: the groups that the user can reach, in the order of the groups.
pub fn grouped_user_views(
    groups: &Vec<LibraryGroupWithSources>,
    sessions: &Vec<(AuthorizationSession, Server)>,
    server_id: &str,
) -> (r: ItemsResponseVariants)
    ensures
        r is WithCount,
        r.items().len() == visible_groups(groups@, sessions@).len(),
        r->WithCount_0.total_record_count == r.items().len() as i32,
        r->WithCount_0.start_index == 0,
        forall|i: int|
            0 <= i < r.items().len() ==> {
                let group = visible_groups(groups@, sessions@)[i];
                is_group_view(
                    #[trigger] r.items()[i],
                    group.group.virtual_library_id@,
                    group.group.name@,
                    group.group.collection_type@,
                    server_id@,
                    accessible_sources(group.sources@, sessions@).len() as i32,
                )
            },
{
    let mut items: Vec<MediaItem> = Vec::new();
    let mut i: usize = 0;
    proof {
        reveal(Seq::filter);
        assert(visible_groups(groups@.take(0), sessions@).len() == 0);
    }
    while i < groups.len()
        invariant
            i <= groups@.len(),
            items@.len() == visible_groups(groups@.take(i as int), sessions@).len(),
            forall|k: int|
                0 <= k < items@.len() ==> {
                    let group = visible_groups(groups@.take(i as int), sessions@)[k];
                    is_group_view(
                        #[trigger] items@[k],
                        group.group.virtual_library_id@,
                        group.group.name@,
                        group.group.collection_type@,
                        server_id@,
                        accessible_sources(group.sources@, sessions@).len() as i32,
                    )
                },
        decreases groups@.len() - i,
    {
        proof {
            reveal(Seq::filter);
            assert(groups@.take(i + 1).drop_last() == groups@.take(i as int));
        }
        let group: &LibraryGroupWithSources = &groups[i];
        let accessible_source_count: usize = count_accessible(&group.sources, sessions);
        if accessible_source_count > 0 {
            items.push(
                build_grouped_user_view_item(
                    group.group.virtual_library_id.as_str(),
                    group.group.name.as_str(),
                    group.group.collection_type.as_str(),
                    server_id,
                    accessible_source_count as i32,
                ),
            );
        }
        i += 1;
    }
    assert(groups@.take(i as int) == groups@);
    let total_record_count: i32 = items.len() as i32;
    ItemsResponseVariants::WithCount(
        ItemsResponseWithCount { items, total_record_count, start_index: 0 },
    )
}

// ---------------------------------------------------------------------------
// One list out of the lists of several servers
// ---------------------------------------------------------------------------

/// The items of each response.
pub open spec fn item_lists(responses: Seq<ItemsResponseVariants>) -> Seq<Seq<MediaItem>> {
    responses.map_values(|response: ItemsResponseVariants| response.items())
}

/// The item at place `i` of each list that has one, in the order of the lists.
pub open spec fn round<T>(lists: Seq<Seq<T>>, i: int) -> Seq<T> {
    lists.filter_map(
        |list: Seq<T>|
            if i < list.len() {
                Some(list[i])
            } else {
                None
            },
    )
}

/// The rounds `0..n`, one after the other.
pub open spec fn rounds<T>(lists: Seq<Seq<T>>, n: nat) -> Seq<T>
    decreases n,
{
    if n == 0 {
        Seq::empty()
    } else {
        rounds(lists, (n - 1) as nat) + round(lists, n - 1)
    }
}

/// The length of the longest list.
pub open spec fn longest<T>(lists: Seq<Seq<T>>) -> nat
    decreases lists.len(),
{
    if lists.len() == 0 {
        0
    } else {
        let rest = longest(lists.drop_last());
        if lists.last().len() > rest {
            lists.last().len()
        } else {
            rest
        }
    }
}

/// The lists taken in turns: the first item of each list, then the second of each, and so on.
pub open spec fn interleaved<T>(lists: Seq<Seq<T>>) -> Seq<T> {
    rounds(lists, longest(lists))
}

/// Whether an item is a user's Live TV view.
pub open spec fn is_live_tv_view(item: MediaItem) -> bool {
    &&& item.collection_type is Some
    &&& item.collection_type->0 is LiveTv
    &&& item.item_type is UserView
}

/// Whether there is a Live TV view among the items.
pub open spec fn has_live_tv_view(items: Seq<MediaItem>) -> bool {
    exists|i: int| 0 <= i < items.len() && is_live_tv_view(#[trigger] items[i])
}

/// The items without the Live TV views that follow the first one.
pub open spec fn with_one_live_tv_view(items: Seq<MediaItem>) -> Seq<MediaItem>
    decreases items.len(),
{
    if items.len() == 0 {
        items
    } else {
        let rest = with_one_live_tv_view(items.drop_last());
        if is_live_tv_view(items.last()) && has_live_tv_view(items.drop_last()) {
            rest
        } else {
            rest.push(items.last())
        }
    }
}

/// The items of several responses as one list.
pub open spec fn merged_items(responses: Seq<ItemsResponseVariants>) -> Seq<MediaItem> {
    with_one_live_tv_view(interleaved(item_lists(responses)))
}

/// The number of items that the servers have in all.
pub open spec fn merged_total(responses: Seq<ItemsResponseVariants>) -> int
    decreases responses.len(),
{
    if responses.len() == 0 {
        0
    } else {
        merged_total(responses.drop_last()) + responses.last().total()
    }
}

/// Whether some response states a count.
pub open spec fn has_count(responses: Seq<ItemsResponseVariants>) -> bool {
    exists|i: int| 0 <= i < responses.len() && #[trigger] responses[i] is WithCount
}

/// Whether the counts can be summed up one after the other.
pub open spec fn totals_fit(responses: Seq<ItemsResponseVariants>) -> bool {
    forall|n: int|
        0 <= n <= responses.len() ==> i32::MIN <= #[trigger] merged_total(responses.take(n))
            <= i32::MAX
}

/// Whether the counts can be summed up one after the other.
pub fn can_sum_totals(responses: &Vec<ItemsResponseVariants>) -> (r: bool)
    ensures
        r == totals_fit(responses@),
{
    let mut total: i32 = 0;
    let mut i: usize = 0;
    let ghost all = responses@;
    assert(all.take(0).len() == 0);
    while i < responses.len()
        invariant
            i <= all.len(),
            all == responses@,
            total == merged_total(all.take(i as int)),
            forall|n: int|
                0 <= n <= i ==> i32::MIN <= #[trigger] merged_total(all.take(n)) <= i32::MAX,
        decreases all.len() - i,
    {
        assert(all.take(i + 1).drop_last() == all.take(i as int));
        match total.checked_add(responses[i].total_count()) {
            Some(sum) => {
                total = sum;
            },
            None => {
                assert(!(i32::MIN <= merged_total(all.take(i + 1)) <= i32::MAX));
                return false;
            },
        }
        i += 1;
    }
    true
}

fn sum_totals(responses: &Vec<ItemsResponseVariants>) -> (r: i32)
    requires
        totals_fit(responses@),
    ensures
        r == merged_total(responses@),
{
    let mut total: i32 = 0;
    let mut i: usize = 0;
    let ghost all = responses@;
    while i < responses.len()
        invariant
            i <= all.len(),
            all == responses@,
            totals_fit(all),
            total == merged_total(all.take(i as int)),
        decreases all.len() - i,
    {
        assert(all.take(i + 1).drop_last() == all.take(i as int));
        assert(i32::MIN <= merged_total(all.take(i + 1)) <= i32::MAX);
        total = total + responses[i].total_count();
        i += 1;
    }
    assert(all.take(i as int) == all);
    total
}

fn any_count(responses: &Vec<ItemsResponseVariants>) -> (r: bool)
    ensures
        r == has_count(responses@),
{
    let mut i: usize = 0;
    while i < responses.len()
        invariant
            i <= responses@.len(),
            forall|k: int| 0 <= k < i ==> !(#[trigger] responses@[k] is WithCount),
        decreases responses@.len() - i,
    {
        if let ItemsResponseVariants::WithCount(_) = &responses[i] {
            assert(responses@[i as int] is WithCount);
            return true;
        }
        i += 1;
    }
    false
}

fn is_live_tv(item: &MediaItem) -> (r: bool)
    ensures
        r == is_live_tv_view(*item),
{
    match (&item.collection_type, &item.item_type) {
        (Some(CollectionType::LiveTv), BaseItemKind::UserView) => true,
        _ => false,
    }
}

/// What is left of a list once its first `n` items are gone.
spec fn left<T>(list: Seq<T>, n: int) -> Seq<T> {
    if n < list.len() {
        list.skip(n)
    } else {
        Seq::empty()
    }
}

fn reversed<T>(values: Vec<T>) -> (r: Vec<T>)
    ensures
        r@ == values@.reverse(),
{
    let ghost all = values@;
    let mut values: Vec<T> = values;
    let mut out: Vec<T> = Vec::new();
    while values.len() > 0
        invariant
            values@ == all.take(values@.len() as int),
            values@.len() <= all.len(),
            out@ == all.skip(values@.len() as int).reverse(),
        decreases values@.len(),
    {
        if let Some(value) = values.pop() {
            out.push(value);
        }
        assert(out@ =~= all.skip(values@.len() as int).reverse());
    }
    assert(all.skip(0) == all);
    out
}

/// One response out of the responses of several servers: their items in turns, with one Live TV
/// view at most, and their counts summed up where any server states one.
pub fn merge_server_items_interleaved(server_items: Vec<ItemsResponseVariants>) -> (r:
    ItemsResponseVariants)
    requires
        has_count(server_items@) ==> totals_fit(server_items@),
    ensures
        r.items() == merged_items(server_items@),
        r is WithCount <==> has_count(server_items@),
        match r {
            ItemsResponseVariants::WithCount(response) => response.start_index == 0
                && response.total_record_count == merged_total(server_items@),
            ItemsResponseVariants::Bare(_) => true,
        },
{
    let with_count: bool = any_count(&server_items);
    let total_record_count: i32 = if with_count {
        sum_totals(&server_items)
    } else {
        0
    };
    let items: Vec<MediaItem> = interleave(server_items);
    if with_count {
        ItemsResponseVariants::WithCount(
            ItemsResponseWithCount { items, total_record_count, start_index: 0 },
        )
    } else {
        ItemsResponseVariants::Bare(items)
    }
}

/// Whether a queue holds what is left of each list: one item less of the first `j` lists.
spec fn queues_hold<T>(
    queues: Seq<Vec<T>>,
    lists: Seq<Seq<T>>,
    i: int,
    j: int,
) -> bool {
    &&& queues.len() == lists.len()
    &&& forall|k: int|
        0 <= k < lists.len() ==> (#[trigger] queues[k])@ == left(
            lists[k],
            if k < j {
                i + 1
            } else {
                i
            },
        ).reverse()
}

fn interleave(server_items: Vec<ItemsResponseVariants>) -> (r: Vec<MediaItem>)
    ensures
        r@ == merged_items(server_items@),
{
    let ghost lists = item_lists(server_items@);
    let mut queues: Vec<Vec<MediaItem>> = Vec::new();
    let mut max_items: usize = 0;
    let ghost mut done: int = 0;
    for response in it: server_items
        invariant
            done == it.index(),
            item_lists(it.seq()) == lists,
            queues@.len() == done,
            done <= lists.len(),
            forall|k: int| 0 <= k < done ==> (#[trigger] queues@[k])@ == lists[k].reverse(),
            max_items == longest(lists.take(done)),
    {
        proof {
            assert(item_lists(it.seq())[done] == response.items());
            done = done + 1;
            assert(lists.take(done).drop_last() == lists.take(done - 1));
        }
        let list: Vec<MediaItem> = response.into_items();
        if list.len() > max_items {
            max_items = list.len();
        }
        queues.push(reversed(list));
    }
    assert(lists.take(done) == lists);
    assert(queues_hold(queues@, lists, 0, 0)) by {
        assert forall|k: int| 0 <= k < lists.len() implies (#[trigger] queues@[k])@ == left(
            lists[k],
            0,
        ).reverse() by {
            assert(left(lists[k], 0) =~= lists[k]);
        }
    }
    let mut out: Vec<MediaItem> = Vec::new();
    let mut live_tv_shown: bool = false;
    let mut i: usize = 0;
    while i < max_items
        invariant
            i <= max_items,
            queues_hold(queues@, lists, i as int, 0),
            out@ == with_one_live_tv_view(rounds(lists, i as nat)),
            live_tv_shown == has_live_tv_view(rounds(lists, i as nat)),
        decreases max_items - i,
    {
        let ghost before = rounds(lists, i as nat);
        let mut j: usize = 0;
        assert(before + round(lists.take(0), i as int) =~= before);
        while j < queues.len()
            invariant
                j <= queues@.len(),
                i < max_items,
                queues_hold(queues@, lists, i as int, j as int),
                out@ == with_one_live_tv_view(before + round(lists.take(j as int), i as int)),
                live_tv_shown == has_live_tv_view(before + round(lists.take(j as int), i as int)),
            decreases queues@.len() - j,
        {
            let ghost sofar = before + round(lists.take(j as int), i as int);
            let ghost list = lists[j as int];
            let ghost queues_before = queues@;
            proof {
                assert(lists.take(j + 1).drop_last() == lists.take(j as int));
                assert(queues@[j as int]@ == left(list, i as int).reverse());
            }
            let taken: Option<MediaItem> = queues[j].pop();
            proof {
                assert(left(list, i + 1).reverse() =~= queues@[j as int]@);
                assert forall|k: int| 0 <= k < lists.len() implies (#[trigger] queues@[k])@ == left(
                    lists[k],
                    if k < j + 1 {
                        i + 1
                    } else {
                        i as int
                    },
                ).reverse() by {
                    if k != j {
                        assert(queues@[k] == queues_before[k]);
                    }
                }
            }
            if let Some(item) = taken {
                proof {
                    assert(item == list[i as int]);
                    assert(before + round(lists.take(j + 1), i as int) =~= sofar.push(item));
                    lemma_live_tv_push(sofar, item);
                }
                if is_live_tv(&item) {
                    if !live_tv_shown {
                        live_tv_shown = true;
                        out.push(item);
                    }
                } else {
                    out.push(item);
                }
            } else {
                assert(before + round(lists.take(j + 1), i as int) =~= sofar);
            }
            j += 1;
        }
        assert(lists.take(j as int) == lists);
        i += 1;
        assert(queues_hold(queues@, lists, i as int, 0));
    }
    out
}

proof fn lemma_live_tv_push(items: Seq<MediaItem>, item: MediaItem)
    ensures
        has_live_tv_view(items.push(item)) == (has_live_tv_view(items) || is_live_tv_view(item)),
        with_one_live_tv_view(items.push(item)) == if is_live_tv_view(item) && has_live_tv_view(
            items,
        ) {
            with_one_live_tv_view(items)
        } else {
            with_one_live_tv_view(items).push(item)
        },
{
    let all = items.push(item);
    assert(all.drop_last() == items);
    if has_live_tv_view(items) {
        let i = choose|i: int| 0 <= i < items.len() && is_live_tv_view(#[trigger] items[i]);
        assert(is_live_tv_view(all[i]));
    }
    if is_live_tv_view(item) {
        assert(is_live_tv_view(all[items.len() as int]));
    }
    if has_live_tv_view(all) {
        let i = choose|i: int| 0 <= i < all.len() && is_live_tv_view(#[trigger] all[i]);
        if i < items.len() {
            assert(is_live_tv_view(items[i]));
        }
    }
}

// ---------------------------------------------------------------------------
// What merging keeps
// ---------------------------------------------------------------------------

/// The lists one after the other.
pub open spec fn chained<T>(lists: Seq<Seq<T>>) -> Seq<T>
    decreases lists.len(),
{
    if lists.len() == 0 {
        Seq::empty()
    } else {
        chained(lists.drop_last()) + lists.last()
    }
}

/// The lists, each cut off after its first `n` items.
spec fn cut<T>(lists: Seq<Seq<T>>, n: int) -> Seq<Seq<T>> {
    lists.map_values(
        |list: Seq<T>|
            if n < list.len() {
                list.take(n)
            } else {
                list
            },
    )
}

proof fn lemma_round_completes_cut<T>(lists: Seq<Seq<T>>, n: int)
    requires
        0 <= n,
    ensures
        chained(cut(lists, n + 1)).to_multiset() == chained(cut(lists, n)).to_multiset().add(
            round(lists, n).to_multiset(),
        ),
    decreases lists.len(),
{
    broadcast use vstd::seq_lib::group_to_multiset_ensures;

    if lists.len() == 0 {
        assert(chained(cut(lists, n + 1)) =~= Seq::<T>::empty());
        assert(chained(cut(lists, n)) =~= Seq::<T>::empty());
        assert(round(lists, n) =~= Seq::<T>::empty());
        assert(Seq::<T>::empty().to_multiset() =~= Multiset::<T>::empty());
        assert(Multiset::<T>::empty().add(Multiset::<T>::empty()) =~= Multiset::<T>::empty());
    } else {
        let rest = lists.drop_last();
        let list = lists.last();
        let short = cut(lists, n).last();
        let long = cut(lists, n + 1).last();
        lemma_round_completes_cut(rest, n);
        assert(cut(lists, n).drop_last() =~= cut(rest, n));
        assert(cut(lists, n + 1).drop_last() =~= cut(rest, n + 1));
        vstd::seq_lib::lemma_multiset_commutative(chained(cut(rest, n)), short);
        vstd::seq_lib::lemma_multiset_commutative(chained(cut(rest, n + 1)), long);
        if n < list.len() {
            let head = round(rest, n);
            assert(round(lists, n) == head + seq![list[n]]);
            assert(head + seq![list[n]] =~= head.push(list[n]));
            vstd::seq_lib::to_multiset_build(head, list[n]);
            assert(long =~= short.push(list[n]));
            vstd::seq_lib::to_multiset_build(short, list[n]);
            assert(chained(cut(lists, n + 1)).to_multiset() =~= chained(
                cut(lists, n),
            ).to_multiset().add(round(lists, n).to_multiset()));
        } else {
            assert(long =~= short);
            assert(round(lists, n) == round(rest, n));
            assert(chained(cut(lists, n + 1)).to_multiset() =~= chained(
                cut(lists, n),
            ).to_multiset().add(round(lists, n).to_multiset()));
        }
    }
}

proof fn lemma_rounds_hold_cut<T>(lists: Seq<Seq<T>>, n: nat)
    ensures
        rounds(lists, n).to_multiset() == chained(cut(lists, n as int)).to_multiset(),
    decreases n,
{
    if n == 0 {
        lemma_nothing_cut(lists);
    } else {
        lemma_rounds_hold_cut(lists, (n - 1) as nat);
        lemma_round_completes_cut(lists, n - 1);
        vstd::seq_lib::lemma_multiset_commutative(
            rounds(lists, (n - 1) as nat),
            round(lists, n - 1),
        );
    }
}

proof fn lemma_nothing_cut<T>(lists: Seq<Seq<T>>)
    ensures
        chained(cut(lists, 0)) == Seq::<T>::empty(),
    decreases lists.len(),
{
    if lists.len() > 0 {
        lemma_nothing_cut(lists.drop_last());
        assert(cut(lists, 0).drop_last() =~= cut(lists.drop_last(), 0));
        assert(cut(lists, 0).last() =~= Seq::<T>::empty());
    }
    assert(chained(cut(lists, 0)) =~= Seq::<T>::empty());
}

proof fn lemma_longest<T>(lists: Seq<Seq<T>>, k: int)
    requires
        0 <= k < lists.len(),
    ensures
        lists[k].len() <= longest(lists),
    decreases lists.len(),
{
    if k < lists.len() - 1 {
        lemma_longest(lists.drop_last(), k);
    }
}

/// Taking the lists in turns neither loses nor adds an item.
pub proof fn interleaving_keeps_every_item<T>(lists: Seq<Seq<T>>)
    ensures
        interleaved(lists).to_multiset() == chained(lists).to_multiset(),
{
    let n = longest(lists);
    lemma_rounds_hold_cut(lists, n);
    assert forall|k: int| 0 <= k < lists.len() implies cut(lists, n as int)[k] == lists[k] by {
        lemma_longest(lists, k);
    }
    assert(cut(lists, n as int) =~= lists);
}

/// Where the item at place `i` of list `k` comes to stand.
pub open spec fn turn_of<T>(lists: Seq<Seq<T>>, k: int, i: int) -> int {
    (rounds(lists, i as nat).len() + round(lists.take(k), i).len()) as int
}

proof fn lemma_round_at<T>(lists: Seq<Seq<T>>, k: int, i: int)
    requires
        0 <= k < lists.len(),
        0 <= i < lists[k].len(),
    ensures
        round(lists.take(k), i).len() < round(lists, i).len(),
        round(lists, i)[round(lists.take(k), i).len() as int] == lists[k][i],
        forall|j: int|
            k < j < lists.len() ==> round(lists.take(k), i).len() < round(
                #[trigger] lists.take(j),
                i,
            ).len(),
    decreases lists.len(),
{
    let rest = lists.drop_last();
    if k < rest.len() {
        lemma_round_at(rest, k, i);
        assert(rest.take(k) =~= lists.take(k));
        assert forall|j: int| k < j < lists.len() implies round(lists.take(k), i).len() < round(
            #[trigger] lists.take(j),
            i,
        ).len() by {
            if j < rest.len() {
                assert(rest.take(j) =~= lists.take(j));
            } else {
                assert(lists.take(j) =~= rest);
            }
        }
    } else {
        assert(lists.take(k) =~= rest);
    }
}

proof fn lemma_rounds_grow<T>(lists: Seq<Seq<T>>, i: nat, n: nat)
    requires
        i <= n,
    ensures
        rounds(lists, i).len() <= rounds(lists, n).len(),
        forall|p: int|
            0 <= p < rounds(lists, i).len() ==> #[trigger] rounds(lists, n)[p] == rounds(
                lists,
                i,
            )[p],
    decreases n,
{
    if i < n {
        lemma_rounds_grow(lists, i, (n - 1) as nat);
    }
}

/// Each item of each list has its turn.
pub proof fn every_item_has_its_turn<T>(lists: Seq<Seq<T>>, k: int, i: int)
    requires
        0 <= k < lists.len(),
        0 <= i < lists[k].len(),
    ensures
        0 <= turn_of(lists, k, i) < interleaved(lists).len(),
        interleaved(lists)[turn_of(lists, k, i)] == lists[k][i],
{
    lemma_longest(lists, k);
    lemma_round_at(lists, k, i);
    lemma_rounds_grow(lists, (i + 1) as nat, longest(lists));
}

/// Items stand by their place in their list, then by the order of the lists. So what one server
/// lists first stays first, and no server's second item comes before another server's first.
pub proof fn turns_go_by_place_and_list<T>(lists: Seq<Seq<T>>, k: int, i: int, l: int, j: int)
    requires
        0 <= k < lists.len(),
        0 <= i < lists[k].len(),
        0 <= l < lists.len(),
        0 <= j < lists[l].len(),
        i < j || (i == j && k < l),
    ensures
        turn_of(lists, k, i) < turn_of(lists, l, j),
{
    lemma_round_at(lists, k, i);
    if i < j {
        lemma_rounds_grow(lists, (i + 1) as nat, j as nat);
    } else {
        assert(round(lists.take(k), i).len() < round(lists.take(l), i).len());
    }
}

/// A merged list shows Live TV once where any server has a Live TV view, and loses nothing else.
pub proof fn live_tv_is_shown_once(items: Seq<MediaItem>)
    ensures
        with_one_live_tv_view(items).filter(|item: MediaItem| !is_live_tv_view(item))
            == items.filter(|item: MediaItem| !is_live_tv_view(item)),
        with_one_live_tv_view(items).filter(|item: MediaItem| is_live_tv_view(item)).len() == if (
        has_live_tv_view(items)) {
            1nat
        } else {
            0nat
        },
        has_live_tv_view(with_one_live_tv_view(items)) == has_live_tv_view(items),
    decreases items.len(),
{
    reveal(Seq::filter);
    let live = |item: MediaItem| is_live_tv_view(item);
    let other = |item: MediaItem| !is_live_tv_view(item);
    if items.len() > 0 {
        let rest = items.drop_last();
        let item = items.last();
        let out = with_one_live_tv_view(rest);
        live_tv_is_shown_once(rest);
        lemma_live_tv_push(rest, item);
        lemma_live_tv_push(out, item);
        assert(rest.push(item) =~= items);
        assert(out.push(item).drop_last() =~= out);
    }
}

/// Without Live TV views a merged list holds every item of every server, and nothing else.
pub proof fn merging_keeps_every_item(responses: Seq<ItemsResponseVariants>)
    requires
        !has_live_tv_view(interleaved(item_lists(responses))),
    ensures
        merged_items(responses).to_multiset() == chained(item_lists(responses)).to_multiset(),
{
    let items = interleaved(item_lists(responses));
    lemma_no_live_tv_keeps_all(items);
    interleaving_keeps_every_item(item_lists(responses));
}

proof fn lemma_no_live_tv_keeps_all(items: Seq<MediaItem>)
    requires
        !has_live_tv_view(items),
    ensures
        with_one_live_tv_view(items) == items,
    decreases items.len(),
{
    if items.len() > 0 {
        lemma_live_tv_push(items.drop_last(), items.last());
        assert(items.drop_last().push(items.last()) =~= items);
        lemma_no_live_tv_keeps_all(items.drop_last());
    }
}

// ---------------------------------------------------------------------------
// Who is asked, and what is shown
// ---------------------------------------------------------------------------

/// A path asks for the views of a user where its last segment is `userviews`, or where it ends in
/// `users`, one more segment and `views`, all in any letter case.
pub proof fn user_views_are_asked_for_at_the_end_of_a_path(path: Seq<char>)
    ensures
        asks_for_user_views(path) <==> {
            let segments = path_segments(path);
            let n = segments.len();
            ||| n >= 1 && lowered(segments[n - 1]) == "userviews"@
            ||| n >= 3 && lowered(segments[n - 3]) == "users"@ && lowered(segments[n - 1])
                == "views"@
        },
{
    reveal_strlit("userviews");
    reveal_strlit("users");
    reveal_strlit("views");
    assert(lowered("userviews"@) =~= "userviews"@);
    assert(lowered("users"@) =~= "users"@);
    assert(lowered("views"@) =~= "views"@);
}

/// Where all servers are asked, each session has its own target: the one with its number, on its
/// server, with no parent library in place of that of the request.
pub proof fn every_session_is_asked(
    targets: Seq<FederatedTarget>,
    sessions: Seq<(AuthorizationSession, Server)>,
    i: int,
)
    requires
        are_session_targets(targets, sessions),
        0 <= i < sessions.len() <= usize::MAX,
    ensures
        targets.len() == sessions.len(),
        targets[i].index == i,
        targets[i].session == sessions[i].0,
        targets[i].server == sessions[i].1,
        targets[i].parent_override is None,
{
}

/// For each source of a group whose server one of the sessions is on there is a target: it has the
/// number of the source, the first session on the server, and asks for the library of the source.
/// There is no other target, and the targets are in the order of the sources.
pub proof fn every_reachable_source_is_asked(
    sources: Seq<LibraryGroupSource>,
    sessions: Seq<(AuthorizationSession, Server)>,
) -> (places: Seq<int>)
    requires
        sources.len() <= usize::MAX,
    ensures
        are_places(
            places,
            sources.len() as int,
            |k: int|
                exists|j: int|
                    0 <= j < sessions.len() && (#[trigger] sessions[j]).1.id
                        == sources[k].server_id,
        ),
        source_targets(sources, sessions).len() == places.len(),
        forall|i: int|
            0 <= i < places.len() ==> {
                let target = source_targets(sources, sessions)[i];
                let source = sources[#[trigger] places[i]];
                &&& 0 <= places[i] < sources.len()
                &&& target.index == places[i]
                &&& target.parent_override == Some(source.source_library_id)
                &&& exists|j: int| #[trigger]
                    is_first_session(sessions, j, source.server_id) && target.session
                        == sessions[j].0 && target.server == sessions[j].1
            },
    decreases sources.len(),
{
    let chosen = |k: int|
        exists|j: int|
            0 <= j < sessions.len() && (#[trigger] sessions[j]).1.id == sources[k].server_id;
    let targets = source_targets(sources, sessions);
    if sources.len() == 0 {
        lemma_no_places(chosen);
        let none = Seq::<int>::empty();
        assert(none.len() == 0);
        none
    } else {
        let rest = sources.drop_last();
        let n = rest.len() as int;
        let last = sources.last();
        let before = |k: int|
            exists|j: int|
                0 <= j < sessions.len() && (#[trigger] sessions[j]).1.id == rest[k].server_id;
        let places = every_reachable_source_is_asked(rest, sessions);
        assert forall|k: int| 0 <= k < n implies #[trigger] before(k) == chosen(k) by {
            assert(rest[k] == sources[k]);
        }
        let next = lemma_next_place(places, n, before, chosen);
        let j = the_first_session_on_a_server_is_used(sessions, last.server_id);
        a_session_is_found_where_there_is_one(sessions, last.server_id);
        assert(sources[n] == last);
        assert(chosen(n) == session_for(sessions, last.server_id) is Some);
        if chosen(n) {
            assert(is_first_session(sessions, j, last.server_id));
        }
        let short = source_targets(rest, sessions);
        assert forall|i: int| 0 <= i < next.len() implies {
            let target = targets[i];
            let source = sources[#[trigger] next[i]];
            &&& 0 <= next[i] < sources.len()
            &&& target.index == next[i]
            &&& target.parent_override == Some(source.source_library_id)
            &&& exists|j: int| #[trigger]
                is_first_session(sessions, j, source.server_id) && target.session
                    == sessions[j].0 && target.server == sessions[j].1
        } by {
            lemma_place_is_chosen(next, sources.len() as int, chosen, i);
            if i < places.len() {
                assert(rest[places[i]] == sources[next[i]]);
                assert(targets[i] == short[i]);
            }
        }
        next
    }
}

/// A group has as many accessible sources as it has sources on servers that one of the sessions is
/// on.
pub proof fn sources_on_servers_with_a_session_are_accessible(
    sources: Seq<LibraryGroupSource>,
    sessions: Seq<(AuthorizationSession, Server)>,
) -> (places: Seq<int>)
    ensures
        are_places(
            places,
            sources.len() as int,
            |k: int|
                exists|j: int|
                    0 <= j < sessions.len() && (#[trigger] sessions[j]).1.id
                        == sources[k].server_id,
        ),
        accessible_sources(sources, sessions).len() == places.len(),
{
    let reachable = |source: LibraryGroupSource| session_for(sessions, source.server_id) is Some;
    let before = |k: int| reachable(sources[k]);
    let chosen = |k: int|
        exists|j: int|
            0 <= j < sessions.len() && (#[trigger] sessions[j]).1.id == sources[k].server_id;
    let places = filtering_keeps_what_is_wanted(sources, reachable);
    assert forall|k: int| 0 <= k < sources.len() implies #[trigger] before(k) == chosen(k) by {
        a_session_is_found_where_there_is_one(sessions, sources[k].server_id);
    }
    lemma_same_places(places, sources.len() as int, before, chosen);
    places
}

/// The user sees the groups that have a source on a server that one of the sessions is on: all of
/// them, in the order of the groups, and no other.
pub proof fn groups_with_a_reachable_source_are_seen(
    groups: Seq<LibraryGroupWithSources>,
    sessions: Seq<(AuthorizationSession, Server)>,
) -> (places: Seq<int>)
    ensures
        are_places(
            places,
            groups.len() as int,
            |g: int|
                exists|k: int, j: int|
                    #![trigger groups[g].sources@[k], sessions[j]]
                    0 <= k < groups[g].sources@.len() && 0 <= j < sessions.len()
                        && groups[g].sources@[k].server_id == sessions[j].1.id,
        ),
        visible_groups(groups, sessions).len() == places.len(),
        forall|i: int|
            0 <= i < places.len() ==> 0 <= #[trigger] places[i] < groups.len() && visible_groups(
                groups,
                sessions,
            )[i] == groups[places[i]],
{
    let seen = |group: LibraryGroupWithSources|
        accessible_sources(group.sources@, sessions).len() > 0;
    let before = |g: int| seen(groups[g]);
    let chosen = |g: int|
        exists|k: int, j: int|
            #![trigger groups[g].sources@[k], sessions[j]]
            0 <= k < groups[g].sources@.len() && 0 <= j < sessions.len()
                && groups[g].sources@[k].server_id == sessions[j].1.id;
    let places = filtering_keeps_what_is_wanted(groups, seen);
    assert forall|g: int| 0 <= g < groups.len() implies #[trigger] before(g) == chosen(g) by {
        let sources = groups[g].sources@;
        let reachable = |k: int|
            exists|j: int|
                0 <= j < sessions.len() && (#[trigger] sessions[j]).1.id == sources[k].server_id;
        let found = sources_on_servers_with_a_session_are_accessible(sources, sessions);
        if found.len() > 0 {
            lemma_place_is_chosen(found, sources.len() as int, reachable, 0);
            let k = found[0];
            let j = choose|j: int|
                0 <= j < sessions.len() && (#[trigger] sessions[j]).1.id == sources[k].server_id;
            assert(groups[g].sources@[k].server_id == sessions[j].1.id);
        }
        if chosen(g) {
            let (k, j) = choose|k: int, j: int|
                #![trigger groups[g].sources@[k], sessions[j]]
                0 <= k < groups[g].sources@.len() && 0 <= j < sessions.len()
                    && groups[g].sources@[k].server_id == sessions[j].1.id;
            assert(sessions[j].1.id == sources[k].server_id);
            assert(reachable(k));
            assert(found.contains(k));
        }
    }
    lemma_same_places(places, groups.len() as int, before, chosen);
    places
}

/// What a group shows among the views of a user: its identifier, name and type, as a folder with
/// as many children as it has sources, and nothing that it has nothing to say about.
pub proof fn a_group_shows_as_a_folder(
    item: MediaItem,
    virtual_library_id: Seq<char>,
    name: Seq<char>,
    collection_type: Seq<char>,
    server_id: Seq<char>,
    source_count: i32,
)
    requires
        is_group_view(item, virtual_library_id, name, collection_type, server_id, source_count),
    ensures
        item.id@ == virtual_library_id,
        item.name is Some && (item.name->0)@ == name,
        item.sort_name is Some && (item.sort_name->0)@ == lowered(name),
        item.server_id is Some && (item.server_id->0)@ == server_id,
        item.display_preferences_id is Some && (item.display_preferences_id->0)@
            == virtual_library_id,
        item.item_type is CollectionFolder,
        item.collection_type is Some && (item.collection_type->0).text() == collection_type,
        item.child_count == Some(source_count),
        item.is_folder == Some(true),
        item.can_delete == Some(false),
        item.can_download == Some(false),
        item.enable_media_source_display == Some(true),
        item.image_tags is Some && (item.image_tags->0)@.len() == 1,
        (item.image_tags->0)@[0].0@ == seq!['P', 'r', 'i', 'm', 'a', 'r', 'y'],
        (item.image_tags->0)@[0].1@ == virtual_library_id,
        item.external_urls is Some && (item.external_urls->0)@.len() == 0,
        item.parent_backdrop_image_tags is Some && (item.parent_backdrop_image_tags->0)@.len()
            == 0,
        item.tags is Some && (item.tags->0)@.len() == 0,
        item.backdrop_image_tags is Some && (item.backdrop_image_tags->0)@.len() == 0,
        item.extra@.len() == 0,
        item.item_id is None && item.series_id is None && item.series_name is None
            && item.season_id is None && item.etag is None && item.date_created is None
            && item.path is None && item.channel_id is None && item.provider_ids is None
            && item.parent_id is None && item.parent_logo_item_id is None
            && item.parent_backdrop_item_id is None && item.parent_logo_image_tag is None
            && item.parent_thumb_item_id is None && item.parent_thumb_image_tag is None
            && item.user_data is None && item.series_primary_image_tag is None
            && item.image_blur_hashes is None && item.original_title is None
            && item.media_sources is None && item.media_streams is None && item.chapters is None
            && item.trickplay is None,
{
    reveal_strlit("Primary");
    assert("Primary"@ =~= seq!['P', 'r', 'i', 'm', 'a', 'r', 'y']);
}

/// A request comes without a session where it comes with no list of them, or with an empty one; and
/// an answer without items says that there are none.
pub proof fn nothing_is_nothing(
    sessions: Option<Vec<(AuthorizationSession, Server)>>,
    response: ItemsResponseVariants,
)
    ensures
        lacks_sessions(sessions) <==> match sessions {
            Some(used) => used@.len() == 0,
            None => true,
        },
        is_empty_response(response) <==> match response {
            ItemsResponseVariants::WithCount(counted) => counted.items@.len() == 0
                && counted.total_record_count == 0 && counted.start_index == 0,
            ItemsResponseVariants::Bare(_) => false,
        },
{
}

// ---------------------------------------------------------------------------
// What is merged
// ---------------------------------------------------------------------------

/// The lists that are merged are those of the responses, and the lists one after the other are the
/// first, then the second, and so on.
pub proof fn lists_stand_one_after_the_other<T>(one: Seq<Seq<T>>, other: Seq<Seq<T>>)
    ensures
        chained(Seq::<Seq<T>>::empty()) == Seq::<T>::empty(),
        one.len() == 1 ==> chained(one) == one[0],
        chained(one + other) == chained(one) + chained(other),
    decreases other.len(),
{
    if one.len() == 1 {
        assert(chained(one.drop_last()) =~= Seq::<T>::empty());
        assert(one.last() == one[0]);
        assert(chained(one) =~= one[0]);
    }
    if other.len() == 0 {
        assert(one + other =~= one);
        assert(chained(one) + chained(other) =~= chained(one));
    } else {
        lists_stand_one_after_the_other(one, other.drop_last());
        assert((one + other).drop_last() =~= one + other.drop_last());
        assert((one + other).last() == other.last());
        assert(chained(one + other) =~= chained(one) + chained(other));
    }
}

/// The items of a response are those that it lists, in either form; it counts what it states, or
/// what it lists where it states nothing.
pub proof fn a_response_counts_what_it_states(responses: Seq<ItemsResponseVariants>, i: int)
    requires
        0 <= i < responses.len(),
    ensures
        item_lists(responses).len() == responses.len(),
        match responses[i] {
            ItemsResponseVariants::WithCount(counted) => {
                &&& item_lists(responses)[i] == counted.items@
                &&& responses[i].total() == counted.total_record_count
            },
            ItemsResponseVariants::Bare(items) => {
                &&& item_lists(responses)[i] == items@
                &&& items@.len() <= i32::MAX ==> responses[i].total() == items@.len()
            },
        },
{
}

/// The number of items in all is the sum of what the responses count.
pub proof fn counts_are_summed_up(
    one: Seq<ItemsResponseVariants>,
    other: Seq<ItemsResponseVariants>,
)
    ensures
        merged_total(Seq::<ItemsResponseVariants>::empty()) == 0,
        one.len() == 1 ==> merged_total(one) == one[0].total(),
        merged_total(one + other) == merged_total(one) + merged_total(other),
    decreases other.len(),
{
    if one.len() == 1 {
        assert(merged_total(one.drop_last()) == 0);
        assert(one.last() == one[0]);
    }
    if other.len() == 0 {
        assert(one + other =~= one);
    } else {
        counts_are_summed_up(one, other.drop_last());
        assert((one + other).drop_last() =~= one + other.drop_last());
        assert((one + other).last() == other.last());
    }
}

/// Whether an item is a user's view of Live TV: both its collection type and its sort say so.
pub open spec fn shows_live_tv(item: MediaItem) -> bool {
    match (item.collection_type, item.item_type) {
        (Some(CollectionType::LiveTv), BaseItemKind::UserView) => true,
        _ => false,
    }
}

/// Of a list every item is kept but the Live TV views that follow the first one, and what is kept
/// stays in order.
pub proof fn the_first_live_tv_view_is_kept(items: Seq<MediaItem>) -> (places: Seq<int>)
    ensures
        are_places(
            places,
            items.len() as int,
            |k: int|
                shows_live_tv(items[k]) ==> forall|m: int|
                    0 <= m < k ==> !shows_live_tv(#[trigger] items[m]),
        ),
        with_one_live_tv_view(items).len() == places.len(),
        forall|i: int|
            0 <= i < places.len() ==> 0 <= #[trigger] places[i] < items.len()
                && with_one_live_tv_view(items)[i] == items[places[i]],
    decreases items.len(),
{
    let chosen = |k: int|
        shows_live_tv(items[k]) ==> forall|m: int|
            0 <= m < k ==> !shows_live_tv(#[trigger] items[m]);
    if items.len() == 0 {
        lemma_no_places(chosen);
        let none = Seq::<int>::empty();
        assert(none.len() == 0);
        none
    } else {
        let rest = items.drop_last();
        let n = rest.len() as int;
        let before = |k: int|
            shows_live_tv(rest[k]) ==> forall|m: int|
                0 <= m < k ==> !shows_live_tv(#[trigger] rest[m]);
        let places = the_first_live_tv_view_is_kept(rest);
        assert forall|k: int| 0 <= k < n implies #[trigger] before(k) == chosen(k) by {
            assert(rest[k] == items[k]);
            if before(k) && shows_live_tv(items[k]) {
                assert forall|m: int| 0 <= m < k implies !shows_live_tv(#[trigger] items[m]) by {
                    assert(rest[m] == items[m]);
                }
            }
            if chosen(k) && shows_live_tv(rest[k]) {
                assert forall|m: int| 0 <= m < k implies !shows_live_tv(#[trigger] rest[m]) by {
                    assert(rest[m] == items[m]);
                }
            }
        }
        let next = lemma_next_place(places, n, before, chosen);
        assert(items[n] == items.last());
        assert(chosen(n) == !(is_live_tv_view(items.last()) && has_live_tv_view(rest))) by {
            if has_live_tv_view(rest) {
                let m = choose|m: int| 0 <= m < rest.len() && is_live_tv_view(#[trigger] rest[m]);
                assert(shows_live_tv(items[m]));
            }
            if !chosen(n) {
                let m = choose|m: int| 0 <= m < n && shows_live_tv(#[trigger] items[m]);
                assert(is_live_tv_view(rest[m]));
            }
        }
        let out = with_one_live_tv_view(items);
        let short = with_one_live_tv_view(rest);
        assert forall|i: int| 0 <= i < next.len() implies 0 <= #[trigger] next[i] < items.len()
            && out[i] == items[next[i]] by {
            lemma_place_is_chosen(next, items.len() as int, chosen, i);
            if i < places.len() {
                assert(out[i] == short[i]);
                assert(rest[places[i]] == items[next[i]]);
            }
        }
        next
    }
}

/// What is shown of several responses are their items in turns, with the Live TV views behind the
/// first left out; a count is stated where any response states one.
pub proof fn responses_are_merged_in_turns(responses: Seq<ItemsResponseVariants>) -> (places: Seq<
    int,
>)
    ensures
        ({
            let turns = interleaved(item_lists(responses));
            &&& are_places(
                places,
                turns.len() as int,
                |k: int|
                    shows_live_tv(turns[k]) ==> forall|m: int|
                        0 <= m < k ==> !shows_live_tv(#[trigger] turns[m]),
            )
            &&& merged_items(responses).len() == places.len()
            &&& forall|i: int|
                0 <= i < places.len() ==> 0 <= #[trigger] places[i] < turns.len() && merged_items(
                    responses,
                )[i] == turns[places[i]]
        }),
        has_count(responses) <==> exists|i: int|
            0 <= i < responses.len() && !(#[trigger] responses[i] is Bare),
{
    if has_count(responses) {
        let i = choose|i: int| 0 <= i < responses.len() && #[trigger] responses[i] is WithCount;
        assert(!(responses[i] is Bare));
    }
    if exists|i: int| 0 <= i < responses.len() && !(#[trigger] responses[i] is Bare) {
        let i = choose|i: int| 0 <= i < responses.len() && !(#[trigger] responses[i] is Bare);
        assert(responses[i] is WithCount);
    }
    the_first_live_tv_view_is_kept(interleaved(item_lists(responses)))
}

/// The counts can be summed up where each sum on the way fits.
pub proof fn counts_can_be_summed_up_where_each_sum_fits(responses: Seq<ItemsResponseVariants>)
    ensures
        responses.len() == 0 ==> totals_fit(responses),
        responses.len() > 0 ==> (totals_fit(responses) <==> totals_fit(responses.drop_last())
            && i32::MIN <= merged_total(responses) <= i32::MAX),
{
    if responses.len() == 0 {
        assert forall|n: int| 0 <= n <= responses.len() implies i32::MIN
            <= #[trigger] merged_total(responses.take(n)) <= i32::MAX by {
            assert(responses.take(n).len() == 0);
        }
    } else {
        let rest = responses.drop_last();
        let n = responses.len() as int;
        assert(responses.take(n) =~= responses);
        assert forall|m: int| 0 <= m < n implies #[trigger] responses.take(m) == rest.take(m) by {
            assert(responses.take(m) =~= rest.take(m));
        }
        if totals_fit(responses) {
            assert(i32::MIN <= merged_total(responses.take(n)) <= i32::MAX);
            assert forall|m: int| 0 <= m <= rest.len() implies i32::MIN <= #[trigger] merged_total(
                rest.take(m),
            ) <= i32::MAX by {
                assert(responses.take(m) == rest.take(m));
                assert(i32::MIN <= merged_total(responses.take(m)) <= i32::MAX);
            }
        }
        if totals_fit(rest) && i32::MIN <= merged_total(responses) <= i32::MAX {
            assert forall|m: int| 0 <= m <= n implies i32::MIN <= #[trigger] merged_total(
                responses.take(m),
            ) <= i32::MAX by {
                if m < n {
                    assert(responses.take(m) == rest.take(m));
                    assert(i32::MIN <= merged_total(rest.take(m)) <= i32::MAX);
                }
            }
        }
    }
}

} // verus!
