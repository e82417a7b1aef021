//! Media that several servers have: groups of media identifiers that stand for one another, the
//! caches that they and the mappings are held in.
use vstd::prelude::*;

use crate::ids::{normalize_id, normalized_id};
use crate::models::Server;
use crate::order::{
    are_places, first_per_key, first_per_key_keeps_each_key_once, has_key, lemma_same_places,
    the_first_of_each_key_is_kept,
};
use crate::text::{copy_text, text_option};

verus! {

/// One server's identifier for a medium.
#[derive(Debug, PartialEq, Eq)]
pub struct MediaDedupeMember {
    pub server_id: i64,
    pub virtual_media_id: String,
}

impl Clone for MediaDedupeMember {
    fn clone(&self) -> (r: Self)
        ensures
            r == *self,
    {
        MediaDedupeMember {
            server_id: self.server_id,
            virtual_media_id: self.virtual_media_id.clone(),
        }
    }
}

/// The identifiers that stand for one medium, and the one that the clients see.
#[derive(Debug, PartialEq, Eq)]
pub struct MediaDedupeGroup {
    pub canonical_virtual_media_id: String,
    pub members: Vec<MediaDedupeMember>,
}

/// A group of media identifiers as values: pairs of a server and an identifier.
#[verifier::ext_equal]
pub struct DedupeGroupView {
    pub canonical: Seq<char>,
    pub members: Seq<(i64, Seq<char>)>,
}

/// Members as values.
pub open spec fn member_views(members: Seq<MediaDedupeMember>) -> Seq<(i64, Seq<char>)> {
    members.map_values(|member: MediaDedupeMember| (member.server_id, member.virtual_media_id@))
}

impl View for MediaDedupeGroup {
    type V = DedupeGroupView;

    open spec fn view(&self) -> DedupeGroupView {
        DedupeGroupView {
            canonical: self.canonical_virtual_media_id@,
            members: member_views(self.members@),
        }
    }
}

impl Clone for MediaDedupeGroup {
    fn clone(&self) -> (r: Self)
        ensures
            r.canonical_virtual_media_id == self.canonical_virtual_media_id,
            r.members@ == self.members@,
            r@ == self@,
    {
        let mut members: Vec<MediaDedupeMember> = Vec::new();
        let mut i: usize = 0;
        while i < self.members.len()
            invariant
                i <= self.members@.len(),
                members@ == self.members@.take(i as int),
            decreases self.members@.len() - i,
        {
            members.push(self.members[i].clone());
            i += 1;
            assert(self.members@.take(i as int) == self.members@.take(i - 1).push(
                self.members@[i - 1],
            ));
        }
        assert(self.members@.take(i as int) == self.members@);
        MediaDedupeGroup {
            canonical_virtual_media_id: self.canonical_virtual_media_id.clone(),
            members,
        }
    }
}

/// What a server calls a medium, and what the clients see in its place. The time is in
/// microseconds since 1970.
#[derive(Debug)]
pub struct MediaMapping {
    pub id: i64,
    pub virtual_media_id: String,
    pub original_media_id: String,
    pub server_url: String,
    pub created_at: i64,
}

impl Clone for MediaMapping {
    fn clone(&self) -> (r: Self)
        ensures
            r == *self,
    {
        MediaMapping {
            id: self.id,
            virtual_media_id: self.virtual_media_id.clone(),
            original_media_id: self.original_media_id.clone(),
            server_url: self.server_url.clone(),
            created_at: self.created_at,
        }
    }
}

// ---------------------------------------------------------------------------
// Registering a group
// ---------------------------------------------------------------------------

/// A member with its identifier in the stored spelling.
pub open spec fn normalized_member(member: (i64, Seq<char>)) -> (i64, Seq<char>) {
    (member.0, normalized_id(member.1))
}

/// Members with their identifiers in the stored spelling.
pub open spec fn normalized_members(members: Seq<(i64, Seq<char>)>) -> Seq<(i64, Seq<char>)> {
    members.map_values(|member: (i64, Seq<char>)| normalized_member(member))
}

/// What tells members apart: the server and the identifier.
pub open spec fn member_identity() -> spec_fn((i64, Seq<char>)) -> (i64, Seq<char>) {
    |member: (i64, Seq<char>)| member
}

/// The group that is registered for the given members: identifiers in the stored spelling, each
/// member once.
pub open spec fn group_of(canonical: Seq<char>, members: Seq<(i64, Seq<char>)>) -> DedupeGroupView {
    DedupeGroupView {
        canonical: normalized_id(canonical),
        members: first_per_key(normalized_members(members), member_identity()),
    }
}

fn is_known_member(
    members: &Vec<MediaDedupeMember>,
    server_id: i64,
    virtual_media_id: &String,
) -> (r: bool)
    ensures
        r == has_key(
            member_views(members@),
            member_identity(),
            (server_id, virtual_media_id@),
        ),
{
    let mut i: usize = 0;
    while i < members.len()
        invariant
            i <= members@.len(),
            forall|k: int|
                0 <= k < i ==> member_identity()(#[trigger] member_views(members@)[k]) != (
                    server_id,
                    virtual_media_id@,
                ),
        decreases members@.len() - i,
    {
        let here: bool = members[i].server_id == server_id && members[i].virtual_media_id
            == *virtual_media_id;
        assert(member_views(members@)[i as int] == (
            members@[i as int].server_id,
            members@[i as int].virtual_media_id@,
        ));
        if here {
            assert(member_identity()(member_views(members@)[i as int]) == (
                server_id,
                virtual_media_id@,
            ));
            return true;
        }
        i += 1;
    }
    false
}

// ---------------------------------------------------------------------------
// The caches
// ---------------------------------------------------------------------------

/// What the caches hold, as long as nothing expires.
#[verifier::ext_equal]
pub struct StorageCaches {
    /// The groups by their canonical identifiers.
    pub groups: Map<Seq<char>, DedupeGroupView>,
    /// The canonical identifier of each member.
    pub index: Map<Seq<char>, Seq<char>>,
    /// The groups that are listed, by their canonical identifiers.
    pub listed: Map<Seq<char>, DedupeGroupView>,
    /// The mappings by original identifier and server.
    pub by_original: Map<Seq<char>, MediaMapping>,
    /// The mappings by virtual identifier, each with its server.
    pub with_server: Map<Seq<char>, (MediaMapping, Server)>,
}

/// A change of the caches.
#[derive(Debug)]
pub enum CacheStep {
    /// The identifier is no longer a member of a group.
    ForgetMember(String),
    /// The first identifier is a member of the group of the second.
    PointMember(String, String),
    /// The group is kept and listed.
    StoreGroup(MediaDedupeGroup),
    /// The mapping with the virtual identifier is dropped. The mappings by original identifier
    /// cannot be searched for it, so all of them are dropped.
    ForgetMapping(String),
    /// The mapping of a server's medium is kept under its key.
    StoreMapping(String, MediaMapping),
    /// The mapping of a virtual identifier is kept, with its server.
    StoreMappingWithServer(String, MediaMapping, Server),
    /// All mappings are dropped.
    ForgetAllMappings,
    /// All groups are dropped.
    ForgetAllGroups,
}

/// The caches after one change.
pub open spec fn after_step(caches: StorageCaches, step: CacheStep) -> StorageCaches {
    match step {
        CacheStep::ForgetMember(member) => StorageCaches {
            index: caches.index.remove(member@),
            ..caches
        },
        CacheStep::PointMember(member, canonical) => StorageCaches {
            index: caches.index.insert(member@, canonical@),
            ..caches
        },
        CacheStep::StoreGroup(group) => StorageCaches {
            groups: caches.groups.insert(group@.canonical, group@),
            listed: caches.listed.insert(group@.canonical, group@),
            ..caches
        },
        CacheStep::ForgetMapping(virtual_media_id) => StorageCaches {
            by_original: Map::empty(),
            with_server: caches.with_server.remove(virtual_media_id@),
            ..caches
        },
        CacheStep::StoreMapping(key, mapping) => StorageCaches {
            by_original: caches.by_original.insert(key@, mapping),
            ..caches
        },
        CacheStep::StoreMappingWithServer(virtual_media_id, mapping, server) => StorageCaches {
            with_server: caches.with_server.insert(virtual_media_id@, (mapping, server)),
            ..caches
        },
        CacheStep::ForgetAllMappings => StorageCaches {
            by_original: Map::empty(),
            with_server: Map::empty(),
            ..caches
        },
        CacheStep::ForgetAllGroups => StorageCaches {
            groups: Map::empty(),
            index: Map::empty(),
            listed: Map::empty(),
            ..caches
        },
    }
}

/// The caches after the changes, one after the other.
pub open spec fn after_steps(caches: StorageCaches, steps: Seq<CacheStep>) -> StorageCaches
    decreases steps.len(),
{
    if steps.len() == 0 {
        caches
    } else {
        after_step(after_steps(caches, steps.drop_last()), steps.last())
    }
}

/// Whether an identifier is one of the members'.
pub open spec fn is_member_id(members: Seq<(i64, Seq<char>)>, id: Seq<char>) -> bool {
    exists|i: int| 0 <= i < members.len() && (#[trigger] members[i]).1 == id
}

/// The members' index after a group has replaced one that was there before.
pub open spec fn registered_index(
    index: Map<Seq<char>, Seq<char>>,
    group: DedupeGroupView,
    replaced: Seq<(i64, Seq<char>)>,
) -> Map<Seq<char>, Seq<char>> {
    Map::new(
        |id: Seq<char>|
            id == group.canonical || is_member_id(group.members, id) || (index.contains_key(id)
                && !is_member_id(replaced, id)),
        |id: Seq<char>|
            if id == group.canonical || is_member_id(group.members, id) {
                group.canonical
            } else {
                index[id]
            },
    )
}

/// The caches after a group has been registered in place of one that was there before: the group
/// is kept and listed, its members lead to it, and the members of the other no longer do.
pub open spec fn registered(
    caches: StorageCaches,
    group: DedupeGroupView,
    replaced: Seq<(i64, Seq<char>)>,
) -> StorageCaches {
    StorageCaches {
        groups: caches.groups.insert(group.canonical, group),
        listed: caches.listed.insert(group.canonical, group),
        index: registered_index(caches.index, group, replaced),
        ..caches
    }
}

/// The key under which the group of a media identifier is kept, given the canonical identifier
/// that the members' index has for it.
pub open spec fn group_key(media_virtual_id: Seq<char>, indexed: Option<Seq<char>>) -> Seq<char> {
    match indexed {
        Some(canonical) => canonical,
        None => normalized_id(media_virtual_id),
    }
}

/// What a map holds for a key.
pub open spec fn held<V>(map: Map<Seq<char>, V>, key: Seq<char>) -> Option<V> {
    if map.contains_key(key) {
        Some(map[key])
    } else {
        None
    }
}

/// Looking the index up for an identifier in its stored spelling, and then the groups under the
/// key that follows, gives the group that the identifier leads to.
pub proof fn the_key_leads_to_the_group(caches: StorageCaches, media_virtual_id: Seq<char>)
    ensures
        held(
            caches.groups,
            group_key(media_virtual_id, held(caches.index, normalized_id(media_virtual_id))),
        ) == found_group(caches, media_virtual_id),
{
}

/// The group that an identifier leads to: that of its canonical identifier where it is a member,
/// else that which it is the canonical identifier of.
pub open spec fn found_group(caches: StorageCaches, media_virtual_id: Seq<char>) -> Option<
    DedupeGroupView,
> {
    let id = normalized_id(media_virtual_id);
    let key = if caches.index.contains_key(id) {
        caches.index[id]
    } else {
        id
    };
    if caches.groups.contains_key(key) {
        Some(caches.groups[key])
    } else {
        None
    }
}

/// The members of the group that has the canonical identifier, where there is one.
pub open spec fn members_of(group: Option<MediaDedupeGroup>) -> Seq<(i64, Seq<char>)> {
    match group {
        Some(found) => found@.members,
        None => Seq::empty(),
    }
}

/// A group that was registered is found by its canonical identifier and by each of its members,
/// in any spelling.
pub proof fn a_registered_group_is_found(
    caches: StorageCaches,
    group: DedupeGroupView,
    replaced: Seq<(i64, Seq<char>)>,
    media_virtual_id: Seq<char>,
)
    requires
        normalized_id(media_virtual_id) == group.canonical || is_member_id(
            group.members,
            normalized_id(media_virtual_id),
        ),
    ensures
        found_group(registered(caches, group, replaced), media_virtual_id) == Some(group),
{
}

/// Registering a group leaves what other identifiers lead to as it was: those that are neither
/// its own nor the replaced members', and do not lead to the group of the same canonical
/// identifier.
pub proof fn registering_leaves_other_groups_alone(
    caches: StorageCaches,
    group: DedupeGroupView,
    replaced: Seq<(i64, Seq<char>)>,
    media_virtual_id: Seq<char>,
)
    requires
        normalized_id(media_virtual_id) != group.canonical,
        !is_member_id(group.members, normalized_id(media_virtual_id)),
        !is_member_id(replaced, normalized_id(media_virtual_id)),
        caches.index.contains_key(normalized_id(media_virtual_id))
            ==> caches.index[normalized_id(media_virtual_id)] != group.canonical,
    ensures
        found_group(registered(caches, group, replaced), media_virtual_id) == found_group(
            caches,
            media_virtual_id,
        ),
{
}

// ---------------------------------------------------------------------------
// The service
// ---------------------------------------------------------------------------

/// The rules on media identifiers. Reading and writing the rows and the caches is up to the
/// caller.
#[derive(Debug, Clone, Copy)]
pub struct MediaStorageService {}

impl MediaStorageService {
    /// The stored spelling of a media identifier. Spelling it again changes nothing.
    pub fn normalize_uuid(s: &str) -> (r: String)
        ensures
            r@ == normalized_id(s@),
            normalized_id(r@) == r@,
    {
        normalize_id(s)
    }

    /// The group of members whose identifiers are in the stored spelling: each member once.
    pub fn group_members(canonical: String, members: Vec<MediaDedupeMember>) -> (r:
        MediaDedupeGroup)
        ensures
            r.canonical_virtual_media_id == canonical,
            member_views(r.members@) == first_per_key(member_views(members@), member_identity()),
    {
        let ghost all = member_views(members@);
        let mut deduped_members: Vec<MediaDedupeMember> = Vec::new();
        let ghost mut done: int = 0;
        assert(member_views(deduped_members@) =~= first_per_key(all.take(0), member_identity()));
        for member in it: members
            invariant
                member_views(it.seq()) == all,
                done == it.index(),
                member_views(deduped_members@) == first_per_key(
                    all.take(done),
                    member_identity(),
                ),
        {
            let ghost before = all.take(done);
            let ghost view = (member.server_id, member.virtual_media_id@);
            proof {
                assert(member_views(it.seq())[done] == view);
                done = done + 1;
                assert(all.take(done).drop_last() == before);
                first_per_key_keeps_each_key_once(before, member_identity());
            }
            let known: bool = is_known_member(
                &deduped_members,
                member.server_id,
                &member.virtual_media_id,
            );
            assert(known == has_key(before, member_identity(), member_identity()(view)));
            let ghost held = deduped_members@;
            if !known {
                deduped_members.push(member);
                assert(member_views(deduped_members@) =~= member_views(held).push(view));
            }
        }
        assert(all.take(done) == all);
        MediaDedupeGroup { canonical_virtual_media_id: canonical, members: deduped_members }
    }

    /// The group that is registered for the given members. There is none without members.
    pub fn register_media_dedupe_group(
        canonical_virtual_media_id: &str,
        members: Vec<MediaDedupeMember>,
    ) -> (r: Option<MediaDedupeGroup>)
        ensures
            match r {
                Some(group) => members@.len() > 0 && group@ == group_of(
                    canonical_virtual_media_id@,
                    member_views(members@),
                ),
                None => members@.len() == 0,
            },
    {
        if members.len() == 0 {
            return None;
        }
        let canonical: String = Self::normalize_uuid(canonical_virtual_media_id);
        let ghost all = normalized_members(member_views(members@));
        let mut normalized: Vec<MediaDedupeMember> = Vec::new();
        let mut i: usize = 0;
        assert(member_views(normalized@) =~= all.take(0));
        while i < members.len()
            invariant
                i <= members@.len(),
                all == normalized_members(member_views(members@)),
                member_views(normalized@) == all.take(i as int),
            decreases members@.len() - i,
        {
            let ghost held = normalized@;
            let virtual_media_id: String = Self::normalize_uuid(
                members[i].virtual_media_id.as_str(),
            );
            let member: MediaDedupeMember = MediaDedupeMember {
                server_id: members[i].server_id,
                virtual_media_id,
            };
            normalized.push(member);
            assert(member_views(normalized@) =~= member_views(held).push(all[i as int]));
            assert(all.take(i + 1) =~= all.take(i as int).push(all[i as int]));
            i += 1;
        }
        assert(all.take(i as int) == all);
        Some(Self::group_members(canonical, normalized))
    }

    /// The changes that register a group, given the group with the same canonical identifier
    /// that was there before.
    pub fn registration_steps(
        group: MediaDedupeGroup,
        existing: &Option<MediaDedupeGroup>,
    ) -> (r: Vec<CacheStep>)
        ensures
            forall|caches: StorageCaches| #[trigger]
                after_steps(caches, r@) == registered(caches, group@, members_of(*existing)),
    {
        let mut steps: Vec<CacheStep> = Vec::new();
        let ghost replaced = members_of(*existing);
        if let Some(before) = existing {
            let mut i: usize = 0;
            while i < before.members.len()
                invariant
                    i <= before.members@.len(),
                    replaced == member_views(before.members@),
                    steps@.len() == i,
                    forall|k: int|
                        0 <= k < i ==> (#[trigger] steps@[k]) is ForgetMember
                            && steps@[k]->ForgetMember_0@ == replaced[k].1,
                decreases before.members@.len() - i,
            {
                steps.push(CacheStep::ForgetMember(before.members[i].virtual_media_id.clone()));
                i += 1;
            }
        }
        let ghost forget = steps@;
        let ghost canonical = group@.canonical;
        let mut i: usize = 0;
        assert(forget.len() == replaced.len());
        while i < group.members.len()
            invariant
                i <= group.members@.len(),
                canonical == group.canonical_virtual_media_id@,
                steps@.len() == forget.len() + i,
                forall|k: int| 0 <= k < forget.len() ==> #[trigger] steps@[k] == forget[k],
                forall|k: int|
                    forget.len() <= k < steps@.len() ==> (#[trigger] steps@[k]) is PointMember
                        && steps@[k]->PointMember_0@ == member_views(group.members@)[k
                        - forget.len()].1 && steps@[k]->PointMember_1@ == canonical,
            decreases group.members@.len() - i,
        {
            steps.push(
                CacheStep::PointMember(
                    group.members[i].virtual_media_id.clone(),
                    group.canonical_virtual_media_id.clone(),
                ),
            );
            i += 1;
        }
        let ghost point = steps@.skip(forget.len() as int);
        assert(steps@ =~= forget + point);
        steps.push(
            CacheStep::PointMember(
                group.canonical_virtual_media_id.clone(),
                group.canonical_virtual_media_id.clone(),
            ),
        );
        let ghost to_itself = steps@.last();
        let ghost view = group@;
        steps.push(CacheStep::StoreGroup(group));
        proof {
            assert forall|caches: StorageCaches| #[trigger]
                after_steps(caches, steps@) == registered(caches, view, replaced) by {
                let one = after_steps(caches, forget);
                let two = after_steps(one, point);
                lemma_forgetting_members(caches, forget, replaced);
                lemma_pointing_members(one, point, view.members, canonical);
                lemma_steps_in_two_parts(caches, forget, point);
                assert(steps@.drop_last().drop_last() =~= forget + point);
                assert(steps@.drop_last().last() == to_itself);
                let three = after_step(two, to_itself);
                assert(after_steps(caches, steps@.drop_last()) == three);
                assert(three.index =~= registered_index(caches.index, view, replaced));
                assert(after_steps(caches, steps@) =~= registered(caches, view, replaced));
            }
        }
        steps
    }

    /// The key under which the group of a media identifier is kept, given the canonical
    /// identifier that the members' index has for it.
    pub fn dedupe_group_key(media_virtual_id: &str, indexed: Option<String>) -> (r: String)
        ensures
            r@ == group_key(media_virtual_id@, text_option(indexed)),
    {
        match indexed {
            Some(canonical) => canonical,
            None => Self::normalize_uuid(media_virtual_id),
        }
    }

    /// The identifier that a server has for the medium of a group: that of the server's first
    /// member.
    pub fn get_media_dedupe_member_for_server(
        group: &Option<MediaDedupeGroup>,
        server_id: i64,
    ) -> (r: Option<String>)
        ensures
            text_option(r) == member_on(members_of(*group), server_id),
    {
        match group {
            Some(found) => {
                let ghost all = member_views(found.members@);
                let mut i: usize = 0;
                assert(all.skip(0) == all);
                while i < found.members.len()
                    invariant
                        i <= found.members@.len(),
                        all == member_views(found.members@),
                        all == members_of(*group),
                        member_on(all, server_id) == member_on(all.skip(i as int), server_id),
                    decreases found.members@.len() - i,
                {
                    assert(all.skip(i as int).drop_first() == all.skip(i + 1));
                    if found.members[i].server_id == server_id {
                        return Some(found.members[i].virtual_media_id.clone());
                    }
                    i += 1;
                }
                None
            },
            None => None,
        }
    }

    /// The change of the caches once the mapping of a virtual identifier has been found with its
    /// server.
    pub fn get_media_mapping_with_server(
        virtual_media_id: &str,
        mapping: &MediaMapping,
        server: &Server,
    ) -> (r: CacheStep)
        ensures
            forall|caches: StorageCaches| #[trigger]
                after_step(caches, r) == with_mapped_server(
                    caches,
                    virtual_media_id@,
                    *mapping,
                    *server,
                ),
    {
        CacheStep::StoreMappingWithServer(
            Self::normalize_uuid(virtual_media_id),
            mapping.clone(),
            server.clone(),
        )
    }

    /// Whether a mapping was there to delete, going by the number of rows that were deleted, and
    /// the changes of the caches that follow.
    pub fn delete_media_mapping(
        virtual_media_id: &str,
        rows_affected: u64,
    ) -> (r: (bool, Vec<CacheStep>))
        ensures
            r.0 == (rows_affected > 0),
            forall|caches: StorageCaches| #[trigger]
                after_steps(caches, r.1@) == if rows_affected > 0 {
                    without_mapping(caches, virtual_media_id@)
                } else {
                    caches
                },
    {
        let mut steps: Vec<CacheStep> = Vec::new();
        if rows_affected > 0 {
            steps.push(CacheStep::ForgetMapping(copy_text(virtual_media_id)));
            steps.push(CacheStep::ForgetAllGroups);
            proof {
                assert forall|caches: StorageCaches| #[trigger]
                    after_steps(caches, steps@) == without_mapping(
                        caches,
                        virtual_media_id@,
                    ) by {
                    reveal_with_fuel(after_steps, 3);
                    assert(after_steps(caches, steps@) =~= without_mapping(
                        caches,
                        virtual_media_id@,
                    ));
                }
            }
            (true, steps)
        } else {
            (false, steps)
        }
    }

    /// How many mappings of a server were deleted, going by the number of rows, and the changes of
    /// the caches that follow: all of them are emptied, though nothing was deleted.
    pub fn delete_media_mappings_by_server(rows_affected: u64) -> (r: (u64, Vec<CacheStep>))
        ensures
            r.0 == rows_affected,
            forall|caches: StorageCaches| #[trigger]
                after_steps(caches, r.1@) == empty_caches(),
    {
        let mut steps: Vec<CacheStep> = Vec::new();
        steps.push(CacheStep::ForgetAllMappings);
        steps.push(CacheStep::ForgetAllGroups);
        proof {
            assert forall|caches: StorageCaches| #[trigger]
                after_steps(caches, steps@) == empty_caches() by {
                reveal_with_fuel(after_steps, 3);
                assert(after_steps(caches, steps@) =~= empty_caches());
            }
        }
        (rows_affected, steps)
    }
}

/// The identifier of the first member on the server.
pub open spec fn member_on(members: Seq<(i64, Seq<char>)>, server_id: i64) -> Option<Seq<char>>
    decreases members.len(),
{
    if members.len() == 0 {
        None
    } else if members[0].0 == server_id {
        Some(members[0].1)
    } else {
        member_on(members.drop_first(), server_id)
    }
}

/// The caches with the mapping of a server's medium.
pub open spec fn with_mapping(
    caches: StorageCaches,
    original_media_id: Seq<char>,
    server_url: Seq<char>,
    mapping: MediaMapping,
) -> StorageCaches {
    StorageCaches {
        by_original: caches.by_original.insert(mapping_key(original_media_id, server_url), mapping),
        ..caches
    }
}

/// The caches with the mapping of a virtual identifier and its server.
pub open spec fn with_mapped_server(
    caches: StorageCaches,
    virtual_media_id: Seq<char>,
    mapping: MediaMapping,
    server: Server,
) -> StorageCaches {
    StorageCaches {
        with_server: caches.with_server.insert(
            normalized_id(virtual_media_id),
            (mapping, server),
        ),
        ..caches
    }
}

/// A mapping that was cached is read back by its medium and server, and the mappings of other
/// media stay, unless an identifier holds a bar.
pub proof fn a_cached_mapping_is_read_back(
    caches: StorageCaches,
    original_media_id: Seq<char>,
    server_url: Seq<char>,
    other_media_id: Seq<char>,
    other_url: Seq<char>,
    mapping: MediaMapping,
)
    requires
        !original_media_id.contains('|'),
        !other_media_id.contains('|'),
    ensures
        ({
            let after = with_mapping(caches, original_media_id, server_url, mapping);
            let key = mapping_key(other_media_id, other_url);
            if original_media_id == other_media_id && server_url == other_url {
                after.by_original.contains_key(key) && after.by_original[key] == mapping
            } else {
                &&& after.by_original.contains_key(key) == caches.by_original.contains_key(key)
                &&& after.by_original[key] == caches.by_original[key]
            }
        }),
{
    let key = mapping_key(other_media_id, other_url);
    if mapping_key(original_media_id, server_url) == key {
        mapping_keys_tell_media_apart(original_media_id, server_url, other_media_id, other_url);
    }
}

/// A mapping that was cached with its server is read back by every spelling of its virtual
/// identifier.
pub proof fn a_mapped_server_is_read_back(
    caches: StorageCaches,
    virtual_media_id: Seq<char>,
    spelling: Seq<char>,
    mapping: MediaMapping,
    server: Server,
)
    requires
        normalized_id(spelling) == normalized_id(virtual_media_id),
    ensures
        with_mapped_server(
            caches,
            virtual_media_id,
            mapping,
            server,
        ).with_server.contains_key(normalized_id(spelling)),
        with_mapped_server(caches, virtual_media_id, mapping, server).with_server[normalized_id(
            spelling,
        )] == (mapping, server),
{
}

/// The caches without the mapping of the virtual identifier, and without any group or any mapping
/// by original identifier.
pub open spec fn without_mapping(
    caches: StorageCaches,
    virtual_media_id: Seq<char>,
) -> StorageCaches {
    StorageCaches {
        groups: Map::empty(),
        index: Map::empty(),
        listed: Map::empty(),
        by_original: Map::empty(),
        with_server: caches.with_server.remove(virtual_media_id),
    }
}

/// Caches that hold nothing.
pub open spec fn empty_caches() -> StorageCaches {
    StorageCaches {
        groups: Map::empty(),
        index: Map::empty(),
        listed: Map::empty(),
        by_original: Map::empty(),
        with_server: Map::empty(),
    }
}

/// Once a mapping has been deleted, no cache gives it back and no identifier leads to a group.
/// The mappings of other virtual identifiers stay.
pub proof fn a_deleted_mapping_is_gone(
    caches: StorageCaches,
    virtual_media_id: Seq<char>,
    key: Seq<char>,
)
    ensures
        !without_mapping(caches, virtual_media_id).with_server.contains_key(virtual_media_id),
        !without_mapping(caches, virtual_media_id).by_original.contains_key(key),
        key != virtual_media_id ==> {
            &&& without_mapping(caches, virtual_media_id).with_server.contains_key(key)
                == caches.with_server.contains_key(key)
            &&& without_mapping(caches, virtual_media_id).with_server[key]
                == caches.with_server[key]
        },
        found_group(without_mapping(caches, virtual_media_id), key) is None,
{
}

// ---------------------------------------------------------------------------
// The groups that are listed
// ---------------------------------------------------------------------------

/// Groups as values.
pub open spec fn group_views(groups: Seq<MediaDedupeGroup>) -> Seq<DedupeGroupView> {
    groups.map_values(|group: MediaDedupeGroup| group@)
}

/// The list with a group in it: in place of the group with its canonical identifier, or at the
/// end where there is none.
pub open spec fn with_group(groups: Seq<DedupeGroupView>, group: DedupeGroupView) -> Seq<
    DedupeGroupView,
>
    decreases groups.len(),
{
    if groups.len() == 0 {
        seq![group]
    } else if groups[0].canonical == group.canonical {
        seq![group] + groups.drop_first()
    } else {
        seq![groups[0]] + with_group(groups.drop_first(), group)
    }
}

/// Whether no two groups have the same canonical identifier.
pub open spec fn are_apart(groups: Seq<DedupeGroupView>) -> bool {
    forall|i: int, j: int|
        0 <= i < j < groups.len() ==> (#[trigger] groups[i]).canonical != (
        #[trigger] groups[j]).canonical
}

/// The groups that were registered since the last time that mappings were deleted. There is one
/// for each canonical identifier.
#[derive(Debug)]
pub struct DedupeGroupIndex {
    groups: Vec<MediaDedupeGroup>,
}

impl View for DedupeGroupIndex {
    type V = Seq<DedupeGroupView>;

    closed spec fn view(&self) -> Seq<DedupeGroupView> {
        group_views(self.groups@)
    }
}

impl DedupeGroupIndex {
    #[verifier::type_invariant]
    spec fn well_formed(&self) -> bool {
        are_apart(group_views(self.groups@))
    }

    /// An index without groups.
    pub fn new() -> (r: Self)
        ensures
            r@.len() == 0,
    {
        DedupeGroupIndex { groups: Vec::new() }
    }

    /// Adds a group, or replaces the group with its canonical identifier.
    pub fn insert(&mut self, group: MediaDedupeGroup)
        ensures
            final(self)@ == with_group(old(self)@, group@),
            are_apart(final(self)@),
    {
        proof {
            use_type_invariant(&*self);
        }
        let ghost all = group_views(self.groups@);
        let ghost view = group@;
        proof {
            a_listed_group_is_read_back(all, view);
        }
        let mut groups: Vec<MediaDedupeGroup> = Vec::new();
        std::mem::swap(&mut groups, &mut self.groups);
        let mut i: usize = 0;
        while i < groups.len() && groups[i].canonical_virtual_media_id
            != group.canonical_virtual_media_id
            invariant
                i <= groups@.len(),
                all == group_views(groups@),
                forall|k: int| 0 <= k < i ==> (#[trigger] all[k]).canonical != group@.canonical,
            decreases groups@.len() - i,
        {
            assert(all[i as int] == groups@[i as int]@);
            i += 1;
        }
        proof {
            if i < all.len() {
                assert(all[i as int] == groups@[i as int]@);
            }
            lemma_place_of_group(all, view, i as int);
        }
        if i < groups.len() {
            groups.set(i, group);
            assert(group_views(groups@) =~= all.update(i as int, view));
        } else {
            groups.push(group);
            assert(group_views(groups@) =~= all.push(view));
        }
        self.groups = groups;
    }

    /// Removes every group.
    pub fn clear(&mut self)
        ensures
            final(self)@.len() == 0,
    {
        self.groups = Vec::new();
    }

    /// A copy of each group.
    pub fn list_media_dedupe_groups(&self) -> (r: Vec<MediaDedupeGroup>)
        ensures
            group_views(r@) == self@,
            are_apart(self@),
    {
        proof {
            use_type_invariant(self);
        }
        let mut out: Vec<MediaDedupeGroup> = Vec::new();
        let mut i: usize = 0;
        let ghost all = group_views(self.groups@);
        assert(group_views(out@) =~= all.take(0));
        while i < self.groups.len()
            invariant
                i <= self.groups@.len(),
                all == group_views(self.groups@),
                group_views(out@) == all.take(i as int),
            decreases self.groups@.len() - i,
        {
            let ghost before = out@;
            let copy: MediaDedupeGroup = self.groups[i].clone();
            assert(copy@ == all[i as int]);
            out.push(copy);
            assert(group_views(out@) =~= group_views(before).push(all[i as int]));
            assert(all.take(i + 1) =~= all.take(i as int).push(all[i as int]));
            i += 1;
        }
        assert(all.take(i as int) == all);
        out
    }
}

proof fn lemma_place_of_group(groups: Seq<DedupeGroupView>, group: DedupeGroupView, i: int)
    requires
        0 <= i <= groups.len(),
        forall|k: int| 0 <= k < i ==> (#[trigger] groups[k]).canonical != group.canonical,
        i < groups.len() ==> groups[i].canonical == group.canonical,
    ensures
        with_group(groups, group) == if i < groups.len() {
            groups.update(i, group)
        } else {
            groups.push(group)
        },
    decreases groups.len(),
{
    if groups.len() > 0 && i > 0 {
        assert(groups[0].canonical != group.canonical);
        let rest = groups.drop_first();
        assert forall|k: int| 0 <= k < i - 1 implies (#[trigger] rest[k]).canonical
            != group.canonical by {
            assert(rest[k] == groups[k + 1]);
        }
        lemma_place_of_group(rest, group, i - 1);
    }
    if i < groups.len() {
        assert(with_group(groups, group) =~= groups.update(i, group));
    } else {
        assert(with_group(groups, group) =~= groups.push(group));
    }
}

/// Listing a group keeps canonical identifiers apart; the group is then on the list, and the
/// other groups stay.
pub proof fn a_listed_group_is_read_back(groups: Seq<DedupeGroupView>, group: DedupeGroupView)
    requires
        are_apart(groups),
    ensures
        are_apart(with_group(groups, group)),
        with_group(groups, group).contains(group),
        forall|other: DedupeGroupView|
            other.canonical != group.canonical ==> (#[trigger] with_group(groups, group).contains(
                other,
            ) <==> groups.contains(other)),
{
    let out = with_group(groups, group);
    if exists|i: int| 0 <= i < groups.len() && (#[trigger] groups[i]).canonical == group.canonical {
        let i = choose|i: int|
            0 <= i < groups.len() && (#[trigger] groups[i]).canonical == group.canonical;
        assert forall|k: int| 0 <= k < i implies (#[trigger] groups[k]).canonical
            != group.canonical by {
            assert(groups[k].canonical != groups[i].canonical);
        }
        lemma_place_of_group(groups, group, i);
        assert(out[i] == group);
        assert forall|a: int, b: int| 0 <= a < b < out.len() implies (#[trigger] out[a]).canonical
            != (#[trigger] out[b]).canonical by {
            assert(groups[a].canonical != groups[b].canonical);
        }
        assert forall|other: DedupeGroupView|
            other.canonical != group.canonical implies (#[trigger] out.contains(other)
            <==> groups.contains(other)) by {
            if out.contains(other) {
                let k = choose|k: int| 0 <= k < out.len() && out[k] == other;
                assert(groups[k] == other);
            }
            if groups.contains(other) {
                let k = choose|k: int| 0 <= k < groups.len() && groups[k] == other;
                assert(out[k] == other);
            }
        }
    } else {
        lemma_place_of_group(groups, group, groups.len() as int);
        assert(out[groups.len() as int] == group);
        assert forall|other: DedupeGroupView|
            other.canonical != group.canonical implies (#[trigger] out.contains(other)
            <==> groups.contains(other)) by {
            if out.contains(other) {
                let k = choose|k: int| 0 <= k < out.len() && out[k] == other;
                assert(groups[k] == other);
            }
            if groups.contains(other) {
                let k = choose|k: int| 0 <= k < groups.len() && groups[k] == other;
                assert(out[k] == other);
            }
        }
    }
}

// ---------------------------------------------------------------------------
// The keys of mappings
// ---------------------------------------------------------------------------

/// The key under which the mapping of a server's medium is cached.
pub open spec fn mapping_key(original_media_id: Seq<char>, server_url: Seq<char>) -> Seq<char> {
    original_media_id + "|"@ + server_url
}

/// The key under which the mapping of a server's medium is cached.
pub fn mapping_cache_key(original_media_id: &str, server_url: &str) -> (r: String)
    ensures
        r@ == mapping_key(original_media_id@, server_url@),
{
    let mut key: String = copy_text(original_media_id);
    key.append("|");
    key.append(server_url);
    key
}

/// Media without a bar in their identifiers have keys of their own on each server.
pub proof fn mapping_keys_tell_media_apart(
    original_media_id: Seq<char>,
    server_url: Seq<char>,
    other_media_id: Seq<char>,
    other_url: Seq<char>,
)
    requires
        !original_media_id.contains('|'),
        !other_media_id.contains('|'),
        mapping_key(original_media_id, server_url) == mapping_key(other_media_id, other_url),
    ensures
        original_media_id == other_media_id,
        server_url == other_url,
{
    reveal_strlit("|");
    let one = mapping_key(original_media_id, server_url);
    let two = mapping_key(other_media_id, other_url);
    let a = original_media_id.len() as int;
    let b = other_media_id.len() as int;
    assert(one[a] == '|');
    assert(two[b] == '|');
    if a < b {
        assert(other_media_id[a] == two[a]);
        assert(other_media_id.contains('|'));
    }
    if b < a {
        assert(original_media_id[b] == one[b]);
        assert(original_media_id.contains('|'));
    }
    assert(one.take(a) =~= original_media_id);
    assert(two.take(b) =~= other_media_id);
    assert(one.skip(a + 1) =~= server_url);
    assert(two.skip(b + 1) =~= other_url);
}

// ---------------------------------------------------------------------------
// Chains of changes
// ---------------------------------------------------------------------------

proof fn lemma_steps_in_two_parts(
    caches: StorageCaches,
    first: Seq<CacheStep>,
    second: Seq<CacheStep>,
)
    ensures
        after_steps(caches, first + second) == after_steps(after_steps(caches, first), second),
    decreases second.len(),
{
    if second.len() == 0 {
        assert(first + second =~= first);
    } else {
        lemma_steps_in_two_parts(caches, first, second.drop_last());
        assert((first + second).drop_last() =~= first + second.drop_last());
    }
}

proof fn lemma_forgetting_members(
    caches: StorageCaches,
    steps: Seq<CacheStep>,
    members: Seq<(i64, Seq<char>)>,
)
    requires
        steps.len() == members.len(),
        forall|k: int|
            0 <= k < steps.len() ==> (#[trigger] steps[k]) is ForgetMember
                && steps[k]->ForgetMember_0@ == members[k].1,
    ensures
        after_steps(caches, steps) == (StorageCaches {
            index: after_steps(caches, steps).index,
            ..caches
        }),
        forall|id: Seq<char>| #[trigger]
            after_steps(caches, steps).index.contains_key(id) <==> caches.index.contains_key(id)
                && !is_member_id(members, id),
        forall|id: Seq<char>|
            after_steps(caches, steps).index.contains_key(id)
                ==> #[trigger] after_steps(caches, steps).index[id] == caches.index[id],
    decreases steps.len(),
{
    if steps.len() > 0 {
        let rest = members.drop_last();
        lemma_forgetting_members(caches, steps.drop_last(), rest);
        assert(steps.last() == steps[steps.len() - 1]);
        assert forall|id: Seq<char>| is_member_id(members, id) == (is_member_id(rest, id)
            || members.last().1 == id) by {
            lemma_member_ids(members, id);
        }
    }
}

proof fn lemma_pointing_members(
    caches: StorageCaches,
    steps: Seq<CacheStep>,
    members: Seq<(i64, Seq<char>)>,
    canonical: Seq<char>,
)
    requires
        steps.len() == members.len(),
        forall|k: int|
            0 <= k < steps.len() ==> (#[trigger] steps[k]) is PointMember
                && steps[k]->PointMember_0@ == members[k].1 && steps[k]->PointMember_1@
                == canonical,
    ensures
        after_steps(caches, steps) == (StorageCaches {
            index: after_steps(caches, steps).index,
            ..caches
        }),
        forall|id: Seq<char>| #[trigger]
            after_steps(caches, steps).index.contains_key(id) <==> caches.index.contains_key(id)
                || is_member_id(members, id),
        forall|id: Seq<char>|
            after_steps(caches, steps).index.contains_key(id)
                ==> #[trigger] after_steps(caches, steps).index[id] == if is_member_id(
                members,
                id,
            ) {
                canonical
            } else {
                caches.index[id]
            },
    decreases steps.len(),
{
    if steps.len() > 0 {
        let rest = members.drop_last();
        lemma_pointing_members(caches, steps.drop_last(), rest, canonical);
        assert(steps.last() == steps[steps.len() - 1]);
        assert forall|id: Seq<char>| is_member_id(members, id) == (is_member_id(rest, id)
            || members.last().1 == id) by {
            lemma_member_ids(members, id);
        }
    }
}

proof fn lemma_member_ids(members: Seq<(i64, Seq<char>)>, id: Seq<char>)
    requires
        members.len() > 0,
    ensures
        is_member_id(members, id) == (is_member_id(members.drop_last(), id) || members.last().1
            == id),
{
    let rest = members.drop_last();
    if is_member_id(members, id) {
        let i = choose|i: int| 0 <= i < members.len() && (#[trigger] members[i]).1 == id;
        if i < rest.len() {
            assert(rest[i].1 == id);
        }
    }
    if is_member_id(rest, id) {
        let i = choose|i: int| 0 <= i < rest.len() && (#[trigger] rest[i]).1 == id;
        assert(members[i].1 == id);
    }
    if members.last().1 == id {
        assert(members[members.len() - 1].1 == id);
    }
}

// ---------------------------------------------------------------------------
// What is registered, and where it is found
// ---------------------------------------------------------------------------

/// Of the members that are given every one is in the group that is not given earlier, in the order
/// in which they are given. The identifiers, and that of the group, are in the stored spelling.
pub proof fn each_member_is_registered_as_it_is_first_given(
    canonical: Seq<char>,
    members: Seq<(i64, Seq<char>)>,
) -> (places: Seq<int>)
    ensures
        are_places(
            places,
            members.len() as int,
            |k: int|
                forall|m: int|
                    0 <= m < k ==> (#[trigger] members[m]).0 != members[k].0 || normalized_id(
                        members[m].1,
                    ) != normalized_id(members[k].1),
        ),
        ({
            let group = group_of(canonical, members);
            &&& group.canonical == normalized_id(canonical)
            &&& group.members.len() == places.len()
            &&& forall|i: int|
                0 <= i < places.len() ==> {
                    &&& 0 <= #[trigger] places[i] < members.len()
                    &&& group.members[i].0 == members[places[i]].0
                    &&& group.members[i].1 == normalized_id(members[places[i]].1)
                }
        }),
{
    let spelled = normalized_members(members);
    let identity = member_identity();
    let places = the_first_of_each_key_is_kept(spelled, identity);
    let before = |k: int|
        forall|m: int| 0 <= m < k ==> identity(#[trigger] spelled[m]) != identity(spelled[k]);
    let chosen = |k: int|
        forall|m: int|
            0 <= m < k ==> (#[trigger] members[m]).0 != members[k].0 || normalized_id(members[m].1)
                != normalized_id(members[k].1);
    assert forall|k: int| 0 <= k < members.len() implies #[trigger] before(k) == chosen(k) by {
        assert(spelled[k] == (members[k].0, normalized_id(members[k].1)));
        if before(k) {
            assert forall|m: int| 0 <= m < k implies (#[trigger] members[m]).0 != members[k].0
                || normalized_id(members[m].1) != normalized_id(members[k].1) by {
                assert(spelled[m] == (members[m].0, normalized_id(members[m].1)));
                assert(identity(spelled[m]) != identity(spelled[k]));
            }
        }
        if chosen(k) {
            assert forall|m: int| 0 <= m < k implies identity(#[trigger] spelled[m]) != identity(
                spelled[k],
            ) by {
                assert(spelled[m] == (members[m].0, normalized_id(members[m].1)));
                assert(members[m].0 != members[k].0 || normalized_id(members[m].1)
                    != normalized_id(members[k].1));
            }
        }
    }
    lemma_same_places(places, members.len() as int, before, chosen);
    places
}

/// Once a group has been registered in place of another, the identifiers of its members and its own
/// lead to it, those of the members that it no longer has lead nowhere, and all others lead where
/// they did. The group is kept and listed, every other group stays, and so do all mappings.
pub proof fn registering_a_group_changes_its_own_entries_only(
    caches: StorageCaches,
    group: DedupeGroupView,
    replaced: Seq<(i64, Seq<char>)>,
    id: Seq<char>,
)
    ensures
        ({
            let after = registered(caches, group, replaced);
            let is_own = id == group.canonical || exists|i: int|
                0 <= i < group.members.len() && (#[trigger] group.members[i]).1 == id;
            let was_replaced = exists|i: int|
                0 <= i < replaced.len() && (#[trigger] replaced[i]).1 == id;
            &&& held(after.index, id) == if is_own {
                Some(group.canonical)
            } else if was_replaced {
                None
            } else {
                held(caches.index, id)
            }
            &&& held(after.groups, id) == if id == group.canonical {
                Some(group)
            } else {
                held(caches.groups, id)
            }
            &&& held(after.listed, id) == if id == group.canonical {
                Some(group)
            } else {
                held(caches.listed, id)
            }
            &&& after.by_original == caches.by_original
            &&& after.with_server == caches.with_server
        }),
{
    assert(is_member_id(group.members, id) == exists|i: int|
        0 <= i < group.members.len() && (#[trigger] group.members[i]).1 == id);
    assert(is_member_id(replaced, id) == exists|i: int|
        0 <= i < replaced.len() && (#[trigger] replaced[i]).1 == id);
}

/// An identifier leads to the group that the members' index names for its stored spelling, and
/// where the index names none, to the group that it is the identifier of.
pub proof fn an_identifier_leads_to_its_group(caches: StorageCaches, media_virtual_id: Seq<char>)
    ensures
        found_group(caches, media_virtual_id) == match held(
            caches.index,
            normalized_id(media_virtual_id),
        ) {
            Some(canonical) => held(caches.groups, canonical),
            None => held(caches.groups, normalized_id(media_virtual_id)),
        },
        group_key(media_virtual_id, None) == normalized_id(media_virtual_id),
        forall|canonical: Seq<char>| #[trigger]
            group_key(media_virtual_id, Some(canonical)) == canonical,
{
}

/// Each change of the caches changes what it names and leaves all else as it was.
pub proof fn a_change_of_the_caches_changes_what_it_names(
    caches: StorageCaches,
    step: CacheStep,
    key: Seq<char>,
)
    ensures
        ({
            let after = after_step(caches, step);
            &&& held(after.index, key) == match step {
                CacheStep::ForgetMember(member) if member@ == key => None,
                CacheStep::PointMember(member, canonical) if member@ == key => Some(canonical@),
                CacheStep::ForgetAllGroups => None,
                _ => held(caches.index, key),
            }
            &&& held(after.groups, key) == match step {
                CacheStep::StoreGroup(group) if group.canonical_virtual_media_id@ == key => Some(
                    group@,
                ),
                CacheStep::ForgetAllGroups => None,
                _ => held(caches.groups, key),
            }
            &&& held(after.listed, key) == match step {
                CacheStep::StoreGroup(group) if group.canonical_virtual_media_id@ == key => Some(
                    group@,
                ),
                CacheStep::ForgetAllGroups => None,
                _ => held(caches.listed, key),
            }
            &&& held(after.by_original, key) == match step {
                CacheStep::StoreMapping(stored, mapping) if stored@ == key => Some(mapping),
                CacheStep::ForgetMapping(_) => None,
                CacheStep::ForgetAllMappings => None,
                _ => held(caches.by_original, key),
            }
            &&& held(after.with_server, key) == match step {
                CacheStep::StoreMappingWithServer(stored, mapping, server) if stored@
                    == key => Some((mapping, server)),
                CacheStep::ForgetMapping(dropped) if dropped@ == key => None,
                CacheStep::ForgetAllMappings => None,
                _ => held(caches.with_server, key),
            }
        }),
{
}

/// The identifier that a server has for the medium of a group is that of the first member on the
/// server, and there is none only where no member is on it.
pub proof fn the_first_member_on_a_server_counts(
    members: Seq<(i64, Seq<char>)>,
    server_id: i64,
) -> (i: int)
    ensures
        match member_on(members, server_id) {
            Some(id) => {
                &&& 0 <= i < members.len()
                &&& members[i] == (server_id, id)
                &&& forall|k: int| 0 <= k < i ==> (#[trigger] members[k]).0 != server_id
            },
            None => forall|k: int|
                0 <= k < members.len() ==> (#[trigger] members[k]).0 != server_id,
        },
    decreases members.len(),
{
    if members.len() > 0 && members[0].0 != server_id {
        let rest = members.drop_first();
        let i = the_first_member_on_a_server_counts(rest, server_id);
        let n = if member_on(rest, server_id) is Some {
            i + 1
        } else {
            members.len() as int
        };
        assert forall|k: int| 0 <= k < n implies (#[trigger] members[k]).0 != server_id by {
            if k > 0 {
                assert(rest[k - 1] == members[k]);
            }
        }
        i + 1
    } else {
        0
    }
}

/// A group that is listed takes the place of the group with its canonical identifier, or the place
/// behind all others; the others keep their places.
pub proof fn a_listed_group_takes_its_place(
    groups: Seq<DedupeGroupView>,
    group: DedupeGroupView,
) -> (i: int)
    ensures
        0 <= i <= groups.len(),
        forall|k: int| 0 <= k < i ==> (#[trigger] groups[k]).canonical != group.canonical,
        i < groups.len() ==> groups[i].canonical == group.canonical,
        with_group(groups, group).len() == if i < groups.len() {
            groups.len()
        } else {
            groups.len() + 1
        },
        with_group(groups, group)[i] == group,
        forall|k: int|
            0 <= k < groups.len() && k != i ==> #[trigger] with_group(groups, group)[k]
                == groups[k],
{
    let i = lemma_find_group(groups, group.canonical);
    lemma_place_of_group(groups, group, i);
    i
}

proof fn lemma_find_group(groups: Seq<DedupeGroupView>, canonical: Seq<char>) -> (i: int)
    ensures
        0 <= i <= groups.len(),
        forall|k: int| 0 <= k < i ==> (#[trigger] groups[k]).canonical != canonical,
        i < groups.len() ==> groups[i].canonical == canonical,
    decreases groups.len(),
{
    if groups.len() == 0 || groups[0].canonical == canonical {
        0
    } else {
        let rest = groups.drop_first();
        let i = lemma_find_group(rest, canonical);
        assert forall|k: int| 0 <= k < i + 1 implies (#[trigger] groups[k]).canonical
            != canonical by {
            if k > 0 {
                assert(rest[k - 1] == groups[k]);
            }
        }
        i + 1
    }
}

/// The key of a mapping is the server's own identifier and the server's address with a bar between
/// them.
pub proof fn a_mapping_key_names_the_medium_and_the_server(
    original_media_id: Seq<char>,
    server_url: Seq<char>,
)
    ensures
        mapping_key(original_media_id, server_url) == original_media_id + seq!['|'] + server_url,
{
    reveal_strlit("|");
    assert("|"@ =~= seq!['|']);
}

} // verus!
