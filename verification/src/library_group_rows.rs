//! Library groups as they are kept: the rows of groups and of their sources, what the statements
//! that write them do to them, and what is read back afterwards.
use vstd::prelude::*;

use crate::ids::normalized_id;
use crate::library_management_service::{
    all_cleaned, cleaned, is_draft_of, is_good_group, kept_sources_hold_together, normalized_type,
    source_identity, source_views, GroupDraft, GroupUpdate, LibraryGroup, LibraryGroupSource,
    NewGroup, NewLibraryGroupSource, SourceView,
};
use crate::order::first_per_key;
use crate::text::trimmed;

verus! {

/// The rows of groups by their identifiers, and the rows of the sources of each group in the order
/// in which they were inserted.
#[verifier::ext_equal]
pub struct GroupTables {
    pub groups: Map<i64, LibraryGroup>,
    pub sources: Map<i64, Seq<LibraryGroupSource>>,
}

/// A group as it is read back, with its sources in the order in which they were inserted.
#[verifier::ext_equal]
pub struct StoredGroup {
    pub group: LibraryGroup,
    pub sources: Seq<LibraryGroupSource>,
}

/// The rows of the sources of a group.
pub open spec fn sources_of(tables: GroupTables, id: i64) -> Seq<LibraryGroupSource> {
    if tables.sources.contains_key(id) {
        tables.sources[id]
    } else {
        Seq::empty()
    }
}

/// The spelling that the identifier of a virtual library is looked up in.
pub open spec fn spelled(virtual_id: Seq<char>) -> Seq<char> {
    normalized_id(trimmed(virtual_id))
}

/// Whether some group has the identifier of a virtual library.
pub open spec fn is_taken(tables: GroupTables, virtual_id: Seq<char>) -> bool {
    exists|id: i64| #[trigger]
        tables.groups.contains_key(id) && tables.groups[id].virtual_library_id@ == virtual_id
}

/// What holds of the rows: each group stands at its own identifier, no two groups are the same
/// virtual library, and virtual libraries have their identifiers in the spelling that they are
/// looked up in.
pub open spec fn are_sound_tables(tables: GroupTables) -> bool {
    &&& forall|id: i64| #[trigger]
        tables.groups.contains_key(id) ==> tables.groups[id].id == id && spelled(
            tables.groups[id].virtual_library_id@,
        ) == tables.groups[id].virtual_library_id@
    &&& forall|a: i64, b: i64|
        #![trigger tables.groups.contains_key(a), tables.groups.contains_key(b)]
        tables.groups.contains_key(a) && tables.groups.contains_key(b) && a != b
            ==> tables.groups[a].virtual_library_id@ != tables.groups[b].virtual_library_id@
}

// ---------------------------------------------------------------------------
// Reading
// ---------------------------------------------------------------------------

/// The group that a lookup by identifier gives.
pub open spec fn group_by_id(tables: GroupTables, id: i64) -> Option<StoredGroup> {
    if tables.groups.contains_key(id) {
        Some(StoredGroup { group: tables.groups[id], sources: sources_of(tables, id) })
    } else {
        None
    }
}

/// The group that a lookup by the identifier of its virtual library gives.
pub open spec fn group_by_virtual_id(tables: GroupTables, virtual_id: Seq<char>) -> Option<
    StoredGroup,
> {
    if is_taken(tables, spelled(virtual_id)) {
        let id = choose|id: i64| #[trigger]
            tables.groups.contains_key(id) && tables.groups[id].virtual_library_id@ == spelled(
                virtual_id,
            );
        group_by_id(tables, id)
    } else {
        None
    }
}

/// A stored source as values.
pub open spec fn stored_source(source: LibraryGroupSource) -> SourceView {
    SourceView {
        server_id: source.server_id,
        library_id: source.source_library_id@,
        library_name: source.source_library_name@,
        collection_type: source.source_collection_type@,
    }
}

/// Stored sources as values.
pub open spec fn stored_sources(sources: Seq<LibraryGroupSource>) -> Seq<SourceView> {
    sources.map_values(|source: LibraryGroupSource| stored_source(source))
}

// ---------------------------------------------------------------------------
// Writing
// ---------------------------------------------------------------------------

/// The row that is inserted for a new group, under the identifier that it is given.
pub open spec fn new_row(id: i64, new: NewGroup) -> LibraryGroup {
    LibraryGroup {
        id,
        virtual_library_id: new.virtual_library_id,
        name: new.draft.name,
        collection_type: new.draft.collection_type,
        preview_server_id: new.draft.preview_server_id,
        preview_library_id: new.draft.preview_library_id,
        created_at: new.draft.now,
        updated_at: new.draft.now,
    }
}

/// The row of a group with the columns of a draft written over it.
pub open spec fn changed_row(row: LibraryGroup, draft: GroupDraft) -> LibraryGroup {
    LibraryGroup {
        name: draft.name,
        collection_type: draft.collection_type,
        preview_server_id: draft.preview_server_id,
        preview_library_id: draft.preview_library_id,
        updated_at: draft.now,
        ..row
    }
}

/// The rows that are inserted for the sources of a draft, under the identifiers that they are
/// given.
pub open spec fn source_rows(id: i64, draft: GroupDraft, given: Seq<i64>) -> Seq<
    LibraryGroupSource,
> {
    draft.sources@.map(
        |i: int, source: NewLibraryGroupSource|
            LibraryGroupSource {
                id: given[i],
                library_group_id: id,
                server_id: source.server_id,
                source_library_id: source.source_library_id,
                source_library_name: source.source_library_name,
                source_collection_type: source.source_collection_type,
                created_at: draft.now,
                updated_at: draft.now,
            },
    )
}

/// The rows once a new group and its sources have been inserted.
pub open spec fn with_new_group(
    tables: GroupTables,
    id: i64,
    new: NewGroup,
    given: Seq<i64>,
) -> GroupTables {
    GroupTables {
        groups: tables.groups.insert(id, new_row(id, new)),
        sources: tables.sources.insert(
            id,
            sources_of(tables, id) + source_rows(id, new.draft, given),
        ),
    }
}

/// The rows once a group has been changed: its sources are deleted, and those of the draft are
/// inserted. Without such a group nothing is written.
pub open spec fn with_group_update(
    tables: GroupTables,
    update: GroupUpdate,
    given: Seq<i64>,
) -> GroupTables {
    if tables.groups.contains_key(update.id) {
        GroupTables {
            groups: tables.groups.insert(
                update.id,
                changed_row(tables.groups[update.id], update.draft),
            ),
            sources: tables.sources.insert(
                update.id,
                source_rows(update.id, update.draft, given),
            ),
        }
    } else {
        tables
    }
}

/// Whether the row of a group has been deleted. What becomes of the rows of its own sources is
/// left open; those of other groups stay.
pub open spec fn is_without_group(before: GroupTables, after: GroupTables, id: i64) -> bool {
    &&& after.groups == before.groups.remove(id)
    &&& forall|other: i64| other != id ==> #[trigger] sources_of(after, other) == sources_of(
        before,
        other,
    )
}

/// Whether a stored group is what a form with this name, this type and these sources comes to: the
/// name trimmed, the type normalized, each library of each server once, all with the time of
/// writing, and the first of them as the preview.
pub open spec fn is_group_of_form(
    stored: StoredGroup,
    name: Seq<char>,
    collection_type: Seq<char>,
    sources: Seq<SourceView>,
    now: i64,
) -> bool {
    &&& stored.group.name@ == trimmed(name)
    &&& stored.group.collection_type@ == normalized_type(collection_type)
    &&& stored.group.preview_server_id == cleaned(sources[0]).server_id
    &&& stored.group.preview_library_id@ == cleaned(sources[0]).library_id
    &&& stored.group.updated_at == now
    &&& stored_sources(stored.sources) == first_per_key(all_cleaned(sources), source_identity())
    &&& forall|i: int|
        0 <= i < stored.sources.len() ==> {
            &&& (#[trigger] stored.sources[i]).library_group_id == stored.group.id
            &&& stored.sources[i].created_at == now
            &&& stored.sources[i].updated_at == now
        }
}

// ---------------------------------------------------------------------------
// What is read back
// ---------------------------------------------------------------------------

proof fn lemma_found_by_virtual_id(tables: GroupTables, id: i64, virtual_id: Seq<char>)
    requires
        are_sound_tables(tables),
        tables.groups.contains_key(id),
        tables.groups[id].virtual_library_id@ == spelled(virtual_id),
    ensures
        group_by_virtual_id(tables, virtual_id) == group_by_id(tables, id),
{
    let chosen = choose|chosen: i64| #[trigger]
        tables.groups.contains_key(chosen) && tables.groups[chosen].virtual_library_id@ == spelled(
            virtual_id,
        );
    assert(tables.groups.contains_key(chosen));
    assert(chosen == id);
}

/// Two tables that differ in one group give the same answer about every virtual library that is
/// not that group's in either.
proof fn lemma_other_virtual_libraries_stay(
    before: GroupTables,
    after: GroupTables,
    id: i64,
    virtual_id: Seq<char>,
)
    requires
        are_sound_tables(before),
        are_sound_tables(after),
        forall|other: i64|
            other != id ==> #[trigger] group_by_id(after, other) == group_by_id(before, other),
        before.groups.contains_key(id) ==> before.groups[id].virtual_library_id@ != spelled(
            virtual_id,
        ),
        after.groups.contains_key(id) ==> after.groups[id].virtual_library_id@ != spelled(
            virtual_id,
        ),
    ensures
        group_by_virtual_id(after, virtual_id) == group_by_virtual_id(before, virtual_id),
{
    if is_taken(before, spelled(virtual_id)) {
        let holder = choose|holder: i64| #[trigger]
            before.groups.contains_key(holder) && before.groups[holder].virtual_library_id@
                == spelled(virtual_id);
        assert(group_by_id(after, holder) == group_by_id(before, holder));
        lemma_found_by_virtual_id(before, holder, virtual_id);
        lemma_found_by_virtual_id(after, holder, virtual_id);
    } else if is_taken(after, spelled(virtual_id)) {
        let holder = choose|holder: i64| #[trigger]
            after.groups.contains_key(holder) && after.groups[holder].virtual_library_id@
                == spelled(virtual_id);
        assert(group_by_id(after, holder) == group_by_id(before, holder));
        assert(before.groups.contains_key(holder));
    }
}

proof fn lemma_source_rows(id: i64, draft: GroupDraft, given: Seq<i64>)
    ensures
        stored_sources(source_rows(id, draft, given)) == source_views(draft.sources@),
        source_rows(id, draft, given).len() == draft.sources@.len(),
{
    assert(stored_sources(source_rows(id, draft, given)) =~= source_views(draft.sources@));
}

/// A new group is read back by its identifier and by every spelling of the identifier of its
/// virtual library: it is what the form comes to, made at the time of writing. Every other group
/// is read back as before.
pub proof fn a_new_group_is_read_back(
    tables: GroupTables,
    id: i64,
    new: NewGroup,
    given: Seq<i64>,
    name: Seq<char>,
    collection_type: Seq<char>,
    sources: Seq<SourceView>,
    now: i64,
    virtual_id: Seq<char>,
    other: i64,
)
    requires
        are_sound_tables(tables),
        group_by_id(tables, id) is None,
        sources_of(tables, id).len() == 0,
        is_draft_of(new.draft, name, collection_type, sources, now),
        spelled(new.virtual_library_id@) == new.virtual_library_id@,
        !is_taken(tables, new.virtual_library_id@),
    ensures
        ({
            let after = with_new_group(tables, id, new, given);
            &&& are_sound_tables(after)
            &&& group_by_id(after, id) is Some
            &&& (group_by_id(after, id)->0).group.id == id
            &&& (group_by_id(after, id)->0).group.virtual_library_id == new.virtual_library_id
            &&& (group_by_id(after, id)->0).group.created_at == now
            &&& is_group_of_form(group_by_id(after, id)->0, name, collection_type, sources, now)
            &&& group_by_virtual_id(after, virtual_id) == if spelled(virtual_id)
                == new.virtual_library_id@ {
                group_by_id(after, id)
            } else {
                group_by_virtual_id(tables, virtual_id)
            }
            &&& other != id ==> group_by_id(after, other) == group_by_id(tables, other)
        }),
{
    let after = with_new_group(tables, id, new, given);
    lemma_source_rows(id, new.draft, given);
    assert(sources_of(after, id) =~= source_rows(id, new.draft, given));
    assert forall|a: i64, b: i64|
        #![trigger after.groups.contains_key(a), after.groups.contains_key(b)]
        after.groups.contains_key(a) && after.groups.contains_key(b) && a
            != b implies after.groups[a].virtual_library_id@
        != after.groups[b].virtual_library_id@ by {
        assert(a == id || tables.groups.contains_key(a));
        assert(b == id || tables.groups.contains_key(b));
    }
    assert forall|a: i64| #[trigger] after.groups.contains_key(a) implies after.groups[a].id == a
        && spelled(after.groups[a].virtual_library_id@)
        == after.groups[a].virtual_library_id@ by {
        assert(a == id || tables.groups.contains_key(a));
    }
    if spelled(virtual_id) == new.virtual_library_id@ {
        lemma_found_by_virtual_id(after, id, virtual_id);
    } else {
        lemma_other_virtual_libraries_stay(tables, after, id, virtual_id);
    }
}

/// A changed group is what the form comes to, and keeps its identifier, its virtual library and
/// the time at which it was made; its sources are replaced. Every other group is read back as
/// before, and where there is no such group nothing changes.
pub proof fn a_changed_group_is_read_back(
    tables: GroupTables,
    update: GroupUpdate,
    given: Seq<i64>,
    name: Seq<char>,
    collection_type: Seq<char>,
    sources: Seq<SourceView>,
    now: i64,
    virtual_id: Seq<char>,
    other: i64,
)
    requires
        are_sound_tables(tables),
        is_draft_of(update.draft, name, collection_type, sources, now),
    ensures
        ({
            let after = with_group_update(tables, update, given);
            let found = group_by_id(tables, update.id);
            let changed = group_by_id(after, update.id);
            &&& are_sound_tables(after)
            &&& changed is Some <==> found is Some
            &&& if found is Some {
                &&& (changed->0).group.id == update.id
                &&& (changed->0).group.virtual_library_id == (found->0).group.virtual_library_id
                &&& (changed->0).group.created_at == (found->0).group.created_at
                &&& is_group_of_form(changed->0, name, collection_type, sources, now)
                &&& group_by_virtual_id(after, virtual_id) == if spelled(virtual_id)
                    == (found->0).group.virtual_library_id@ {
                    changed
                } else {
                    group_by_virtual_id(tables, virtual_id)
                }
            } else {
                after == tables
            }
            &&& other != update.id ==> group_by_id(after, other) == group_by_id(tables, other)
        }),
{
    let id = update.id;
    let after = with_group_update(tables, update, given);
    if tables.groups.contains_key(id) {
        lemma_source_rows(id, update.draft, given);
        assert forall|a: i64| #[trigger] after.groups.contains_key(a) implies after.groups[a].id
            == a && spelled(after.groups[a].virtual_library_id@)
            == after.groups[a].virtual_library_id@ by {
            assert(tables.groups.contains_key(a));
        }
        assert forall|a: i64, b: i64|
            #![trigger after.groups.contains_key(a), after.groups.contains_key(b)]
            after.groups.contains_key(a) && after.groups.contains_key(b) && a
                != b implies after.groups[a].virtual_library_id@
            != after.groups[b].virtual_library_id@ by {
            assert(tables.groups.contains_key(a) && tables.groups.contains_key(b));
        }
        if spelled(virtual_id) == tables.groups[id].virtual_library_id@ {
            lemma_found_by_virtual_id(after, id, virtual_id);
        } else {
            lemma_other_virtual_libraries_stay(tables, after, id, virtual_id);
        }
    }
}

/// A deleted group is read back neither by its identifier nor by any spelling of the identifier of
/// its virtual library. Every other group is read back as before.
pub proof fn a_deleted_group_is_gone(
    tables: GroupTables,
    after: GroupTables,
    id: i64,
    virtual_id: Seq<char>,
    other: i64,
)
    requires
        are_sound_tables(tables),
        is_without_group(tables, after, id),
    ensures
        are_sound_tables(after),
        group_by_id(after, id) is None,
        group_by_virtual_id(after, virtual_id) == if tables.groups.contains_key(id)
            && tables.groups[id].virtual_library_id@ == spelled(virtual_id) {
            None
        } else {
            group_by_virtual_id(tables, virtual_id)
        },
        other != id ==> group_by_id(after, other) == group_by_id(tables, other),
{
    assert forall|a: i64| #[trigger] after.groups.contains_key(a) implies after.groups[a].id == a
        && spelled(after.groups[a].virtual_library_id@)
        == after.groups[a].virtual_library_id@ by {
        assert(tables.groups.contains_key(a));
    }
    assert forall|a: i64, b: i64|
        #![trigger after.groups.contains_key(a), after.groups.contains_key(b)]
        after.groups.contains_key(a) && after.groups.contains_key(b) && a
            != b implies after.groups[a].virtual_library_id@
        != after.groups[b].virtual_library_id@ by {
        assert(tables.groups.contains_key(a) && tables.groups.contains_key(b));
    }
    if tables.groups.contains_key(id) && tables.groups[id].virtual_library_id@ == spelled(
        virtual_id,
    ) {
        if is_taken(after, spelled(virtual_id)) {
            let holder = choose|holder: i64| #[trigger]
                after.groups.contains_key(holder) && after.groups[holder].virtual_library_id@
                    == spelled(virtual_id);
            assert(tables.groups.contains_key(holder));
        }
    } else {
        lemma_other_virtual_libraries_stay(tables, after, id, virtual_id);
    }
}

/// The preview of a stored group is its first source, no library of a server is a source twice,
/// and every source is of the group's type.
pub proof fn a_stored_group_holds_together(
    stored: StoredGroup,
    name: Seq<char>,
    collection_type: Seq<char>,
    sources: Seq<SourceView>,
    now: i64,
)
    requires
        is_good_group(name, collection_type, sources),
        is_group_of_form(stored, name, collection_type, sources, now),
    ensures
        stored.sources.len() > 0,
        stored.group.preview_server_id == stored.sources[0].server_id,
        stored.group.preview_library_id@ == stored.sources[0].source_library_id@,
        forall|i: int, j: int|
            0 <= i < j < stored.sources.len() ==> (#[trigger] stored.sources[i]).server_id != (
            #[trigger] stored.sources[j]).server_id || stored.sources[i].source_library_id@
                != stored.sources[j].source_library_id@,
        forall|i: int|
            0 <= i < stored.sources.len() ==> (
            #[trigger] stored.sources[i]).source_collection_type@ == stored.group.collection_type@,
{
    let views = stored_sources(stored.sources);
    kept_sources_hold_together(normalized_type(collection_type), sources);
    assert(views.len() == stored.sources.len());
    assert(views[0] == stored_source(stored.sources[0]));
    assert forall|i: int, j: int| 0 <= i < j < stored.sources.len() implies (
    #[trigger] stored.sources[i]).server_id != (#[trigger] stored.sources[j]).server_id
        || stored.sources[i].source_library_id@ != stored.sources[j].source_library_id@ by {
        assert(views[i] == stored_source(stored.sources[i]));
        assert(views[j] == stored_source(stored.sources[j]));
    }
    assert forall|i: int| 0 <= i < stored.sources.len() implies (
    #[trigger] stored.sources[i]).source_collection_type@ == stored.group.collection_type@ by {
        assert(views[i] == stored_source(stored.sources[i]));
    }
}

} // verus!
