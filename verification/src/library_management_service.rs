//! Library groups: virtual libraries that are made of libraries on several servers.
//! The rules on names, collection types and sources, and the rows that a change writes.
use vstd::prelude::*;

use crate::ids::{
    normalize_id, normalized_id, simple_form, simple_form_needs_no_trimming, uuid_number,
};
use crate::order::{
    are_places, first_per_key, first_per_key_keeps_each_key_once, has_key, lemma_same_places,
    the_first_of_each_key_is_kept,
};
use crate::text::{
    ascii_lower, is_white, lowered, lowering_is_idempotent, same_text, to_lower, trim, trimmed,
    trimming_is_idempotent,
};

verus! {

/// The collection types that a group can have.
pub const ALLOWED_COLLECTION_TYPES: [&'static str; 12] = [
    "movies",
    "tvshows",
    "music",
    "musicvideos",
    "trailers",
    "homevideos",
    "boxsets",
    "books",
    "photos",
    "livetv",
    "playlists",
    "folders",
];

/// A group as it is stored. Times are microseconds since 1970.
#[derive(Debug, Clone)]
pub struct LibraryGroup {
    pub id: i64,
    pub virtual_library_id: String,
    pub name: String,
    pub collection_type: String,
    pub preview_server_id: i64,
    pub preview_library_id: String,
    pub created_at: i64,
    pub updated_at: i64,
}

/// A source library of a group as it is stored. Times are microseconds since 1970.
#[derive(Debug, Clone)]
pub struct LibraryGroupSource {
    pub id: i64,
    pub library_group_id: i64,
    pub server_id: i64,
    pub source_library_id: String,
    pub source_library_name: String,
    pub source_collection_type: String,
    pub created_at: i64,
    pub updated_at: i64,
}

/// A group with its sources, in the order in which they were stored.
#[derive(Debug, Clone)]
pub struct LibraryGroupWithSources {
    pub group: LibraryGroup,
    pub sources: Vec<LibraryGroupSource>,
}

/// A source library that is to be stored.
#[derive(Debug, Clone)]
pub struct NewLibraryGroupSource {
    pub server_id: i64,
    pub source_library_id: String,
    pub source_library_name: String,
    pub source_collection_type: String,
}

/// Where the pictures of a group come from.
#[derive(Debug, Clone)]
pub struct PreviewSourceResolution {
    pub group_id: i64,
    pub virtual_library_id: String,
    pub group_name: String,
    pub collection_type: String,
    pub preview_server_id: i64,
    pub preview_library_id: String,
}

/// Why a group cannot be stored.
#[derive(Debug, Clone, Copy, PartialEq, Eq, Structural)]
pub enum ValidationError {
    EmptyLibraryName,
    InvalidCollectionType,
    NoSources,
    EmptySourceId,
    EmptySourceName,
    EmptySourceType,
    SourceTypeMismatch,
}

impl ValidationError {
    /// The message that says so.
    pub open spec fn message_text(self) -> Seq<char> {
        match self {
            ValidationError::EmptyLibraryName => "Library name cannot be empty"@,
            ValidationError::InvalidCollectionType => "Invalid collection type"@,
            ValidationError::NoSources => "At least one source library is required"@,
            ValidationError::EmptySourceId => "Source library ID cannot be empty"@,
            ValidationError::EmptySourceName => "Source library name cannot be empty"@,
            ValidationError::EmptySourceType => "Source collection type cannot be empty"@,
            ValidationError::SourceTypeMismatch =>
                "Source collection type must match group collection type"@,
        }
    }

    /// The message that says so.
    pub fn message(&self) -> (r: &'static str)
        ensures
            r@ == self.message_text(),
    {
        match self {
            ValidationError::EmptyLibraryName => "Library name cannot be empty",
            ValidationError::InvalidCollectionType => "Invalid collection type",
            ValidationError::NoSources => "At least one source library is required",
            ValidationError::EmptySourceId => "Source library ID cannot be empty",
            ValidationError::EmptySourceName => "Source library name cannot be empty",
            ValidationError::EmptySourceType => "Source collection type cannot be empty",
            ValidationError::SourceTypeMismatch =>
                "Source collection type must match group collection type",
        }
    }
}

// ---------------------------------------------------------------------------
// Collection types
// ---------------------------------------------------------------------------

/// The collection types that a group can have, as texts.
pub open spec fn allowed_types() -> Seq<Seq<char>> {
    ALLOWED_COLLECTION_TYPES@.map_values(|t: &'static str| t@)
}

/// A collection type as it is stored: trimmed, in small letters.
pub open spec fn normalized_type(value: Seq<char>) -> Seq<char> {
    lowered(trimmed(value))
}

/// Whether a collection type is allowed once it is normalized.
pub open spec fn is_valid_type(value: Seq<char>) -> bool {
    allowed_types().contains(normalized_type(value))
}

/// Normalizing a collection type twice is normalizing it once.
pub proof fn normalizing_a_type_is_idempotent(value: Seq<char>)
    ensures
        normalized_type(normalized_type(value)) == normalized_type(value),
        is_valid_type(normalized_type(value)) == is_valid_type(value),
{
    let s = trimmed(value);
    trimming_is_idempotent(value);
    lowering_is_idempotent(s);
    assert(forall|c: char| is_white(#[trigger] ascii_lower(c)) == is_white(c));
    if s.len() > 0 {
        assert(lowered(s)[0] == ascii_lower(s[0]));
        assert(lowered(s).last() == ascii_lower(s.last()));
    }
    assert(trimmed(lowered(s)) == lowered(s));
}

// ---------------------------------------------------------------------------
// Sources
// ---------------------------------------------------------------------------

/// A source library that is to be stored, as values.
#[verifier::ext_equal]
pub struct SourceView {
    pub server_id: i64,
    pub library_id: Seq<char>,
    pub library_name: Seq<char>,
    pub collection_type: Seq<char>,
}

impl View for NewLibraryGroupSource {
    type V = SourceView;

    open spec fn view(&self) -> SourceView {
        SourceView {
            server_id: self.server_id,
            library_id: self.source_library_id@,
            library_name: self.source_library_name@,
            collection_type: self.source_collection_type@,
        }
    }
}

/// Source libraries as values.
pub open spec fn source_views(sources: Seq<NewLibraryGroupSource>) -> Seq<SourceView> {
    sources.map_values(|s: NewLibraryGroupSource| s@)
}

/// A source as it is stored: its texts trimmed and its collection type normalized.
pub open spec fn cleaned(source: SourceView) -> SourceView {
    SourceView {
        server_id: source.server_id,
        library_id: trimmed(source.library_id),
        library_name: trimmed(source.library_name),
        collection_type: normalized_type(source.collection_type),
    }
}

/// Sources as they are stored.
pub open spec fn all_cleaned(sources: Seq<SourceView>) -> Seq<SourceView> {
    sources.map_values(|s: SourceView| cleaned(s))
}

/// What tells sources apart: the server and the library on it.
pub open spec fn source_identity() -> spec_fn(SourceView) -> (i64, Seq<char>) {
    |s: SourceView| (s.server_id, s.library_id)
}

/// Why a source cannot be part of a group with the collection type `group_type`.
pub open spec fn source_problem(group_type: Seq<char>, source: SourceView) -> Option<
    ValidationError,
> {
    let clean = cleaned(source);
    if clean.library_id.len() == 0 {
        Some(ValidationError::EmptySourceId)
    } else if clean.library_name.len() == 0 {
        Some(ValidationError::EmptySourceName)
    } else if clean.collection_type.len() == 0 {
        Some(ValidationError::EmptySourceType)
    } else if clean.collection_type != group_type {
        Some(ValidationError::SourceTypeMismatch)
    } else {
        None
    }
}

/// Whether `error` is what is wrong with `sources`: there are none, or it is the problem of the
/// first source that has one.
pub open spec fn is_sources_problem(
    group_type: Seq<char>,
    sources: Seq<SourceView>,
    error: ValidationError,
) -> bool {
    ||| sources.len() == 0 && error == ValidationError::NoSources
    ||| exists|i: int|
        {
            &&& 0 <= i < sources.len()
            &&& source_problem(group_type, #[trigger] sources[i]) == Some(error)
            &&& forall|k: int|
                0 <= k < i ==> source_problem(group_type, #[trigger] sources[k]) is None
        }
}

/// Whether there are sources, and none of them has a problem.
pub open spec fn are_good_sources(group_type: Seq<char>, sources: Seq<SourceView>) -> bool {
    &&& sources.len() > 0
    &&& forall|i: int|
        0 <= i < sources.len() ==> source_problem(group_type, #[trigger] sources[i]) is None
}

/// The sources of a group as they are stored: cleaned, each library of each server once.
pub fn normalize_sources(
    normalized_collection_type: &str,
    sources: Vec<NewLibraryGroupSource>,
) -> (r: Result<Vec<NewLibraryGroupSource>, ValidationError>)
    ensures
        match r {
            Ok(out) => {
                &&& are_good_sources(normalized_collection_type@, source_views(sources@))
                &&& source_views(out@) == first_per_key(
                    all_cleaned(source_views(sources@)),
                    source_identity(),
                )
            },
            Err(error) => is_sources_problem(
                normalized_collection_type@,
                source_views(sources@),
                error,
            ),
        },
{
    let ghost all = source_views(sources@);
    if sources.len() == 0 {
        return Err(ValidationError::NoSources);
    }
    let mut out: Vec<NewLibraryGroupSource> = Vec::new();
    let mut i: usize = 0;
    assert(source_views(out@) =~= first_per_key(all_cleaned(all).take(0), source_identity()));
    while i < sources.len()
        invariant
            i <= sources@.len(),
            all == source_views(sources@),
            forall|k: int|
                0 <= k < i ==> source_problem(normalized_collection_type@, #[trigger] all[k])
                    is None,
            source_views(out@) == first_per_key(
                all_cleaned(all).take(i as int),
                source_identity(),
            ),
        decreases sources@.len() - i,
    {
        let source: &NewLibraryGroupSource = &sources[i];
        let source_library_id: String = trim(source.source_library_id.as_str());
        let source_library_name: String = trim(source.source_library_name.as_str());
        let source_collection_type: String = LibraryManagementService::normalize_collection_type(
            source.source_collection_type.as_str(),
        );
        let ghost clean = cleaned(all[i as int]);
        if source_library_id.as_str().is_empty() {
            assert(source_problem(normalized_collection_type@, all[i as int]) is Some);
            return Err(ValidationError::EmptySourceId);
        }
        if source_library_name.as_str().is_empty() {
            assert(source_problem(normalized_collection_type@, all[i as int]) is Some);
            return Err(ValidationError::EmptySourceName);
        }
        if source_collection_type.as_str().is_empty() {
            assert(source_problem(normalized_collection_type@, all[i as int]) is Some);
            return Err(ValidationError::EmptySourceType);
        }
        if !same_text(source_collection_type.as_str(), normalized_collection_type) {
            assert(source_problem(normalized_collection_type@, all[i as int]) is Some);
            return Err(ValidationError::SourceTypeMismatch);
        }
        let ghost done = all_cleaned(all).take(i as int);
        let known: bool = is_known_source(&out, source.server_id, &source_library_id);
        proof {
            first_per_key_keeps_each_key_once(done, source_identity());
            assert(known == has_key(
                first_per_key(done, source_identity()),
                source_identity(),
                source_identity()(clean),
            ));
            assert(all_cleaned(all).take(i + 1).drop_last() == done);
        }
        let ghost before = out@;
        if !known {
            let fresh: NewLibraryGroupSource = NewLibraryGroupSource {
                server_id: source.server_id,
                source_library_id,
                source_library_name,
                source_collection_type,
            };
            assert(fresh@ == clean);
            out.push(fresh);
            assert(source_views(out@) =~= source_views(before).push(clean));
        }
        i += 1;
    }
    assert(all_cleaned(all).take(i as int) == all_cleaned(all));
    Ok(out)
}

fn is_known_source(
    sources: &Vec<NewLibraryGroupSource>,
    server_id: i64,
    library_id: &String,
) -> (r: bool)
    ensures
        r == has_key(source_views(sources@), source_identity(), (server_id, library_id@)),
{
    let mut i: usize = 0;
    while i < sources.len()
        invariant
            i <= sources@.len(),
            forall|k: int|
                0 <= k < i ==> source_identity()(#[trigger] source_views(sources@)[k]) != (
                    server_id,
                    library_id@,
                ),
        decreases sources@.len() - i,
    {
        let here: bool = sources[i].server_id == server_id && sources[i].source_library_id
            == *library_id;
        assert(source_views(sources@)[i as int] == sources@[i as int]@);
        if here {
            assert(source_identity()(source_views(sources@)[i as int]) == (server_id, library_id@));
            return true;
        }
        i += 1;
    }
    false
}

/// Sources that were accepted are accepted again, and come out as they are.
pub proof fn normalizing_sources_is_idempotent(group_type: Seq<char>, sources: Seq<SourceView>)
    requires
        are_good_sources(group_type, sources),
    ensures
        are_good_sources(
            group_type,
            first_per_key(all_cleaned(sources), source_identity()),
        ),
        all_cleaned(first_per_key(all_cleaned(sources), source_identity())) == first_per_key(
            all_cleaned(sources),
            source_identity(),
        ),
        first_per_key(
            first_per_key(all_cleaned(sources), source_identity()),
            source_identity(),
        ) == first_per_key(all_cleaned(sources), source_identity()),
{
    let clean = all_cleaned(sources);
    let out = first_per_key(clean, source_identity());
    first_per_key_keeps_each_key_once(clean, source_identity());
    assert forall|i: int| 0 <= i < out.len() implies cleaned(#[trigger] out[i]) == out[i]
        && source_problem(group_type, out[i]) is None by {
        assert(clean.contains(out[i]));
        let k = choose|k: int| 0 <= k < clean.len() && clean[k] == out[i];
        assert(clean[k] == cleaned(sources[k]));
        assert(source_problem(group_type, sources[k]) is None);
        trimming_is_idempotent(sources[k].library_id);
        trimming_is_idempotent(sources[k].library_name);
        normalizing_a_type_is_idempotent(sources[k].collection_type);
        assert(cleaned(out[i]) =~= out[i]);
    }
    assert(all_cleaned(out) =~= out);
    assert forall|i: int, j: int| 0 <= i < j < out.len() implies source_identity()(
        #[trigger] out[i],
    ) != source_identity()(#[trigger] out[j]) by {}
    lemma_distinct_keys_all_kept(out);
}

proof fn lemma_distinct_keys_all_kept(s: Seq<SourceView>)
    requires
        forall|i: int, j: int|
            0 <= i < j < s.len() ==> source_identity()(#[trigger] s[i]) != source_identity()(
                #[trigger] s[j],
            ),
    ensures
        first_per_key(s, source_identity()) == s,
    decreases s.len(),
{
    if s.len() > 0 {
        let rest = s.drop_last();
        assert forall|i: int, j: int| 0 <= i < j < rest.len() implies source_identity()(
            #[trigger] rest[i],
        ) != source_identity()(#[trigger] rest[j]) by {
            assert(rest[i] == s[i] && rest[j] == s[j]);
        }
        lemma_distinct_keys_all_kept(rest);
        if has_key(rest, source_identity(), source_identity()(s.last())) {
            let i = choose|i: int|
                0 <= i < rest.len() && source_identity()(#[trigger] rest[i]) == source_identity()(
                    s.last(),
                );
            assert(source_identity()(s[i]) == source_identity()(s[s.len() - 1]));
        }
        assert(rest.push(s.last()) =~= s);
    }
}

// ---------------------------------------------------------------------------
// Rows
// ---------------------------------------------------------------------------

/// What is written for a group, whether it is new or changed. The times of the group and of its
/// sources are `now`, microseconds since 1970.
#[derive(Debug)]
pub struct GroupDraft {
    pub name: String,
    pub collection_type: String,
    pub preview_server_id: i64,
    pub preview_library_id: String,
    pub sources: Vec<NewLibraryGroupSource>,
    pub now: i64,
}

/// What is inserted for a new group.
#[derive(Debug)]
pub struct NewGroup {
    pub virtual_library_id: String,
    pub draft: GroupDraft,
}

/// What is written over the group `id`.
#[derive(Debug)]
pub struct GroupUpdate {
    pub id: i64,
    pub draft: GroupDraft,
}

/// What follows on the update of a group.
#[derive(Debug, Clone, Copy, PartialEq, Eq, Structural)]
pub enum UpdateStep {
    /// There is no such group: nothing is written.
    RollBack,
    /// The sources of the group are deleted, and those of the draft are inserted.
    ReplaceSources,
}

/// Whether the draft is what is written for the given name, type and sources: the name trimmed,
/// the type normalized, the sources as they are stored, and the first of them as the preview.
pub open spec fn is_draft_of(
    draft: GroupDraft,
    name: Seq<char>,
    collection_type: Seq<char>,
    sources: Seq<SourceView>,
    now: i64,
) -> bool {
    &&& draft.name@ == trimmed(name)
    &&& draft.collection_type@ == normalized_type(collection_type)
    &&& source_views(draft.sources@) == first_per_key(all_cleaned(sources), source_identity())
    &&& draft.preview_server_id == cleaned(sources[0]).server_id
    &&& draft.preview_library_id@ == cleaned(sources[0]).library_id
    &&& draft.now == now
}

/// Whether a group can be stored.
pub open spec fn is_good_group(
    name: Seq<char>,
    collection_type: Seq<char>,
    sources: Seq<SourceView>,
) -> bool {
    &&& trimmed(name).len() > 0
    &&& is_valid_type(collection_type)
    &&& are_good_sources(normalized_type(collection_type), sources)
}

/// Whether `error` is why a group cannot be stored. The name is looked at first, then the
/// collection type, then the sources.
pub open spec fn is_group_problem(
    name: Seq<char>,
    collection_type: Seq<char>,
    sources: Seq<SourceView>,
    error: ValidationError,
) -> bool {
    if trimmed(name).len() == 0 {
        error == ValidationError::EmptyLibraryName
    } else if !is_valid_type(collection_type) {
        error == ValidationError::InvalidCollectionType
    } else {
        is_sources_problem(normalized_type(collection_type), sources, error)
    }
}

/// A group is stored or refused, never both, and it is refused for one reason.
pub proof fn a_group_is_stored_or_refused_for_one_reason(
    name: Seq<char>,
    collection_type: Seq<char>,
    sources: Seq<SourceView>,
    one: ValidationError,
    other: ValidationError,
)
    ensures
        is_good_group(name, collection_type, sources) ==> !is_group_problem(
            name,
            collection_type,
            sources,
            one,
        ),
        is_group_problem(name, collection_type, sources, one) && is_group_problem(
            name,
            collection_type,
            sources,
            other,
        ) ==> one == other,
{
    let group_type = normalized_type(collection_type);
    if is_sources_problem(group_type, sources, one) && is_sources_problem(
        group_type,
        sources,
        other,
    ) && sources.len() > 0 {
        let i = choose|i: int|
            {
                &&& 0 <= i < sources.len()
                &&& source_problem(group_type, #[trigger] sources[i]) == Some(one)
                &&& forall|k: int|
                    0 <= k < i ==> source_problem(group_type, #[trigger] sources[k]) is None
            };
        let j = choose|i: int|
            {
                &&& 0 <= i < sources.len()
                &&& source_problem(group_type, #[trigger] sources[i]) == Some(other)
                &&& forall|k: int|
                    0 <= k < i ==> source_problem(group_type, #[trigger] sources[k]) is None
            };
        assert(i == j);
    }
}

/// The sources that are kept of good ones begin with the first, no library of a server is among
/// them twice, and every one is of the group's type.
pub proof fn kept_sources_hold_together(group_type: Seq<char>, sources: Seq<SourceView>)
    requires
        are_good_sources(group_type, sources),
    ensures
        ({
            let kept = first_per_key(all_cleaned(sources), source_identity());
            &&& kept.len() > 0
            &&& kept[0] == cleaned(sources[0])
            &&& forall|i: int, j: int|
                0 <= i < j < kept.len() ==> (#[trigger] kept[i]).server_id != (
                #[trigger] kept[j]).server_id || kept[i].library_id != kept[j].library_id
            &&& forall|i: int|
                0 <= i < kept.len() ==> (#[trigger] kept[i]).collection_type == group_type
        }),
{
    let clean = all_cleaned(sources);
    let kept = first_per_key(clean, source_identity());
    first_per_key_keeps_each_key_once(clean, source_identity());
    assert(clean[0] == cleaned(sources[0]));
    assert forall|i: int, j: int| 0 <= i < j < kept.len() implies (#[trigger] kept[i]).server_id
        != (#[trigger] kept[j]).server_id || kept[i].library_id != kept[j].library_id by {
        assert(source_identity()(kept[i]) != source_identity()(kept[j]));
    }
    assert forall|i: int| 0 <= i < kept.len() implies (#[trigger] kept[i]).collection_type
        == group_type by {
        assert(clean.contains(kept[i]));
        let k = choose|k: int| 0 <= k < clean.len() && clean[k] == kept[i];
        assert(clean[k] == cleaned(sources[k]));
        assert(source_problem(group_type, sources[k]) is None);
    }
}

/// What is stored for a group holds together: its preview is its first source, no library of a
/// server is a source twice, and every source is of the group's type.
pub proof fn what_is_stored_for_a_group_holds_together(
    draft: GroupDraft,
    name: Seq<char>,
    collection_type: Seq<char>,
    sources: Seq<SourceView>,
    now: i64,
)
    requires
        is_good_group(name, collection_type, sources),
        is_draft_of(draft, name, collection_type, sources, now),
    ensures
        draft.sources@.len() > 0,
        draft.preview_server_id == draft.sources@[0].server_id,
        draft.preview_library_id@ == draft.sources@[0].source_library_id@,
        forall|i: int, j: int|
            0 <= i < j < draft.sources@.len() ==> (#[trigger] draft.sources@[i]).server_id != (
            #[trigger] draft.sources@[j]).server_id || draft.sources@[i].source_library_id@
                != draft.sources@[j].source_library_id@,
        forall|i: int|
            0 <= i < draft.sources@.len() ==> (
            #[trigger] draft.sources@[i]).source_collection_type@ == draft.collection_type@,
{
    let views = source_views(draft.sources@);
    kept_sources_hold_together(normalized_type(collection_type), sources);
    assert(views.len() == draft.sources@.len());
    assert(views[0] == draft.sources@[0]@);
    assert forall|i: int, j: int| 0 <= i < j < draft.sources@.len() implies (
    #[trigger] draft.sources@[i]).server_id != (#[trigger] draft.sources@[j]).server_id
        || draft.sources@[i].source_library_id@ != draft.sources@[j].source_library_id@ by {
        assert(views[i] == draft.sources@[i]@);
        assert(views[j] == draft.sources@[j]@);
    }
    assert forall|i: int| 0 <= i < draft.sources@.len() implies (
    #[trigger] draft.sources@[i]).source_collection_type@ == draft.collection_type@ by {
        assert(views[i] == draft.sources@[i]@);
    }
}

fn draft_group(
    name: &str,
    collection_type: &str,
    sources: Vec<NewLibraryGroupSource>,
    now: i64,
) -> (r: Result<GroupDraft, ValidationError>)
    ensures
        match r {
            Ok(draft) => {
                &&& is_good_group(name@, collection_type@, source_views(sources@))
                &&& is_draft_of(draft, name@, collection_type@, source_views(sources@), now)
            },
            Err(error) => is_group_problem(
                name@,
                collection_type@,
                source_views(sources@),
                error,
            ),
        },
{
    let ghost all = source_views(sources@);
    let normalized_name: String = trim(name);
    if normalized_name.as_str().is_empty() {
        return Err(ValidationError::EmptyLibraryName);
    }
    let normalized_collection_type: String = LibraryManagementService::normalize_collection_type(
        collection_type,
    );
    proof {
        normalizing_a_type_is_idempotent(collection_type@);
    }
    if !LibraryManagementService::is_valid_collection_type(normalized_collection_type.as_str()) {
        return Err(ValidationError::InvalidCollectionType);
    }
    match normalize_sources(normalized_collection_type.as_str(), sources) {
        Ok(deduped_sources) => {
            proof {
                first_per_key_keeps_each_key_once(all_cleaned(all), source_identity());
                assert(source_views(deduped_sources@)[0] == all_cleaned(all)[0]);
                assert(deduped_sources@.len() == source_views(deduped_sources@).len());
            }
            let preview_server_id: i64 = deduped_sources[0].server_id;
            let preview_library_id: String = deduped_sources[0].source_library_id.clone();
            Ok(
                GroupDraft {
                    name: normalized_name,
                    collection_type: normalized_collection_type,
                    preview_server_id,
                    preview_library_id,
                    sources: deduped_sources,
                    now,
                },
            )
        },
        Err(error) => Err(error),
    }
}

// ---------------------------------------------------------------------------
// The service
// ---------------------------------------------------------------------------

/// The rules on library groups. Reading and writing the rows is up to the caller.
#[derive(Debug, Clone, Copy)]
pub struct LibraryManagementService {}

impl LibraryManagementService {
    /// The collection types that a group can have.
    pub fn allowed_collection_types() -> (r: &'static [&'static str])
        ensures
            r@ == ALLOWED_COLLECTION_TYPES@,
            r@.map_values(|t: &'static str| t@) == allowed_types(),
    {
        &ALLOWED_COLLECTION_TYPES
    }

    /// A collection type as it is stored: trimmed, in small letters.
    pub fn normalize_collection_type(value: &str) -> (r: String)
        ensures
            r@ == normalized_type(value@),
    {
        let trimmed_value: String = trim(value);
        to_lower(trimmed_value.as_str())
    }

    /// Whether a collection type is allowed once it is normalized.
    pub fn is_valid_collection_type(value: &str) -> (r: bool)
        ensures
            r == is_valid_type(value@),
    {
        let normalized: String = Self::normalize_collection_type(value);
        let allowed: &[&'static str] = Self::allowed_collection_types();
        let mut i: usize = 0;
        while i < allowed.len()
            invariant
                i <= allowed@.len(),
                normalized@ == normalized_type(value@),
                allowed@.map_values(|t: &'static str| t@) == allowed_types(),
                forall|k: int| 0 <= k < i ==> allowed_types()[k] != normalized@,
            decreases allowed@.len() - i,
        {
            assert(allowed_types()[i as int] == allowed@[i as int]@);
            if same_text(allowed[i], normalized.as_str()) {
                return true;
            }
            i += 1;
        }
        false
    }

    /// The stored spelling of the identifier of a virtual library. Spelling it again changes nothing.
    pub fn normalize_virtual_id(value: &str) -> (r: String)
        ensures
            r@ == normalized_id(trimmed(value@)),
            normalized_id(trimmed(r@)) == r@,
    {
        let trimmed_value: String = trim(value);
        let out: String = normalize_id(trimmed_value.as_str());
        proof {
            trimming_is_idempotent(value@);
            if let Some(n) = uuid_number(trimmed(value@)) {
                simple_form_needs_no_trimming(n);
                assert(out@ == simple_form(n));
            }
        }
        out
    }

    /// What is inserted for a new group with the identifier `virtual_library_id`.
    pub fn create_group(
        name: &str,
        collection_type: &str,
        sources: Vec<NewLibraryGroupSource>,
        virtual_library_id: String,
        now: i64,
    ) -> (r: Result<NewGroup, ValidationError>)
        ensures
            match r {
                Ok(group) => {
                    &&& is_good_group(name@, collection_type@, source_views(sources@))
                    &&& group.virtual_library_id == virtual_library_id
                    &&& is_draft_of(
                        group.draft,
                        name@,
                        collection_type@,
                        source_views(sources@),
                        now,
                    )
                },
                Err(error) => is_group_problem(
                    name@,
                    collection_type@,
                    source_views(sources@),
                    error,
                ),
            },
    {
        match draft_group(name, collection_type, sources, now) {
            Ok(draft) => Ok(NewGroup { virtual_library_id, draft }),
            Err(error) => Err(error),
        }
    }

    /// What is written over the group `id`.
    pub fn update_group(
        id: i64,
        name: &str,
        collection_type: &str,
        sources: Vec<NewLibraryGroupSource>,
        now: i64,
    ) -> (r: Result<GroupUpdate, ValidationError>)
        ensures
            match r {
                Ok(update) => {
                    &&& is_good_group(name@, collection_type@, source_views(sources@))
                    &&& update.id == id
                    &&& is_draft_of(
                        update.draft,
                        name@,
                        collection_type@,
                        source_views(sources@),
                        now,
                    )
                },
                Err(error) => is_group_problem(
                    name@,
                    collection_type@,
                    source_views(sources@),
                    error,
                ),
            },
    {
        match draft_group(name, collection_type, sources, now) {
            Ok(draft) => Ok(GroupUpdate { id, draft }),
            Err(error) => Err(error),
        }
    }

    /// What follows on an update, going by the number of groups that it has changed.
    pub fn after_update(rows_affected: u64) -> (r: UpdateStep)
        ensures
            r == if rows_affected == 0 {
                UpdateStep::RollBack
            } else {
                UpdateStep::ReplaceSources
            },
    {
        if rows_affected == 0 {
            UpdateStep::RollBack
        } else {
            UpdateStep::ReplaceSources
        }
    }

    /// Whether a group was there to delete, going by the number of rows that were deleted.
    pub fn delete_group(rows_affected: u64) -> (r: bool)
        ensures
            r == (rows_affected > 0),
    {
        rows_affected > 0
    }
}

// ---------------------------------------------------------------------------
// What is allowed, and what is stored
// ---------------------------------------------------------------------------

/// The allowed collection types are these twelve, and no other.
pub proof fn the_allowed_types_are_known(value: Seq<char>)
    ensures
        allowed_types().len() == 12,
        allowed_types().contains(value) <==> {
            ||| value == "movies"@
            ||| value == "tvshows"@
            ||| value == "music"@
            ||| value == "musicvideos"@
            ||| value == "trailers"@
            ||| value == "homevideos"@
            ||| value == "boxsets"@
            ||| value == "books"@
            ||| value == "photos"@
            ||| value == "livetv"@
            ||| value == "playlists"@
            ||| value == "folders"@
        },
        allowed_types() == seq![
            "movies"@,
            "tvshows"@,
            "music"@,
            "musicvideos"@,
            "trailers"@,
            "homevideos"@,
            "boxsets"@,
            "books"@,
            "photos"@,
            "livetv"@,
            "playlists"@,
            "folders"@,
        ],
        is_valid_type(value) <==> allowed_types().contains(lowered(trimmed(value))),
{
    let all = seq![
        "movies"@,
        "tvshows"@,
        "music"@,
        "musicvideos"@,
        "trailers"@,
        "homevideos"@,
        "boxsets"@,
        "books"@,
        "photos"@,
        "livetv"@,
        "playlists"@,
        "folders"@,
    ];
    assert(allowed_types() =~= all);
    assert(all[0] == "movies"@ && all[1] == "tvshows"@ && all[2] == "music"@ && all[3]
        == "musicvideos"@ && all[4] == "trailers"@ && all[5] == "homevideos"@ && all[6]
        == "boxsets"@ && all[7] == "books"@ && all[8] == "photos"@ && all[9] == "livetv"@
        && all[10] == "playlists"@ && all[11] == "folders"@);
    if all.contains(value) {
        let i = choose|i: int| 0 <= i < all.len() && all[i] == value;
    }
}

/// Whether two sources are the same library of the same server, white space around the identifiers
/// aside.
pub open spec fn are_same_library(a: SourceView, b: SourceView) -> bool {
    a.server_id == b.server_id && trimmed(a.library_id) == trimmed(b.library_id)
}

/// Of the sources that are given every one is stored whose library is not given earlier, in the
/// order in which they are given: with its texts trimmed and its type in small letters.
pub proof fn each_library_is_stored_as_it_is_first_given(sources: Seq<SourceView>) -> (places: Seq<
    int,
>)
    ensures
        are_places(
            places,
            sources.len() as int,
            |k: int|
                forall|m: int|
                    0 <= m < k ==> !are_same_library(#[trigger] sources[m], sources[k]),
        ),
        ({
            let kept = first_per_key(all_cleaned(sources), source_identity());
            &&& kept.len() == places.len()
            &&& forall|i: int|
                0 <= i < places.len() ==> {
                    let given = sources[#[trigger] places[i]];
                    &&& 0 <= places[i] < sources.len()
                    &&& kept[i].server_id == given.server_id
                    &&& kept[i].library_id == trimmed(given.library_id)
                    &&& kept[i].library_name == trimmed(given.library_name)
                    &&& kept[i].collection_type == lowered(trimmed(given.collection_type))
                }
        }),
{
    let clean = all_cleaned(sources);
    let identity = source_identity();
    let places = the_first_of_each_key_is_kept(clean, identity);
    let before = |k: int| forall|m: int| 0 <= m < k ==> identity(#[trigger] clean[m]) != identity(
        clean[k],
    );
    let chosen = |k: int|
        forall|m: int| 0 <= m < k ==> !are_same_library(#[trigger] sources[m], sources[k]);
    assert forall|k: int| 0 <= k < sources.len() implies #[trigger] before(k) == chosen(k) by {
        assert(clean[k] == cleaned(sources[k]));
        if before(k) {
            assert forall|m: int| 0 <= m < k implies !are_same_library(
                #[trigger] sources[m],
                sources[k],
            ) by {
                assert(clean[m] == cleaned(sources[m]));
                assert(identity(clean[m]) != identity(clean[k]));
            }
        }
        if chosen(k) {
            assert forall|m: int| 0 <= m < k implies identity(#[trigger] clean[m]) != identity(
                clean[k],
            ) by {
                assert(clean[m] == cleaned(sources[m]));
                assert(!are_same_library(sources[m], sources[k]));
            }
        }
    }
    lemma_same_places(places, sources.len() as int, before, chosen);
    places
}

/// A source is refused for no identifier first, then for no name, then for no type, white space
/// aside, and then for a type that is not the group's; else it is good.
pub proof fn a_source_is_refused_for_its_first_fault(group_type: Seq<char>, source: SourceView)
    ensures
        source_problem(group_type, source) == if trimmed(source.library_id).len() == 0 {
            Some(ValidationError::EmptySourceId)
        } else if trimmed(source.library_name).len() == 0 {
            Some(ValidationError::EmptySourceName)
        } else if trimmed(source.collection_type).len() == 0 {
            Some(ValidationError::EmptySourceType)
        } else if lowered(trimmed(source.collection_type)) != group_type {
            Some(ValidationError::SourceTypeMismatch)
        } else {
            None
        },
{
    assert(lowered(trimmed(source.collection_type)).len() == trimmed(source.collection_type).len());
}

/// A group can be stored exactly where its name is not blank, its type is allowed, it has a source
/// and every source is good; and there is a fault to tell exactly where it cannot.
pub proof fn a_group_is_stored_where_nothing_is_wrong(
    name: Seq<char>,
    collection_type: Seq<char>,
    sources: Seq<SourceView>,
) -> (fault: Option<ValidationError>)
    ensures
        is_good_group(name, collection_type, sources) <==> {
            &&& trimmed(name).len() > 0
            &&& allowed_types().contains(lowered(trimmed(collection_type)))
            &&& sources.len() > 0
            &&& forall|i: int|
                0 <= i < sources.len() ==> source_problem(
                    lowered(trimmed(collection_type)),
                    #[trigger] sources[i],
                ) is None
        },
        fault is None <==> is_good_group(name, collection_type, sources),
        fault is Some ==> is_group_problem(name, collection_type, sources, fault->0),
        trimmed(name).len() == 0 ==> fault == Some(ValidationError::EmptyLibraryName),
        trimmed(name).len() > 0 && !allowed_types().contains(lowered(trimmed(collection_type)))
            ==> fault == Some(ValidationError::InvalidCollectionType),
        trimmed(name).len() > 0 && allowed_types().contains(lowered(trimmed(collection_type)))
            && sources.len() == 0 ==> fault == Some(ValidationError::NoSources),
        trimmed(name).len() > 0 && allowed_types().contains(lowered(trimmed(collection_type)))
            && sources.len() > 0 && fault is Some ==> exists|i: int|
            {
                &&& 0 <= i < sources.len()
                &&& source_problem(
                    lowered(trimmed(collection_type)),
                    #[trigger] sources[i],
                ) == fault
                &&& forall|k: int|
                    0 <= k < i ==> source_problem(
                        lowered(trimmed(collection_type)),
                        #[trigger] sources[k],
                    ) is None
            },
{
    let group_type = lowered(trimmed(collection_type));
    if trimmed(name).len() == 0 {
        Some(ValidationError::EmptyLibraryName)
    } else if !allowed_types().contains(group_type) {
        Some(ValidationError::InvalidCollectionType)
    } else if sources.len() == 0 {
        Some(ValidationError::NoSources)
    } else if are_good_sources(group_type, sources) {
        None
    } else {
        let i = lemma_first_bad_source(group_type, sources);
        source_problem(group_type, sources[i])
    }
}

proof fn lemma_first_bad_source(group_type: Seq<char>, sources: Seq<SourceView>) -> (i: int)
    requires
        sources.len() > 0,
        !are_good_sources(group_type, sources),
    ensures
        0 <= i < sources.len(),
        source_problem(group_type, sources[i]) is Some,
        forall|k: int| 0 <= k < i ==> source_problem(group_type, #[trigger] sources[k]) is None,
    decreases sources.len(),
{
    let rest = sources.drop_last();
    assert(forall|k: int| 0 <= k < rest.len() ==> #[trigger] rest[k] == sources[k]);
    if rest.len() > 0 && !are_good_sources(group_type, rest) {
        let i = lemma_first_bad_source(group_type, rest);
        assert forall|k: int| 0 <= k < i implies source_problem(
            group_type,
            #[trigger] sources[k],
        ) is None by {
            assert(rest[k] == sources[k]);
        }
        i
    } else {
        let n = rest.len() as int;
        assert forall|k: int| 0 <= k < n implies source_problem(
            group_type,
            #[trigger] sources[k],
        ) is None by {
            assert(rest[k] == sources[k]);
        }
        assert(source_problem(group_type, sources[n]) is Some);
        n
    }
}

/// What is written for a group is its trimmed name, its type in small letters, its sources as they
/// are stored with the first of them as the preview, and the time.
pub proof fn what_is_written_follows_the_form(
    draft: GroupDraft,
    name: Seq<char>,
    collection_type: Seq<char>,
    sources: Seq<SourceView>,
    now: i64,
)
    requires
        is_draft_of(draft, name, collection_type, sources, now),
    ensures
        draft.name@ == trimmed(name),
        draft.collection_type@ == lowered(trimmed(collection_type)),
        draft.preview_server_id == sources[0].server_id,
        draft.preview_library_id@ == trimmed(sources[0].library_id),
        draft.now == now,
        draft.sources@.map_values(|source: NewLibraryGroupSource| source@) == first_per_key(
            all_cleaned(sources),
            source_identity(),
        ),
{
}

/// Each reason why a group cannot be stored has its own message.
pub proof fn each_fault_has_its_message(fault: ValidationError)
    ensures
        fault.message_text() == if fault == ValidationError::EmptyLibraryName {
            "Library name cannot be empty"@
        } else if fault == ValidationError::InvalidCollectionType {
            "Invalid collection type"@
        } else if fault == ValidationError::NoSources {
            "At least one source library is required"@
        } else if fault == ValidationError::EmptySourceId {
            "Source library ID cannot be empty"@
        } else if fault == ValidationError::EmptySourceName {
            "Source library name cannot be empty"@
        } else if fault == ValidationError::EmptySourceType {
            "Source collection type cannot be empty"@
        } else {
            "Source collection type must match group collection type"@
        },
{
}

} // verus!
