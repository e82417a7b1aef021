//! Looking up or making the mapping of a server's medium: first in the cache, then among the rows,
//! and a new row where there is none. It says what it waits for, and goes on once it is told.
use vstd::prelude::*;

use crate::ids::{normalize_id, normalized_id};
use crate::media_storage_service::{
    after_step, empty_caches, found_group, held, mapping_cache_key, mapping_key,
    mapping_keys_tell_media_apart, with_mapping, without_mapping, CacheStep, DedupeGroupView,
    MediaMapping, MediaStorageService, StorageCaches,
};
use crate::text::copy_text;

verus! {

/// What a request for a mapping waits for, or what it came to.
#[derive(Debug, Clone, Copy, PartialEq, Eq, Structural)]
pub enum MappingRequestStage {
    /// The cache is looked up under the key.
    LookInCache,
    /// The row of the medium is looked up.
    LookUp,
    /// A new row is inserted unless there is one.
    Insert,
    /// The row is looked up again: another process has inserted it in the meantime.
    LookUpAgain,
    /// The mapping is there.
    Found,
    /// There is no row, though none could be inserted.
    Missing,
}

/// What a request for a mapping is told.
#[derive(Debug)]
pub enum MappingAnswer {
    /// What the cache holds under the key.
    Cached(Option<MediaMapping>),
    /// The row that was looked up or inserted.
    Row(Option<MediaMapping>),
}

/// A request for a mapping as values.
#[verifier::ext_equal]
pub struct MappingRequestView {
    pub stage: MappingRequestStage,
    pub key: Seq<char>,
    pub original_media_id: Seq<char>,
    pub server_url: Seq<char>,
    pub mapping: Option<MediaMapping>,
    pub is_cached: bool,
}

/// A request that has not begun.
pub open spec fn fresh_mapping_request(
    original_media_id: Seq<char>,
    server_url: Seq<char>,
) -> MappingRequestView {
    MappingRequestView {
        stage: MappingRequestStage::LookInCache,
        key: mapping_key(original_media_id, server_url),
        original_media_id: normalized_id(original_media_id),
        server_url,
        mapping: None,
        is_cached: false,
    }
}

/// The request once it is known which row was looked up or inserted. Where none was found, one is
/// inserted; where none was inserted, another process did so, and it is looked up again.
pub open spec fn after_row(v: MappingRequestView, row: Option<MediaMapping>) -> MappingRequestView {
    MappingRequestView {
        stage: match row {
            Some(_) => MappingRequestStage::Found,
            None => match v.stage {
                MappingRequestStage::LookUp => MappingRequestStage::Insert,
                MappingRequestStage::Insert => MappingRequestStage::LookUpAgain,
                _ => MappingRequestStage::Missing,
            },
        },
        mapping: row,
        ..v
    }
}

/// The request once it has been told something that it waits for.
pub open spec fn after_mapping_answer(
    v: MappingRequestView,
    answer: MappingAnswer,
) -> MappingRequestView {
    match answer {
        MappingAnswer::Cached(Some(mapping)) => MappingRequestView {
            stage: MappingRequestStage::Found,
            mapping: Some(mapping),
            is_cached: true,
            ..v
        },
        MappingAnswer::Cached(None) => MappingRequestView {
            stage: MappingRequestStage::LookUp,
            ..v
        },
        MappingAnswer::Row(row) => after_row(v, row),
    }
}

/// Whether the answer is one that the request waits for.
pub open spec fn awaits_mapping_answer(v: MappingRequestView, answer: MappingAnswer) -> bool {
    match answer {
        MappingAnswer::Cached(_) => v.stage == MappingRequestStage::LookInCache,
        MappingAnswer::Row(_) => v.stage == MappingRequestStage::LookUp || v.stage
            == MappingRequestStage::Insert || v.stage == MappingRequestStage::LookUpAgain,
    }
}

/// A request for a mapping from its start to its outcome.
#[derive(Debug)]
pub struct MappingRequest {
    stage: MappingRequestStage,
    key: String,
    original_media_id: String,
    server_url: String,
    mapping: Option<MediaMapping>,
    is_cached: bool,
}

impl View for MappingRequest {
    type V = MappingRequestView;

    closed spec fn view(&self) -> MappingRequestView {
        MappingRequestView {
            stage: self.stage,
            key: self.key@,
            original_media_id: self.original_media_id@,
            server_url: self.server_url@,
            mapping: self.mapping,
            is_cached: self.is_cached,
        }
    }
}

impl MediaStorageService {
    /// A request for the mapping of a server's medium, which has not begun.
    pub fn get_or_create_media_mapping(original_media_id: &str, server_url: &str) -> (r:
        MappingRequest)
        ensures
            r@ == fresh_mapping_request(original_media_id@, server_url@),
    {
        let r: MappingRequest = MappingRequest {
            stage: MappingRequestStage::LookInCache,
            key: mapping_cache_key(original_media_id, server_url),
            original_media_id: normalize_id(original_media_id),
            server_url: copy_text(server_url),
            mapping: None,
            is_cached: false,
        };
        assert(r@ =~= fresh_mapping_request(original_media_id@, server_url@));
        r
    }
}

impl MappingRequest {
    /// What the request waits for, or what it came to.
    pub fn stage(&self) -> (r: MappingRequestStage)
        ensures
            r == self@.stage,
    {
        self.stage
    }

    /// The key that the cache is looked up under.
    pub fn key(&self) -> (r: &str)
        ensures
            r@ == self@.key,
    {
        self.key.as_str()
    }

    /// The identifier that the row is looked up by, or inserted with.
    pub fn original_media_id(&self) -> (r: &str)
        ensures
            r@ == self@.original_media_id,
    {
        self.original_media_id.as_str()
    }

    /// The server that the row is looked up by, or inserted with.
    pub fn server_url(&self) -> (r: &str)
        ensures
            r@ == self@.server_url,
    {
        self.server_url.as_str()
    }

    /// Whether the request waits for the answer.
    pub fn accepts(&self, answer: &MappingAnswer) -> (r: bool)
        ensures
            r == awaits_mapping_answer(self@, *answer),
    {
        match answer {
            MappingAnswer::Cached(_) => self.stage == MappingRequestStage::LookInCache,
            MappingAnswer::Row(_) => self.stage == MappingRequestStage::LookUp || self.stage
                == MappingRequestStage::Insert || self.stage == MappingRequestStage::LookUpAgain,
        }
    }

    /// Tells the request what it waits for.
    pub fn step(&mut self, answer: MappingAnswer)
        requires
            awaits_mapping_answer(old(self)@, answer),
        ensures
            final(self)@ == after_mapping_answer(old(self)@, answer),
    {
        let ghost v = self@;
        match answer {
            MappingAnswer::Cached(cached) => {
                match cached {
                    Some(mapping) => {
                        self.mapping = Some(mapping);
                        self.is_cached = true;
                        self.stage = MappingRequestStage::Found;
                    },
                    None => {
                        self.stage = MappingRequestStage::LookUp;
                    },
                }
            },
            MappingAnswer::Row(row) => {
                self.stage = if row.is_some() {
                    MappingRequestStage::Found
                } else {
                    match self.stage {
                        MappingRequestStage::LookUp => MappingRequestStage::Insert,
                        MappingRequestStage::Insert => MappingRequestStage::LookUpAgain,
                        _ => MappingRequestStage::Missing,
                    }
                };
                self.mapping = row;
            },
        }
        assert(self@ =~= after_mapping_answer(v, answer));
    }

    /// The change of the caches that follows: a mapping that did not come from the cache is kept
    /// there.
    pub fn cache_step(&self) -> (r: Option<CacheStep>)
        ensures
            r is Some <==> self@.mapping is Some && !self@.is_cached,
            forall|caches: StorageCaches|
                r is Some ==> #[trigger] after_step(caches, r->0) == (StorageCaches {
                    by_original: caches.by_original.insert(self@.key, self@.mapping->0),
                    ..caches
                }),
    {
        match &self.mapping {
            Some(mapping) => {
                if self.is_cached {
                    None
                } else {
                    Some(CacheStep::StoreMapping(self.key.clone(), mapping.clone()))
                }
            },
            None => None,
        }
    }

    /// The mapping, where there is one.
    pub fn into_mapping(self) -> (r: Option<MediaMapping>)
        ensures
            r == self@.mapping,
    {
        self.mapping
    }
}

// ---------------------------------------------------------------------------
// The rows
// ---------------------------------------------------------------------------

/// The rows by the original identifier, in its stored spelling, and the server. There is one row
/// for each: an insertion on a row that is there leaves it and gives none.
pub type Rows = Map<(Seq<char>, Seq<char>), MediaMapping>;

/// Whether each row stands at its own identifier and server.
pub open spec fn are_placed(rows: Rows) -> bool {
    forall|place: (Seq<char>, Seq<char>)| #[trigger]
        rows.contains_key(place) ==> rows[place].original_media_id@ == place.0
            && rows[place].server_url@ == place.1
}

/// Whether no two rows have the same virtual identifier.
pub open spec fn have_own_ids(rows: Rows) -> bool {
    forall|a: (Seq<char>, Seq<char>), b: (Seq<char>, Seq<char>)|
        #![trigger rows.contains_key(a), rows.contains_key(b)]
        rows.contains_key(a) && rows.contains_key(b) && a != b
            ==> rows[a].virtual_media_id@ != rows[b].virtual_media_id@
}

/// Whether the virtual identifiers of the rows are in the stored spelling.
pub open spec fn are_stored_spellings(rows: Rows) -> bool {
    forall|place: (Seq<char>, Seq<char>)| #[trigger]
        rows.contains_key(place) ==> normalized_id(rows[place].virtual_media_id@)
            == rows[place].virtual_media_id@
}

/// Whether some row has the virtual identifier.
pub open spec fn has_virtual_id(rows: Rows, virtual_media_id: Seq<char>) -> bool {
    exists|place: (Seq<char>, Seq<char>)| #[trigger]
        rows.contains_key(place) && rows[place].virtual_media_id@ == virtual_media_id
}

/// The row that a lookup gives.
pub open spec fn row_at(rows: Rows, place: (Seq<char>, Seq<char>)) -> Option<MediaMapping> {
    if rows.contains_key(place) {
        Some(rows[place])
    } else {
        None
    }
}

/// The row that an insertion gives: none where there was one.
pub open spec fn inserted_row(
    rows: Rows,
    place: (Seq<char>, Seq<char>),
    fresh: MediaMapping,
) -> Option<MediaMapping> {
    if rows.contains_key(place) {
        None
    } else {
        Some(fresh)
    }
}

/// The rows after an insertion.
pub open spec fn after_insertion(
    rows: Rows,
    place: (Seq<char>, Seq<char>),
    fresh: MediaMapping,
) -> Rows {
    if rows.contains_key(place) {
        rows
    } else {
        rows.insert(place, fresh)
    }
}

/// Whether every row of one table is in another: rows were added only.
pub open spec fn is_kept(rows: Rows, later: Rows) -> bool {
    forall|place: (Seq<char>, Seq<char>)| #[trigger]
        rows.contains_key(place) ==> later.contains_key(place) && later[place] == rows[place]
}

/// Whether the cache holds nothing but rows, for media without a bar in their identifiers.
pub open spec fn agrees(caches: StorageCaches, rows: Rows) -> bool {
    forall|original_media_id: Seq<char>, server_url: Seq<char>|
        !original_media_id.contains('|') && caches.by_original.contains_key(
            #[trigger] mapping_key(original_media_id, server_url),
        ) ==> row_at(rows, (normalized_id(original_media_id), server_url)) == Some(
            caches.by_original[mapping_key(original_media_id, server_url)],
        )
}

/// What a request meets: the caches, the rows when they are first looked up, the rows when a new
/// one is inserted, the new one, and the rows when they are looked up again.
pub struct Course {
    pub caches: StorageCaches,
    pub first: Rows,
    pub second: Rows,
    pub fresh: MediaMapping,
    pub third: Rows,
}

/// Whether a request for a medium can meet this: the cache holds nothing but rows, rows are added
/// in the meantime and none is deleted, what the request inserts stays, each row stands at its own
/// place, and no two rows have the same virtual identifier. The identifier has no bar in it.
pub open spec fn is_sound_course(
    original_media_id: Seq<char>,
    server_url: Seq<char>,
    course: Course,
) -> bool {
    &&& !original_media_id.contains('|')
    &&& agrees(course.caches, course.first)
    &&& is_kept(course.first, course.second)
    &&& is_kept(
        after_insertion(
            course.second,
            (normalized_id(original_media_id), server_url),
            course.fresh,
        ),
        course.third,
    )
    &&& are_placed(course.third)
    &&& have_own_ids(course.third)
}

/// What a request comes to.
pub open spec fn requested(
    original_media_id: Seq<char>,
    server_url: Seq<char>,
    course: Course,
) -> MappingRequestView {
    let v = fresh_mapping_request(original_media_id, server_url);
    let place = (v.original_media_id, v.server_url);
    let looked = after_mapping_answer(
        v,
        MappingAnswer::Cached(held(course.caches.by_original, v.key)),
    );
    if looked.stage != MappingRequestStage::LookUp {
        looked
    } else {
        let found = after_mapping_answer(looked, MappingAnswer::Row(row_at(course.first, place)));
        if found.stage != MappingRequestStage::Insert {
            found
        } else {
            let made = after_mapping_answer(
                found,
                MappingAnswer::Row(inserted_row(course.second, place, course.fresh)),
            );
            if made.stage != MappingRequestStage::LookUpAgain {
                made
            } else {
                after_mapping_answer(made, MappingAnswer::Row(row_at(course.third, place)))
            }
        }
    }
}

/// The caches once a request is done.
pub open spec fn caches_after(
    original_media_id: Seq<char>,
    server_url: Seq<char>,
    course: Course,
) -> StorageCaches {
    let done = requested(original_media_id, server_url, course);
    if done.mapping is Some && !done.is_cached {
        with_mapping(course.caches, original_media_id, server_url, done.mapping->0)
    } else {
        course.caches
    }
}

/// A new row with a virtual identifier of its own leaves every row at its own place, with a virtual
/// identifier of its own.
pub proof fn an_insertion_keeps_the_rows_apart(
    rows: Rows,
    place: (Seq<char>, Seq<char>),
    fresh: MediaMapping,
)
    requires
        are_placed(rows),
        have_own_ids(rows),
        fresh.original_media_id@ == place.0,
        fresh.server_url@ == place.1,
        !has_virtual_id(rows, fresh.virtual_media_id@),
    ensures
        are_placed(after_insertion(rows, place, fresh)),
        have_own_ids(after_insertion(rows, place, fresh)),
        is_kept(rows, after_insertion(rows, place, fresh)),
{
    let after = after_insertion(rows, place, fresh);
    assert forall|a: (Seq<char>, Seq<char>), b: (Seq<char>, Seq<char>)|
        #![trigger after.contains_key(a), after.contains_key(b)]
        after.contains_key(a) && after.contains_key(b) && a != b implies after[a].virtual_media_id@
        != after[b].virtual_media_id@ by {
        assert(a == place || rows.contains_key(a));
        assert(b == place || rows.contains_key(b));
    }
}

/// A request gives the one row of its medium, whoever has made it, and the cache goes on holding
/// nothing but rows.
pub proof fn a_request_gives_the_row_of_its_medium(
    original_media_id: Seq<char>,
    server_url: Seq<char>,
    course: Course,
)
    requires
        is_sound_course(original_media_id, server_url, course),
    ensures
        ({
            let done = requested(original_media_id, server_url, course);
            &&& done.stage == MappingRequestStage::Found
            &&& done.mapping is Some
            &&& done.mapping == row_at(
                course.third,
                (normalized_id(original_media_id), server_url),
            )
            &&& (done.mapping->0).original_media_id@ == normalized_id(original_media_id)
            &&& (done.mapping->0).server_url@ == server_url
            &&& agrees(caches_after(original_media_id, server_url, course), course.third)
        }),
{
    let place = (normalized_id(original_media_id), server_url);
    let key = mapping_key(original_media_id, server_url);
    let inserted = after_insertion(course.second, place, course.fresh);
    if course.caches.by_original.contains_key(key) {
        assert(row_at(course.first, place) == Some(course.caches.by_original[key]));
    }
    assert(inserted.contains_key(place));
    let later = caches_after(original_media_id, server_url, course);
    assert forall|other: Seq<char>, url: Seq<char>|
        !other.contains('|') && later.by_original.contains_key(
            #[trigger] mapping_key(other, url),
        ) implies row_at(course.third, (normalized_id(other), url)) == Some(
        later.by_original[mapping_key(other, url)],
    ) by {
        if mapping_key(other, url) == key {
            mapping_keys_tell_media_apart(other, url, original_media_id, server_url);
        } else {
            let other_place = (normalized_id(other), url);
            assert(course.first.contains_key(other_place));
            assert(inserted.contains_key(other_place));
        }
    }
}

/// No medium gets a second mapping: a later request gives the mapping of an earlier one, with the
/// same identifier and the same virtual identifier, exactly where it is about the same server and
/// the same medium, in whatever spelling.
pub proof fn no_medium_gets_a_second_mapping(
    earlier_media_id: Seq<char>,
    earlier_url: Seq<char>,
    earlier: Course,
    original_media_id: Seq<char>,
    server_url: Seq<char>,
    later: Course,
)
    requires
        is_sound_course(earlier_media_id, earlier_url, earlier),
        is_sound_course(original_media_id, server_url, later),
        is_kept(earlier.third, later.first),
    ensures
        ({
            let m = requested(earlier_media_id, earlier_url, earlier).mapping;
            let r = requested(original_media_id, server_url, later).mapping;
            let same = normalized_id(original_media_id) == normalized_id(earlier_media_id)
                && server_url == earlier_url;
            &&& m is Some
            &&& r is Some
            &&& r == m <==> same
            &&& (r->0).virtual_media_id@ == (m->0).virtual_media_id@ <==> same
        }),
{
    a_request_gives_the_row_of_its_medium(earlier_media_id, earlier_url, earlier);
    a_request_gives_the_row_of_its_medium(original_media_id, server_url, later);
    let earlier_place = (normalized_id(earlier_media_id), earlier_url);
    let place = (normalized_id(original_media_id), server_url);
    assert(earlier.third.contains_key(earlier_place));
    assert(later.first.contains_key(earlier_place));
    assert(later.second.contains_key(earlier_place));
    assert(after_insertion(later.second, place, later.fresh).contains_key(earlier_place));
    assert(later.third.contains_key(earlier_place));
    assert(later.third.contains_key(place));
}

/// The row that a lookup by virtual identifier gives.
pub open spec fn row_with_id(rows: Rows, virtual_media_id: Seq<char>) -> Option<MediaMapping> {
    let id = normalized_id(virtual_media_id);
    if has_virtual_id(rows, id) {
        let place = choose|place: (Seq<char>, Seq<char>)| #[trigger]
            rows.contains_key(place) && rows[place].virtual_media_id@ == id;
        Some(rows[place])
    } else {
        None
    }
}

/// What a request gives is read back by every spelling of its virtual identifier, and by every
/// spelling of its original identifier together with its server.
pub proof fn a_requested_mapping_is_read_back(
    original_media_id: Seq<char>,
    server_url: Seq<char>,
    course: Course,
    virtual_spelling: Seq<char>,
    original_spelling: Seq<char>,
)
    requires
        is_sound_course(original_media_id, server_url, course),
        normalized_id(virtual_spelling) == (requested(
            original_media_id,
            server_url,
            course,
        ).mapping->0).virtual_media_id@,
        normalized_id(original_spelling) == normalized_id(original_media_id),
    ensures
        row_with_id(course.third, virtual_spelling) == requested(
            original_media_id,
            server_url,
            course,
        ).mapping,
        row_at(course.third, (normalized_id(original_spelling), server_url)) == requested(
            original_media_id,
            server_url,
            course,
        ).mapping,
{
    a_request_gives_the_row_of_its_medium(original_media_id, server_url, course);
    let place = (normalized_id(original_media_id), server_url);
    assert(course.third.contains_key(place));
    assert(has_virtual_id(course.third, normalized_id(virtual_spelling)));
}

// ---------------------------------------------------------------------------
// Deleting rows
// ---------------------------------------------------------------------------

/// The rows of a server. Addresses are the same where they are the same text.
pub open spec fn rows_on(rows: Rows, server_url: Seq<char>) -> Set<(Seq<char>, Seq<char>)> {
    rows.dom().filter(|place: (Seq<char>, Seq<char>)| place.1 == server_url)
}

/// The rows without those of a server.
pub open spec fn without_server(rows: Rows, server_url: Seq<char>) -> Rows {
    rows.remove_keys(rows_on(rows, server_url))
}

/// Whether a mapping can be found by a virtual identifier together with its server: it is cached,
/// or it has a row.
pub open spec fn is_found_with_server(
    caches: StorageCaches,
    rows: Rows,
    virtual_media_id: Seq<char>,
) -> bool {
    caches.with_server.contains_key(normalized_id(virtual_media_id)) || has_virtual_id(
        rows,
        normalized_id(virtual_media_id),
    )
}

/// Once the mappings of a server have been deleted, none of them is found by its virtual
/// identifier, with or without its server. The mappings of other servers stay as they were, the
/// number of rows that are gone is the number of the server's rows, no group is found or listed,
/// and the caches hold nothing but rows. No two rows come to have the same virtual identifier.
pub proof fn deleting_a_servers_mappings_deletes_those_only(
    rows: Rows,
    server_url: Seq<char>,
    place: (Seq<char>, Seq<char>),
    media_virtual_id: Seq<char>,
)
    requires
        rows.dom().finite(),
        have_own_ids(rows),
        are_stored_spellings(rows),
    ensures
        ({
            let left = without_server(rows, server_url);
            let caches = empty_caches();
            let id = rows[place].virtual_media_id@;
            &&& if !rows.contains_key(place) {
                !left.contains_key(place)
            } else if place.1 == server_url {
                &&& !left.contains_key(place)
                &&& !has_virtual_id(left, normalized_id(id))
                &&& !is_found_with_server(caches, left, id)
            } else {
                &&& left.contains_key(place)
                &&& left[place] == rows[place]
                &&& has_virtual_id(left, normalized_id(id))
            }
            &&& rows.dom().len() == left.dom().len() + rows_on(rows, server_url).len()
            &&& caches.listed == Map::<Seq<char>, DedupeGroupView>::empty()
            &&& found_group(caches, media_virtual_id) is None
            &&& agrees(caches, left)
            &&& have_own_ids(left)
            &&& are_stored_spellings(left)
        }),
{
    let left = without_server(rows, server_url);
    let gone = rows_on(rows, server_url);
    let id = rows[place].virtual_media_id@;
    assert(left.dom() =~= rows.dom().difference(gone));
    vstd::set_lib::lemma_set_disjoint_lens(left.dom(), gone);
    assert(left.dom().union(gone) =~= rows.dom());
    if gone.contains(place) {
        if has_virtual_id(left, normalized_id(id)) {
            let other = choose|other: (Seq<char>, Seq<char>)| #[trigger]
                left.contains_key(other) && left[other].virtual_media_id@ == normalized_id(id);
            assert(rows.contains_key(other));
        }
    } else if rows.contains_key(place) {
        assert(left.contains_key(place));
    }
    assert forall|a: (Seq<char>, Seq<char>), b: (Seq<char>, Seq<char>)|
        #![trigger left.contains_key(a), left.contains_key(b)]
        left.contains_key(a) && left.contains_key(b) && a != b implies left[a].virtual_media_id@
        != left[b].virtual_media_id@ by {
        assert(rows.contains_key(a) && rows.contains_key(b));
    }
    assert forall|other: (Seq<char>, Seq<char>)| #[trigger]
        left.contains_key(other) implies normalized_id(left[other].virtual_media_id@)
        == left[other].virtual_media_id@ by {
        assert(rows.contains_key(other));
    }
}

/// The rows with a virtual identifier.
pub open spec fn rows_with_id(rows: Rows, virtual_media_id: Seq<char>) -> Set<
    (Seq<char>, Seq<char>),
> {
    rows.dom().filter(
        |place: (Seq<char>, Seq<char>)| rows[place].virtual_media_id@ == virtual_media_id,
    )
}

/// The rows without those that have the virtual identifier.
pub open spec fn without_virtual_id(rows: Rows, virtual_media_id: Seq<char>) -> Rows {
    rows.remove_keys(rows_with_id(rows, virtual_media_id))
}

/// The caches once the mapping of a virtual identifier has been deleted: they change only where
/// there was one.
pub open spec fn caches_without_id(
    caches: StorageCaches,
    rows: Rows,
    virtual_media_id: Seq<char>,
) -> StorageCaches {
    if has_virtual_id(rows, virtual_media_id) {
        without_mapping(caches, virtual_media_id)
    } else {
        caches
    }
}

/// Once the mapping of a virtual identifier has been deleted, it is found by that identifier no
/// more, with or without its server, and no group is found. It is the one row that goes, and where
/// no row has the identifier nothing changes. Every other row stays and is found as before, and
/// the caches go on holding nothing but rows.
pub proof fn deleting_a_mapping_deletes_it_only(
    caches: StorageCaches,
    rows: Rows,
    virtual_media_id: Seq<char>,
    place: (Seq<char>, Seq<char>),
    other_id: Seq<char>,
)
    requires
        agrees(caches, rows),
        have_own_ids(rows),
        are_stored_spellings(rows),
    ensures
        ({
            let left = without_virtual_id(rows, virtual_media_id);
            let later = caches_without_id(caches, rows, virtual_media_id);
            &&& !has_virtual_id(left, virtual_media_id)
            &&& has_virtual_id(rows, virtual_media_id) ==> {
                &&& !has_virtual_id(left, normalized_id(virtual_media_id))
                &&& !is_found_with_server(later, left, virtual_media_id)
                &&& found_group(later, other_id) is None
            }
            &&& !has_virtual_id(rows, virtual_media_id) ==> left == rows && later == caches
            &&& rows.contains_key(place) && rows[place].virtual_media_id@ == virtual_media_id ==> {
                &&& left == rows.remove(place)
                &&& rows_with_id(rows, virtual_media_id) == set![place]
            }
            &&& rows.contains_key(place) && rows[place].virtual_media_id@ != virtual_media_id ==> {
                &&& left.contains_key(place)
                &&& left[place] == rows[place]
            }
            &&& normalized_id(other_id) != virtual_media_id ==> {
                &&& has_virtual_id(left, normalized_id(other_id)) == has_virtual_id(
                    rows,
                    normalized_id(other_id),
                )
                &&& is_found_with_server(later, left, other_id) == is_found_with_server(
                    caches,
                    rows,
                    other_id,
                )
            }
            &&& agrees(later, left)
            &&& have_own_ids(left)
            &&& are_stored_spellings(left)
        }),
{
    let gone = rows_with_id(rows, virtual_media_id);
    let left = without_virtual_id(rows, virtual_media_id);
    assert forall|other: (Seq<char>, Seq<char>)| #[trigger] left.contains_key(other) implies {
        &&& rows.contains_key(other)
        &&& left[other] == rows[other]
        &&& rows[other].virtual_media_id@ != virtual_media_id
    } by {
        assert(!gone.contains(other));
    }
    assert forall|other: (Seq<char>, Seq<char>)| #[trigger]
        rows.contains_key(other) implies left.contains_key(other) || rows[other].virtual_media_id@
        == virtual_media_id by {
        assert(gone.contains(other) || left.contains_key(other));
    }
    if has_virtual_id(rows, virtual_media_id) {
        let holder = choose|holder: (Seq<char>, Seq<char>)| #[trigger]
            rows.contains_key(holder) && rows[holder].virtual_media_id@ == virtual_media_id;
        assert(normalized_id(virtual_media_id) == virtual_media_id);
    } else {
        assert(left =~= rows);
    }
    if rows.contains_key(place) && rows[place].virtual_media_id@ == virtual_media_id {
        assert forall|other: (Seq<char>, Seq<char>)| #[trigger] gone.contains(other) implies other
            == place by {
            assert(rows.contains_key(other));
        }
        assert(gone =~= set![place]);
        assert(left =~= rows.remove(place));
    }
    if normalized_id(other_id) != virtual_media_id && has_virtual_id(
        rows,
        normalized_id(other_id),
    ) {
        let holder = choose|holder: (Seq<char>, Seq<char>)| #[trigger]
            rows.contains_key(holder) && rows[holder].virtual_media_id@ == normalized_id(other_id);
        assert(left.contains_key(holder));
    }
}

// ---------------------------------------------------------------------------
// The course of a request
// ---------------------------------------------------------------------------

/// A request begins with the cache, under the key of the medium as it is named; rows go by the
/// stored spelling of the identifier.
pub proof fn a_request_begins_with_the_cache(original_media_id: Seq<char>, server_url: Seq<char>)
    ensures
        ({
            let v = fresh_mapping_request(original_media_id, server_url);
            &&& v.stage == MappingRequestStage::LookInCache
            &&& v.key == original_media_id + "|"@ + server_url
            &&& v.original_media_id == normalized_id(original_media_id)
            &&& v.server_url == server_url
            &&& v.mapping is None
            &&& !v.is_cached
        }),
{
}

/// A request waits for the cache first and then for rows; once it has come to something it waits
/// for nothing.
pub proof fn a_request_waits_for_one_thing(v: MappingRequestView, answer: MappingAnswer)
    ensures
        awaits_mapping_answer(v, answer) <==> match v.stage {
            MappingRequestStage::LookInCache => answer is Cached,
            MappingRequestStage::LookUp => answer is Row,
            MappingRequestStage::Insert => answer is Row,
            MappingRequestStage::LookUpAgain => answer is Row,
            MappingRequestStage::Found => false,
            MappingRequestStage::Missing => false,
        },
{
}

/// The first mapping that a request is told of is what it comes to, and it is known whether it is
/// from the cache. Where there is none yet, the row is looked up, then inserted, then looked up
/// again; only after that is it missing.
pub proof fn a_request_ends_with_the_first_mapping(v: MappingRequestView, answer: MappingAnswer)
    requires
        awaits_mapping_answer(v, answer),
        v.mapping is None,
        !v.is_cached,
    ensures
        ({
            let next = after_mapping_answer(v, answer);
            let told = match answer {
                MappingAnswer::Cached(mapping) => mapping,
                MappingAnswer::Row(row) => row,
            };
            &&& next.key == v.key
            &&& next.original_media_id == v.original_media_id
            &&& next.server_url == v.server_url
            &&& next.mapping == told
            &&& next.is_cached <==> v.stage == MappingRequestStage::LookInCache && told is Some
            &&& told is Some ==> next.stage == MappingRequestStage::Found
            &&& told is None ==> {
                &&& v.stage == MappingRequestStage::LookInCache ==> next.stage
                    == MappingRequestStage::LookUp
                &&& v.stage == MappingRequestStage::LookUp ==> next.stage
                    == MappingRequestStage::Insert
                &&& v.stage == MappingRequestStage::Insert ==> next.stage
                    == MappingRequestStage::LookUpAgain
                &&& v.stage == MappingRequestStage::LookUpAgain ==> next.stage
                    == MappingRequestStage::Missing
            }
        }),
{
}

} // verus!
