//! The administration of library groups: the forms, the lists and the answers.
use vstd::prelude::*;

use crate::library_management_service::{
    allowed_types, is_good_group, is_valid_type, normalized_type, normalizing_a_type_is_idempotent,
    source_problem, source_views, the_allowed_types_are_known, LibraryGroupSource,
    LibraryGroupWithSources, LibraryManagementService, NewLibraryGroupSource, SourceView,
    ALLOWED_COLLECTION_TYPES,
};
use crate::models::{
    is_success, is_success_status, STATUS_BAD_REQUEST, STATUS_INTERNAL_SERVER_ERROR,
    STATUS_NOT_FOUND, STATUS_OK,
};
use crate::order::{
    are_places, lemma_next_place, lemma_no_places, lemma_place_is_chosen, lemma_same_places,
    picking_takes_all_there_is, rank_list, ranked, ranking_is_a_permutation, ranking_is_stable,
    ranking_orders_by_rank, same_rank, Ranked,
};
use crate::query::{form_pairs, pair_texts, read_form};
use crate::text::{
    contains_text, copy_text, decimal, decimal_holds_digits_only, decimal_is_injective,
    decimal_text, eq_ignoring_case, is_before, lowered, same_ignoring_case, same_text, text_before,
    text_order_is_negatively_transitive, text_order_is_total, texts, trim, trimmed,
};

verus! {

/// The page that shows the library groups.
#[derive(Debug)]
pub struct LibrariesPageTemplate {
    pub ui_route: String,
}

/// A collection type that can be chosen.
#[derive(Debug)]
pub struct CollectionTypeOption {
    pub value: String,
    pub label: String,
}

/// A library of a server that can be chosen as a source.
#[derive(Debug)]
pub struct SourceOption {
    pub key: String,
    pub server_id: i64,
    pub server_name: String,
    pub library_id: String,
    pub library_name: String,
    pub collection_type: String,
    pub auth_source: String,
}

/// A library group as it is listed.
#[derive(Debug)]
pub struct GroupView {
    pub id: i64,
    pub name: String,
    pub virtual_library_id: String,
    pub collection_type: String,
    pub source_descriptions: Vec<String>,
    pub source_choices: Vec<GroupSourceChoice>,
}

/// A library that a group has or could have as a source.
#[derive(Debug)]
pub struct GroupSourceChoice {
    pub key: String,
    pub server_name: String,
    pub library_name: String,
    pub collection_type: String,
    pub auth_source: String,
    pub checked: bool,
}

/// What became of the search for libraries on a server.
#[derive(Debug)]
pub struct ServerDiscoveryStatus {
    pub server_name: String,
    pub auth_source: Option<String>,
    pub message: Option<String>,
    pub library_count: usize,
}

/// The list of library groups, with what is needed to change them.
#[derive(Debug)]
pub struct LibrariesListTemplate {
    pub ui_route: String,
    pub collection_types: Vec<CollectionTypeOption>,
    pub source_options: Vec<SourceOption>,
    pub groups: Vec<GroupView>,
    pub server_statuses: Vec<ServerDiscoveryStatus>,
    pub flash_message: Option<String>,
    pub flash_is_error: bool,
}

/// The form that a library group is added or changed with.
#[derive(Debug)]
pub struct LibraryForm {
    pub name: String,
    pub collection_type: String,
    pub sources: Vec<String>,
}

/// A library of a server as the server lists it.
#[derive(Debug)]
pub struct MediaFolder {
    pub id: String,
    pub name: String,
    pub collection_type: Option<String>,
}

// ---------------------------------------------------------------------------
// Answers
// ---------------------------------------------------------------------------

/// Whether a request comes from a script that swaps in parts of the page, going by the value of
/// its `HX-Request` header.
pub fn is_htmx_request(header: Option<&str>) -> (r: bool)
    ensures
        r == (header is Some && same_ignoring_case(header->0@, "true"@)),
{
    match header {
        Some(value) => eq_ignoring_case(value, "true"),
        None => false,
    }
}

/// The status that an answer is sent with. Scripts only swap in what comes with success, so to
/// them every answer is one.
pub open spec fn sent_status(status: u16, is_htmx: bool) -> u16 {
    if is_htmx && !is_success(status) {
        STATUS_OK
    } else {
        status
    }
}

/// The status that an answer is sent with.
pub fn normalize_htmx_status(status: u16, is_htmx: bool) -> (r: u16)
    ensures
        r == sent_status(status, is_htmx),
{
    if is_htmx && !is_success_status(status) {
        STATUS_OK
    } else {
        status
    }
}

/// A script is always answered with success, and any other client with the status itself.
pub proof fn scripts_are_always_answered_with_success(status: u16)
    ensures
        is_success(sent_status(status, true)),
        sent_status(status, false) == status,
{
}

/// What a request to change the groups is answered with, beside the list of the groups.
#[derive(Debug)]
pub struct Reply {
    pub message: String,
    pub is_error: bool,
    pub status: u16,
}

/// Whether a reply has the given message and status; it is an error unless the status is success.
pub open spec fn is_reply(reply: Reply, message: Seq<char>, status: u16) -> bool {
    &&& reply.message@ == message
    &&& reply.status == status
    &&& reply.is_error == !is_success(status)
}

/// What became of a request to delete a group.
#[derive(Debug, Clone, Copy, PartialEq, Eq, Structural)]
pub enum DeleteOutcome {
    Deleted,
    NotFound,
    Failed,
}

/// What a request to delete a group is answered with.
pub fn delete_library(outcome: DeleteOutcome) -> (r: Reply)
    ensures
        match outcome {
            DeleteOutcome::Deleted => is_reply(r, "Library group deleted"@, STATUS_OK),
            DeleteOutcome::NotFound => is_reply(r, "Library group not found"@, STATUS_NOT_FOUND),
            DeleteOutcome::Failed => is_reply(
                r,
                "Failed to delete library group"@,
                STATUS_INTERNAL_SERVER_ERROR,
            ),
        },
{
    match outcome {
        DeleteOutcome::Deleted => Reply {
            message: copy_text("Library group deleted"),
            is_error: false,
            status: STATUS_OK,
        },
        DeleteOutcome::NotFound => Reply {
            message: copy_text("Library group not found"),
            is_error: true,
            status: STATUS_NOT_FOUND,
        },
        DeleteOutcome::Failed => Reply {
            message: copy_text("Failed to delete library group"),
            is_error: true,
            status: STATUS_INTERNAL_SERVER_ERROR,
        },
    }
}

/// What became of a request to add or change a group.
#[derive(Debug)]
pub enum SaveOutcome {
    /// The group was added or changed.
    Stored,
    /// There is no such group to change.
    NotFound,
    /// The group could not be stored, for this reason.
    Failed(String),
}

/// What a request to add or change a group is answered with once that was tried.
pub fn saved_reply(target: SaveTarget, outcome: SaveOutcome) -> (r: Reply)
    ensures
        match outcome {
            SaveOutcome::Stored => is_reply(
                r,
                match target {
                    SaveTarget::Create => "Library group created"@,
                    SaveTarget::Update(_) => "Library group updated"@,
                },
                STATUS_OK,
            ),
            SaveOutcome::NotFound => is_reply(r, "Library group not found"@, STATUS_NOT_FOUND),
            SaveOutcome::Failed(reason) => is_reply(
                r,
                "Failed to save library group: "@ + reason@,
                STATUS_BAD_REQUEST,
            ),
        },
{
    match outcome {
        SaveOutcome::Stored => {
            let message: String = match target {
                SaveTarget::Create => copy_text("Library group created"),
                SaveTarget::Update(_) => copy_text("Library group updated"),
            };
            Reply { message, is_error: false, status: STATUS_OK }
        },
        SaveOutcome::NotFound => Reply {
            message: copy_text("Library group not found"),
            is_error: true,
            status: STATUS_NOT_FOUND,
        },
        SaveOutcome::Failed(reason) => {
            let mut message: String = copy_text("Failed to save library group: ");
            message.append(reason.as_str());
            Reply { message, is_error: true, status: STATUS_BAD_REQUEST }
        },
    }
}

// ---------------------------------------------------------------------------
// The form
// ---------------------------------------------------------------------------

/// The value of the last pair with the given name; an empty text where there is none.
pub open spec fn last_value(pairs: Seq<(Seq<char>, Seq<char>)>, name: Seq<char>) -> Seq<char>
    decreases pairs.len(),
{
    if pairs.len() == 0 {
        Seq::empty()
    } else if pairs.last().0 == name {
        pairs.last().1
    } else {
        last_value(pairs.drop_last(), name)
    }
}

/// The value of a pair that selects a source.
pub open spec fn selected_source(pair: (Seq<char>, Seq<char>)) -> Option<Seq<char>> {
    if pair.0 == "sources"@ || pair.0 == "sources[]"@ {
        Some(pair.1)
    } else {
        None
    }
}

/// The sources that the pairs select, in their order.
pub open spec fn selected_sources(pairs: Seq<(Seq<char>, Seq<char>)>) -> Seq<Seq<char>> {
    pairs.filter_map(|pair: (Seq<char>, Seq<char>)| selected_source(pair))
}

/// Whether the form says what the pairs say. What they leave out is empty.
pub open spec fn is_form_of(form: LibraryForm, pairs: Seq<(Seq<char>, Seq<char>)>) -> bool {
    &&& form.name@ == last_value(pairs, "name"@)
    &&& form.collection_type@ == last_value(pairs, "collection_type"@)
    &&& texts(form.sources@) == selected_sources(pairs)
}

/// The form that the pairs stand for.
pub fn library_form_from_pairs(pairs: Vec<(String, String)>) -> (r: LibraryForm)
    ensures
        is_form_of(r, pair_texts(pairs@)),
{
    proof {
        reveal_strlit("name");
        reveal_strlit("collection_type");
        reveal_strlit("sources");
        reveal_strlit("sources[]");
    }
    let ghost all = pair_texts(pairs@);
    let ghost pick = |pair: (Seq<char>, Seq<char>)| selected_source(pair);
    let mut name: String = String::new();
    let mut collection_type: String = String::new();
    let mut sources: Vec<String> = Vec::new();
    let ghost mut done: int = 0;
    assert(texts(sources@) =~= all.take(0).filter_map(pick));
    assert(name@ =~= last_value(all.take(0), "name"@));
    for pair in it: pairs
        invariant
            pair_texts(it.seq()) == all,
            done == it.index(),
            pick == |pair: (Seq<char>, Seq<char>)| selected_source(pair),
            "name"@.len() == 4,
            "collection_type"@.len() == 15,
            "sources"@.len() == 7,
            "sources[]"@.len() == 9,
            name@ == last_value(all.take(done), "name"@),
            collection_type@ == last_value(all.take(done), "collection_type"@),
            texts(sources@) == all.take(done).filter_map(pick),
    {
        let ghost before = sources@;
        proof {
            assert(pair_texts(it.seq())[done] == (pair.0@, pair.1@));
            done = done + 1;
            assert(all.take(done).drop_last() == all.take(done - 1));
        }
        if same_text(pair.0.as_str(), "name") {
            name = pair.1;
        } else if same_text(pair.0.as_str(), "collection_type") {
            collection_type = pair.1;
        } else if same_text(pair.0.as_str(), "sources") || same_text(
            pair.0.as_str(),
            "sources[]",
        ) {
            let ghost value = pair.1@;
            sources.push(pair.1);
            assert(texts(sources@) =~= texts(before) + seq![value]);
        }
    }
    assert(all.take(done) == all);
    LibraryForm { name, collection_type, sources }
}

/// The form that was posted. Every form can be read.
pub fn parse_library_form(raw_form: &[u8]) -> (r: Result<LibraryForm, String>)
    ensures
        r is Ok,
        is_form_of(r->Ok_0, form_pairs(raw_form@)),
{
    Ok(library_form_from_pairs(read_form(raw_form)))
}

/// The reply to a form that could not be read, for this reason.
pub fn refused_form(message: String) -> (r: Reply)
    ensures
        is_reply(r, message@, STATUS_BAD_REQUEST),
{
    Reply { message, is_error: true, status: STATUS_BAD_REQUEST }
}

// ---------------------------------------------------------------------------
// Collection types
// ---------------------------------------------------------------------------

/// How a collection type is called on the page.
pub open spec fn label_of(value: Seq<char>) -> Seq<char> {
    if value == "movies"@ {
        "Movies"@
    } else if value == "tvshows"@ {
        "TV Shows"@
    } else if value == "music"@ {
        "Music"@
    } else if value == "musicvideos"@ {
        "Music Videos"@
    } else if value == "trailers"@ {
        "Trailers"@
    } else if value == "homevideos"@ {
        "Home Videos"@
    } else if value == "boxsets"@ {
        "Box Sets"@
    } else if value == "books"@ {
        "Books"@
    } else if value == "photos"@ {
        "Photos"@
    } else if value == "livetv"@ {
        "Live TV"@
    } else if value == "playlists"@ {
        "Playlists"@
    } else if value == "folders"@ {
        "Folders"@
    } else {
        "Unknown"@
    }
}

/// How a collection type is called on the page.
pub fn collection_type_label(value: &str) -> (r: &'static str)
    ensures
        r@ == label_of(value@),
{
    if same_text(value, "movies") {
        "Movies"
    } else if same_text(value, "tvshows") {
        "TV Shows"
    } else if same_text(value, "music") {
        "Music"
    } else if same_text(value, "musicvideos") {
        "Music Videos"
    } else if same_text(value, "trailers") {
        "Trailers"
    } else if same_text(value, "homevideos") {
        "Home Videos"
    } else if same_text(value, "boxsets") {
        "Box Sets"
    } else if same_text(value, "books") {
        "Books"
    } else if same_text(value, "photos") {
        "Photos"
    } else if same_text(value, "livetv") {
        "Live TV"
    } else if same_text(value, "playlists") {
        "Playlists"
    } else if same_text(value, "folders") {
        "Folders"
    } else {
        "Unknown"
    }
}

/// The collection types that can be chosen, in the order in which they are allowed.
pub fn collection_type_options() -> (r: Vec<CollectionTypeOption>)
    ensures
        r@.len() == allowed_types().len(),
        forall|i: int|
            0 <= i < r@.len() ==> (#[trigger] r@[i]).value@ == allowed_types()[i]
                && r@[i].label@ == label_of(allowed_types()[i]),
{
    let allowed: &[&'static str] = LibraryManagementService::allowed_collection_types();
    let mut out: Vec<CollectionTypeOption> = Vec::new();
    let mut i: usize = 0;
    while i < allowed.len()
        invariant
            i <= allowed@.len(),
            allowed@.map_values(|t: &'static str| t@) == allowed_types(),
            out@.len() == i,
            forall|k: int|
                0 <= k < i ==> (#[trigger] out@[k]).value@ == allowed_types()[k]
                    && out@[k].label@ == label_of(allowed_types()[k]),
        decreases allowed@.len() - i,
    {
        assert(allowed_types()[i as int] == allowed@[i as int]@);
        out.push(
            CollectionTypeOption {
                value: copy_text(allowed[i]),
                label: copy_text(collection_type_label(allowed[i])),
            },
        );
        i += 1;
    }
    assert(allowed_types().len() == allowed@.len());
    out
}

// ---------------------------------------------------------------------------
// Libraries that can be chosen
// ---------------------------------------------------------------------------

/// What a library of a server is called in a form.
pub open spec fn key_of(server_id: i64, library_id: Seq<char>) -> Seq<char> {
    decimal(server_id as int) + "::"@ + library_id
}

/// What a library of a server is called in a form.
pub fn source_key(server_id: i64, library_id: &str) -> (r: String)
    ensures
        r@ == key_of(server_id, library_id@),
{
    let mut key: String = decimal_text(server_id);
    key.append("::");
    key.append(library_id);
    key
}

/// Different libraries have different keys.
pub proof fn keys_tell_libraries_apart(
    server_id: i64,
    library_id: Seq<char>,
    other_server_id: i64,
    other_library_id: Seq<char>,
)
    requires
        key_of(server_id, library_id) == key_of(other_server_id, other_library_id),
    ensures
        server_id == other_server_id,
        library_id == other_library_id,
{
    reveal_strlit("::");
    let one = key_of(server_id, library_id);
    let two = key_of(other_server_id, other_library_id);
    let left = decimal(server_id as int);
    let right = decimal(other_server_id as int);
    decimal_holds_digits_only(server_id as int);
    decimal_holds_digits_only(other_server_id as int);
    let a = left.len() as int;
    let b = right.len() as int;
    assert(one[a] == ':');
    assert(two[b] == ':');
    if a < b {
        assert(right[a] == two[a]);
    }
    if b < a {
        assert(left[b] == one[b]);
    }
    assert(one.take(a) =~= left);
    assert(two.take(b) =~= right);
    decimal_is_injective(server_id as int, other_server_id as int);
    assert(one.skip(a + 2) =~= library_id);
    assert(two.skip(b + 2) =~= other_library_id);
}

/// A library that can be chosen, as values.
#[verifier::ext_equal]
pub struct OptionView {
    pub key: Seq<char>,
    pub server_id: i64,
    pub server_name: Seq<char>,
    pub library_id: Seq<char>,
    pub library_name: Seq<char>,
    pub collection_type: Seq<char>,
    pub auth_source: Seq<char>,
}

impl View for SourceOption {
    type V = OptionView;

    open spec fn view(&self) -> OptionView {
        OptionView {
            key: self.key@,
            server_id: self.server_id,
            server_name: self.server_name@,
            library_id: self.library_id@,
            library_name: self.library_name@,
            collection_type: self.collection_type@,
            auth_source: self.auth_source@,
        }
    }
}

/// Libraries that can be chosen, as values.
pub open spec fn option_views(options: Seq<SourceOption>) -> Seq<OptionView> {
    options.map_values(|option: SourceOption| option@)
}

/// The choice that a server's library comes to. A library without a collection type that groups
/// can have cannot be chosen.
pub open spec fn option_for(
    server_id: i64,
    server_name: Seq<char>,
    auth_source: Seq<char>,
    folder: MediaFolder,
) -> Option<OptionView> {
    if folder.collection_type is Some && is_valid_type((folder.collection_type->0)@) {
        Some(
            OptionView {
                key: key_of(server_id, folder.id@),
                server_id,
                server_name,
                library_id: folder.id@,
                library_name: folder.name@,
                collection_type: normalized_type((folder.collection_type->0)@),
                auth_source,
            },
        )
    } else {
        None
    }
}

/// The choices that a server's libraries come to, in the order of the libraries.
pub fn folders_to_source_options(
    server_id: i64,
    server_name: &str,
    auth_source: &str,
    folders: Vec<MediaFolder>,
) -> (r: Vec<SourceOption>)
    ensures
        option_views(r@) == folders@.filter_map(
            |folder: MediaFolder| option_for(server_id, server_name@, auth_source@, folder),
        ),
{
    let ghost all = folders@;
    let ghost pick = |folder: MediaFolder|
        option_for(server_id, server_name@, auth_source@, folder);
    let mut out: Vec<SourceOption> = Vec::new();
    let ghost mut done: int = 0;
    assert(option_views(out@) =~= all.take(0).filter_map(pick));
    for folder in it: folders
        invariant
            it.seq() == all,
            done == it.index(),
            pick == |folder: MediaFolder|
                option_for(server_id, server_name@, auth_source@, folder),
            option_views(out@) == all.take(done).filter_map(pick),
    {
        let ghost before = out@;
        let ghost whole = folder;
        proof {
            assert(folder == all[done]);
            done = done + 1;
            assert(all.take(done).drop_last() == all.take(done - 1));
        }
        if let Some(given) = folder.collection_type {
            let valid: bool = LibraryManagementService::is_valid_collection_type(given.as_str());
            if valid {
                let key: String = source_key(server_id, folder.id.as_str());
                let option: SourceOption = SourceOption {
                    key,
                    server_id,
                    server_name: copy_text(server_name),
                    library_id: folder.id,
                    library_name: folder.name,
                    collection_type: LibraryManagementService::normalize_collection_type(
                        given.as_str(),
                    ),
                    auth_source: copy_text(auth_source),
                };
                assert(option_for(server_id, server_name@, auth_source@, whole) == Some(option@));
                out.push(option);
                assert(option_views(out@) =~= option_views(before) + seq![option@]);
            }
        }
    }
    assert(all.take(done) == all);
    out
}

// ---------------------------------------------------------------------------
// The sources that a form selects
// ---------------------------------------------------------------------------

/// The library with the given key: the last one where several have it.
pub open spec fn option_with_key(options: Seq<OptionView>, key: Seq<char>) -> Option<OptionView>
    decreases options.len(),
{
    if options.len() == 0 {
        None
    } else if options.last().key == key {
        Some(options.last())
    } else {
        option_with_key(options.drop_last(), key)
    }
}

/// The source that a chosen library comes to.
pub open spec fn source_from(option: OptionView) -> SourceView {
    SourceView {
        server_id: option.server_id,
        library_id: option.library_id,
        library_name: option.library_name,
        collection_type: option.collection_type,
    }
}

/// The message on a key that no library has.
pub open spec fn unknown_source_text(key: Seq<char>) -> Seq<char> {
    "Unknown source selection: "@ + key
}

/// The message on a library of another collection type than the group's.
pub open spec fn wrong_type_text(option: OptionView, group_type: Seq<char>) -> Seq<char> {
    "Source '"@ + option.library_name + "' has type '"@ + normalized_type(option.collection_type)
        + "' but group type is '"@ + group_type + "'"@
}

/// The sources that the keys select, each key once; or the message on the first key that cannot
/// be selected.
pub open spec fn sources_for_keys(
    keys: Seq<Seq<char>>,
    options: Seq<OptionView>,
    group_type: Seq<char>,
) -> Result<Seq<SourceView>, Seq<char>>
    decreases keys.len(),
{
    if keys.len() == 0 {
        Ok(Seq::empty())
    } else {
        let key = keys.last();
        match sources_for_keys(keys.drop_last(), options, group_type) {
            Ok(rest) => if keys.drop_last().contains(key) {
                Ok(rest)
            } else {
                match option_with_key(options, key) {
                    Some(option) => if normalized_type(option.collection_type) == group_type {
                        Ok(rest.push(source_from(option)))
                    } else {
                        Err(wrong_type_text(option, group_type))
                    },
                    None => Err(unknown_source_text(key)),
                }
            },
            Err(message) => Err(message),
        }
    }
}

/// The sources that a form selects, or the message on why it cannot be used.
pub open spec fn form_sources(
    form: LibraryForm,
    options: Seq<OptionView>,
    group_type: Seq<char>,
) -> Result<Seq<SourceView>, Seq<char>> {
    if trimmed(form.name@).len() == 0 {
        Err("Library name cannot be empty"@)
    } else if form.sources@.len() == 0 {
        Err("Select at least one source library"@)
    } else {
        sources_for_keys(texts(form.sources@), options, group_type)
    }
}

fn find_option(options: &Vec<SourceOption>, key: &String) -> (r: Option<usize>)
    ensures
        match r {
            Some(i) => i < options@.len() && option_with_key(option_views(options@), key@) == Some(
                options@[i as int]@,
            ),
            None => option_with_key(option_views(options@), key@) is None,
        },
{
    let ghost all = option_views(options@);
    let mut i: usize = options.len();
    assert(all.take(i as int) == all);
    while i > 0
        invariant
            i <= options@.len(),
            all == option_views(options@),
            option_with_key(all, key@) == option_with_key(all.take(i as int), key@),
        decreases i,
    {
        assert(all.take(i as int).drop_last() == all.take(i - 1));
        assert(all[i - 1] == options@[i - 1]@);
        if options[i - 1].key == *key {
            return Some(i - 1);
        }
        i -= 1;
    }
    None
}

fn wrong_type_message(option: &SourceOption, group_type: &str) -> (r: String)
    ensures
        r@ == wrong_type_text(option@, group_type@),
{
    let own_type: String = LibraryManagementService::normalize_collection_type(
        option.collection_type.as_str(),
    );
    let mut message: String = copy_text("Source '");
    message.append(option.library_name.as_str());
    message.append("' has type '");
    message.append(own_type.as_str());
    message.append("' but group type is '");
    message.append(group_type);
    message.append("'");
    message
}

/// The sources that a form selects, or the message on why it cannot be used.
pub fn sources_from_form(
    form: &LibraryForm,
    source_options: &Vec<SourceOption>,
    normalized_collection_type: &str,
) -> (r: Result<Vec<NewLibraryGroupSource>, String>)
    ensures
        match r {
            Ok(sources) => form_sources(
                *form,
                option_views(source_options@),
                normalized_collection_type@,
            ) == Ok::<Seq<SourceView>, Seq<char>>(source_views(sources@)),
            Err(message) => form_sources(
                *form,
                option_views(source_options@),
                normalized_collection_type@,
            ) == Err::<Seq<SourceView>, Seq<char>>(message@),
        },
{
    let name: String = trim(form.name.as_str());
    if name.as_str().is_empty() {
        return Err(copy_text("Library name cannot be empty"));
    }
    if form.sources.len() == 0 {
        return Err(copy_text("Select at least one source library"));
    }
    let ghost keys = texts(form.sources@);
    let ghost options = option_views(source_options@);
    let ghost group_type = normalized_collection_type@;
    let mut seen: Vec<String> = Vec::new();
    let mut out: Vec<NewLibraryGroupSource> = Vec::new();
    let mut i: usize = 0;
    assert(source_views(out@) =~= Seq::<SourceView>::empty());
    assert(texts(seen@) =~= keys.take(0));
    while i < form.sources.len()
        invariant
            i <= form.sources@.len(),
            keys == texts(form.sources@),
            options == option_views(source_options@),
            group_type == normalized_collection_type@,
            trimmed(form.name@).len() > 0,
            texts(seen@) == keys.take(i as int),
            sources_for_keys(keys.take(i as int), options, group_type) == Ok::<
                Seq<SourceView>,
                Seq<char>,
            >(source_views(out@)),
        decreases form.sources@.len() - i,
    {
        let ghost before = keys.take(i as int);
        proof {
            assert(keys[i as int] == form.sources@[i as int]@);
            assert(keys.take(i + 1).drop_last() == before);
            assert(keys.take(i + 1).last() == keys[i as int]);
        }
        let key: &String = &form.sources[i];
        let known: bool = contains_text(&seen, key);
        let ghost seen_before = seen@;
        seen.push(key.clone());
        assert(texts(seen@) =~= keys.take(i + 1));
        if !known {
            match find_option(source_options, key) {
                Some(k) => {
                    let option: &SourceOption = &source_options[k];
                    let own_type: String = LibraryManagementService::normalize_collection_type(
                        option.collection_type.as_str(),
                    );
                    if !same_text(own_type.as_str(), normalized_collection_type) {
                        proof {
                            lemma_error_stays(keys, options, group_type, i + 1);
                        }
                        return Err(wrong_type_message(option, normalized_collection_type));
                    }
                    let ghost held = out@;
                    let source: NewLibraryGroupSource = NewLibraryGroupSource {
                        server_id: option.server_id,
                        source_library_id: option.library_id.clone(),
                        source_library_name: option.library_name.clone(),
                        source_collection_type: option.collection_type.clone(),
                    };
                    assert(source@ == source_from(option@));
                    out.push(source);
                    assert(source_views(out@) =~= source_views(held).push(source@));
                },
                None => {
                    proof {
                        lemma_error_stays(keys, options, group_type, i + 1);
                    }
                    let mut message: String = copy_text("Unknown source selection: ");
                    message.append(key.as_str());
                    return Err(message);
                },
            }
        }
        i += 1;
    }
    assert(keys.take(i as int) == keys);
    Ok(out)
}

proof fn lemma_error_stays(
    keys: Seq<Seq<char>>,
    options: Seq<OptionView>,
    group_type: Seq<char>,
    n: int,
)
    requires
        0 <= n <= keys.len(),
        sources_for_keys(keys.take(n), options, group_type) is Err,
    ensures
        sources_for_keys(keys, options, group_type) == sources_for_keys(
            keys.take(n),
            options,
            group_type,
        ),
    decreases keys.len(),
{
    if n < keys.len() {
        assert(keys.drop_last().take(n) =~= keys.take(n));
        lemma_error_stays(keys.drop_last(), options, group_type, n);
    } else {
        assert(keys.take(n) =~= keys);
    }
}

/// A form that can be used selects a source at least, and each source is of the group's type.
pub proof fn usable_forms_select_sources_of_the_type(
    form: LibraryForm,
    options: Seq<OptionView>,
    group_type: Seq<char>,
)
    requires
        form_sources(form, options, group_type) is Ok,
    ensures
        form_sources(form, options, group_type)->Ok_0.len() > 0,
        forall|i: int|
            0 <= i < form_sources(form, options, group_type)->Ok_0.len() ==> normalized_type(
                (#[trigger] form_sources(form, options, group_type)->Ok_0[i]).collection_type,
            ) == group_type,
{
    lemma_selected_sources(texts(form.sources@), options, group_type);
}

proof fn lemma_selected_sources(
    keys: Seq<Seq<char>>,
    options: Seq<OptionView>,
    group_type: Seq<char>,
)
    requires
        sources_for_keys(keys, options, group_type) is Ok,
    ensures
        keys.len() > 0 ==> sources_for_keys(keys, options, group_type)->Ok_0.len() > 0,
        forall|i: int|
            0 <= i < sources_for_keys(keys, options, group_type)->Ok_0.len() ==> normalized_type(
                (#[trigger] sources_for_keys(keys, options, group_type)->Ok_0[i]).collection_type,
            ) == group_type,
    decreases keys.len(),
{
    if keys.len() > 0 {
        lemma_selected_sources(keys.drop_last(), options, group_type);
    }
}

/// Whether a form is for a new group or for one that is there.
#[derive(Debug, Clone, Copy, PartialEq, Eq, Structural)]
pub enum SaveTarget {
    /// A group is added.
    Create,
    /// The group with this identifier is changed.
    Update(i64),
}

/// What is stored for a form, and where.
#[derive(Debug)]
pub struct SavePlan {
    pub target: SaveTarget,
    pub collection_type: String,
    pub sources: Vec<NewLibraryGroupSource>,
}

/// What is stored for a form, given the libraries that can be chosen; or what the form is answered
/// with where it cannot be used. A form for a group identifier changes that group, and a form
/// without one adds a group.
pub fn handle_save_library(
    group_id: Option<i64>,
    form: &LibraryForm,
    source_options: &Vec<SourceOption>,
) -> (r: Result<SavePlan, Reply>)
    ensures
        match r {
            Ok(plan) => {
                &&& plan.target == match group_id {
                    Some(id) => SaveTarget::Update(id),
                    None => SaveTarget::Create,
                }
                &&& is_valid_type(form.collection_type@)
                &&& plan.collection_type@ == normalized_type(form.collection_type@)
                &&& form_sources(
                    *form,
                    option_views(source_options@),
                    normalized_type(form.collection_type@),
                ) == Ok::<Seq<SourceView>, Seq<char>>(source_views(plan.sources@))
            },
            Err(reply) => if is_valid_type(form.collection_type@) {
                let sources = form_sources(
                    *form,
                    option_views(source_options@),
                    normalized_type(form.collection_type@),
                );
                sources is Err && is_reply(reply, sources->Err_0, STATUS_BAD_REQUEST)
            } else {
                is_reply(reply, "Invalid collection type"@, STATUS_BAD_REQUEST)
            },
        },
{
    if !LibraryManagementService::is_valid_collection_type(form.collection_type.as_str()) {
        return Err(
            Reply {
                message: copy_text("Invalid collection type"),
                is_error: true,
                status: STATUS_BAD_REQUEST,
            },
        );
    }
    let collection_type: String = LibraryManagementService::normalize_collection_type(
        form.collection_type.as_str(),
    );
    match sources_from_form(form, source_options, collection_type.as_str()) {
        Ok(sources) => {
            let target: SaveTarget = match group_id {
                Some(id) => SaveTarget::Update(id),
                None => SaveTarget::Create,
            };
            Ok(SavePlan { target, collection_type, sources })
        },
        Err(message) => Err(Reply { message, is_error: true, status: STATUS_BAD_REQUEST }),
    }
}

/// What a usable form comes to can be stored as a group, unless a server gives a library no
/// identifier or no name.
pub proof fn a_usable_form_can_be_stored(form: LibraryForm, options: Seq<OptionView>)
    requires
        is_valid_type(form.collection_type@),
        form_sources(form, options, normalized_type(form.collection_type@)) is Ok,
        forall|i: int|
            0 <= i < options.len() ==> trimmed((#[trigger] options[i]).library_id).len() > 0
                && trimmed(options[i].library_name).len() > 0,
    ensures
        is_good_group(
            form.name@,
            normalized_type(form.collection_type@),
            form_sources(form, options, normalized_type(form.collection_type@))->Ok_0,
        ),
{
    let group_type = normalized_type(form.collection_type@);
    let keys = texts(form.sources@);
    let sources = sources_for_keys(keys, options, group_type)->Ok_0;
    normalizing_a_type_is_idempotent(form.collection_type@);
    lemma_selected_sources(keys, options, group_type);
    lemma_sources_come_from_options(keys, options, group_type);
    lemma_allowed_types_are_named(form.collection_type@);
    assert forall|i: int| 0 <= i < sources.len() implies source_problem(
        group_type,
        #[trigger] sources[i],
    ) is None by {
        let k = choose|k: int|
            0 <= k < options.len() && source_from(#[trigger] options[k]) == sources[i];
        assert(trimmed(options[k].library_id).len() > 0);
        assert(normalized_type(sources[i].collection_type) == group_type);
    }
}

proof fn lemma_allowed_types_are_named(value: Seq<char>)
    requires
        is_valid_type(value),
    ensures
        normalized_type(value).len() > 0,
{
    reveal_strlit("movies");
    reveal_strlit("tvshows");
    reveal_strlit("music");
    reveal_strlit("musicvideos");
    reveal_strlit("trailers");
    reveal_strlit("homevideos");
    reveal_strlit("boxsets");
    reveal_strlit("books");
    reveal_strlit("photos");
    reveal_strlit("livetv");
    reveal_strlit("playlists");
    reveal_strlit("folders");
    let i = choose|i: int|
        0 <= i < allowed_types().len() && allowed_types()[i] == normalized_type(value);
    assert(allowed_types()[i] == ALLOWED_COLLECTION_TYPES@[i]@);
}

proof fn lemma_sources_come_from_options(
    keys: Seq<Seq<char>>,
    options: Seq<OptionView>,
    group_type: Seq<char>,
)
    requires
        sources_for_keys(keys, options, group_type) is Ok,
    ensures
        forall|i: int|
            0 <= i < sources_for_keys(keys, options, group_type)->Ok_0.len() ==> exists|k: int|
                0 <= k < options.len() && source_from(#[trigger] options[k])
                    == #[trigger] sources_for_keys(keys, options, group_type)->Ok_0[i],
    decreases keys.len(),
{
    if keys.len() > 0 {
        lemma_sources_come_from_options(keys.drop_last(), options, group_type);
        let rest = sources_for_keys(keys.drop_last(), options, group_type)->Ok_0;
        let out = sources_for_keys(keys, options, group_type)->Ok_0;
        lemma_option_is_listed(options, keys.last());
        assert forall|i: int| 0 <= i < out.len() implies exists|k: int|
            0 <= k < options.len() && source_from(#[trigger] options[k])
                == #[trigger] out[i] by {
            if i < rest.len() {
                assert(out[i] == rest[i]);
            } else {
                let option = option_with_key(options, keys.last())->0;
                let k = choose|k: int| 0 <= k < options.len() && options[k] == option;
                assert(source_from(options[k]) == out[i]);
            }
        }
    }
}

proof fn lemma_option_is_listed(options: Seq<OptionView>, key: Seq<char>)
    ensures
        option_with_key(options, key) is Some ==> options.contains(
            option_with_key(options, key)->0,
        ),
    decreases options.len(),
{
    if options.len() > 0 && options.last().key != key {
        lemma_option_is_listed(options.drop_last(), key);
        if option_with_key(options.drop_last(), key) is Some {
            let option = option_with_key(options, key)->0;
            let k = choose|k: int|
                0 <= k < options.drop_last().len() && options.drop_last()[k] == option;
            assert(options[k] == option);
        }
    } else if options.len() > 0 {
        assert(options[options.len() - 1] == options.last());
    }
}

// ---------------------------------------------------------------------------
// The list of groups
// ---------------------------------------------------------------------------

/// The name of a server: the last one that is given for it, or one made of its identifier.
pub open spec fn server_name_of(names: Seq<(i64, String)>, server_id: i64) -> Seq<char>
    decreases names.len(),
{
    if names.len() == 0 {
        "Server "@ + decimal(server_id as int)
    } else if names.last().0 == server_id {
        names.last().1@
    } else {
        server_name_of(names.drop_last(), server_id)
    }
}

fn name_server(names: &Vec<(i64, String)>, server_id: i64) -> (r: String)
    ensures
        r@ == server_name_of(names@, server_id),
{
    let mut i: usize = names.len();
    assert(names@.take(i as int) == names@);
    while i > 0
        invariant
            i <= names@.len(),
            server_name_of(names@, server_id) == server_name_of(names@.take(i as int), server_id),
        decreases i,
    {
        assert(names@.take(i as int).drop_last() == names@.take(i - 1));
        if names[i - 1].0 == server_id {
            return names[i - 1].1.clone();
        }
        i -= 1;
    }
    let number: String = decimal_text(server_id);
    let mut name: String = copy_text("Server ");
    name.append(number.as_str());
    name
}

/// How a source of a group is described.
pub open spec fn description_of(source: LibraryGroupSource, names: Seq<(i64, String)>) -> Seq<
    char,
> {
    server_name_of(names, source.server_id) + " - "@ + source.source_library_name@ + " ("@
        + source.source_collection_type@ + ")"@
}

/// Whether a library is one of the sources.
pub open spec fn is_source(sources: Seq<LibraryGroupSource>, key: Seq<char>) -> bool {
    exists|i: int|
        0 <= i < sources.len() && key_of(
            (#[trigger] sources[i]).server_id,
            sources[i].source_library_id@,
        ) == key
}

/// Whether a choice shows a library, checked where it is one of the sources.
pub open spec fn is_choice_of(
    choice: GroupSourceChoice,
    option: SourceOption,
    sources: Seq<LibraryGroupSource>,
) -> bool {
    &&& choice.key == option.key
    &&& choice.server_name == option.server_name
    &&& choice.library_name == option.library_name
    &&& choice.collection_type == option.collection_type
    &&& choice.auth_source == option.auth_source
    &&& choice.checked == is_source(sources, option.key@)
}

/// Whether a group is listed as it is stored, with a description of each source and a choice of
/// each library.
pub open spec fn is_view_of(
    view: GroupView,
    group: LibraryGroupWithSources,
    names: Seq<(i64, String)>,
    options: Seq<SourceOption>,
) -> bool {
    &&& view.id == group.group.id
    &&& view.name == group.group.name
    &&& view.virtual_library_id == group.group.virtual_library_id
    &&& view.collection_type == group.group.collection_type
    &&& texts(view.source_descriptions@) == group.sources@.map_values(
        |source: LibraryGroupSource| description_of(source, names),
    )
    &&& view.source_choices@.len() == options.len()
    &&& forall|i: int|
        0 <= i < options.len() ==> is_choice_of(
            #[trigger] view.source_choices@[i],
            options[i],
            group.sources@,
        )
}

fn has_source(sources: &Vec<LibraryGroupSource>, key: &String) -> (r: bool)
    ensures
        r == is_source(sources@, key@),
{
    let mut i: usize = 0;
    while i < sources.len()
        invariant
            i <= sources@.len(),
            forall|k: int|
                0 <= k < i ==> key_of(
                    (#[trigger] sources@[k]).server_id,
                    sources@[k].source_library_id@,
                ) != key@,
        decreases sources@.len() - i,
    {
        let own: String = source_key(
            sources[i].server_id,
            sources[i].source_library_id.as_str(),
        );
        if own == *key {
            assert(key_of(sources@[i as int].server_id, sources@[i as int].source_library_id@)
                == key@);
            return true;
        }
        i += 1;
    }
    false
}

fn describe_sources(sources: &Vec<LibraryGroupSource>, names: &Vec<(i64, String)>) -> (r: Vec<
    String,
>)
    ensures
        texts(r@) == sources@.map_values(
            |source: LibraryGroupSource| description_of(source, names@),
        ),
{
    let ghost wanted = sources@.map_values(
        |source: LibraryGroupSource| description_of(source, names@),
    );
    let mut out: Vec<String> = Vec::new();
    let mut i: usize = 0;
    assert(texts(out@) =~= wanted.take(0));
    while i < sources.len()
        invariant
            i <= sources@.len(),
            wanted == sources@.map_values(
                |source: LibraryGroupSource| description_of(source, names@),
            ),
            texts(out@) == wanted.take(i as int),
        decreases sources@.len() - i,
    {
        let ghost before = out@;
        let mut text: String = name_server(names, sources[i].server_id);
        text.append(" - ");
        text.append(sources[i].source_library_name.as_str());
        text.append(" (");
        text.append(sources[i].source_collection_type.as_str());
        text.append(")");
        assert(text@ == wanted[i as int]);
        out.push(text);
        assert(texts(out@) =~= texts(before).push(wanted[i as int]));
        assert(wanted.take(i + 1) =~= wanted.take(i as int).push(wanted[i as int]));
        i += 1;
    }
    assert(wanted.take(i as int) == wanted);
    out
}

fn list_choices(sources: &Vec<LibraryGroupSource>, options: &Vec<SourceOption>) -> (r: Vec<
    GroupSourceChoice,
>)
    ensures
        r@.len() == options@.len(),
        forall|i: int|
            0 <= i < options@.len() ==> is_choice_of(#[trigger] r@[i], options@[i], sources@),
{
    let mut out: Vec<GroupSourceChoice> = Vec::new();
    let mut i: usize = 0;
    while i < options.len()
        invariant
            i <= options@.len(),
            out@.len() == i,
            forall|k: int| 0 <= k < i ==> is_choice_of(#[trigger] out@[k], options@[k], sources@),
        decreases options@.len() - i,
    {
        let option: &SourceOption = &options[i];
        let checked: bool = has_source(sources, &option.key);
        out.push(
            GroupSourceChoice {
                key: option.key.clone(),
                server_name: option.server_name.clone(),
                library_name: option.library_name.clone(),
                collection_type: option.collection_type.clone(),
                auth_source: option.auth_source.clone(),
                checked,
            },
        );
        i += 1;
    }
    out
}

/// The groups as they are listed. `server_names` gives the names of the servers by their
/// identifiers.
pub fn groups_to_view(
    groups: Vec<LibraryGroupWithSources>,
    server_names: &Vec<(i64, String)>,
    source_options: &Vec<SourceOption>,
) -> (r: Vec<GroupView>)
    ensures
        r@.len() == groups@.len(),
        forall|i: int|
            0 <= i < groups@.len() ==> is_view_of(
                #[trigger] r@[i],
                groups@[i],
                server_names@,
                source_options@,
            ),
{
    let ghost all = groups@;
    let mut out: Vec<GroupView> = Vec::new();
    let ghost mut done: int = 0;
    for group in it: groups
        invariant
            it.seq() == all,
            done == it.index(),
            out@.len() == done,
            forall|k: int|
                0 <= k < done ==> is_view_of(
                    #[trigger] out@[k],
                    all[k],
                    server_names@,
                    source_options@,
                ),
    {
        proof {
            assert(group == all[done]);
            done = done + 1;
        }
        let source_descriptions: Vec<String> = describe_sources(&group.sources, server_names);
        let source_choices: Vec<GroupSourceChoice> = list_choices(&group.sources, source_options);
        let view: GroupView = GroupView {
            id: group.group.id,
            name: group.group.name,
            virtual_library_id: group.group.virtual_library_id,
            collection_type: group.group.collection_type,
            source_descriptions,
            source_choices,
        };
        out.push(view);
    }
    out
}

/// The list of the groups, with what is needed to change them.
pub fn render_library_list(
    ui_route: String,
    groups: Vec<LibraryGroupWithSources>,
    server_names: &Vec<(i64, String)>,
    source_options: Vec<SourceOption>,
    server_statuses: Vec<ServerDiscoveryStatus>,
    flash_message: Option<String>,
    flash_is_error: bool,
) -> (r: LibrariesListTemplate)
    ensures
        r.ui_route == ui_route,
        r.collection_types@.len() == allowed_types().len(),
        forall|i: int|
            0 <= i < r.collection_types@.len() ==> (#[trigger] r.collection_types@[i]).value@
                == allowed_types()[i] && r.collection_types@[i].label@ == label_of(
                allowed_types()[i],
            ),
        r.source_options == source_options,
        r.groups@.len() == groups@.len(),
        forall|i: int|
            0 <= i < groups@.len() ==> is_view_of(
                #[trigger] r.groups@[i],
                groups@[i],
                server_names@,
                source_options@,
            ),
        r.server_statuses == server_statuses,
        r.flash_message == flash_message,
        r.flash_is_error == flash_is_error,
{
    let group_views: Vec<GroupView> = groups_to_view(groups, server_names, &source_options);
    LibrariesListTemplate {
        ui_route,
        collection_types: collection_type_options(),
        source_options,
        groups: group_views,
        server_statuses,
        flash_message,
        flash_is_error,
    }
}

// ---------------------------------------------------------------------------
// The search for libraries
// ---------------------------------------------------------------------------

/// What the search for libraries on a server waits for.
#[derive(Debug, Clone, Copy, PartialEq, Eq, Structural)]
pub enum DiscoveryStage {
    /// A client for the server is set up.
    SetUpClient,
    /// The administrator of the server is looked up.
    FindAdmin,
    /// The administrator's password is decrypted.
    DecryptPassword,
    /// The administrator is authenticated.
    AuthenticateAdmin,
    /// The libraries are listed for the administrator.
    ListAsAdmin,
    /// The latest session of a user is looked up.
    FindSession,
    /// The libraries are listed for that user.
    ListAsUser,
}

/// What became of a stage.
#[derive(Debug)]
pub enum DiscoveryAnswer {
    /// It succeeded, or there is what was looked up.
    Ready,
    /// There is nothing to be found.
    Absent,
    /// It failed, for this reason.
    Failed(String),
    /// These are the libraries.
    Folders(Vec<MediaFolder>),
}

/// What the search comes to: the way in which the server was asked with the libraries that can be
/// chosen, or the message on why there are none.
#[derive(Debug)]
pub enum DiscoveryResult {
    Found(String, Vec<SourceOption>),
    Unavailable(String),
}

/// What the search does next.
#[derive(Debug)]
pub enum DiscoveryStep {
    Next(DiscoveryStage),
    End(DiscoveryResult),
}

/// Whether the search ends with the libraries that were listed, asked for in the given way.
pub open spec fn ends_with_folders(
    step: DiscoveryStep,
    server_id: i64,
    server_name: Seq<char>,
    auth_source: Seq<char>,
    folders: Seq<MediaFolder>,
) -> bool {
    match step {
        DiscoveryStep::End(DiscoveryResult::Found(source, options)) => {
            &&& source@ == auth_source
            &&& option_views(options@) == folders.filter_map(
                |folder: MediaFolder| option_for(server_id, server_name, auth_source, folder),
            )
        },
        _ => false,
    }
}

/// Whether the search ends with the given message.
pub open spec fn ends_with_message(step: DiscoveryStep, message: Seq<char>) -> bool {
    match step {
        DiscoveryStep::End(DiscoveryResult::Unavailable(text)) => text@ == message,
        _ => false,
    }
}

/// Whether an answer is one that the stage can have.
pub open spec fn is_discovery_answer(stage: DiscoveryStage, answer: DiscoveryAnswer) -> bool {
    match stage {
        DiscoveryStage::SetUpClient => answer is Ready || answer is Failed,
        DiscoveryStage::FindAdmin => answer is Ready || answer is Absent || answer is Failed,
        DiscoveryStage::DecryptPassword => answer is Ready || answer is Failed,
        DiscoveryStage::AuthenticateAdmin => answer is Ready || answer is Failed,
        DiscoveryStage::ListAsAdmin => answer is Folders || answer is Failed,
        DiscoveryStage::FindSession => answer is Ready || answer is Absent || answer is Failed,
        DiscoveryStage::ListAsUser => answer is Folders || answer is Failed,
    }
}

/// What the search on a server does next. The server's administrator is preferred; a session of a
/// user is looked for where anything goes wrong with that.
pub fn discover_libraries_for_server(
    server_id: i64,
    server_name: &str,
    stage: DiscoveryStage,
    answer: DiscoveryAnswer,
) -> (r: DiscoveryStep)
    requires
        is_discovery_answer(stage, answer),
    ensures
        match stage {
            DiscoveryStage::SetUpClient => match answer {
                DiscoveryAnswer::Failed(reason) => ends_with_message(
                    r,
                    "Client setup failed: "@ + reason@,
                ),
                _ => r == DiscoveryStep::Next(DiscoveryStage::FindAdmin),
            },
            DiscoveryStage::FindAdmin => r == DiscoveryStep::Next(
                if answer is Ready {
                    DiscoveryStage::DecryptPassword
                } else {
                    DiscoveryStage::FindSession
                },
            ),
            DiscoveryStage::DecryptPassword => r == DiscoveryStep::Next(
                if answer is Ready {
                    DiscoveryStage::AuthenticateAdmin
                } else {
                    DiscoveryStage::FindSession
                },
            ),
            DiscoveryStage::AuthenticateAdmin => r == DiscoveryStep::Next(
                if answer is Ready {
                    DiscoveryStage::ListAsAdmin
                } else {
                    DiscoveryStage::FindSession
                },
            ),
            DiscoveryStage::ListAsAdmin => match answer {
                DiscoveryAnswer::Folders(folders) => ends_with_folders(
                    r,
                    server_id,
                    server_name@,
                    "admin"@,
                    folders@,
                ),
                _ => r == DiscoveryStep::Next(DiscoveryStage::FindSession),
            },
            DiscoveryStage::FindSession => match answer {
                DiscoveryAnswer::Failed(reason) => ends_with_message(
                    r,
                    "Failed to fetch latest active session: "@ + reason@,
                ),
                DiscoveryAnswer::Absent => ends_with_message(
                    r,
                    "No usable admin credentials or active mapped-user session"@,
                ),
                _ => r == DiscoveryStep::Next(DiscoveryStage::ListAsUser),
            },
            DiscoveryStage::ListAsUser => match answer {
                DiscoveryAnswer::Folders(folders) => ends_with_folders(
                    r,
                    server_id,
                    server_name@,
                    "session"@,
                    folders@,
                ),
                DiscoveryAnswer::Failed(reason) => ends_with_message(
                    r,
                    "Failed to fetch libraries with mapped user session: "@ + reason@,
                ),
                _ => false,
            },
        },
{
    match (stage, answer) {
        (DiscoveryStage::SetUpClient, DiscoveryAnswer::Failed(reason)) => {
            end_with("Client setup failed: ", reason.as_str())
        },
        (DiscoveryStage::SetUpClient, _) => DiscoveryStep::Next(DiscoveryStage::FindAdmin),
        (DiscoveryStage::FindAdmin, DiscoveryAnswer::Ready) => DiscoveryStep::Next(
            DiscoveryStage::DecryptPassword,
        ),
        (DiscoveryStage::DecryptPassword, DiscoveryAnswer::Ready) => DiscoveryStep::Next(
            DiscoveryStage::AuthenticateAdmin,
        ),
        (DiscoveryStage::AuthenticateAdmin, DiscoveryAnswer::Ready) => DiscoveryStep::Next(
            DiscoveryStage::ListAsAdmin,
        ),
        (DiscoveryStage::ListAsAdmin, DiscoveryAnswer::Folders(folders)) => {
            let options: Vec<SourceOption> = folders_to_source_options(
                server_id,
                server_name,
                "admin",
                folders,
            );
            DiscoveryStep::End(DiscoveryResult::Found(copy_text("admin"), options))
        },
        (DiscoveryStage::FindSession, DiscoveryAnswer::Failed(reason)) => {
            end_with("Failed to fetch latest active session: ", reason.as_str())
        },
        (DiscoveryStage::FindSession, DiscoveryAnswer::Absent) => DiscoveryStep::End(
            DiscoveryResult::Unavailable(
                copy_text("No usable admin credentials or active mapped-user session"),
            ),
        ),
        (DiscoveryStage::FindSession, _) => DiscoveryStep::Next(DiscoveryStage::ListAsUser),
        (DiscoveryStage::ListAsUser, DiscoveryAnswer::Folders(folders)) => {
            let options: Vec<SourceOption> = folders_to_source_options(
                server_id,
                server_name,
                "session",
                folders,
            );
            DiscoveryStep::End(DiscoveryResult::Found(copy_text("session"), options))
        },
        (DiscoveryStage::ListAsUser, DiscoveryAnswer::Failed(reason)) => {
            end_with("Failed to fetch libraries with mapped user session: ", reason.as_str())
        },
        _ => DiscoveryStep::Next(DiscoveryStage::FindSession),
    }
}

fn end_with(start: &str, reason: &str) -> (r: DiscoveryStep)
    ensures
        ends_with_message(r, start@ + reason@),
{
    let mut message: String = copy_text(start);
    message.append(reason);
    DiscoveryStep::End(DiscoveryResult::Unavailable(message))
}

/// What the search on one server came to.
#[derive(Debug)]
pub struct ServerDiscovery {
    pub server_name: String,
    pub result: DiscoveryResult,
}

impl Ranked for SourceOption {
    /// Libraries are listed by server, then by collection type, then by name.
    open spec fn before(self, other: Self) -> bool {
        text_before(self.server_name@, other.server_name@) || (self.server_name@
            == other.server_name@ && (text_before(self.collection_type@, other.collection_type@)
            || (self.collection_type@ == other.collection_type@ && text_before(
            self.library_name@,
            other.library_name@,
        ))))
    }

    fn ranks_before(&self, other: &Self) -> (r: bool) {
        if is_before(self.server_name.as_str(), other.server_name.as_str()) {
            return true;
        }
        if self.server_name != other.server_name {
            return false;
        }
        if is_before(self.collection_type.as_str(), other.collection_type.as_str()) {
            return true;
        }
        if self.collection_type != other.collection_type {
            return false;
        }
        is_before(self.library_name.as_str(), other.library_name.as_str())
    }

    proof fn rank_is_asymmetric(a: Self, b: Self) {
        text_order_is_total(a.server_name@, b.server_name@);
        text_order_is_total(a.collection_type@, b.collection_type@);
        text_order_is_total(a.library_name@, b.library_name@);
    }

    proof fn rank_is_negatively_transitive(a: Self, b: Self, c: Self) {
        text_order_is_total(a.server_name@, b.server_name@);
        text_order_is_total(b.server_name@, c.server_name@);
        text_order_is_total(a.server_name@, c.server_name@);
        text_order_is_total(a.collection_type@, b.collection_type@);
        text_order_is_total(b.collection_type@, c.collection_type@);
        text_order_is_total(a.collection_type@, c.collection_type@);
        text_order_is_negatively_transitive(a.server_name@, b.server_name@, c.server_name@);
        if a.server_name@ == b.server_name@ && b.server_name@ == c.server_name@ {
            text_order_is_negatively_transitive(
                a.collection_type@,
                b.collection_type@,
                c.collection_type@,
            );
            if a.collection_type@ == b.collection_type@ && b.collection_type@
                == c.collection_type@ {
                text_order_is_negatively_transitive(
                    a.library_name@,
                    b.library_name@,
                    c.library_name@,
                );
            }
        } else if a.server_name@ == c.server_name@ {
            if text_before(b.server_name@, a.server_name@) {
                assert(text_before(b.server_name@, c.server_name@));
            }
        }
    }
}

impl Ranked for ServerDiscoveryStatus {
    /// Servers are listed by name.
    open spec fn before(self, other: Self) -> bool {
        text_before(self.server_name@, other.server_name@)
    }

    fn ranks_before(&self, other: &Self) -> (r: bool) {
        is_before(self.server_name.as_str(), other.server_name.as_str())
    }

    proof fn rank_is_asymmetric(a: Self, b: Self) {
        text_order_is_total(a.server_name@, b.server_name@);
    }

    proof fn rank_is_negatively_transitive(a: Self, b: Self, c: Self) {
        text_order_is_negatively_transitive(a.server_name@, b.server_name@, c.server_name@);
    }
}

/// The libraries that were found on all servers, one server after the other.
pub open spec fn found_options(discoveries: Seq<ServerDiscovery>) -> Seq<SourceOption>
    decreases discoveries.len(),
{
    if discoveries.len() == 0 {
        Seq::empty()
    } else {
        let rest = found_options(discoveries.drop_last());
        match discoveries.last().result {
            DiscoveryResult::Found(_, options) => rest + options@,
            DiscoveryResult::Unavailable(_) => rest,
        }
    }
}

/// What the search on a server is reported as.
pub open spec fn status_of(discovery: ServerDiscovery) -> ServerDiscoveryStatus {
    match discovery.result {
        DiscoveryResult::Found(auth_source, options) => ServerDiscoveryStatus {
            server_name: discovery.server_name,
            auth_source: Some(auth_source),
            message: None,
            library_count: options@.len() as usize,
        },
        DiscoveryResult::Unavailable(message) => ServerDiscoveryStatus {
            server_name: discovery.server_name,
            auth_source: None,
            message: Some(message),
            library_count: 0,
        },
    }
}

/// The libraries that were found on all servers and what the search on each server is reported
/// as, each list in its order.
pub fn discover_source_libraries(discoveries: Vec<ServerDiscovery>) -> (r: (
    Vec<SourceOption>,
    Vec<ServerDiscoveryStatus>,
))
    ensures
        r.0@ == ranked(found_options(discoveries@)),
        r.1@ == ranked(
            discoveries@.map_values(|discovery: ServerDiscovery| status_of(discovery)),
        ),
{
    let ghost all = discoveries@;
    let ghost wanted = all.map_values(|discovery: ServerDiscovery| status_of(discovery));
    let mut discovered: Vec<SourceOption> = Vec::new();
    let mut statuses: Vec<ServerDiscoveryStatus> = Vec::new();
    let ghost mut done: int = 0;
    assert(statuses@ =~= wanted.take(0));
    assert(discovered@ =~= found_options(all.take(0)));
    for discovery in it: discoveries
        invariant
            it.seq() == all,
            done == it.index(),
            wanted == all.map_values(|discovery: ServerDiscovery| status_of(discovery)),
            discovered@ == found_options(all.take(done)),
            statuses@ == wanted.take(done),
    {
        let ghost whole = discovery;
        proof {
            assert(discovery == all[done]);
            done = done + 1;
            assert(all.take(done).drop_last() == all.take(done - 1));
            assert(wanted.take(done) =~= wanted.take(done - 1).push(wanted[done - 1]));
        }
        let server_name: String = discovery.server_name;
        match discovery.result {
            DiscoveryResult::Found(auth_source, options) => {
                let mut options: Vec<SourceOption> = options;
                let library_count: usize = options.len();
                let status: ServerDiscoveryStatus = ServerDiscoveryStatus {
                    server_name,
                    auth_source: Some(auth_source),
                    message: None,
                    library_count,
                };
                assert(status == status_of(whole));
                discovered.append(&mut options);
                statuses.push(status);
            },
            DiscoveryResult::Unavailable(message) => {
                let status: ServerDiscoveryStatus = ServerDiscoveryStatus {
                    server_name,
                    auth_source: None,
                    message: Some(message),
                    library_count: 0,
                };
                statuses.push(status);
            },
        }
    }
    assert(all.take(done) == all);
    assert(wanted.take(done) == wanted);
    (rank_list(discovered), rank_list(statuses))
}

/// What is listed where the servers could not be listed: no libraries, and a report that says so.
pub fn unlisted_servers() -> (r: (Vec<SourceOption>, Vec<ServerDiscoveryStatus>))
    ensures
        r.0@.len() == 0,
        r.1@.len() == 1,
        r.1@[0].server_name@ == "Server list unavailable"@,
        r.1@[0].auth_source is None,
        r.1@[0].message is Some,
        (r.1@[0].message->0)@ == "Failed to list configured servers"@,
        r.1@[0].library_count == 0,
{
    let mut statuses: Vec<ServerDiscoveryStatus> = Vec::new();
    statuses.push(
        ServerDiscoveryStatus {
            server_name: copy_text("Server list unavailable"),
            auth_source: None,
            message: Some(copy_text("Failed to list configured servers")),
            library_count: 0,
        },
    );
    (Vec::new(), statuses)
}

// ---------------------------------------------------------------------------
// What replies say
// ---------------------------------------------------------------------------

/// A reply has its message and its status, and is an error unless its status is one of success,
/// 200 to 299. A script gets the status of success itself, and 200 in place of any other.
pub proof fn a_reply_is_an_error_unless_it_succeeds(
    reply: Reply,
    message: Seq<char>,
    status: u16,
    is_htmx: bool,
)
    ensures
        is_reply(reply, message, status) <==> {
            &&& reply.message@ == message
            &&& reply.status == status
            &&& reply.is_error <==> status < 200 || status > 299
        },
        sent_status(status, is_htmx) == if is_htmx && (status < 200 || status > 299) {
            200u16
        } else {
            status
        },
        STATUS_OK == 200 && STATUS_BAD_REQUEST == 400 && STATUS_NOT_FOUND == 404
            && STATUS_INTERNAL_SERVER_ERROR == 500,
{
}

// ---------------------------------------------------------------------------
// What a form says
// ---------------------------------------------------------------------------

/// Of several values with one name the last counts; without any the value is empty.
pub proof fn the_last_value_counts(pairs: Seq<(Seq<char>, Seq<char>)>, name: Seq<char>) -> (i: int)
    ensures
        -1 <= i < pairs.len(),
        forall|k: int| i < k < pairs.len() ==> (#[trigger] pairs[k]).0 != name,
        i >= 0 ==> pairs[i].0 == name,
        last_value(pairs, name) == if i >= 0 {
            pairs[i].1
        } else {
            Seq::<char>::empty()
        },
    decreases pairs.len(),
{
    if pairs.len() == 0 {
        -1
    } else if pairs.last().0 == name {
        pairs.len() - 1
    } else {
        let rest = pairs.drop_last();
        let i = the_last_value_counts(rest, name);
        assert forall|k: int| i < k < pairs.len() implies (#[trigger] pairs[k]).0 != name by {
            if k < rest.len() {
                assert(rest[k] == pairs[k]);
            }
        }
        i
    }
}

/// A form selects the values of all pairs that are called `sources` or `sources[]`, in their
/// order.
pub proof fn all_sources_of_a_form_are_selected(pairs: Seq<(Seq<char>, Seq<char>)>) -> (places: Seq<
    int,
>)
    ensures
        are_places(
            places,
            pairs.len() as int,
            |k: int| pairs[k].0 == "sources"@ || pairs[k].0 == "sources"@ + seq!['[', ']'],
        ),
        selected_sources(pairs).len() == places.len(),
        forall|i: int|
            0 <= i < places.len() ==> 0 <= #[trigger] places[i] < pairs.len() && selected_sources(
                pairs,
            )[i] == pairs[places[i]].1,
{
    reveal_strlit("sources");
    reveal_strlit("sources[]");
    assert("sources[]"@ =~= "sources"@ + seq!['[', ']']);
    let pick = |pair: (Seq<char>, Seq<char>)| selected_source(pair);
    let places = picking_takes_all_there_is(pairs, pick);
    let before = |k: int| pick(pairs[k]) is Some;
    let chosen = |k: int| pairs[k].0 == "sources"@ || pairs[k].0 == "sources"@ + seq!['[', ']'];
    assert forall|k: int| 0 <= k < pairs.len() implies #[trigger] before(k) == chosen(k) by {}
    lemma_same_places(places, pairs.len() as int, before, chosen);
    places
}

/// A form says what its pairs say: its name and its type are the last that are given, and its
/// sources are those that are selected.
pub proof fn a_form_says_what_its_pairs_say(form: LibraryForm, pairs: Seq<(Seq<char>, Seq<char>)>)
    ensures
        is_form_of(form, pairs) <==> {
            &&& form.name@ == last_value(pairs, seq!['n', 'a', 'm', 'e'])
            &&& form.collection_type@ == last_value(pairs, "collection_type"@)
            &&& form.sources@.len() == selected_sources(pairs).len()
            &&& forall|i: int|
                0 <= i < form.sources@.len() ==> (#[trigger] form.sources@[i])@
                    == selected_sources(pairs)[i]
        },
{
    reveal_strlit("name");
    assert("name"@ =~= seq!['n', 'a', 'm', 'e']);
    let all = texts(form.sources@);
    assert(all.len() == form.sources@.len());
    if all == selected_sources(pairs) {
        assert forall|i: int| 0 <= i < form.sources@.len() implies (#[trigger] form.sources@[i])@
            == selected_sources(pairs)[i] by {
            assert(all[i] == form.sources@[i]@);
        }
    } else if all.len() == selected_sources(pairs).len() {
        assert(!(all =~= selected_sources(pairs)));
        let i = choose|i: int| 0 <= i < all.len() && all[i] != selected_sources(pairs)[i];
        assert(form.sources@[i]@ != selected_sources(pairs)[i]);
    }
}

// ---------------------------------------------------------------------------
// What can be chosen, and what is chosen
// ---------------------------------------------------------------------------

/// For each library of a server with a collection type that is allowed there is a choice: with its
/// identifier and name, its type as it is stored, and the key made of the server and the library.
/// There is no other, and the choices are in the order of the libraries.
pub proof fn every_library_of_an_allowed_type_can_be_chosen(
    server_id: i64,
    server_name: Seq<char>,
    auth_source: Seq<char>,
    folders: Seq<MediaFolder>,
) -> (places: Seq<int>)
    ensures
        are_places(
            places,
            folders.len() as int,
            |k: int|
                folders[k].collection_type is Some && allowed_types().contains(
                    lowered(trimmed((folders[k].collection_type->0)@)),
                ),
        ),
        ({
            let options = folders.filter_map(
                |folder: MediaFolder| option_for(server_id, server_name, auth_source, folder),
            );
            &&& options.len() == places.len()
            &&& forall|i: int|
                0 <= i < places.len() ==> {
                    let folder = folders[#[trigger] places[i]];
                    &&& 0 <= places[i] < folders.len()
                    &&& options[i].server_id == server_id
                    &&& options[i].server_name == server_name
                    &&& options[i].auth_source == auth_source
                    &&& options[i].library_id == folder.id@
                    &&& options[i].library_name == folder.name@
                    &&& options[i].collection_type == lowered(
                        trimmed((folder.collection_type->0)@),
                    )
                    &&& options[i].key == decimal(server_id as int) + seq![':', ':'] + folder.id@
                }
        }),
{
    reveal_strlit("::");
    assert("::"@ =~= seq![':', ':']);
    let pick = |folder: MediaFolder| option_for(server_id, server_name, auth_source, folder);
    let places = picking_takes_all_there_is(folders, pick);
    let before = |k: int| pick(folders[k]) is Some;
    let chosen = |k: int|
        folders[k].collection_type is Some && allowed_types().contains(
            lowered(trimmed((folders[k].collection_type->0)@)),
        );
    assert forall|k: int| 0 <= k < folders.len() implies #[trigger] before(k) == chosen(k) by {}
    lemma_same_places(places, folders.len() as int, before, chosen);
    let options = folders.filter_map(pick);
    assert forall|i: int| 0 <= i < places.len() implies {
        let folder = folders[#[trigger] places[i]];
        &&& 0 <= places[i] < folders.len()
        &&& options[i].server_id == server_id
        &&& options[i].server_name == server_name
        &&& options[i].auth_source == auth_source
        &&& options[i].library_id == folder.id@
        &&& options[i].library_name == folder.name@
        &&& options[i].collection_type == lowered(trimmed((folder.collection_type->0)@))
        &&& options[i].key == decimal(server_id as int) + seq![':', ':'] + folder.id@
    } by {
        lemma_place_is_chosen(places, folders.len() as int, chosen, i);
        assert(Some(options[i]) == pick(folders[places[i]]));
    }
    places
}

/// Whether the option at place `o` is the one that a key stands for: the last with the key.
pub open spec fn is_option_of_key(options: Seq<OptionView>, o: int, key: Seq<char>) -> bool {
    &&& 0 <= o < options.len()
    &&& options[o].key == key
    &&& forall|k: int| o < k < options.len() ==> (#[trigger] options[k]).key != key
}

/// Whether a key can be selected for a group: an option has it, and the option is of the group's
/// type.
pub open spec fn can_be_selected(
    key: Seq<char>,
    options: Seq<OptionView>,
    group_type: Seq<char>,
) -> bool {
    exists|o: int| #[trigger]
        is_option_of_key(options, o, key) && lowered(trimmed(options[o].collection_type))
            == group_type
}

/// A key stands for the last option that has it, and for none only where no option has it.
pub proof fn the_last_option_with_a_key_counts(options: Seq<OptionView>, key: Seq<char>) -> (o:
    int)
    ensures
        match option_with_key(options, key) {
            Some(option) => is_option_of_key(options, o, key) && option == options[o],
            None => forall|k: int| 0 <= k < options.len() ==> (#[trigger] options[k]).key != key,
        },
    decreases options.len(),
{
    if options.len() == 0 {
        0
    } else if options.last().key == key {
        options.len() - 1
    } else {
        let rest = options.drop_last();
        let o = the_last_option_with_a_key_counts(rest, key);
        let from = if option_with_key(rest, key) is Some {
            assert(rest[o] == options[o]);
            o
        } else {
            -1
        };
        assert forall|k: int| from < k < options.len() implies (#[trigger] options[k]).key
            != key by {
            if k < rest.len() {
                assert(rest[k] == options[k]);
            }
        }
        o
    }
}

proof fn lemma_selectable(key: Seq<char>, options: Seq<OptionView>, group_type: Seq<char>)
    ensures
        can_be_selected(key, options, group_type) <==> option_with_key(options, key) is Some
            && normalized_type((option_with_key(options, key)->0).collection_type) == group_type,
{
    let o = the_last_option_with_a_key_counts(options, key);
    if can_be_selected(key, options, group_type) {
        let p = choose|p: int| #[trigger]
            is_option_of_key(options, p, key) && lowered(trimmed(options[p].collection_type))
                == group_type;
        assert(options[p].key == key);
        if p < o {
            assert(options[o].key != key);
        }
        if o < p {
            assert(options[p].key != key);
        }
    }
}

/// Keys can be used where each of them can be selected. Each different key then has its library
/// among the sources, in the order of the keys, and there is no other source.
pub proof fn every_selected_library_is_a_source(
    keys: Seq<Seq<char>>,
    options: Seq<OptionView>,
    group_type: Seq<char>,
) -> (places: Seq<int>)
    ensures
        sources_for_keys(keys, options, group_type) is Ok <==> forall|k: int|
            0 <= k < keys.len() ==> can_be_selected(#[trigger] keys[k], options, group_type),
        sources_for_keys(keys, options, group_type) is Ok ==> {
            let sources = sources_for_keys(keys, options, group_type)->Ok_0;
            &&& are_places(
                places,
                keys.len() as int,
                |k: int| forall|m: int| 0 <= m < k ==> #[trigger] keys[m] != keys[k],
            )
            &&& sources.len() == places.len()
            &&& forall|i: int|
                0 <= i < places.len() ==> {
                    &&& 0 <= #[trigger] places[i] < keys.len()
                    &&& exists|o: int| #[trigger]
                        is_option_of_key(options, o, keys[places[i]]) && sources[i].server_id
                            == options[o].server_id && sources[i].library_id
                            == options[o].library_id && sources[i].library_name
                            == options[o].library_name && sources[i].collection_type
                            == options[o].collection_type
                }
        },
    decreases keys.len(),
{
    let chosen = |k: int| forall|m: int| 0 <= m < k ==> #[trigger] keys[m] != keys[k];
    let out = sources_for_keys(keys, options, group_type);
    if keys.len() == 0 {
        lemma_no_places(chosen);
        let none = Seq::<int>::empty();
        assert(none.len() == 0);
        none
    } else {
        let rest = keys.drop_last();
        let n = rest.len() as int;
        let key = keys.last();
        let short = sources_for_keys(rest, options, group_type);
        let places = every_selected_library_is_a_source(rest, options, group_type);
        let before = |k: int| forall|m: int| 0 <= m < k ==> #[trigger] rest[m] != rest[k];
        lemma_selectable(key, options, group_type);
        let o = the_last_option_with_a_key_counts(options, key);
        assert(keys[n] == key);
        assert(forall|k: int| 0 <= k < n ==> #[trigger] rest[k] == keys[k]);
        assert(rest.contains(key) == !chosen(n)) by {
            if rest.contains(key) {
                let m = choose|m: int| 0 <= m < rest.len() && rest[m] == key;
                assert(keys[m] == keys[n]);
            }
            if !chosen(n) {
                let m = choose|m: int| 0 <= m < n && #[trigger] keys[m] == keys[n];
                assert(rest[m] == key);
            }
        }
        if forall|k: int|
            0 <= k < keys.len() ==> can_be_selected(#[trigger] keys[k], options, group_type) {
            assert forall|k: int| 0 <= k < rest.len() implies can_be_selected(
                #[trigger] rest[k],
                options,
                group_type,
            ) by {
                assert(keys[k] == rest[k]);
            }
            assert(can_be_selected(keys[n], options, group_type));
        }
        if out is Ok {
            assert(short is Ok);
            if rest.contains(key) {
                let m = choose|m: int| 0 <= m < rest.len() && rest[m] == key;
                assert(can_be_selected(rest[m], options, group_type));
            }
            assert forall|k: int| 0 <= k < keys.len() implies can_be_selected(
                #[trigger] keys[k],
                options,
                group_type,
            ) by {
                if k < n {
                    assert(can_be_selected(rest[k], options, group_type));
                }
            }
            assert forall|k: int| 0 <= k < n implies #[trigger] before(k) == chosen(k) by {
                if before(k) {
                    assert forall|m: int| 0 <= m < k implies #[trigger] keys[m] != keys[k] by {
                        assert(rest[m] != rest[k]);
                    }
                }
                if chosen(k) {
                    assert forall|m: int| 0 <= m < k implies #[trigger] rest[m] != rest[k] by {
                        assert(keys[m] != keys[k]);
                    }
                }
            }
            let next = lemma_next_place(places, n, before, chosen);
            let sources = out->Ok_0;
            let held = short->Ok_0;
            assert forall|i: int| 0 <= i < next.len() implies {
                &&& 0 <= #[trigger] next[i] < keys.len()
                &&& exists|o: int| #[trigger]
                    is_option_of_key(options, o, keys[next[i]]) && sources[i].server_id
                        == options[o].server_id && sources[i].library_id == options[o].library_id
                        && sources[i].library_name == options[o].library_name
                        && sources[i].collection_type == options[o].collection_type
            } by {
                lemma_place_is_chosen(next, keys.len() as int, chosen, i);
                if i < places.len() {
                    assert(rest[places[i]] == keys[next[i]]);
                    assert(sources[i] == held[i]);
                } else {
                    assert(is_option_of_key(options, o, keys[next[i]]));
                }
            }
            next
        } else {
            places
        }
    }
}

/// Keys that cannot be used are refused for the first of them that cannot be selected: as unknown
/// where no option has it, else for the type of its library.
pub proof fn the_first_key_that_cannot_be_selected_is_told(
    keys: Seq<Seq<char>>,
    options: Seq<OptionView>,
    group_type: Seq<char>,
) -> (i: int)
    requires
        sources_for_keys(keys, options, group_type) is Err,
    ensures
        0 <= i < keys.len(),
        forall|k: int| 0 <= k < i ==> can_be_selected(#[trigger] keys[k], options, group_type),
        !can_be_selected(keys[i], options, group_type),
        ({
            let message = sources_for_keys(keys, options, group_type)->Err_0;
            if exists|o: int| 0 <= o < options.len() && (#[trigger] options[o]).key == keys[i] {
                exists|o: int| #[trigger]
                    is_option_of_key(options, o, keys[i]) && message == "Source '"@
                        + options[o].library_name + "' has type '"@ + lowered(
                        trimmed(options[o].collection_type),
                    ) + "' but group type is '"@ + group_type + "'"@
            } else {
                message == "Unknown source selection: "@ + keys[i]
            }
        }),
    decreases keys.len(),
{
    let rest = keys.drop_last();
    let n = rest.len() as int;
    let key = keys.last();
    assert(forall|k: int| 0 <= k < n ==> #[trigger] rest[k] == keys[k]);
    if sources_for_keys(rest, options, group_type) is Err {
        let i = the_first_key_that_cannot_be_selected_is_told(rest, options, group_type);
        assert forall|k: int| 0 <= k < i implies can_be_selected(
            #[trigger] keys[k],
            options,
            group_type,
        ) by {
            assert(rest[k] == keys[k]);
        }
        i
    } else {
        let places = every_selected_library_is_a_source(rest, options, group_type);
        let o = the_last_option_with_a_key_counts(options, key);
        lemma_selectable(key, options, group_type);
        assert(keys[n] == key);
        assert forall|k: int| 0 <= k < n implies can_be_selected(
            #[trigger] keys[k],
            options,
            group_type,
        ) by {
            assert(can_be_selected(rest[k], options, group_type));
        }
        if option_with_key(options, key) is Some {
            assert(is_option_of_key(options, o, keys[n]));
            assert(options[o].key == keys[n]);
        }
        n
    }
}

/// A form is refused for a blank name first, then for no source, then for the first key that cannot
/// be selected; else its sources are those of the keys.
pub proof fn a_form_is_refused_for_its_first_fault(
    form: LibraryForm,
    options: Seq<OptionView>,
    group_type: Seq<char>,
)
    ensures
        ({
            let keys = form.sources@.map_values(|key: String| key@);
            form_sources(form, options, group_type) == if trimmed(form.name@).len() == 0 {
                Err::<Seq<SourceView>, Seq<char>>("Library name cannot be empty"@)
            } else if keys.len() == 0 {
                Err::<Seq<SourceView>, Seq<char>>("Select at least one source library"@)
            } else {
                sources_for_keys(keys, options, group_type)
            }
        }),
{
    assert(texts(form.sources@) =~= form.sources@.map_values(|key: String| key@));
}

// ---------------------------------------------------------------------------
// What the page lists
// ---------------------------------------------------------------------------

/// Each collection type is called by its own label on the page, and only what is none is called
/// unknown.
pub proof fn each_collection_type_has_its_label(value: Seq<char>)
    ensures
        value == "movies"@ ==> label_of(value) == "Movies"@,
        value == "tvshows"@ ==> label_of(value) == "TV Shows"@,
        value == "music"@ ==> label_of(value) == "Music"@,
        value == "musicvideos"@ ==> label_of(value) == "Music Videos"@,
        value == "trailers"@ ==> label_of(value) == "Trailers"@,
        value == "homevideos"@ ==> label_of(value) == "Home Videos"@,
        value == "boxsets"@ ==> label_of(value) == "Box Sets"@,
        value == "books"@ ==> label_of(value) == "Books"@,
        value == "photos"@ ==> label_of(value) == "Photos"@,
        value == "livetv"@ ==> label_of(value) == "Live TV"@,
        value == "playlists"@ ==> label_of(value) == "Playlists"@,
        value == "folders"@ ==> label_of(value) == "Folders"@,
        label_of(value) == "Unknown"@ <==> !allowed_types().contains(value),
{
    reveal_strlit("movies");
    reveal_strlit("tvshows");
    reveal_strlit("music");
    reveal_strlit("musicvideos");
    reveal_strlit("trailers");
    reveal_strlit("homevideos");
    reveal_strlit("boxsets");
    reveal_strlit("books");
    reveal_strlit("photos");
    reveal_strlit("livetv");
    reveal_strlit("playlists");
    reveal_strlit("folders");
    reveal_strlit("Unknown");
    reveal_strlit("Movies");
    reveal_strlit("TV Shows");
    reveal_strlit("Music");
    reveal_strlit("Music Videos");
    reveal_strlit("Trailers");
    reveal_strlit("Home Videos");
    reveal_strlit("Box Sets");
    reveal_strlit("Books");
    reveal_strlit("Photos");
    reveal_strlit("Live TV");
    reveal_strlit("Playlists");
    reveal_strlit("Folders");
    the_allowed_types_are_known(value);
    let label = label_of(value);
    assert("Unknown"@[0] == 'U');
    if allowed_types().contains(value) {
        assert(label[0] != 'U');
    }
    if value.len() > 1 {
        let first = value[0];
        let second = value[1];
        assert(value == "movies"@ ==> first == 'm' && second == 'o');
        assert(value == "music"@ ==> first == 'm' && second == 'u' && value.len() == 5);
        assert(value == "musicvideos"@ ==> first == 'm' && second == 'u' && value.len() == 11);
        assert(value == "tvshows"@ ==> first == 't' && second == 'v');
        assert(value == "trailers"@ ==> first == 't' && second == 'r');
        assert(value == "homevideos"@ ==> first == 'h');
        assert(value == "boxsets"@ ==> first == 'b' && value.len() == 7);
        assert(value == "books"@ ==> first == 'b' && value.len() == 5);
        assert(value == "photos"@ ==> first == 'p' && second == 'h');
        assert(value == "playlists"@ ==> first == 'p' && second == 'l');
        assert(value == "livetv"@ ==> first == 'l');
        assert(value == "folders"@ ==> first == 'f');
    }
}

/// A server is called by the last name that is given for it; without any, by its number.
pub proof fn the_last_name_of_a_server_counts(names: Seq<(i64, String)>, server_id: i64) -> (i: int)
    ensures
        -1 <= i < names.len(),
        forall|k: int| i < k < names.len() ==> (#[trigger] names[k]).0 != server_id,
        i >= 0 ==> names[i].0 == server_id,
        server_name_of(names, server_id) == if i >= 0 {
            names[i].1@
        } else {
            "Server "@ + decimal(server_id as int)
        },
    decreases names.len(),
{
    if names.len() == 0 {
        -1
    } else if names.last().0 == server_id {
        names.len() - 1
    } else {
        let rest = names.drop_last();
        let i = the_last_name_of_a_server_counts(rest, server_id);
        assert forall|k: int| i < k < names.len() implies (#[trigger] names[k]).0 != server_id by {
            if k < rest.len() {
                assert(rest[k] == names[k]);
            }
        }
        i
    }
}

/// A group is listed with its own data, with one line for each source in their order, and with
/// one choice for each library in their order, which is checked exactly where one of the sources
/// is that library of that server.
pub proof fn a_group_is_listed_as_it_is_stored(
    view: GroupView,
    group: LibraryGroupWithSources,
    names: Seq<(i64, String)>,
    options: Seq<SourceOption>,
)
    requires
        is_view_of(view, group, names, options),
    ensures
        view.id == group.group.id,
        view.name == group.group.name,
        view.virtual_library_id == group.group.virtual_library_id,
        view.collection_type == group.group.collection_type,
        view.source_descriptions@.len() == group.sources@.len(),
        forall|i: int|
            0 <= i < group.sources@.len() ==> (#[trigger] view.source_descriptions@[i])@
                == server_name_of(names, group.sources@[i].server_id) + seq![' ', '-', ' ']
                + group.sources@[i].source_library_name@ + seq![' ', '(']
                + group.sources@[i].source_collection_type@ + seq![')'],
        view.source_choices@.len() == options.len(),
        forall|i: int|
            0 <= i < options.len() ==> {
                let choice = #[trigger] view.source_choices@[i];
                &&& choice.key == options[i].key
                &&& choice.server_name == options[i].server_name
                &&& choice.library_name == options[i].library_name
                &&& choice.collection_type == options[i].collection_type
                &&& choice.auth_source == options[i].auth_source
            },
        forall|i: int|
            0 <= i < options.len() ==> {
                (#[trigger] view.source_choices@[i]).checked <==> exists|k: int|
                    0 <= k < group.sources@.len() && decimal(
                        (#[trigger] group.sources@[k]).server_id as int,
                    ) + seq![':', ':'] + group.sources@[k].source_library_id@ == options[i].key@
            },
{
    reveal_strlit(" - ");
    reveal_strlit(" (");
    reveal_strlit(")");
    reveal_strlit("::");
    assert(" - "@ =~= seq![' ', '-', ' ']);
    assert(" ("@ =~= seq![' ', '(']);
    assert(")"@ =~= seq![')']);
    assert("::"@ =~= seq![':', ':']);
    let lines = group.sources@.map_values(
        |source: LibraryGroupSource| description_of(source, names),
    );
    assert(texts(view.source_descriptions@).len() == view.source_descriptions@.len());
    assert forall|i: int| 0 <= i < group.sources@.len() implies (
    #[trigger] view.source_descriptions@[i])@ == server_name_of(
        names,
        group.sources@[i].server_id,
    ) + seq![' ', '-', ' '] + group.sources@[i].source_library_name@ + seq![' ', '(']
        + group.sources@[i].source_collection_type@ + seq![')'] by {
        assert(texts(view.source_descriptions@)[i] == view.source_descriptions@[i]@);
        assert(lines[i] == description_of(group.sources@[i], names));
    }
    assert forall|i: int| 0 <= i < options.len() implies {
        (#[trigger] view.source_choices@[i]).checked <==> exists|k: int|
            0 <= k < group.sources@.len() && decimal(
                (#[trigger] group.sources@[k]).server_id as int,
            ) + seq![':', ':'] + group.sources@[k].source_library_id@ == options[i].key@
    } by {
        assert(is_choice_of(view.source_choices@[i], options[i], group.sources@));
        if is_source(group.sources@, options[i].key@) {
            let k = choose|k: int|
                0 <= k < group.sources@.len() && key_of(
                    (#[trigger] group.sources@[k]).server_id,
                    group.sources@[k].source_library_id@,
                ) == options[i].key@;
            assert(decimal(group.sources@[k].server_id as int) + seq![':', ':']
                + group.sources@[k].source_library_id@ == options[i].key@);
        }
        if exists|k: int|
            0 <= k < group.sources@.len() && decimal(
                (#[trigger] group.sources@[k]).server_id as int,
            ) + seq![':', ':'] + group.sources@[k].source_library_id@ == options[i].key@ {
            let k = choose|k: int|
                0 <= k < group.sources@.len() && decimal(
                    (#[trigger] group.sources@[k]).server_id as int,
                ) + seq![':', ':'] + group.sources@[k].source_library_id@ == options[i].key@;
            assert(key_of(
                group.sources@[k].server_id,
                group.sources@[k].source_library_id@,
            ) == options[i].key@);
        }
    }
}

// ---------------------------------------------------------------------------
// What the search finds
// ---------------------------------------------------------------------------

/// The search on a server ends with libraries or with a message, never with both.
pub proof fn the_search_ends_with_what_it_says(
    step: DiscoveryStep,
    server_id: i64,
    server_name: Seq<char>,
    auth_source: Seq<char>,
    folders: Seq<MediaFolder>,
    message: Seq<char>,
)
    ensures
        ends_with_folders(step, server_id, server_name, auth_source, folders) <==> {
            &&& step is End
            &&& step->End_0 is Found
            &&& step->End_0->Found_0@ == auth_source
            &&& step->End_0->Found_1@.map_values(|option: SourceOption| option@)
                == folders.filter_map(
                |folder: MediaFolder| option_for(server_id, server_name, auth_source, folder),
            )
        },
        ends_with_message(step, message) <==> {
            &&& step is End
            &&& step->End_0 is Unavailable
            &&& step->End_0->Unavailable_0@ == message
        },
{
}

/// The libraries that were found are those of the first server, then those of the second, and so
/// on; a server on which none could be listed adds none.
pub proof fn the_libraries_of_all_servers_are_found(
    one: Seq<ServerDiscovery>,
    other: Seq<ServerDiscovery>,
)
    ensures
        found_options(Seq::<ServerDiscovery>::empty()) == Seq::<SourceOption>::empty(),
        one.len() == 1 ==> match one[0].result {
            DiscoveryResult::Found(_, options) => found_options(one) == options@,
            DiscoveryResult::Unavailable(_) => found_options(one) == Seq::<SourceOption>::empty(),
        },
        found_options(one + other) == found_options(one) + found_options(other),
    decreases other.len(),
{
    if one.len() == 1 {
        assert(found_options(one.drop_last()) =~= Seq::<SourceOption>::empty());
        assert(one.last() == one[0]);
        match one[0].result {
            DiscoveryResult::Found(_, options) => {
                assert(found_options(one) =~= options@);
            },
            DiscoveryResult::Unavailable(_) => {},
        }
    }
    if other.len() == 0 {
        assert(one + other =~= one);
        assert(found_options(one) + found_options(other) =~= found_options(one));
    } else {
        the_libraries_of_all_servers_are_found(one, other.drop_last());
        assert((one + other).drop_last() =~= one + other.drop_last());
        assert((one + other).last() == other.last());
        assert(found_options(one + other) =~= found_options(one) + found_options(other));
    }
}

/// The libraries are listed by server, then by collection type, then by name, and each of them is
/// listed as often as it was found. Where these are the same, they stay as they were found.
pub proof fn libraries_are_listed_by_server_type_and_name(
    discoveries: Seq<ServerDiscovery>,
    i: int,
    j: int,
    x: SourceOption,
)
    requires
        0 <= i < j < ranked(found_options(discoveries)).len(),
    ensures
        ranked(found_options(discoveries)).to_multiset() == found_options(
            discoveries,
        ).to_multiset(),
        ({
            let a = ranked(found_options(discoveries))[i];
            let b = ranked(found_options(discoveries))[j];
            ||| text_before(a.server_name@, b.server_name@)
            ||| a.server_name@ == b.server_name@ && text_before(
                a.collection_type@,
                b.collection_type@,
            )
            ||| a.server_name@ == b.server_name@ && a.collection_type@ == b.collection_type@ && (
            text_before(a.library_name@, b.library_name@) || a.library_name@ == b.library_name@)
        }),
        ranked(found_options(discoveries)).filter(
            |e: SourceOption|
                e.server_name@ == x.server_name@ && e.collection_type@ == x.collection_type@
                    && e.library_name@ == x.library_name@,
        ) == found_options(discoveries).filter(
            |e: SourceOption|
                e.server_name@ == x.server_name@ && e.collection_type@ == x.collection_type@
                    && e.library_name@ == x.library_name@,
        ),
{
    let found = found_options(discoveries);
    let same = |e: SourceOption| same_rank(e, x);
    let alike = |e: SourceOption|
        e.server_name@ == x.server_name@ && e.collection_type@ == x.collection_type@
            && e.library_name@ == x.library_name@;
    assert forall|e: SourceOption| #[trigger] same(e) == alike(e) by {
        text_order_is_total(e.server_name@, x.server_name@);
        text_order_is_total(e.collection_type@, x.collection_type@);
        text_order_is_total(e.library_name@, x.library_name@);
    }
    assert(same =~= alike);
    ranking_is_stable(found, x);
    ranking_is_a_permutation(found);
    ranking_orders_by_rank(found);
    let a = ranked(found)[i];
    let b = ranked(found)[j];
    assert(!b.before(a));
    text_order_is_total(a.server_name@, b.server_name@);
    text_order_is_total(a.collection_type@, b.collection_type@);
    text_order_is_total(a.library_name@, b.library_name@);
}

/// Each server is reported once, by name: with the way in which it was asked and the number of its
/// libraries, or with the message on why there are none. Servers of one name stay as they were.
pub proof fn each_server_is_reported_once_by_name(
    discoveries: Seq<ServerDiscovery>,
    i: int,
    j: int,
    k: int,
    x: ServerDiscoveryStatus,
)
    requires
        0 <= i < j < discoveries.len(),
        0 <= k < discoveries.len(),
    ensures
        ({
            let statuses = discoveries.map_values(
                |discovery: ServerDiscovery| status_of(discovery),
            );
            &&& ranked(statuses).to_multiset() == statuses.to_multiset()
            &&& ranked(statuses).len() == discoveries.len()
            &&& ranked(statuses).filter(
                |e: ServerDiscoveryStatus| e.server_name@ == x.server_name@,
            ) == statuses.filter(|e: ServerDiscoveryStatus| e.server_name@ == x.server_name@)
            &&& text_before(ranked(statuses)[i].server_name@, ranked(statuses)[j].server_name@)
                || ranked(statuses)[i].server_name@ == ranked(statuses)[j].server_name@
            &&& statuses[k].server_name == discoveries[k].server_name
            &&& match discoveries[k].result {
                DiscoveryResult::Found(way, options) => {
                    &&& statuses[k].auth_source == Some(way)
                    &&& statuses[k].message is None
                    &&& options@.len() <= usize::MAX ==> statuses[k].library_count == options@.len()
                },
                DiscoveryResult::Unavailable(message) => {
                    &&& statuses[k].auth_source is None
                    &&& statuses[k].message == Some(message)
                    &&& statuses[k].library_count == 0
                },
            }
        }),
{
    let statuses = discoveries.map_values(|discovery: ServerDiscovery| status_of(discovery));
    let same = |e: ServerDiscoveryStatus| same_rank(e, x);
    let alike = |e: ServerDiscoveryStatus| e.server_name@ == x.server_name@;
    assert forall|e: ServerDiscoveryStatus| #[trigger] same(e) == alike(e) by {
        text_order_is_total(e.server_name@, x.server_name@);
    }
    assert(same =~= alike);
    ranking_is_stable(statuses, x);
    ranking_is_a_permutation(statuses);
    ranking_orders_by_rank(statuses);
    let a = ranked(statuses)[i];
    let b = ranked(statuses)[j];
    assert(!b.before(a));
    text_order_is_total(a.server_name@, b.server_name@);
}

/// A stage of the search can succeed or fail, and where something is looked up there may be
/// nothing; the libraries are what only the listing gives, in place of mere success.
pub proof fn a_stage_can_have_its_own_answers(stage: DiscoveryStage, answer: DiscoveryAnswer)
    ensures
        is_discovery_answer(stage, answer) <==> match answer {
            DiscoveryAnswer::Failed(_) => true,
            DiscoveryAnswer::Ready => stage != DiscoveryStage::ListAsAdmin && stage
                != DiscoveryStage::ListAsUser,
            DiscoveryAnswer::Absent => stage == DiscoveryStage::FindAdmin || stage
                == DiscoveryStage::FindSession,
            DiscoveryAnswer::Folders(_) => stage == DiscoveryStage::ListAsAdmin || stage
                == DiscoveryStage::ListAsUser,
        },
{
}

} // verus!
