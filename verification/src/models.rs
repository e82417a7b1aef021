//! What the proxy passes on: servers, sessions, media items and playback data. Times are
//! microseconds since 1970. What the proxy only carries through is held as JSON text.
use vstd::prelude::*;

use crate::text::{same_text, text_option};

verus! {

/// The status codes that the proxy answers with by itself.
pub const STATUS_OK: u16 = 200;

pub const STATUS_BAD_REQUEST: u16 = 400;

pub const STATUS_UNAUTHORIZED: u16 = 401;

pub const STATUS_NOT_FOUND: u16 = 404;

pub const STATUS_INTERNAL_SERVER_ERROR: u16 = 500;

/// Whether a status code stands for success.
pub open spec fn is_success(status: u16) -> bool {
    200 <= status < 300
}

/// Whether a status code stands for success.
pub fn is_success_status(status: u16) -> (r: bool)
    ensures
        r == is_success(status),
{
    200 <= status && status < 300
}

/// A copy of an optional text.
pub fn copy_optional(value: &Option<String>) -> (r: Option<String>)
    ensures
        r == *value,
{
    match value {
        Some(text) => Some(text.clone()),
        None => None,
    }
}

// ---------------------------------------------------------------------------
// Servers and sessions
// ---------------------------------------------------------------------------

/// A media server behind the proxy.
#[derive(Debug)]
pub struct Server {
    pub id: i64,
    pub name: String,
    pub url: String,
    pub priority: i32,
    pub created_at: i64,
    pub updated_at: i64,
}

impl Clone for Server {
    fn clone(&self) -> (r: Self)
        ensures
            r == *self,
    {
        Server {
            id: self.id,
            name: self.name.clone(),
            url: self.url.clone(),
            priority: self.priority,
            created_at: self.created_at,
            updated_at: self.updated_at,
        }
    }
}

/// How a client introduces itself to a server.
#[derive(Debug)]
pub struct Authorization {
    pub client: String,
    pub device: String,
    pub device_id: String,
    pub version: String,
    pub token: Option<String>,
}

/// The device that a session belongs to.
#[derive(Debug)]
pub struct Device {
    pub client: String,
    pub device: String,
    pub device_id: String,
    pub version: String,
}

impl Clone for Device {
    fn clone(&self) -> (r: Self)
        ensures
            r == *self,
    {
        Device {
            client: self.client.clone(),
            device: self.device.clone(),
            device_id: self.device_id.clone(),
            version: self.version.clone(),
        }
    }
}

/// A user's session on one server.
#[derive(Debug)]
pub struct AuthorizationSession {
    pub id: i64,
    pub user_id: String,
    pub mapping_id: i64,
    pub server_url: String,
    pub device: Device,
    pub jellyfin_token: String,
    pub original_user_id: String,
    pub expires_at: Option<i64>,
    pub created_at: i64,
    pub updated_at: i64,
}

impl Clone for AuthorizationSession {
    fn clone(&self) -> (r: Self)
        ensures
            r == *self,
    {
        AuthorizationSession {
            id: self.id,
            user_id: self.user_id.clone(),
            mapping_id: self.mapping_id,
            server_url: self.server_url.clone(),
            device: self.device.clone(),
            jellyfin_token: self.jellyfin_token.clone(),
            original_user_id: self.original_user_id.clone(),
            expires_at: self.expires_at,
            created_at: self.created_at,
            updated_at: self.updated_at,
        }
    }
}

// ---------------------------------------------------------------------------
// Media items
// ---------------------------------------------------------------------------

/// What an item is. The proxy tells two sorts apart and carries the name of any other.
#[derive(Debug, Clone)]
pub enum BaseItemKind {
    UserView,
    CollectionFolder,
    Other(String),
}

/// What a library holds.
#[derive(Debug, Clone)]
pub enum CollectionType {
    Movies,
    TvShows,
    Music,
    MusicVideos,
    Trailers,
    HomeVideos,
    BoxSets,
    Books,
    Photos,
    LiveTv,
    Playlists,
    Folders,
    UnknownVariant(String),
}

impl CollectionType {
    /// The name under which servers know the collection type.
    pub open spec fn text(self) -> Seq<char> {
        match self {
            CollectionType::Movies => "movies"@,
            CollectionType::TvShows => "tvshows"@,
            CollectionType::Music => "music"@,
            CollectionType::MusicVideos => "musicvideos"@,
            CollectionType::Trailers => "trailers"@,
            CollectionType::HomeVideos => "homevideos"@,
            CollectionType::BoxSets => "boxsets"@,
            CollectionType::Books => "books"@,
            CollectionType::Photos => "photos"@,
            CollectionType::LiveTv => "livetv"@,
            CollectionType::Playlists => "playlists"@,
            CollectionType::Folders => "folders"@,
            CollectionType::UnknownVariant(name) => name@,
        }
    }

    /// The name under which servers know the collection type.
    pub fn as_text(&self) -> (r: &str)
        ensures
            r@ == self.text(),
    {
        match self {
            CollectionType::Movies => "movies",
            CollectionType::TvShows => "tvshows",
            CollectionType::Music => "music",
            CollectionType::MusicVideos => "musicvideos",
            CollectionType::Trailers => "trailers",
            CollectionType::HomeVideos => "homevideos",
            CollectionType::BoxSets => "boxsets",
            CollectionType::Books => "books",
            CollectionType::Photos => "photos",
            CollectionType::LiveTv => "livetv",
            CollectionType::Playlists => "playlists",
            CollectionType::Folders => "folders",
            CollectionType::UnknownVariant(name) => name.as_str(),
        }
    }
}

/// Whether a text is the name of one of the known collection types.
pub open spec fn is_known_collection_type(value: Seq<char>) -> bool {
    ||| value == "movies"@
    ||| value == "tvshows"@
    ||| value == "music"@
    ||| value == "musicvideos"@
    ||| value == "trailers"@
    ||| value == "homevideos"@
    ||| value == "boxsets"@
    ||| value == "books"@
    ||| value == "photos"@
    ||| value == "livetv"@
    ||| value == "playlists"@
    ||| value == "folders"@
}

/// Whether a collection type is the one with the given name: it has exactly that name, and it is
/// an unknown variant exactly where no known collection type has the name.
pub open spec fn is_type_named(collection_type: CollectionType, name: Seq<char>) -> bool {
    &&& collection_type.text() == name
    &&& collection_type is UnknownVariant <==> !is_known_collection_type(name)
}

/// Known collection types with one name are the same.
pub proof fn known_types_are_told_apart_by_name(
    one: CollectionType,
    other: CollectionType,
    name: Seq<char>,
)
    requires
        is_type_named(one, name),
        is_type_named(other, name),
        is_known_collection_type(name),
    ensures
        one == other,
{
    reveal_strlit("movies");
    reveal_strlit("tvshows");
    reveal_strlit("music");
    reveal_strlit("musicvideos");
    reveal_strlit("trailers");
    reveal_strlit("homevideos");
    reveal_strlit("boxsets");
    reveal_strlit("books");
    reveal_strlit("photos");
    reveal_strlit("livetv");
    reveal_strlit("playlists");
    reveal_strlit("folders");
    assert(name.len() == one.text().len() && name.len() == other.text().len());
    assert(name[0] == one.text()[0] && name[0] == other.text()[0]);
    assert(name[1] == one.text()[1] && name[1] == other.text()[1]);
}

/// The collection type with the given name.
pub fn parse_collection_type(value: &str) -> (r: CollectionType)
    ensures
        is_type_named(r, value@),
{
    if same_text(value, "movies") {
        CollectionType::Movies
    } else if same_text(value, "tvshows") {
        CollectionType::TvShows
    } else if same_text(value, "music") {
        CollectionType::Music
    } else if same_text(value, "musicvideos") {
        CollectionType::MusicVideos
    } else if same_text(value, "trailers") {
        CollectionType::Trailers
    } else if same_text(value, "homevideos") {
        CollectionType::HomeVideos
    } else if same_text(value, "boxsets") {
        CollectionType::BoxSets
    } else if same_text(value, "books") {
        CollectionType::Books
    } else if same_text(value, "photos") {
        CollectionType::Photos
    } else if same_text(value, "livetv") {
        CollectionType::LiveTv
    } else if same_text(value, "playlists") {
        CollectionType::Playlists
    } else if same_text(value, "folders") {
        CollectionType::Folders
    } else {
        CollectionType::UnknownVariant(value.to_owned())
    }
}

/// One version of an item that can be played. `rest` is the JSON text of what else it says.
#[derive(Debug, Clone)]
pub struct MediaSource {
    pub id: String,
    pub name: Option<String>,
    pub rest: String,
}

/// A version of an item as values.
#[verifier::ext_equal]
pub struct MediaSourceView {
    pub id: Seq<char>,
    pub name: Option<Seq<char>>,
    pub rest: Seq<char>,
}

impl View for MediaSource {
    type V = MediaSourceView;

    open spec fn view(&self) -> MediaSourceView {
        MediaSourceView { id: self.id@, name: text_option(self.name), rest: self.rest@ }
    }
}

/// Versions of an item as values.
pub open spec fn source_values(sources: Seq<MediaSource>) -> Seq<MediaSourceView> {
    sources.map_values(|source: MediaSource| source@)
}

/// An item of a library.
#[derive(Debug, Clone)]
pub struct MediaItem {
    pub name: Option<String>,
    pub server_id: Option<String>,
    pub id: String,
    pub item_id: Option<String>,
    pub series_id: Option<String>,
    pub series_name: Option<String>,
    pub season_id: Option<String>,
    pub etag: Option<String>,
    pub date_created: Option<String>,
    pub can_delete: Option<bool>,
    pub can_download: Option<bool>,
    pub sort_name: Option<String>,
    /// Each element is JSON text.
    pub external_urls: Option<Vec<String>>,
    pub path: Option<String>,
    pub enable_media_source_display: Option<bool>,
    pub channel_id: Option<String>,
    /// JSON text.
    pub provider_ids: Option<String>,
    pub is_folder: Option<bool>,
    pub parent_id: Option<String>,
    pub parent_logo_item_id: Option<String>,
    pub parent_backdrop_item_id: Option<String>,
    pub parent_backdrop_image_tags: Option<Vec<String>>,
    pub parent_logo_image_tag: Option<String>,
    pub parent_thumb_item_id: Option<String>,
    pub parent_thumb_image_tag: Option<String>,
    pub item_type: BaseItemKind,
    pub collection_type: Option<CollectionType>,
    /// JSON text.
    pub user_data: Option<String>,
    pub child_count: Option<i32>,
    pub display_preferences_id: Option<String>,
    pub tags: Option<Vec<String>>,
    pub series_primary_image_tag: Option<String>,
    /// Pairs of an image type and a tag.
    pub image_tags: Option<Vec<(String, String)>>,
    pub backdrop_image_tags: Option<Vec<String>>,
    /// JSON text.
    pub image_blur_hashes: Option<String>,
    pub original_title: Option<String>,
    pub media_sources: Option<Vec<MediaSource>>,
    /// Each element is JSON text.
    pub media_streams: Option<Vec<String>>,
    /// Each element is JSON text.
    pub chapters: Option<Vec<String>>,
    /// JSON text.
    pub trickplay: Option<String>,
    /// Pairs of a field's name and the JSON text of its value.
    pub extra: Vec<(String, String)>,
}

/// Items with the number of items that a server has in all.
#[derive(Debug, Clone)]
pub struct ItemsResponseWithCount {
    pub items: Vec<MediaItem>,
    pub total_record_count: i32,
    pub start_index: i32,
}

/// The items that a server answers with, in either of the two forms that servers use.
#[derive(Debug, Clone)]
pub enum ItemsResponseVariants {
    WithCount(ItemsResponseWithCount),
    Bare(Vec<MediaItem>),
}

impl ItemsResponseVariants {
    /// The items.
    pub open spec fn items(self) -> Seq<MediaItem> {
        match self {
            ItemsResponseVariants::WithCount(response) => response.items@,
            ItemsResponseVariants::Bare(items) => items@,
        }
    }

    /// How many items the server says that it has: the stated number, or that of the items.
    pub open spec fn total(self) -> i32 {
        match self {
            ItemsResponseVariants::WithCount(response) => response.total_record_count,
            ItemsResponseVariants::Bare(items) => items@.len() as i32,
        }
    }

    /// How many items the server says that it has: the stated number, or that of the items.
    pub fn total_count(&self) -> (r: i32)
        ensures
            r == self.total(),
    {
        match self {
            ItemsResponseVariants::WithCount(response) => response.total_record_count,
            ItemsResponseVariants::Bare(items) => items.len() as i32,
        }
    }

    /// The items.
    pub fn into_items(self) -> (r: Vec<MediaItem>)
        ensures
            r@ == self.items(),
    {
        match self {
            ItemsResponseVariants::WithCount(response) => response.items,
            ItemsResponseVariants::Bare(items) => items,
        }
    }
}

// ---------------------------------------------------------------------------
// Playback
// ---------------------------------------------------------------------------

/// What a client asks before it plays an item. `rest` is the JSON text of what else it asks.
#[derive(Debug)]
pub struct PlaybackRequest {
    pub user_id: Option<String>,
    pub media_source_id: Option<String>,
    pub rest: String,
}

impl Clone for PlaybackRequest {
    fn clone(&self) -> (r: Self)
        ensures
            r == *self,
    {
        PlaybackRequest {
            user_id: copy_optional(&self.user_id),
            media_source_id: copy_optional(&self.media_source_id),
            rest: self.rest.clone(),
        }
    }
}

/// The versions of an item that can be played.
#[derive(Debug, Clone)]
pub struct PlaybackResponse {
    pub media_sources: Vec<MediaSource>,
    pub play_session_id: String,
}

/// The versions of an item that can be played, as values.
#[verifier::ext_equal]
pub struct PlaybackResponseView {
    pub media_sources: Seq<MediaSourceView>,
    pub play_session_id: Seq<char>,
}

impl View for PlaybackResponse {
    type V = PlaybackResponseView;

    open spec fn view(&self) -> PlaybackResponseView {
        PlaybackResponseView {
            media_sources: source_values(self.media_sources@),
            play_session_id: self.play_session_id@,
        }
    }
}

/// Responses as values.
pub open spec fn response_values(responses: Seq<PlaybackResponse>) -> Seq<PlaybackResponseView> {
    responses.map_values(|response: PlaybackResponse| response@)
}

/// A collection type is named as servers name it, each known one by a name of its own; a text is
/// the name of a known one exactly where one of these names is the text.
pub proof fn collection_types_have_their_names(collection_type: CollectionType, value: Seq<char>)
    ensures
        collection_type.text() == match collection_type {
            CollectionType::Movies => "movies"@,
            CollectionType::TvShows => "tvshows"@,
            CollectionType::Music => "music"@,
            CollectionType::MusicVideos => "musicvideos"@,
            CollectionType::Trailers => "trailers"@,
            CollectionType::HomeVideos => "homevideos"@,
            CollectionType::BoxSets => "boxsets"@,
            CollectionType::Books => "books"@,
            CollectionType::Photos => "photos"@,
            CollectionType::LiveTv => "livetv"@,
            CollectionType::Playlists => "playlists"@,
            CollectionType::Folders => "folders"@,
            CollectionType::UnknownVariant(name) => name@,
        },
        is_known_collection_type(value) <==> exists|known: CollectionType|
            !(known is UnknownVariant) && #[trigger] known.text() == value,
        is_type_named(collection_type, value) <==> {
            &&& collection_type.text() == value
            &&& collection_type is UnknownVariant <==> !is_known_collection_type(value)
        },
{
    if is_known_collection_type(value) {
        let known = if value == "movies"@ {
            CollectionType::Movies
        } else if value == "tvshows"@ {
            CollectionType::TvShows
        } else if value == "music"@ {
            CollectionType::Music
        } else if value == "musicvideos"@ {
            CollectionType::MusicVideos
        } else if value == "trailers"@ {
            CollectionType::Trailers
        } else if value == "homevideos"@ {
            CollectionType::HomeVideos
        } else if value == "boxsets"@ {
            CollectionType::BoxSets
        } else if value == "books"@ {
            CollectionType::Books
        } else if value == "photos"@ {
            CollectionType::Photos
        } else if value == "livetv"@ {
            CollectionType::LiveTv
        } else if value == "playlists"@ {
            CollectionType::Playlists
        } else {
            CollectionType::Folders
        };
        assert(known.text() == value);
    }
}

/// Success is a status from 200 to 299, and the other statuses that answers come with are none.
pub proof fn success_is_in_the_two_hundreds(status: u16)
    ensures
        is_success(status) <==> status / 100 == 2,
        is_success(STATUS_OK),
        STATUS_OK == 200,
        STATUS_BAD_REQUEST == 400,
        STATUS_UNAUTHORIZED == 401,
        STATUS_NOT_FOUND == 404,
        STATUS_INTERNAL_SERVER_ERROR == 500,
{
}

} // verus!
