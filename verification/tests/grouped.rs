use jellyswarrm_proxy::federated::build_grouped_user_view_item;
use jellyswarrm_proxy::grouped_item::{GroupedItem, ItemAnswer, ItemStage};
use jellyswarrm_proxy::grouped_playback::{GroupedPlayback, PlaybackAnswer, PlaybackStage};
use jellyswarrm_proxy::media_storage_service::{
    MediaDedupeGroup, MediaDedupeMember, MediaStorageService,
};
use jellyswarrm_proxy::models::{
    AuthorizationSession, Device, MediaItem, MediaSource, PlaybackRequest, PlaybackResponse, Server,
};
use jellyswarrm_proxy::show_items::{
    read_show_request, ShowAnswer, ShowItems, ShowRequest, ShowStage,
};

fn server(id: i64, priority: i32) -> Server {
    Server {
        id,
        name: format!("server-{}", id),
        url: format!("http://{}.local", id),
        priority,
        created_at: 0,
        updated_at: 0,
    }
}

fn session(id: i64) -> AuthorizationSession {
    AuthorizationSession {
        id,
        user_id: "user".to_string(),
        mapping_id: 1,
        server_url: "http://a.local".to_string(),
        device: Device {
            client: "client".to_string(),
            device: "device".to_string(),
            device_id: "device-id".to_string(),
            version: "1".to_string(),
        },
        jellyfin_token: "token".to_string(),
        original_user_id: format!("remote-{}", id),
        expires_at: None,
        created_at: 0,
        updated_at: 0,
    }
}

fn sessions() -> Option<Vec<(AuthorizationSession, Server)>> {
    Some(vec![(session(1), server(1, 5)), (session(2), server(2, 9))])
}

fn member(server_id: i64, id: &str) -> MediaDedupeMember {
    MediaDedupeMember {
        server_id,
        virtual_media_id: id.to_string(),
    }
}

fn shared() -> Option<MediaDedupeGroup> {
    Some(MediaDedupeGroup {
        canonical_virtual_media_id: "c".to_string(),
        members: vec![member(1, "m1"), member(2, "m2")],
    })
}

fn payload(media_source_id: Option<&str>) -> PlaybackRequest {
    PlaybackRequest {
        user_id: Some("me".to_string()),
        media_source_id: media_source_id.map(|m| m.to_string()),
        rest: "{}".to_string(),
    }
}

fn source(id: &str) -> MediaSource {
    MediaSource {
        id: id.to_string(),
        name: None,
        rest: "{}".to_string(),
    }
}

fn response(session: &str, ids: &[&str]) -> PlaybackResponse {
    PlaybackResponse {
        media_sources: ids.iter().map(|id| source(id)).collect(),
        play_session_id: session.to_string(),
    }
}

fn item(id: &str, sources: &[&str]) -> MediaItem {
    let mut item = build_grouped_user_view_item(id, id, "movies", "srv", 1);
    item.media_sources = Some(sources.iter().map(|id| source(id)).collect());
    item
}

fn play(playback: &mut GroupedPlayback, answer: PlaybackAnswer) {
    assert!(playback.accepts(&answer));
    playback.step(answer);
}

fn tell(item: &mut GroupedItem, answer: ItemAnswer) {
    assert!(item.accepts(&answer));
    item.step(answer);
}

fn show(items: &mut ShowItems, answer: ShowAnswer) {
    assert!(items.accepts(&answer));
    items.step(answer);
}

#[test]
fn every_server_is_asked_where_no_version_is_selected() {
    let mut playback =
        GroupedPlayback::new("/Items/i/PlaybackInfo", payload(None), sessions(), true);
    assert_eq!(playback.stage(), PlaybackStage::FindGroup);
    assert_eq!(playback.item_id(), Some("i".to_string()));
    play(&mut playback, PlaybackAnswer::Group(shared()));
    assert_eq!(playback.stage(), PlaybackStage::AskServer);
    assert_eq!(playback.candidates()[0].virtual_media_id, "m2");
    let asked = playback.payload_in_turn();
    assert_eq!(asked.user_id, Some("remote-2".to_string()));
    assert_eq!(asked.media_source_id, None);
    play(&mut playback, PlaybackAnswer::Response(Ok(response("p2", &["a"]))));
    assert_eq!(playback.payload_in_turn().user_id, Some("remote-1".to_string()));
    play(&mut playback, PlaybackAnswer::Response(Ok(response("p1", &["b", "c"]))));
    assert_eq!(playback.stage(), PlaybackStage::Respond);
    let merged = playback.into_response().unwrap();
    assert_eq!(merged.play_session_id, "p2");
    let versions: Vec<(String, Option<String>)> = merged
        .media_sources
        .into_iter()
        .map(|s| (s.id, s.name))
        .collect();
    let version = |id: &str, name: &str| (id.to_string(), Some(name.to_string()));
    assert_eq!(
        versions,
        vec![
            version("a", "server-2 source"),
            version("b", "server-1 source"),
            version("c", "server-1 source"),
        ]
    );
}

#[test]
fn named_versions_tell_their_servers() {
    let mut playback =
        GroupedPlayback::new("/Items/i/PlaybackInfo", payload(None), sessions(), true);
    play(&mut playback, PlaybackAnswer::Group(shared()));
    assert_eq!(playback.candidate_in_turn().unwrap().server.id, 2);
    let mut answer = response("p2", &["a"]);
    answer.media_sources[0].name = Some("4K".to_string());
    play(&mut playback, PlaybackAnswer::Response(Ok(answer)));
    assert_eq!(playback.candidate_in_turn().unwrap().server.id, 1);
    play(&mut playback, PlaybackAnswer::Response(Ok(response("p1", &[]))));
    assert!(playback.candidate_in_turn().is_none());
    let merged = playback.into_response().unwrap();
    assert_eq!(merged.media_sources.len(), 1);
    assert_eq!(merged.media_sources[0].name, Some("4K [server-2]".to_string()));
    assert_eq!(merged.media_sources[0].rest, "{}");
}

#[test]
fn the_selected_version_is_asked_for_on_its_server() {
    let mut playback =
        GroupedPlayback::new("/Items/i/PlaybackInfo", payload(Some("v")), sessions(), true);
    play(&mut playback, PlaybackAnswer::Group(shared()));
    assert_eq!(playback.stage(), PlaybackStage::FindSelected);
    assert_eq!(playback.selected_source(), Some("v".to_string()));
    play(&mut playback, PlaybackAnswer::Selected(Ok(Some(1))));
    assert_eq!(playback.stage(), PlaybackStage::FindMapping);
    assert_eq!(playback.candidates().len(), 1);
    play(&mut playback, PlaybackAnswer::Mapping(Ok(Some("own".to_string()))));
    assert_eq!(playback.stage(), PlaybackStage::AskServer);
    assert_eq!(
        playback.payload_in_turn().media_source_id,
        Some("own".to_string())
    );
    play(&mut playback, PlaybackAnswer::Response(Ok(response("p", &[]))));
    assert_eq!(playback.stage(), PlaybackStage::FallBack);
    assert!(playback.into_response().is_none());
}

#[test]
fn an_unknown_version_is_asked_for_everywhere() {
    let mut playback =
        GroupedPlayback::new("/Items/i/PlaybackInfo", payload(Some("v")), sessions(), true);
    play(&mut playback, PlaybackAnswer::Group(shared()));
    play(&mut playback, PlaybackAnswer::Selected(Ok(None)));
    assert_eq!(playback.stage(), PlaybackStage::AskServer);
    assert_eq!(playback.candidates().len(), 2);
    assert_eq!(playback.payload_in_turn().media_source_id, None);
}

#[test]
fn playback_falls_back_to_one_server() {
    let stage = |path: &str, sessions, can_repeat: bool, group| {
        let mut playback = GroupedPlayback::new(path, payload(None), sessions, can_repeat);
        if playback.stage() == PlaybackStage::FindGroup {
            play(&mut playback, PlaybackAnswer::Group(group));
        }
        playback.stage()
    };
    assert_eq!(stage("/System", sessions(), true, shared()), PlaybackStage::FallBack);
    assert_eq!(stage("/Items/i", None, true, shared()), PlaybackStage::FallBack);
    assert_eq!(stage("/Items/i", sessions(), false, shared()), PlaybackStage::FallBack);
    assert_eq!(stage("/Items/i", sessions(), true, None), PlaybackStage::FallBack);
    assert_eq!(stage("/Items/i", Some(Vec::new()), true, shared()), PlaybackStage::FallBack);
    assert_eq!(stage("/Items/i", sessions(), true, shared()), PlaybackStage::AskServer);
}

#[test]
fn playback_fails_with_the_status_of_what_failed() {
    let begin = || {
        let mut playback =
            GroupedPlayback::new("/Items/i", payload(Some("v")), sessions(), true);
        play(&mut playback, PlaybackAnswer::Group(shared()));
        playback
    };
    let mut playback = begin();
    play(&mut playback, PlaybackAnswer::Selected(Err(())));
    assert_eq!(playback.stage(), PlaybackStage::Fail(500));
    let mut playback = begin();
    play(&mut playback, PlaybackAnswer::Selected(Ok(Some(2))));
    play(&mut playback, PlaybackAnswer::Mapping(Err(())));
    assert_eq!(playback.stage(), PlaybackStage::Fail(500));
    let mut playback = begin();
    play(&mut playback, PlaybackAnswer::Selected(Ok(Some(2))));
    play(&mut playback, PlaybackAnswer::Mapping(Ok(None)));
    assert_eq!(playback.payload_in_turn().media_source_id, Some("v".to_string()));
    play(&mut playback, PlaybackAnswer::Response(Err(502)));
    assert_eq!(playback.stage(), PlaybackStage::Fail(502));
    assert!(!playback.accepts(&PlaybackAnswer::Group(None)));
}

#[test]
fn an_item_is_asked_for_on_every_server() {
    let mut grouped = GroupedItem::new("asked".to_string(), sessions(), true);
    tell(&mut grouped, ItemAnswer::Group(shared()));
    assert_eq!(grouped.stage(), ItemStage::AskServer);
    assert_eq!(grouped.candidate_in_turn().unwrap().virtual_media_id, "m2");
    tell(&mut grouped, ItemAnswer::Item(item("two", &["a"])));
    tell(&mut grouped, ItemAnswer::Item(item("one", &["a", "b"])));
    assert_eq!(grouped.stage(), ItemStage::Respond);
    let merged = grouped.into_item().unwrap();
    assert_eq!(merged.id, "asked");
    assert_eq!(merged.name, Some("two".to_string()));
    assert_eq!(merged.media_sources.unwrap().len(), 2);
}

#[test]
fn servers_without_the_item_are_passed_over() {
    let mut grouped = GroupedItem::new("asked".to_string(), sessions(), true);
    tell(&mut grouped, ItemAnswer::Group(shared()));
    tell(&mut grouped, ItemAnswer::Unavailable);
    tell(&mut grouped, ItemAnswer::Item(item("one", &[])));
    let merged = grouped.into_item().unwrap();
    assert_eq!(merged.name, Some("one".to_string()));
    assert!(merged.media_sources.is_none());
    let mut grouped = GroupedItem::new("asked".to_string(), sessions(), true);
    tell(&mut grouped, ItemAnswer::Group(shared()));
    tell(&mut grouped, ItemAnswer::Unavailable);
    tell(&mut grouped, ItemAnswer::Unavailable);
    assert_eq!(grouped.stage(), ItemStage::FallBack);
    assert!(grouped.into_item().is_none());
}

#[test]
fn an_item_that_cannot_be_shown_ends_the_search() {
    let mut grouped = GroupedItem::new("asked".to_string(), sessions(), true);
    tell(&mut grouped, ItemAnswer::Group(shared()));
    tell(&mut grouped, ItemAnswer::Rejected(500));
    assert_eq!(grouped.stage(), ItemStage::Fail(500));
    for (sessions, can_repeat, group) in [
        (sessions(), false, shared()),
        (None, true, shared()),
        (sessions(), true, None),
        (Some(Vec::new()), true, shared()),
    ] {
        let mut grouped = GroupedItem::new("asked".to_string(), sessions, can_repeat);
        tell(&mut grouped, ItemAnswer::Group(group));
        assert_eq!(grouped.stage(), ItemStage::FallBack);
    }
}

#[test]
fn a_show_is_asked_for_on_the_servers_that_share_it() {
    let mut items = ShowItems::get_items("/Shows/s/Episodes");
    assert_eq!(items.series_id(), Some("s".to_string()));
    show(&mut items, ShowAnswer::Group(shared()));
    assert_eq!(items.stage(), ShowStage::ReadRequest);
    let request = read_show_request(Some("Limit=1"), sessions());
    show(&mut items, ShowAnswer::Request(Ok(request)));
    assert_eq!(items.stage(), ShowStage::Fetch);
    let ids: Vec<i64> = items.into_targets().iter().map(|(_, server)| server.id).collect();
    assert_eq!(ids, vec![1, 2]);
}

#[test]
fn a_season_narrows_the_servers_down() {
    let begin = || {
        let mut items = ShowItems::get_items("/Shows/s/Episodes");
        show(&mut items, ShowAnswer::Group(shared()));
        let request = read_show_request(Some("seasonId=%20x"), sessions());
        assert_eq!(request.season_id, Some("x".to_string()));
        show(&mut items, ShowAnswer::Request(Ok(request)));
        assert_eq!(items.season_id(), Some("x".to_string()));
        assert_eq!(items.stage(), ShowStage::FindSeasonGroup);
        items
    };
    let mut items = begin();
    let season = MediaStorageService::group_members("x".to_string(), vec![member(2, "x")]);
    show(&mut items, ShowAnswer::SeasonGroup(Some(season)));
    assert_eq!(items.stage(), ShowStage::Fetch);
    assert_eq!(items.into_targets()[0].1.id, 2);
    let mut items = begin();
    show(&mut items, ShowAnswer::SeasonGroup(None));
    assert_eq!(items.stage(), ShowStage::FindSeasonServer);
    show(&mut items, ShowAnswer::SeasonServer(Ok(Some(7))));
    assert_eq!(items.stage(), ShowStage::NoItems);
    let mut items = begin();
    show(&mut items, ShowAnswer::SeasonGroup(None));
    show(&mut items, ShowAnswer::SeasonServer(Ok(None)));
    assert_eq!(items.into_targets().len(), 2);
    let mut items = begin();
    show(&mut items, ShowAnswer::SeasonGroup(None));
    show(&mut items, ShowAnswer::SeasonServer(Err(())));
    assert_eq!(items.stage(), ShowStage::Fail(500));
}

#[test]
fn other_requests_go_to_one_server_or_fail() {
    assert_eq!(ShowItems::get_items("/Items").stage(), ShowStage::SingleServer);
    let mut items = ShowItems::get_items("/Shows/s/Seasons");
    show(&mut items, ShowAnswer::Group(None));
    assert_eq!(items.stage(), ShowStage::SingleServer);
    let mut items = ShowItems::get_items("/Shows/s/Seasons");
    show(&mut items, ShowAnswer::Group(shared()));
    show(&mut items, ShowAnswer::Request(Err(())));
    assert_eq!(items.stage(), ShowStage::Fail(400));
    let mut items = ShowItems::get_items("/Shows/s/Seasons");
    show(&mut items, ShowAnswer::Group(shared()));
    let request = ShowRequest {
        season_id: None,
        sessions: None,
    };
    show(&mut items, ShowAnswer::Request(Ok(request)));
    assert_eq!(items.stage(), ShowStage::Fail(401));
    assert!(!items.accepts(&ShowAnswer::Group(None)));
}
