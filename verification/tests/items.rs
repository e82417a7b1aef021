use jellyswarrm_proxy::federated::build_grouped_user_view_item;
use jellyswarrm_proxy::items::{
    content_length, decorate_source, extract_item_id_from_path, extract_show_series_id_from_path,
    forward_payload, get_item, grouped_candidates, library_override,
    merge_grouped_item, merge_playback_responses, name_sources, payload_for_server,
    playback_payload, post_playback_info, selected_candidates, show_targets, source_to_look_up,
    FetchedItem,
};
use jellyswarrm_proxy::library_management_service::{LibraryGroup, LibraryGroupWithSources};
use jellyswarrm_proxy::media_storage_service::{MediaDedupeGroup, MediaDedupeMember};
use jellyswarrm_proxy::models::{
    parse_collection_type, AuthorizationSession, BaseItemKind, CollectionType, Device, MediaItem,
    MediaSource, PlaybackRequest, PlaybackResponse, Server,
};

fn server(id: i64, name: &str, priority: i32) -> Server {
    Server {
        id,
        name: name.to_string(),
        url: format!("http://{}.local", name),
        priority,
        created_at: 0,
        updated_at: 0,
    }
}

fn session(id: i64) -> AuthorizationSession {
    AuthorizationSession {
        id,
        user_id: "user".to_string(),
        mapping_id: 1,
        server_url: "http://a.local".to_string(),
        device: Device {
            client: "client".to_string(),
            device: "device".to_string(),
            device_id: "device-id".to_string(),
            version: "1".to_string(),
        },
        jellyfin_token: "token".to_string(),
        original_user_id: format!("original-{}", id),
        expires_at: None,
        created_at: 0,
        updated_at: 0,
    }
}

fn member(server_id: i64, id: &str) -> MediaDedupeMember {
    MediaDedupeMember {
        server_id,
        virtual_media_id: id.to_string(),
    }
}

fn shared(members: Vec<MediaDedupeMember>) -> Option<MediaDedupeGroup> {
    Some(MediaDedupeGroup {
        canonical_virtual_media_id: "canonical".to_string(),
        members,
    })
}

fn source(id: &str, name: Option<&str>) -> MediaSource {
    MediaSource {
        id: id.to_string(),
        name: name.map(|n| n.to_string()),
        rest: "{}".to_string(),
    }
}

fn item(id: &str, sources: Option<Vec<MediaSource>>) -> MediaItem {
    let mut item = build_grouped_user_view_item(id, id, "movies", "srv", 1);
    item.media_sources = sources;
    item
}

fn payload(user_id: Option<&str>, media_source_id: Option<&str>) -> PlaybackRequest {
    PlaybackRequest {
        user_id: user_id.map(|u| u.to_string()),
        media_source_id: media_source_id.map(|m| m.to_string()),
        rest: "{\"MaxStreamingBitrate\":1}".to_string(),
    }
}

#[test]
fn item_ids_stand_behind_items() {
    assert_eq!(
        extract_item_id_from_path("/Users/u1/Items/i1"),
        Some("i1".to_string())
    );
    assert_eq!(
        extract_item_id_from_path("/items//i2/PlaybackInfo"),
        Some("i2".to_string())
    );
    assert_eq!(extract_item_id_from_path("/Users/u1/Items/"), None);
    assert_eq!(
        extract_item_id_from_path("/Items/Items/x"),
        Some("Items".to_string())
    );
    assert_eq!(extract_item_id_from_path(""), None);
}

#[test]
fn series_ids_stand_between_shows_and_seasons() {
    assert_eq!(
        extract_show_series_id_from_path("/Shows/s1/Seasons"),
        Some("s1".to_string())
    );
    assert_eq!(
        extract_show_series_id_from_path("/base/shows/s2/EPISODES/"),
        Some("s2".to_string())
    );
    assert_eq!(extract_show_series_id_from_path("/Shows/NextUp"), None);
    assert_eq!(extract_show_series_id_from_path("/Shows/s1/Similar"), None);
    assert_eq!(
        extract_show_series_id_from_path("/Shows/Shows/s3/Seasons"),
        Some("s3".to_string())
    );
}

#[test]
fn collection_types_keep_their_names() {
    assert!(matches!(parse_collection_type("movies"), CollectionType::Movies));
    assert!(matches!(parse_collection_type("livetv"), CollectionType::LiveTv));
    assert!(matches!(
        parse_collection_type("Movies"),
        CollectionType::UnknownVariant(name) if name == "Movies"
    ));
    for name in ["tvshows", "musicvideos", "folders", "podcasts", ""] {
        assert_eq!(parse_collection_type(name).as_text(), name);
    }
}

#[test]
fn an_item_stands_for_a_library_group() {
    let group = LibraryGroupWithSources {
        group: LibraryGroup {
            id: 3,
            virtual_library_id: "v".to_string(),
            name: "All Films".to_string(),
            collection_type: "boxsets".to_string(),
            preview_server_id: 1,
            preview_library_id: "p".to_string(),
            created_at: 0,
            updated_at: 0,
        },
        sources: Vec::new(),
    };
    let library = library_override(Some("asked".to_string()), Some(group));
    let mut original = item("own", None);
    original.item_type = BaseItemKind::Other("Folder".to_string());
    original.is_folder = Some(false);
    original.path = Some("/films".to_string());
    let shown = get_item(original, library);
    assert_eq!(shown.id, "asked");
    assert_eq!(shown.name, Some("All Films".to_string()));
    assert_eq!(shown.display_preferences_id, Some("asked".to_string()));
    assert_eq!(shown.is_folder, Some(true));
    assert_eq!(shown.path, Some("/films".to_string()));
    assert!(matches!(shown.item_type, BaseItemKind::CollectionFolder));
    assert!(matches!(shown.collection_type, Some(CollectionType::BoxSets)));
    assert!(library_override(Some("asked".to_string()), None).is_none());
    assert!(library_override(None, None).is_none());
    assert_eq!(get_item(item("own", None), None).id, "own");
}

#[test]
fn candidates_go_by_priority_and_name() {
    let group = shared(vec![
        member(1, "m1"),
        member(2, "m2"),
        member(3, "m3"),
        member(4, "m4"),
    ]);
    let sessions = Some(vec![
        (session(10), server(1, "b", 5)),
        (session(11), server(1, "b", 5)),
        (session(20), server(2, "a", 5)),
        (session(30), server(3, "z", 9)),
    ]);
    let candidates = grouped_candidates(&group, &sessions).unwrap();
    let order: Vec<(String, i64)> = candidates
        .iter()
        .map(|c| (c.virtual_media_id.clone(), c.session.id))
        .collect();
    assert_eq!(
        order,
        vec![
            ("m3".to_string(), 30),
            ("m2".to_string(), 20),
            ("m1".to_string(), 10)
        ]
    );
    let chosen = selected_candidates(candidates, Some(2));
    assert_eq!(chosen.len(), 1);
    assert_eq!(chosen[0].server.name, "a");
    assert_eq!(selected_candidates(chosen, None).len(), 1);
}

#[test]
fn only_shared_media_have_candidates() {
    let alone = shared(vec![member(1, "m1")]);
    let sessions = Some(vec![(session(1), server(1, "a", 1))]);
    assert!(grouped_candidates(&alone, &sessions).is_none());
    assert!(grouped_candidates(&None, &sessions).is_none());
    let group = shared(vec![member(1, "m1"), member(2, "m2")]);
    assert!(grouped_candidates(&group, &None).is_none());
    assert_eq!(grouped_candidates(&group, &sessions).unwrap().len(), 1);
}

#[test]
fn seasons_restrict_the_servers_of_a_show() {
    let members = vec![member(1, "s1"), member(2, "s2"), member(3, "s3")];
    let sessions = vec![
        (session(1), server(1, "a", 1)),
        (session(2), server(2, "b", 2)),
        (session(3), server(3, "c", 3)),
    ];
    let asked = |group: &Option<MediaDedupeGroup>, on: Option<i64>| -> Vec<i64> {
        show_targets(&members, &sessions, group, on)
            .iter()
            .map(|(_, server)| server.id)
            .collect()
    };
    assert_eq!(asked(&None, None), vec![1, 2, 3]);
    assert_eq!(asked(&None, Some(2)), vec![2]);
    assert_eq!(asked(&None, Some(9)), Vec::<i64>::new());
    let season = shared(vec![member(3, "x"), member(1, "y")]);
    assert_eq!(asked(&season, Some(2)), vec![1, 3]);
}

#[test]
fn versions_are_named_after_their_servers() {
    assert_eq!(
        decorate_source(source("1", Some("4K")), "Attic").name,
        Some("4K [Attic]".to_string())
    );
    assert_eq!(
        decorate_source(source("1", Some("  ")), "Attic").name,
        Some("Attic source".to_string())
    );
    assert_eq!(
        decorate_source(source("1", None), "Attic").name,
        Some("Attic source".to_string())
    );
}

#[test]
fn an_item_is_merged_from_all_servers() {
    let merged = merge_grouped_item(
        "asked",
        vec![
            FetchedItem {
                server: server(1, "Beta", 5),
                item: item("b", Some(vec![source("x", Some("HD")), source("y", None)])),
            },
            FetchedItem {
                server: server(2, "alpha", 5),
                item: item("a", Some(vec![source("y", Some("SD")), source("z", None)])),
            },
            FetchedItem {
                server: server(3, "Attic", 1),
                item: item("c", None),
            },
        ],
    )
    .unwrap();
    assert_eq!(merged.id, "asked");
    assert_eq!(merged.name, Some("a".to_string()));
    let sources: Vec<(String, Option<String>)> = merged
        .media_sources
        .unwrap()
        .into_iter()
        .map(|s| (s.id, s.name))
        .collect();
    assert_eq!(
        sources,
        vec![
            ("x".to_string(), Some("HD [Beta]".to_string())),
            ("y".to_string(), Some("Beta source".to_string())),
            ("z".to_string(), Some("alpha source".to_string()))
        ]
    );
}

#[test]
fn items_without_versions_are_merged_without_versions() {
    let merged = merge_grouped_item(
        "asked",
        vec![
            FetchedItem {
                server: server(1, "a", 1),
                item: item("low", Some(Vec::new())),
            },
            FetchedItem {
                server: server(2, "b", 2),
                item: item("high", None),
            },
        ],
    )
    .unwrap();
    assert_eq!(merged.name, Some("high".to_string()));
    assert!(merged.media_sources.is_none());
    assert!(merge_grouped_item("asked", Vec::new()).is_none());
}

#[test]
fn payloads_are_rewritten_for_the_server() {
    let user = "remote".to_string();
    let given = payload(Some("me"), Some("virtual"));
    let forwarded = forward_payload(&given, &user, Some("own".to_string()));
    assert_eq!(forwarded.user_id, Some("remote".to_string()));
    assert_eq!(forwarded.media_source_id, Some("own".to_string()));
    assert_eq!(forwarded.rest, given.rest);
    let unmapped = forward_payload(&given, &user, None);
    assert_eq!(unmapped.media_source_id, Some("virtual".to_string()));
    let bare = forward_payload(&payload(None, None), &user, Some("own".to_string()));
    assert_eq!(bare.user_id, None);
    assert_eq!(bare.media_source_id, None);
}

#[test]
fn versions_are_passed_on_to_the_selected_server_only() {
    let user = "remote".to_string();
    let given = payload(Some("me"), Some("virtual"));
    assert_eq!(
        source_to_look_up(&given, 1, Some(1)),
        Some("virtual".to_string())
    );
    assert_eq!(source_to_look_up(&given, 2, Some(1)), None);
    assert_eq!(source_to_look_up(&given, 1, None), None);
    let selected = payload_for_server(&given, &user, 1, Some(1), Some("own".to_string()));
    assert_eq!(selected.media_source_id, Some("own".to_string()));
    let other = payload_for_server(&given, &user, 2, Some(1), None);
    assert_eq!(other.media_source_id, None);
    assert_eq!(other.user_id, Some("remote".to_string()));
    let none = payload_for_server(&given, &user, 1, None, Some("own".to_string()));
    assert_eq!(none.media_source_id, None);
}

#[test]
fn playback_is_merged_in_the_first_session() {
    let response = |session: &str, sources: Vec<MediaSource>| PlaybackResponse {
        media_sources: sources,
        play_session_id: session.to_string(),
    };
    let merged = merge_playback_responses(vec![
        response("first", Vec::new()),
        response("second", vec![source("1", None), source("2", None)]),
        response("third", vec![source("1", None)]),
    ])
    .unwrap();
    assert_eq!(merged.play_session_id, "first");
    let ids: Vec<String> = merged.media_sources.into_iter().map(|s| s.id).collect();
    assert_eq!(ids, vec!["1", "2", "1"]);
    assert!(merge_playback_responses(vec![response("only", Vec::new())]).is_none());
    assert!(merge_playback_responses(Vec::new()).is_none());
}

#[test]
fn the_length_of_a_body_is_written_in_decimal() {
    assert_eq!(content_length(&Vec::new()), "0");
    assert_eq!(content_length(&vec![7u8; 1203]), "1203");
}

#[test]
fn playback_needs_a_payload_and_a_session() {
    assert_eq!(playback_payload(None).unwrap_err(), 400);
    assert_eq!(playback_payload(Some(Err(422))).unwrap_err(), 422);
    let given = playback_payload(Some(Ok(payload(Some("me"), Some("virtual"))))).unwrap();
    assert_eq!(given.media_source_id, Some("virtual".to_string()));
    assert_eq!(post_playback_info(&given, &None, None).unwrap_err(), 401);
    let forwarded =
        post_playback_info(&given, &Some(session(3)), Some("own".to_string())).unwrap();
    assert_eq!(forwarded.user_id, Some("original-3".to_string()));
    assert_eq!(forwarded.media_source_id, Some("own".to_string()));
}

#[test]
fn the_versions_of_a_response_are_named() {
    let response = PlaybackResponse {
        media_sources: vec![source("1", Some("4K")), source("2", None)],
        play_session_id: "session".to_string(),
    };
    let named = name_sources(response, "Attic");
    assert_eq!(named.play_session_id, "session");
    assert_eq!(named.media_sources[0].name, Some("4K [Attic]".to_string()));
    assert_eq!(named.media_sources[1].name, Some("Attic source".to_string()));
    assert_eq!(named.media_sources[1].id, "2");
}
