use jellyswarrm_proxy::federated::{
    build_grouped_user_view_item, can_sum_totals, get_items_from_all_servers,
    get_items_from_all_servers_if_not_restricted, get_items_from_grouped_parent,
    grouped_user_views, is_user_views_request, merge_server_items_interleaved, no_items,
    parent_to_look_up, require_group, targets_of_sources, AllServersPlan, GroupedParentPlan,
    ItemsRoute,
};
use jellyswarrm_proxy::library_management_service::{
    LibraryGroup, LibraryGroupSource, LibraryGroupWithSources,
};
use jellyswarrm_proxy::models::{
    AuthorizationSession, BaseItemKind, CollectionType, Device, ItemsResponseVariants,
    ItemsResponseWithCount, MediaItem, Server,
};
use jellyswarrm_proxy::order::{in_request_order, Indexed};
use jellyswarrm_proxy::query::{
    extract_parent_id_from_query, extract_query_parameter, is_constrained_query,
    replace_parent_id_in_query,
};

fn server(id: i64, name: &str) -> Server {
    Server {
        id,
        name: name.to_string(),
        url: format!("http://{}.local:8096", name),
        priority: 100,
        created_at: 0,
        updated_at: 0,
    }
}

fn session(id: i64) -> AuthorizationSession {
    AuthorizationSession {
        id,
        user_id: "user".to_string(),
        mapping_id: 1,
        server_url: "http://a.local:8096".to_string(),
        device: Device {
            client: "client".to_string(),
            device: "device".to_string(),
            device_id: "device-id".to_string(),
            version: "1".to_string(),
        },
        jellyfin_token: "token".to_string(),
        original_user_id: format!("original-{}", id),
        expires_at: None,
        created_at: 0,
        updated_at: 0,
    }
}

fn source(id: i64, server_id: i64, library_id: &str) -> LibraryGroupSource {
    LibraryGroupSource {
        id,
        library_group_id: 1,
        server_id,
        source_library_id: library_id.to_string(),
        source_library_name: "Movies".to_string(),
        source_collection_type: "movies".to_string(),
        created_at: 0,
        updated_at: 0,
    }
}

fn group(name: &str, sources: Vec<LibraryGroupSource>) -> LibraryGroupWithSources {
    LibraryGroupWithSources {
        group: LibraryGroup {
            id: 1,
            virtual_library_id: format!("virtual-{}", name),
            name: name.to_string(),
            collection_type: "movies".to_string(),
            preview_server_id: 1,
            preview_library_id: "movies_a".to_string(),
            created_at: 0,
            updated_at: 0,
        },
        sources,
    }
}

fn live_tv(id: &str) -> MediaItem {
    let mut item = build_grouped_user_view_item(id, "Live TV", "livetv", "srv", 1);
    item.item_type = BaseItemKind::UserView;
    item
}

fn ids(response: &ItemsResponseVariants) -> Vec<String> {
    let items = match response {
        ItemsResponseVariants::WithCount(with_count) => &with_count.items,
        ItemsResponseVariants::Bare(items) => items,
    };
    items.iter().map(|item| item.id.clone()).collect()
}

#[test]
fn test_is_user_views_request() {
    assert!(is_user_views_request("/UserViews"));
    assert!(is_user_views_request("/Users/abc/Views"));
    assert!(is_user_views_request("/prefix/Users/abc/Views"));
    assert!(!is_user_views_request("/Users/abc/Items"));
    assert!(!is_user_views_request("/Items"));
}

#[test]
fn user_views_are_recognized_in_any_case_and_with_slashes() {
    assert!(is_user_views_request("userviews/"));
    assert!(is_user_views_request("//USERS//abc//vIEWS//"));
    assert!(!is_user_views_request(""));
    assert!(!is_user_views_request("/Views"));
    assert!(!is_user_views_request("/Users/Views"));
}

#[test]
fn test_extract_parent_id_from_query() {
    assert_eq!(
        extract_parent_id_from_query("ParentId=abc123&Limit=50"),
        Some("abc123".to_string())
    );
    assert_eq!(
        extract_parent_id_from_query("limit=50&parentid=abcDEF"),
        Some("abcDEF".to_string())
    );
    assert_eq!(extract_parent_id_from_query("limit=50"), None);
}

#[test]
fn blank_parents_are_passed_over() {
    assert_eq!(
        extract_parent_id_from_query("ParentId=+&parentId=%20x%20"),
        Some("x".to_string())
    );
    assert_eq!(extract_parent_id_from_query("ParentId="), None);
    assert_eq!(extract_parent_id_from_query(""), None);
}

#[test]
fn a_parent_is_replaced_in_a_query() {
    assert_eq!(
        replace_parent_id_in_query("parentid=old&Limit=50", "a b"),
        "parentid=a+b&Limit=50"
    );
    assert_eq!(
        replace_parent_id_in_query("Limit=50", "new"),
        "Limit=50&ParentId=new"
    );
    let once = replace_parent_id_in_query("parentid=old&Limit=50", "first");
    assert_eq!(
        replace_parent_id_in_query(&once, "a b"),
        replace_parent_id_in_query("parentid=old&Limit=50", "a b")
    );
    let query = replace_parent_id_in_query("x=%26&PARENTID=1&parentId=2", "l\u{e4}n&d");
    assert_eq!(query, "x=%26&PARENTID=l%C3%A4n%26d&parentId=l%C3%A4n%26d");
    assert_eq!(
        extract_parent_id_from_query(&query),
        Some("l\u{e4}n&d".to_string())
    );
}

#[test]
fn the_first_parameter_of_a_name_counts() {
    assert_eq!(
        extract_query_parameter("seasonid=+s1+&SeasonId=s2", "SeasonId"),
        Some("s1".to_string())
    );
    assert_eq!(extract_query_parameter("SeasonId=&SeasonId=s2", "SeasonId"), None);
    assert_eq!(extract_query_parameter("Season=s", "SeasonId"), None);
}

#[test]
fn constrained_queries_name_a_series_or_a_parent() {
    assert!(is_constrained_query("limit=5&SeriesId=1"));
    assert!(is_constrained_query("PARENTID=x"));
    assert!(is_constrained_query("grandparentids=x"));
    assert!(!is_constrained_query("limit=5"));
    assert!(!is_constrained_query(""));
}

#[test]
fn requests_for_items_are_routed() {
    assert_eq!(parent_to_look_up(Some("ParentId=p")), Some("p".to_string()));
    assert_eq!(parent_to_look_up(None), None);
    let grouped =
        get_items_from_all_servers_if_not_restricted(Some("ParentId=p"), Some("p".to_string()));
    assert!(matches!(grouped, ItemsRoute::GroupedParent(id) if id == "p"));
    let one = get_items_from_all_servers_if_not_restricted(Some("ParentId=p"), None);
    assert!(matches!(one, ItemsRoute::OneServer));
    let all = get_items_from_all_servers_if_not_restricted(Some("Limit=1"), None);
    assert!(matches!(all, ItemsRoute::AllServers));
    let bare = get_items_from_all_servers_if_not_restricted(None, None);
    assert!(matches!(bare, ItemsRoute::AllServers));
}

#[test]
fn all_servers_are_asked_in_the_order_of_the_sessions() {
    let sessions = vec![(session(1), server(7, "a")), (session(2), server(8, "b"))];
    match get_items_from_all_servers("/Items", Some(sessions)) {
        Ok(AllServersPlan::Fetch(targets)) => {
            assert_eq!(targets.len(), 2);
            assert_eq!(targets[1].index, 1);
            assert_eq!(targets[1].server.id, 8);
            assert_eq!(targets[1].session.id, 2);
            assert_eq!(targets[1].parent_override, None);
        }
        _ => panic!("expected targets"),
    }
}

#[test]
fn views_are_not_fetched_and_sessions_are_needed() {
    let sessions = vec![(session(1), server(7, "a"))];
    assert!(matches!(
        get_items_from_all_servers("/UserViews", Some(sessions)),
        Ok(AllServersPlan::UserViews(used)) if used.len() == 1
    ));
    assert!(matches!(get_items_from_all_servers("/Items", None), Err(401)));
    assert!(matches!(
        get_items_from_all_servers("/Items", Some(Vec::new())),
        Err(401)
    ));
}

#[test]
fn a_group_is_asked_for_on_the_servers_of_its_sources() {
    let sessions = vec![
        (session(1), server(7, "a")),
        (session(2), server(7, "a")),
        (session(3), server(9, "c")),
    ];
    let sources = vec![source(1, 9, "c1"), source(2, 8, "b1"), source(3, 7, "a1")];
    let targets = targets_of_sources(&sources, &sessions);
    let asked: Vec<(usize, i64, i64, Option<String>)> = targets
        .iter()
        .map(|t| (t.index, t.server.id, t.session.id, t.parent_override.clone()))
        .collect();
    assert_eq!(
        asked,
        vec![
            (0, 9, 3, Some("c1".to_string())),
            (2, 7, 1, Some("a1".to_string()))
        ]
    );
}

#[test]
fn a_grouped_parent_needs_a_group_and_a_session() {
    let sessions = || Some(vec![(session(1), server(1, "a"))]);
    let found = require_group(Some(group("g", vec![source(1, 1, "movies_a")]))).unwrap();
    match get_items_from_grouped_parent(&found, sessions()).unwrap() {
        GroupedParentPlan::Fetch(targets) => {
            assert_eq!(targets.len(), 1);
            assert_eq!(targets[0].parent_override, Some("movies_a".to_string()));
        }
        GroupedParentPlan::Respond(_) => panic!("Expected a server to ask"),
    }
    let elsewhere = group("g", vec![source(1, 2, "movies_b")]);
    match get_items_from_grouped_parent(&elsewhere, sessions()).unwrap() {
        GroupedParentPlan::Respond(ItemsResponseVariants::WithCount(response)) => {
            assert!(response.items.is_empty());
            assert_eq!(response.total_record_count, 0);
        }
        _ => panic!("Expected an empty response"),
    }
    assert_eq!(require_group(None).unwrap_err(), 404);
    assert_eq!(get_items_from_grouped_parent(&found, None).unwrap_err(), 401);
    assert_eq!(
        get_items_from_grouped_parent(&found, Some(Vec::new())).unwrap_err(),
        401
    );
    match no_items() {
        ItemsResponseVariants::WithCount(response) => {
            assert!(response.items.is_empty());
            assert_eq!(response.total_record_count, 0);
            assert_eq!(response.start_index, 0);
        }
        ItemsResponseVariants::Bare(_) => panic!("Expected WithCount response"),
    }
}

#[test]
fn groups_without_a_reachable_source_are_hidden() {
    let groups = vec![
        group("Mine", vec![source(1, 1, "x"), source(2, 2, "y"), source(3, 1, "z")]),
        group("Hidden", vec![source(4, 2, "y")]),
    ];
    let sessions = vec![(session(1), server(1, "a"))];
    match grouped_user_views(&groups, &sessions, "srv") {
        ItemsResponseVariants::WithCount(response) => {
            assert_eq!(response.total_record_count, 1);
            assert_eq!(response.items.len(), 1);
            let item = &response.items[0];
            assert_eq!(item.id, "virtual-Mine");
            assert_eq!(item.name, Some("Mine".to_string()));
            assert_eq!(item.sort_name, Some("mine".to_string()));
            assert_eq!(item.child_count, Some(2));
            assert_eq!(item.server_id, Some("srv".to_string()));
            assert_eq!(
                item.image_tags,
                Some(vec![("Primary".to_string(), "virtual-Mine".to_string())])
            );
            assert!(matches!(item.collection_type, Some(CollectionType::Movies)));
            assert!(matches!(item.item_type, BaseItemKind::CollectionFolder));
        }
        ItemsResponseVariants::Bare(_) => panic!("Expected WithCount response"),
    }
}

#[test]
fn test_merge_server_items_interleaved_order() {
    let a1 = build_grouped_user_view_item("a1", "A1", "movies", "srv", 1);
    let a2 = build_grouped_user_view_item("a2", "A2", "movies", "srv", 1);
    let b1 = build_grouped_user_view_item("b1", "B1", "movies", "srv", 1);

    let merged = merge_server_items_interleaved(vec![
        ItemsResponseVariants::WithCount(ItemsResponseWithCount {
            items: vec![a1.clone(), a2.clone()],
            total_record_count: 2,
            start_index: 0,
        }),
        ItemsResponseVariants::WithCount(ItemsResponseWithCount {
            items: vec![b1.clone()],
            total_record_count: 1,
            start_index: 0,
        }),
    ]);

    match merged {
        ItemsResponseVariants::WithCount(with_count) => {
            let ids = with_count
                .items
                .iter()
                .map(|item| item.id.clone())
                .collect::<Vec<_>>();
            assert_eq!(ids, vec!["a1", "b1", "a2"]);
            assert_eq!(with_count.total_record_count, 3);
        }
        ItemsResponseVariants::Bare(_) => panic!("Expected WithCount response"),
    }
}

#[test]
fn test_merge_server_items_uses_federated_total_count() {
    let a1 = build_grouped_user_view_item("a1", "A1", "movies", "srv", 1);
    let b1 = build_grouped_user_view_item("b1", "B1", "movies", "srv", 1);

    let merged = merge_server_items_interleaved(vec![
        ItemsResponseVariants::WithCount(ItemsResponseWithCount {
            items: vec![a1],
            total_record_count: 1500,
            start_index: 0,
        }),
        ItemsResponseVariants::WithCount(ItemsResponseWithCount {
            items: vec![b1],
            total_record_count: 700,
            start_index: 0,
        }),
    ]);

    match merged {
        ItemsResponseVariants::WithCount(with_count) => {
            assert_eq!(with_count.items.len(), 2);
            assert_eq!(with_count.total_record_count, 2200);
        }
        ItemsResponseVariants::Bare(_) => panic!("Expected WithCount response"),
    }
}

#[test]
fn live_tv_shows_once_in_a_merged_list() {
    let film = build_grouped_user_view_item("film", "Film", "movies", "srv", 1);
    let folder = build_grouped_user_view_item("folder", "Live TV", "livetv", "srv", 1);
    let merged = merge_server_items_interleaved(vec![
        ItemsResponseVariants::Bare(vec![live_tv("tv1"), film]),
        ItemsResponseVariants::Bare(vec![live_tv("tv2"), live_tv("tv3"), folder]),
    ]);
    assert!(matches!(merged, ItemsResponseVariants::Bare(_)));
    assert_eq!(ids(&merged), vec!["tv1", "film", "folder"]);
}

#[test]
fn bare_lists_count_their_items_beside_a_stated_count() {
    let item = |id: &str| build_grouped_user_view_item(id, "X", "movies", "srv", 1);
    let merged = merge_server_items_interleaved(vec![
        ItemsResponseVariants::Bare(vec![item("a1"), item("a2")]),
        ItemsResponseVariants::WithCount(ItemsResponseWithCount {
            items: vec![item("b1")],
            total_record_count: 40,
            start_index: 20,
        }),
        ItemsResponseVariants::Bare(Vec::new()),
    ]);
    assert_eq!(ids(&merged), vec!["a1", "b1", "a2"]);
    match merged {
        ItemsResponseVariants::WithCount(response) => {
            assert_eq!(response.total_record_count, 42);
            assert_eq!(response.start_index, 0);
        }
        ItemsResponseVariants::Bare(_) => panic!("Expected WithCount response"),
    }
    let nothing = merge_server_items_interleaved(Vec::new());
    assert!(matches!(nothing, ItemsResponseVariants::Bare(items) if items.is_empty()));
}

#[test]
fn counts_that_cannot_be_summed_are_noticed() {
    let counted = |n: i32| {
        ItemsResponseVariants::WithCount(ItemsResponseWithCount {
            items: Vec::new(),
            total_record_count: n,
            start_index: 0,
        })
    };
    assert!(can_sum_totals(&vec![counted(i32::MAX), counted(0)]));
    assert!(!can_sum_totals(&vec![counted(i32::MAX), counted(1), counted(-1)]));
    assert!(!can_sum_totals(&vec![counted(-1), counted(i32::MIN)]));
}

#[test]
fn answers_are_put_in_the_order_of_the_requests() {
    let answer = |index: usize, value: Option<&'static str>| Indexed { index, value };
    let one = in_request_order(vec![
        answer(2, Some("c")),
        answer(0, Some("a")),
        answer(1, None),
    ]);
    let two = in_request_order(vec![
        answer(1, None),
        answer(2, Some("c")),
        answer(0, Some("a")),
    ]);
    assert_eq!(one, vec!["a", "c"]);
    assert_eq!(one, two);
}
