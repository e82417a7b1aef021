use jellyswarrm_proxy::media_storage_service::{MediaDedupeGroup, MediaDedupeMember};
use jellyswarrm_proxy::models::{AuthorizationSession, Device, Server};
use jellyswarrm_proxy::watch_sync_service::{
    after_authentication_stage, apply_item_played_state, authenticate_mapping,
    fetch_item_played_state, fetch_path, fetch_query, find_server_at, mark_method, mark_path,
    normalize_server_url, sync_authorization, AuthenticationAnswer, AuthenticationProblem,
    AuthenticationStage, AuthenticationStep, CandidateMember, ClientInfo, MarkMethod, MarkOutcome,
    PlayedState, SyncAction, SyncAnswer, WatchSync, WatchSyncReport,
};

fn server(id: i64, url: &str, priority: i32) -> Server {
    Server {
        id,
        name: format!("server-{}", id),
        url: url.to_string(),
        priority,
        created_at: 0,
        updated_at: 0,
    }
}

fn session(id: i64) -> AuthorizationSession {
    AuthorizationSession {
        id,
        user_id: "user".to_string(),
        mapping_id: 1,
        server_url: "http://a".to_string(),
        device: Device {
            client: "client".to_string(),
            device: "device".to_string(),
            device_id: "device-id".to_string(),
            version: "1".to_string(),
        },
        jellyfin_token: "token".to_string(),
        original_user_id: format!("remote-{}", id),
        expires_at: None,
        created_at: 0,
        updated_at: 0,
    }
}

fn group(members: &[(i64, &str)]) -> MediaDedupeGroup {
    MediaDedupeGroup {
        canonical_virtual_media_id: "canonical".to_string(),
        members: members
            .iter()
            .map(|(server_id, id)| MediaDedupeMember {
                server_id: *server_id,
                virtual_media_id: id.to_string(),
            })
            .collect(),
    }
}

fn tell(sync: &mut WatchSync, answer: SyncAnswer) {
    assert!(sync.accepts(&answer));
    sync.step(answer);
}

fn found(ids: &[Option<&str>]) -> Vec<Option<String>> {
    ids.iter().map(|id| id.map(|i| i.to_string())).collect()
}

/// A sync of one user with three servers, up to the first question about a watched state.
fn begun() -> WatchSync {
    let mut sync = WatchSync::new();
    assert_eq!(sync.action(), SyncAction::ListServers);
    tell(
        &mut sync,
        SyncAnswer::Servers(Some(vec![
            server(1, "http://a/", 10),
            server(2, "http://b", 20),
            server(3, "http://c", 20),
        ])),
    );
    assert_eq!(sync.action(), SyncAction::ListGroups);
    tell(
        &mut sync,
        SyncAnswer::Groups(vec![
            group(&[(1, "lonely")]),
            group(&[(1, "x"), (9, "y")]),
            group(&[(1, "m1"), (3, "m3"), (2, "m2")]),
            group(&[(1, "n1"), (2, "gone")]),
        ]),
    );
    assert_eq!(sync.action(), SyncAction::ResolveMembers);
    assert_eq!(sync.pending().len(), 3);
    tell(
        &mut sync,
        SyncAnswer::Members(vec![
            found(&[Some("ox"), Some("oy")]),
            found(&[Some("o1"), Some("o3"), Some("o2")]),
            found(&[Some("on"), None]),
        ]),
    );
    assert_eq!(sync.action(), SyncAction::ListUsers);
    tell(&mut sync, SyncAnswer::Users(Some(1)));
    assert_eq!(sync.action(), SyncAction::ListMappings(0));
    tell(
        &mut sync,
        SyncAnswer::Mappings(Some(vec![
            "http://b//".to_string(),
            "http://unknown".to_string(),
            "http://a".to_string(),
            "http://c".to_string(),
            "http://a/".to_string(),
        ])),
    );
    assert_eq!(sync.action(), SyncAction::Authenticate(0));
    let attempts: Vec<(usize, i64)> =
        sync.attempts().iter().map(|a| (a.mapping, a.server.id)).collect();
    assert_eq!(attempts, vec![(0, 2), (2, 1), (3, 3), (4, 1)]);
    tell(
        &mut sync,
        SyncAnswer::Sessions(vec![
            Some(session(20)),
            Some(session(10)),
            Some(session(30)),
            None,
        ]),
    );
    sync
}

#[test]
fn the_source_is_the_server_of_the_highest_priority() {
    let sync = begun();
    assert_eq!(sync.action(), SyncAction::FetchPlayed(0));
    let order: Vec<(i64, String)> = sync
        .candidates()
        .iter()
        .map(|c| (c.server.id, c.original_media_id.clone()))
        .collect();
    assert_eq!(
        order,
        vec![
            (2, "o2".to_string()),
            (3, "o3".to_string()),
            (1, "o1".to_string())
        ]
    );
    assert_eq!(sync.report().dedupe_groups_total, 4);
    assert_eq!(sync.report().dedupe_groups_eligible, 2);
    assert_eq!(sync.report().mapping_resolution_misses, 1);
    assert_eq!(sync.report().users_with_mappings, 1);
    assert_eq!(sync.report().users_authenticated, 1);
    assert_eq!(sync.report().authentication_failures, 1);
    assert_eq!(sync.report().skipped_missing_sessions, 1);
}

#[test]
fn only_targets_that_differ_are_changed() {
    let mut sync = begun();
    tell(&mut sync, SyncAnswer::Played(PlayedState::Played(true)));
    assert_eq!(sync.action(), SyncAction::FetchPlayed(1));
    tell(&mut sync, SyncAnswer::Played(PlayedState::Played(true)));
    assert_eq!(sync.action(), SyncAction::FetchPlayed(2));
    tell(&mut sync, SyncAnswer::Played(PlayedState::Played(false)));
    assert_eq!(sync.action(), SyncAction::MarkPlayed(2, true));
    tell(&mut sync, SyncAnswer::Marked(MarkOutcome::Marked));
    assert_eq!(sync.action(), SyncAction::Finished);
    assert_eq!(sync.report().sync_pairs_checked, 2);
    assert_eq!(sync.report().already_in_sync, 1);
    assert_eq!(sync.report().updates_applied, 1);
    assert_eq!(sync.report().request_failures, 0);
}

#[test]
fn failures_and_missing_items_are_counted() {
    let mut sync = begun();
    tell(&mut sync, SyncAnswer::Played(PlayedState::Played(false)));
    tell(&mut sync, SyncAnswer::Played(PlayedState::Missing));
    tell(&mut sync, SyncAnswer::Played(PlayedState::Played(true)));
    assert_eq!(sync.action(), SyncAction::MarkPlayed(2, false));
    tell(&mut sync, SyncAnswer::Marked(MarkOutcome::Failed));
    assert_eq!(sync.action(), SyncAction::Finished);
    assert_eq!(sync.report().sync_pairs_checked, 2);
    assert_eq!(sync.report().skipped_missing_items, 1);
    assert_eq!(sync.report().request_failures, 1);
    assert_eq!(sync.report().updates_applied, 0);
}

#[test]
fn a_group_without_a_source_state_is_left() {
    let mut sync = begun();
    tell(&mut sync, SyncAnswer::Played(PlayedState::Failed));
    assert_eq!(sync.action(), SyncAction::Finished);
    assert_eq!(sync.report().request_failures, 1);
    let mut sync = begun();
    tell(&mut sync, SyncAnswer::Played(PlayedState::Missing));
    assert_eq!(sync.report().skipped_missing_items, 1);
    assert_eq!(sync.report().sync_pairs_checked, 0);
    assert_eq!(sync.report().users_total, 1);
}

#[test]
fn a_sync_ends_where_nothing_can_be_listed() {
    let mut sync = WatchSync::new();
    tell(&mut sync, SyncAnswer::Servers(None));
    assert_eq!(sync.action(), SyncAction::Finished);
    assert_eq!(sync.report().request_failures, 1);
    let mut sync = WatchSync::new();
    tell(&mut sync, SyncAnswer::Servers(Some(Vec::new())));
    tell(&mut sync, SyncAnswer::Groups(Vec::new()));
    tell(&mut sync, SyncAnswer::Members(Vec::new()));
    tell(&mut sync, SyncAnswer::Users(None));
    assert_eq!(sync.action(), SyncAction::Finished);
    assert_eq!(sync.report().request_failures, 1);
}

#[test]
fn users_follow_one_another() {
    let mut sync = WatchSync::new();
    tell(&mut sync, SyncAnswer::Servers(Some(vec![server(1, "http://a", 1)])));
    tell(&mut sync, SyncAnswer::Groups(Vec::new()));
    tell(&mut sync, SyncAnswer::Members(Vec::new()));
    tell(&mut sync, SyncAnswer::Users(Some(4)));
    tell(&mut sync, SyncAnswer::Mappings(None));
    assert_eq!(sync.action(), SyncAction::ListMappings(1));
    tell(&mut sync, SyncAnswer::Mappings(Some(Vec::new())));
    assert_eq!(sync.action(), SyncAction::ListMappings(2));
    tell(&mut sync, SyncAnswer::Mappings(Some(vec!["http://b".to_string()])));
    assert_eq!(sync.action(), SyncAction::Authenticate(2));
    assert!(sync.attempts().is_empty());
    tell(&mut sync, SyncAnswer::Sessions(Vec::new()));
    assert_eq!(sync.action(), SyncAction::ListMappings(3));
    tell(&mut sync, SyncAnswer::Mappings(Some(vec!["http://a".to_string()])));
    tell(&mut sync, SyncAnswer::Sessions(vec![Some(session(1))]));
    assert_eq!(sync.action(), SyncAction::Finished);
    assert_eq!(sync.report().users_total, 4);
    assert_eq!(sync.report().users_with_mappings, 2);
    assert_eq!(sync.report().users_authenticated, 1);
    assert_eq!(sync.report().request_failures, 1);
}

#[test]
fn answers_that_do_not_fit_are_refused() {
    let mut sync = WatchSync::new();
    assert!(!sync.accepts(&SyncAnswer::Users(Some(1))));
    assert!(!sync.accepts(&SyncAnswer::Marked(MarkOutcome::Marked)));
    tell(&mut sync, SyncAnswer::Servers(Some(Vec::new())));
    tell(&mut sync, SyncAnswer::Groups(vec![group(&[(1, "a"), (2, "b")])]));
    assert!(!sync.accepts(&SyncAnswer::Members(Vec::new())));
    assert!(!sync.accepts(&SyncAnswer::Members(vec![found(&[None])])));
    assert!(sync.accepts(&SyncAnswer::Members(vec![found(&[None, None])])));
}

#[test]
fn a_fresh_report_is_empty() {
    let report = WatchSyncReport::default();
    assert_eq!(report.updates_applied, 0);
    assert_eq!(report.request_failures, 0);
}

#[test]
fn servers_are_found_by_address() {
    assert_eq!(normalize_server_url("http://a//"), "http://a");
    assert_eq!(normalize_server_url("http://a"), "http://a");
    let servers = vec![
        server(1, "http://a", 1),
        server(2, "http://a/", 1),
        server(3, "http://b", 1),
    ];
    assert_eq!(find_server_at(&servers, "http://a///").unwrap().id, 2);
    assert_eq!(find_server_at(&servers, "http://b/").unwrap().id, 3);
    assert!(find_server_at(&servers, "http://A").is_none());
}

#[test]
fn a_sync_has_a_device_of_its_own() {
    let info = ClientInfo {
        client: "Jellyswarrm".to_string(),
        device: "Server".to_string(),
        device_id: "abc".to_string(),
        version: "0.1".to_string(),
    };
    let authorization = sync_authorization(&info, &"token".to_string());
    assert_eq!(authorization.device_id, "abc-watch-sync");
    assert_eq!(authorization.token, Some("token".to_string()));
    let session = authenticate_mapping(
        5,
        &"user".to_string(),
        6,
        &"http://a/".to_string(),
        authorization,
        "token".to_string(),
        "remote".to_string(),
        42,
    );
    assert_eq!(session.id, 5);
    assert_eq!(session.mapping_id, 6);
    assert_eq!(session.user_id, "user");
    assert_eq!(session.server_url, "http://a/");
    assert_eq!(session.device.device_id, "abc-watch-sync");
    assert_eq!(session.device.version, "0.1");
    assert_eq!(session.jellyfin_token, "token");
    assert_eq!(session.original_user_id, "remote");
    assert_eq!(session.expires_at, None);
    assert_eq!((session.created_at, session.updated_at), (42, 42));
}

#[test]
fn authentication_problems_are_told() {
    assert_eq!(
        AuthenticationProblem::ClientInit.message("bad url"),
        "client init error: bad url"
    );
    assert_eq!(
        AuthenticationProblem::Authentication.message("401"),
        "authentication error: 401"
    );
    assert_eq!(
        AuthenticationProblem::MissingToken.message(""),
        "missing token after successful authentication"
    );
    assert_eq!(
        AuthenticationProblem::StoreSession.message("db"),
        "failed to store authorization session: db"
    );
}

#[test]
fn watched_states_are_read_from_answers() {
    assert_eq!(fetch_item_played_state(404, None), PlayedState::Missing);
    assert_eq!(fetch_item_played_state(500, None), PlayedState::Failed);
    assert_eq!(fetch_item_played_state(302, Some(Some(true))), PlayedState::Failed);
    assert_eq!(fetch_item_played_state(200, None), PlayedState::Failed);
    assert_eq!(fetch_item_played_state(200, Some(None)), PlayedState::Played(false));
    assert_eq!(
        fetch_item_played_state(200, Some(Some(true))),
        PlayedState::Played(true)
    );
    assert_eq!(apply_item_played_state(204), MarkOutcome::Marked);
    assert_eq!(apply_item_played_state(404), MarkOutcome::Missing);
    assert_eq!(apply_item_played_state(500), MarkOutcome::Failed);
}

#[test]
fn watched_states_have_paths() {
    let candidate = CandidateMember {
        server: server(1, "http://a", 1),
        session: session(7),
        original_media_id: "m".to_string(),
    };
    assert_eq!(fetch_path(&candidate), "/Users/remote-7/Items/m");
    assert_eq!(mark_path(&candidate), "/Users/remote-7/PlayedItems/m");
}

#[test]
fn the_first_stage_that_fails_is_reported() {
    let stages = [
        (AuthenticationStage::SetUpClient, "client init error: why"),
        (AuthenticationStage::SignIn, "authentication error: why"),
        (
            AuthenticationStage::ReadToken,
            "missing token after successful authentication",
        ),
        (
            AuthenticationStage::StoreSession,
            "failed to store authorization session: why",
        ),
    ];
    for place in 0..stages.len() {
        let (stage, message) = stages[place];
        let failed = AuthenticationAnswer::Failed("why".to_string());
        match after_authentication_stage(stage, failed) {
            AuthenticationStep::Refused(told) => assert_eq!(told, message),
            _ => panic!("Expected a refusal"),
        }
        match after_authentication_stage(stage, AuthenticationAnswer::Ready) {
            AuthenticationStep::Next(next) => assert_eq!(next, stages[place + 1].0),
            AuthenticationStep::Authenticated => assert_eq!(place, 3),
            AuthenticationStep::Refused(_) => panic!("Expected no refusal"),
        }
    }
}

#[test]
fn watched_states_are_asked_for_and_marked() {
    assert_eq!(fetch_query(), ("Fields", "UserData"));
    assert_eq!(mark_method(true), MarkMethod::Post);
    assert_eq!(mark_method(false), MarkMethod::Delete);
}
