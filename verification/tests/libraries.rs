use jellyswarrm_proxy::libraries::{
    collection_type_label, collection_type_options, delete_library, discover_libraries_for_server,
    discover_source_libraries, folders_to_source_options, groups_to_view, handle_save_library,
    is_htmx_request, normalize_htmx_status, parse_library_form, refused_form, render_library_list,
    saved_reply, source_key, sources_from_form, unlisted_servers, DeleteOutcome, DiscoveryAnswer,
    DiscoveryResult, DiscoveryStage, DiscoveryStep, LibraryForm, MediaFolder, SaveOutcome,
    SaveTarget, ServerDiscovery, SourceOption,
};
use jellyswarrm_proxy::library_management_service::{
    LibraryGroup, LibraryGroupSource, LibraryGroupWithSources, LibraryManagementService,
};

fn option(server_id: i64, server: &str, id: &str, name: &str, kind: &str) -> SourceOption {
    SourceOption {
        key: source_key(server_id, id),
        server_id,
        server_name: server.to_string(),
        library_id: id.to_string(),
        library_name: name.to_string(),
        collection_type: kind.to_string(),
        auth_source: "admin".to_string(),
    }
}

fn form(name: &str, kind: &str, sources: &[&str]) -> LibraryForm {
    LibraryForm {
        name: name.to_string(),
        collection_type: kind.to_string(),
        sources: sources.iter().map(|s| s.to_string()).collect(),
    }
}

fn folder(id: &str, name: &str, kind: Option<&str>) -> MediaFolder {
    MediaFolder {
        id: id.to_string(),
        name: name.to_string(),
        collection_type: kind.map(|k| k.to_string()),
    }
}

fn group() -> LibraryGroupWithSources {
    let source = |id: i64, server_id: i64, library: &str| LibraryGroupSource {
        id,
        library_group_id: 4,
        server_id,
        source_library_id: library.to_string(),
        source_library_name: format!("Films {}", library),
        source_collection_type: "movies".to_string(),
        created_at: 0,
        updated_at: 0,
    };
    LibraryGroupWithSources {
        group: LibraryGroup {
            id: 4,
            virtual_library_id: "v".to_string(),
            name: "All".to_string(),
            collection_type: "movies".to_string(),
            preview_server_id: 1,
            preview_library_id: "a".to_string(),
            created_at: 0,
            updated_at: 0,
        },
        sources: vec![source(1, 1, "a"), source(2, -2, "b")],
    }
}

#[test]
fn parse_library_form_accepts_repeated_sources_keys() {
    let raw = b"name=Movies&collection_type=movies&sources=1%3A%3Aabc&sources=2%3A%3Adef";
    let form = parse_library_form(raw).expect("should parse");
    assert_eq!(form.name, "Movies");
    assert_eq!(form.collection_type, "movies");
    assert_eq!(
        form.sources,
        vec!["1::abc".to_string(), "2::def".to_string()]
    );
}

#[test]
fn parse_library_form_accepts_bracketed_sources_keys() {
    let raw =
        b"name=Movies&collection_type=movies&sources%5B%5D=1%3A%3Aabc&sources%5B%5D=2%3A%3Adef";
    let form = parse_library_form(raw).expect("should parse");
    assert_eq!(
        form.sources,
        vec!["1::abc".to_string(), "2::def".to_string()]
    );
}

#[test]
fn the_last_name_of_a_form_counts_and_the_rest_is_ignored() {
    let form = parse_library_form(b"name=a&Name=x&name=b+c&sourcesx=1").expect("should parse");
    assert_eq!(form.name, "b c");
    assert_eq!(form.collection_type, "");
    assert!(form.sources.is_empty());
}

#[test]
fn scripts_get_success_and_others_the_status() {
    assert!(is_htmx_request(Some("TRUE")));
    assert!(!is_htmx_request(Some("1")));
    assert!(!is_htmx_request(None));
    assert_eq!(normalize_htmx_status(404, true), 200);
    assert_eq!(normalize_htmx_status(404, false), 404);
    assert_eq!(normalize_htmx_status(204, true), 204);
    assert_eq!(normalize_htmx_status(301, true), 200);
}

#[test]
fn deleting_is_answered() {
    let deleted = delete_library(DeleteOutcome::Deleted);
    assert_eq!(deleted.message, "Library group deleted");
    assert!(!deleted.is_error);
    assert_eq!(deleted.status, 200);
    let missing = delete_library(DeleteOutcome::NotFound);
    assert_eq!(missing.message, "Library group not found");
    assert!(missing.is_error);
    assert_eq!(missing.status, 404);
    let failed = delete_library(DeleteOutcome::Failed);
    assert_eq!(failed.message, "Failed to delete library group");
    assert_eq!(failed.status, 500);
}

#[test]
fn saving_is_answered() {
    let created = saved_reply(SaveTarget::Create, SaveOutcome::Stored);
    assert_eq!(created.message, "Library group created");
    let updated = saved_reply(SaveTarget::Update(7), SaveOutcome::Stored);
    assert_eq!(updated.message, "Library group updated");
    assert_eq!(updated.status, 200);
    assert!(!updated.is_error);
    let missing = saved_reply(SaveTarget::Update(7), SaveOutcome::NotFound);
    assert_eq!(missing.message, "Library group not found");
    assert_eq!(missing.status, 404);
    let outcome = SaveOutcome::Failed("disk full".to_string());
    let failed = saved_reply(SaveTarget::Create, outcome);
    assert_eq!(failed.message, "Failed to save library group: disk full");
    assert_eq!(failed.status, 400);
    assert!(failed.is_error);
}

#[test]
fn collection_types_have_labels() {
    assert_eq!(collection_type_label("tvshows"), "TV Shows");
    assert_eq!(collection_type_label("livetv"), "Live TV");
    assert_eq!(collection_type_label("TVSHOWS"), "Unknown");
    let options = collection_type_options();
    let values: Vec<&str> = options.iter().map(|o| o.value.as_str()).collect();
    assert_eq!(values, LibraryManagementService::allowed_collection_types());
    let labels: Vec<&str> = options.iter().map(|o| o.label.as_str()).collect();
    assert_eq!(
        labels,
        vec![
            "Movies",
            "TV Shows",
            "Music",
            "Music Videos",
            "Trailers",
            "Home Videos",
            "Box Sets",
            "Books",
            "Photos",
            "Live TV",
            "Playlists",
            "Folders"
        ]
    );
}

#[test]
fn keys_name_the_server_and_the_library() {
    assert_eq!(source_key(1, "abc"), "1::abc");
    assert_eq!(source_key(-3, "x::y"), "-3::x::y");
    assert_eq!(source_key(12, ""), "12::");
    assert_ne!(source_key(1, "2::x"), source_key(12, "x"));
}

#[test]
fn sources_are_taken_from_the_form() {
    let options = vec![
        option(1, "a", "x", "Films", "movies"),
        option(2, "b", "y", "More", "movies"),
    ];
    let sources = sources_from_form(
        &form("N", "movies", &["2::y", "1::x", "2::y"]),
        &options,
        "movies",
    )
    .unwrap();
    assert_eq!(sources.len(), 2);
    assert_eq!(sources[0].server_id, 2);
    assert_eq!(sources[0].source_library_name, "More");
    assert_eq!(sources[1].source_library_id, "x");
    assert_eq!(sources[1].source_collection_type, "movies");
}

#[test]
fn forms_that_cannot_be_used_are_told_why() {
    let options = vec![
        option(1, "a", "x", "Films", "movies"),
        option(2, "b", "y", "Songs", "Music"),
    ];
    let problem = |f: LibraryForm| sources_from_form(&f, &options, "movies").unwrap_err();
    assert_eq!(
        problem(form("  ", "movies", &["1::x"])),
        "Library name cannot be empty"
    );
    assert_eq!(
        problem(form("N", "movies", &[])),
        "Select at least one source library"
    );
    assert_eq!(
        problem(form("N", "movies", &["1::x", "9::z", "2::y"])),
        "Unknown source selection: 9::z"
    );
    assert_eq!(
        problem(form("N", "movies", &["1::x", "2::y"])),
        "Source 'Songs' has type 'music' but group type is 'movies'"
    );
}

#[test]
fn a_form_is_planned_and_can_be_stored() {
    let options = vec![option(1, "a", "x", "Films", "movies")];
    let changed = handle_save_library(Some(7), &form("N", "movies", &["1::x"]), &options).unwrap();
    assert_eq!(changed.target, SaveTarget::Update(7));
    let plan = handle_save_library(None, &form(" N ", " Movies", &["1::x"]), &options).unwrap();
    assert_eq!(plan.target, SaveTarget::Create);
    assert_eq!(plan.collection_type, "movies");
    assert_eq!(plan.sources.len(), 1);
    let stored = LibraryManagementService::create_group(
        " N ",
        &plan.collection_type,
        plan.sources,
        "v".to_string(),
        0,
    );
    assert!(stored.is_ok());
    let invalid = handle_save_library(None, &form("", "films", &[]), &options).unwrap_err();
    assert_eq!(invalid.message, "Invalid collection type");
    assert_eq!(invalid.status, 400);
    let unnamed = handle_save_library(Some(7), &form("", "movies", &[]), &options).unwrap_err();
    assert_eq!(unnamed.message, "Library name cannot be empty");
    assert!(unnamed.is_error);
}

#[test]
fn the_last_of_several_options_with_one_key_is_taken() {
    let options = vec![
        option(1, "a", "x", "Old", "movies"),
        option(1, "a", "x", "New", "movies"),
    ];
    let sources = sources_from_form(&form("N", "movies", &["1::x"]), &options, "movies").unwrap();
    assert_eq!(sources[0].source_library_name, "New");
}

#[test]
fn folders_without_a_usable_type_cannot_be_chosen() {
    let options = folders_to_source_options(
        7,
        "Attic",
        "session",
        vec![
            folder("1", "Films", Some(" Movies ")),
            folder("2", "Mixed", None),
            folder("3", "Odd", Some("podcasts")),
            folder("4", "Blank", Some("")),
        ],
    );
    assert_eq!(options.len(), 1);
    assert_eq!(options[0].key, "7::1");
    assert_eq!(options[0].server_id, 7);
    assert_eq!(options[0].server_name, "Attic");
    assert_eq!(options[0].library_id, "1");
    assert_eq!(options[0].library_name, "Films");
    assert_eq!(options[0].collection_type, "movies");
    assert_eq!(options[0].auth_source, "session");
}

#[test]
fn groups_are_listed_with_their_sources_and_choices() {
    let names = vec![(1, "Old".to_string()), (1, "Attic".to_string())];
    let options = vec![
        option(1, "Attic", "a", "Films", "movies"),
        option(1, "Attic", "b", "Other", "movies"),
    ];
    let views = groups_to_view(vec![group()], &names, &options);
    assert_eq!(views.len(), 1);
    assert_eq!(views[0].id, 4);
    assert_eq!(views[0].name, "All");
    assert_eq!(
        views[0].source_descriptions,
        vec!["Attic - Films a (movies)", "Server -2 - Films b (movies)"]
    );
    assert_eq!(views[0].source_choices.len(), 2);
    assert!(views[0].source_choices[0].checked);
    assert!(!views[0].source_choices[1].checked);
    assert_eq!(views[0].source_choices[1].library_name, "Other");
}

#[test]
fn the_list_is_put_together() {
    let template = render_library_list(
        "/ui".to_string(),
        vec![group()],
        &Vec::new(),
        vec![option(1, "Attic", "a", "Films", "movies")],
        Vec::new(),
        Some("done".to_string()),
        false,
    );
    assert_eq!(template.ui_route, "/ui");
    assert_eq!(template.collection_types.len(), 12);
    assert_eq!(template.source_options.len(), 1);
    assert_eq!(template.groups.len(), 1);
    assert_eq!(template.flash_message, Some("done".to_string()));
    assert!(!template.flash_is_error);
}

#[test]
fn the_administrator_is_preferred() {
    let step = |stage: DiscoveryStage, answer: DiscoveryAnswer| {
        discover_libraries_for_server(1, "a", stage, answer)
    };
    let next = |stage: DiscoveryStage, answer: DiscoveryAnswer| match step(stage, answer) {
        DiscoveryStep::Next(stage) => stage,
        DiscoveryStep::End(_) => panic!("expected a stage"),
    };
    assert_eq!(
        next(DiscoveryStage::SetUpClient, DiscoveryAnswer::Ready),
        DiscoveryStage::FindAdmin
    );
    assert_eq!(
        next(DiscoveryStage::FindAdmin, DiscoveryAnswer::Ready),
        DiscoveryStage::DecryptPassword
    );
    assert_eq!(
        next(DiscoveryStage::DecryptPassword, DiscoveryAnswer::Ready),
        DiscoveryStage::AuthenticateAdmin
    );
    assert_eq!(
        next(DiscoveryStage::AuthenticateAdmin, DiscoveryAnswer::Ready),
        DiscoveryStage::ListAsAdmin
    );
    let folders = DiscoveryAnswer::Folders(vec![folder("1", "Films", Some("movies"))]);
    match step(DiscoveryStage::ListAsAdmin, folders) {
        DiscoveryStep::End(DiscoveryResult::Found(source, options)) => {
            assert_eq!(source, "admin");
            assert_eq!(options[0].auth_source, "admin");
        }
        _ => panic!("expected libraries"),
    }
}

#[test]
fn a_session_is_used_where_the_administrator_fails() {
    let failed = || DiscoveryAnswer::Failed("no".to_string());
    let step = |stage: DiscoveryStage, answer: DiscoveryAnswer| {
        discover_libraries_for_server(1, "a", stage, answer)
    };
    for stage in [
        DiscoveryStage::FindAdmin,
        DiscoveryStage::DecryptPassword,
        DiscoveryStage::AuthenticateAdmin,
        DiscoveryStage::ListAsAdmin,
    ] {
        assert!(matches!(
            step(stage, failed()),
            DiscoveryStep::Next(DiscoveryStage::FindSession)
        ));
    }
    assert!(matches!(
        step(DiscoveryStage::FindAdmin, DiscoveryAnswer::Absent),
        DiscoveryStep::Next(DiscoveryStage::FindSession)
    ));
    assert!(matches!(
        step(DiscoveryStage::FindSession, DiscoveryAnswer::Ready),
        DiscoveryStep::Next(DiscoveryStage::ListAsUser)
    ));
    assert!(matches!(
        step(DiscoveryStage::ListAsUser, DiscoveryAnswer::Folders(Vec::new())),
        DiscoveryStep::End(DiscoveryResult::Found(source, _)) if source == "session"
    ));
}

#[test]
fn a_search_that_fails_is_told_why() {
    let message = |stage: DiscoveryStage, answer: DiscoveryAnswer| {
        match discover_libraries_for_server(1, "a", stage, answer) {
            DiscoveryStep::End(DiscoveryResult::Unavailable(message)) => message,
            _ => panic!("expected a message"),
        }
    };
    let failed = || DiscoveryAnswer::Failed("no".to_string());
    assert_eq!(
        message(DiscoveryStage::SetUpClient, failed()),
        "Client setup failed: no"
    );
    assert_eq!(
        message(DiscoveryStage::FindSession, failed()),
        "Failed to fetch latest active session: no"
    );
    assert_eq!(
        message(DiscoveryStage::FindSession, DiscoveryAnswer::Absent),
        "No usable admin credentials or active mapped-user session"
    );
    assert_eq!(
        message(DiscoveryStage::ListAsUser, failed()),
        "Failed to fetch libraries with mapped user session: no"
    );
}

#[test]
fn what_was_found_is_listed_in_order() {
    let (options, statuses) = discover_source_libraries(vec![
        ServerDiscovery {
            server_name: "beta".to_string(),
            result: DiscoveryResult::Found(
                "session".to_string(),
                vec![
                    option(2, "beta", "1", "Z", "movies"),
                    option(2, "beta", "2", "A", "music"),
                    option(2, "beta", "3", "B", "movies"),
                ],
            ),
        },
        ServerDiscovery {
            server_name: "alpha".to_string(),
            result: DiscoveryResult::Unavailable("down".to_string()),
        },
        ServerDiscovery {
            server_name: "Alpha".to_string(),
            result: DiscoveryResult::Found(
                "admin".to_string(),
                vec![option(1, "Alpha", "9", "Q", "photos")],
            ),
        },
    ]);
    let keys: Vec<&str> = options.iter().map(|o| o.key.as_str()).collect();
    assert_eq!(keys, vec!["1::9", "2::3", "2::1", "2::2"]);
    let told: Vec<(&str, usize)> = statuses
        .iter()
        .map(|s| (s.server_name.as_str(), s.library_count))
        .collect();
    assert_eq!(told, vec![("Alpha", 1), ("alpha", 0), ("beta", 3)]);
    assert_eq!(statuses[1].message, Some("down".to_string()));
    assert_eq!(statuses[1].auth_source, None);
    assert_eq!(statuses[2].auth_source, Some("session".to_string()));
}

#[test]
fn servers_that_cannot_be_listed_are_reported() {
    let (options, statuses) = unlisted_servers();
    assert!(options.is_empty());
    assert_eq!(statuses.len(), 1);
    assert_eq!(statuses[0].server_name, "Server list unavailable");
    assert_eq!(
        statuses[0].message,
        Some("Failed to list configured servers".to_string())
    );
}

#[test]
fn a_form_that_cannot_be_read_is_refused() {
    let reply = refused_form("missing field `name`".to_string());
    assert_eq!(reply.message, "missing field `name`");
    assert!(reply.is_error);
    assert_eq!(reply.status, 400);
}
