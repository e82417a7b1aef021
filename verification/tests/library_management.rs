use jellyswarrm_proxy::library_management_service::{
    normalize_sources, GroupDraft, LibraryGroup, LibraryGroupSource, LibraryGroupWithSources,
    LibraryManagementService, NewLibraryGroupSource, UpdateStep, ValidationError,
};

/// The rows of groups and of their sources.
struct Tables {
    groups: Vec<LibraryGroup>,
    sources: Vec<LibraryGroupSource>,
    last_group: i64,
    last_source: i64,
    now: i64,
}

impl Tables {
    fn new() -> Self {
        Tables {
            groups: Vec::new(),
            sources: Vec::new(),
            last_group: 0,
            last_source: 0,
            now: 0,
        }
    }

    fn with_sources(&self, group: &LibraryGroup) -> LibraryGroupWithSources {
        LibraryGroupWithSources {
            group: group.clone(),
            sources: self
                .sources
                .iter()
                .filter(|s| s.library_group_id == group.id)
                .cloned()
                .collect(),
        }
    }

    fn list_groups_with_sources(&self) -> Vec<LibraryGroupWithSources> {
        self.groups.iter().map(|g| self.with_sources(g)).collect()
    }

    fn get_group_by_id_with_sources(&self, id: i64) -> Option<LibraryGroupWithSources> {
        let group = self.groups.iter().find(|g| g.id == id)?;
        Some(self.with_sources(group))
    }

    fn get_group_by_virtual_id_with_sources(&self, id: &str) -> Option<LibraryGroupWithSources> {
        let spelled = LibraryManagementService::normalize_virtual_id(id);
        let group = self.groups.iter().find(|g| g.virtual_library_id == spelled)?;
        Some(self.with_sources(group))
    }

    fn insert_sources(&mut self, group_id: i64, draft: &GroupDraft) {
        for source in &draft.sources {
            self.last_source += 1;
            self.sources.push(LibraryGroupSource {
                id: self.last_source,
                library_group_id: group_id,
                server_id: source.server_id,
                source_library_id: source.source_library_id.clone(),
                source_library_name: source.source_library_name.clone(),
                source_collection_type: source.source_collection_type.clone(),
                created_at: draft.now,
                updated_at: draft.now,
            });
        }
    }

    fn create_group(
        &mut self,
        name: &str,
        collection_type: &str,
        sources: Vec<NewLibraryGroupSource>,
    ) -> Result<LibraryGroupWithSources, ValidationError> {
        self.now += 1;
        let virtual_library_id = format!("{:032x}", self.last_group + 1);
        let new = LibraryManagementService::create_group(
            name,
            collection_type,
            sources,
            virtual_library_id,
            self.now,
        )?;
        self.last_group += 1;
        let id = self.last_group;
        self.groups.push(LibraryGroup {
            id,
            virtual_library_id: new.virtual_library_id,
            name: new.draft.name.clone(),
            collection_type: new.draft.collection_type.clone(),
            preview_server_id: new.draft.preview_server_id,
            preview_library_id: new.draft.preview_library_id.clone(),
            created_at: new.draft.now,
            updated_at: new.draft.now,
        });
        self.insert_sources(id, &new.draft);
        Ok(self.get_group_by_id_with_sources(id).unwrap())
    }

    fn update_group(
        &mut self,
        id: i64,
        name: &str,
        collection_type: &str,
        sources: Vec<NewLibraryGroupSource>,
    ) -> Result<Option<LibraryGroupWithSources>, ValidationError> {
        self.now += 1;
        let update = LibraryManagementService::update_group(
            id,
            name,
            collection_type,
            sources,
            self.now,
        )?;
        let mut affected = 0;
        for group in self.groups.iter_mut().filter(|g| g.id == update.id) {
            group.name = update.draft.name.clone();
            group.collection_type = update.draft.collection_type.clone();
            group.preview_server_id = update.draft.preview_server_id;
            group.preview_library_id = update.draft.preview_library_id.clone();
            group.updated_at = update.draft.now;
            affected += 1;
        }
        match LibraryManagementService::after_update(affected) {
            UpdateStep::RollBack => Ok(None),
            UpdateStep::ReplaceSources => {
                self.sources.retain(|s| s.library_group_id != update.id);
                self.insert_sources(update.id, &update.draft);
                Ok(self.get_group_by_id_with_sources(update.id))
            }
        }
    }

    fn delete_group(&mut self, id: i64) -> bool {
        let before = self.groups.len();
        self.groups.retain(|g| g.id != id);
        LibraryManagementService::delete_group((before - self.groups.len()) as u64)
    }
}

fn source(server_id: i64, id: &str, name: &str, collection_type: &str) -> NewLibraryGroupSource {
    NewLibraryGroupSource {
        server_id,
        source_library_id: id.to_string(),
        source_library_name: name.to_string(),
        source_collection_type: collection_type.to_string(),
    }
}

#[test]
fn test_library_group_crud() {
    let mut service = Tables::new();

    let created = service
        .create_group(
            "My Movies",
            "movies",
            vec![
                NewLibraryGroupSource {
                    server_id: 1,
                    source_library_id: "movies_a".to_string(),
                    source_library_name: "Movies A".to_string(),
                    source_collection_type: "movies".to_string(),
                },
                NewLibraryGroupSource {
                    server_id: 2,
                    source_library_id: "movies_b".to_string(),
                    source_library_name: "Movies B".to_string(),
                    source_collection_type: "movies".to_string(),
                },
            ],
        )
        .unwrap();

    assert_eq!(created.group.name, "My Movies");
    assert_eq!(created.group.collection_type, "movies");
    assert_eq!(created.sources.len(), 2);

    let all = service.list_groups_with_sources();
    assert_eq!(all.len(), 1);

    let by_virtual = service
        .get_group_by_virtual_id_with_sources(&created.group.virtual_library_id)
        .unwrap();
    assert_eq!(by_virtual.group.id, created.group.id);
    assert_eq!(by_virtual.sources.len(), 2);

    let updated = service
        .update_group(
            created.group.id,
            "My Movies Updated",
            "movies",
            vec![NewLibraryGroupSource {
                server_id: 2,
                source_library_id: "movies_b".to_string(),
                source_library_name: "Movies B".to_string(),
                source_collection_type: "movies".to_string(),
            }],
        )
        .unwrap()
        .unwrap();
    assert_eq!(updated.group.name, "My Movies Updated");
    assert_eq!(updated.sources.len(), 1);

    let deleted = service.delete_group(created.group.id);
    assert!(deleted);

    let none = service.get_group_by_id_with_sources(created.group.id);
    assert!(none.is_none());
}

#[test]
fn a_change_keeps_what_a_group_is_known_by_and_every_other_group() {
    let mut service = Tables::new();
    let one = service
        .create_group(" One ", "Movies", vec![source(1, " a ", "A", "movies")])
        .unwrap();
    let two = service
        .create_group("Two", "music", vec![source(2, "b", "B", "music")])
        .unwrap();
    assert_eq!(one.group.name, "One");
    assert_eq!(one.sources[0].source_library_id, "a");
    assert_eq!(one.group.created_at, one.group.updated_at);
    let changed = service
        .update_group(
            one.group.id,
            "Three",
            "tvshows",
            vec![source(2, "c", "C", "tvshows"), source(1, "d", "D", "tvshows")],
        )
        .unwrap()
        .unwrap();
    assert_eq!(changed.group.virtual_library_id, one.group.virtual_library_id);
    assert_eq!(changed.group.created_at, one.group.created_at);
    assert!(changed.group.updated_at > one.group.updated_at);
    assert_eq!(changed.group.preview_server_id, 2);
    assert_eq!(changed.group.preview_library_id, "c");
    let ids: Vec<&str> = changed.sources.iter().map(|s| s.source_library_id.as_str()).collect();
    assert_eq!(ids, vec!["c", "d"]);
    let spelling = format!(" {} ", one.group.virtual_library_id.to_uppercase());
    let found = service.get_group_by_virtual_id_with_sources(&spelling).unwrap();
    assert_eq!(found.group.name, "Three");
    let other = service.get_group_by_id_with_sources(two.group.id).unwrap();
    assert_eq!(other.group.name, "Two");
    assert_eq!(other.sources[0].source_library_id, "b");
    let missing = service.update_group(99, "X", "movies", vec![source(1, "a", "A", "movies")]);
    assert!(missing.unwrap().is_none());
    assert_eq!(service.list_groups_with_sources().len(), 2);
    assert!(service.delete_group(one.group.id));
    assert!(!service.delete_group(one.group.id));
    assert!(service.get_group_by_virtual_id_with_sources(&spelling).is_none());
    assert!(service
        .get_group_by_virtual_id_with_sources(&two.group.virtual_library_id)
        .is_some());
}

#[test]
fn test_validation_rejects_invalid_inputs() {
    let err = LibraryManagementService::create_group(" ", "movies", Vec::new(), "v".to_string(), 0)
        .unwrap_err();
    assert!(err.message().contains("Library name cannot be empty"));

    let err = LibraryManagementService::create_group(
        "Bad Group",
        "movies",
        vec![NewLibraryGroupSource {
            server_id: 1,
            source_library_id: "tv_a".to_string(),
            source_library_name: "TV A".to_string(),
            source_collection_type: "tvshows".to_string(),
        }],
        "v".to_string(),
        0,
    )
    .unwrap_err();
    assert!(err.message().contains("must match group collection type"));
}

#[test]
fn collection_types_are_normalized_before_they_are_checked() {
    assert_eq!(LibraryManagementService::allowed_collection_types().len(), 12);
    assert_eq!(
        LibraryManagementService::normalize_collection_type("  TvShows "),
        "tvshows"
    );
    assert!(LibraryManagementService::is_valid_collection_type(" LIVETV\n"));
    assert!(!LibraryManagementService::is_valid_collection_type("tv shows"));
    assert!(!LibraryManagementService::is_valid_collection_type(""));
    for allowed in LibraryManagementService::allowed_collection_types() {
        assert!(LibraryManagementService::is_valid_collection_type(allowed));
        assert_eq!(
            &LibraryManagementService::normalize_collection_type(allowed),
            allowed
        );
    }
}

#[test]
fn virtual_identifiers_are_trimmed_and_spelled_alike() {
    assert_eq!(
        LibraryManagementService::normalize_virtual_id(" 550E8400-E29B-41D4-A716-446655440000 "),
        "550e8400e29b41d4a716446655440000"
    );
    assert_eq!(LibraryManagementService::normalize_virtual_id(" my id "), "my id");
}

#[test]
fn a_new_group_is_cleaned_and_previewed_by_its_first_source() {
    let group = LibraryManagementService::create_group(
        "  My Movies ",
        " MOVIES",
        vec![
            source(2, " b ", " Movies B ", "Movies"),
            source(1, "a", "Movies A", "movies"),
            source(2, "b", "Again", " movies "),
        ],
        "token".to_string(),
        77,
    )
    .unwrap();
    assert_eq!(group.virtual_library_id, "token");
    assert_eq!(group.draft.name, "My Movies");
    assert_eq!(group.draft.collection_type, "movies");
    assert_eq!(group.draft.preview_server_id, 2);
    assert_eq!(group.draft.preview_library_id, "b");
    assert_eq!(group.draft.now, 77);
    assert_eq!(group.draft.sources.len(), 2);
    assert_eq!(group.draft.sources[0].source_library_name, "Movies B");
    assert_eq!(group.draft.sources[0].source_collection_type, "movies");
    assert_eq!(group.draft.sources[1].server_id, 1);
}

#[test]
fn a_changed_group_follows_the_same_rules() {
    let update = LibraryManagementService::update_group(
        5,
        "My Movies Updated",
        "movies",
        vec![source(2, "movies_b", "Movies B", "movies")],
        9,
    )
    .unwrap();
    assert_eq!(update.id, 5);
    assert_eq!(update.draft.name, "My Movies Updated");
    assert_eq!(update.draft.sources.len(), 1);
    assert_eq!(
        LibraryManagementService::update_group(5, "x", "films", Vec::new(), 9).unwrap_err(),
        ValidationError::InvalidCollectionType
    );
    assert!(LibraryManagementService::delete_group(1));
    assert!(!LibraryManagementService::delete_group(0));
}

#[test]
fn each_problem_of_a_source_is_told() {
    let problem = |s: NewLibraryGroupSource| normalize_sources("movies", vec![s]).unwrap_err();
    assert_eq!(
        normalize_sources("movies", Vec::new()).unwrap_err(),
        ValidationError::NoSources
    );
    assert_eq!(problem(source(1, " ", "n", "movies")), ValidationError::EmptySourceId);
    assert_eq!(problem(source(1, "i", " ", "movies")), ValidationError::EmptySourceName);
    assert_eq!(problem(source(1, "i", "n", " ")), ValidationError::EmptySourceType);
    assert_eq!(problem(source(1, "i", "n", "music")), ValidationError::SourceTypeMismatch);
    let first = normalize_sources(
        "movies",
        vec![source(1, "i", "n", "movies"), source(1, "i", "", "x"), source(1, "", "n", "x")],
    );
    assert_eq!(first.unwrap_err(), ValidationError::EmptySourceName);
}

#[test]
fn sources_that_were_accepted_stay_as_they_are() {
    let once = normalize_sources(
        "movies",
        vec![source(1, " i ", " n ", " Movies "), source(2, "i", "n", "movies")],
    )
    .unwrap();
    let again = normalize_sources("movies", once.clone()).unwrap();
    let ids = |all: &Vec<NewLibraryGroupSource>| -> Vec<(i64, String, String, String)> {
        all.iter()
            .map(|s| {
                (
                    s.server_id,
                    s.source_library_id.clone(),
                    s.source_library_name.clone(),
                    s.source_collection_type.clone(),
                )
            })
            .collect()
    };
    assert_eq!(ids(&once), ids(&again));
    assert_eq!(once.len(), 2);
}
