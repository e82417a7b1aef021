use std::collections::HashMap;

use jellyswarrm_proxy::media_mappings::{MappingAnswer, MappingRequestStage};
use jellyswarrm_proxy::media_storage_service::{
    mapping_cache_key, CacheStep, DedupeGroupIndex, MediaDedupeGroup, MediaDedupeMember,
    MediaMapping, MediaStorageService,
};
use jellyswarrm_proxy::models::Server;

struct Caches {
    groups: HashMap<String, MediaDedupeGroup>,
    index: HashMap<String, String>,
    listed: DedupeGroupIndex,
    by_original: HashMap<String, MediaMapping>,
    with_server: HashMap<String, (MediaMapping, Server)>,
}

impl Caches {
    fn new() -> Self {
        Caches {
            groups: HashMap::new(),
            index: HashMap::new(),
            listed: DedupeGroupIndex::new(),
            by_original: HashMap::new(),
            with_server: HashMap::new(),
        }
    }

    fn apply(&mut self, steps: Vec<CacheStep>) {
        for step in steps {
            match step {
                CacheStep::ForgetMember(member) => {
                    self.index.remove(&member);
                }
                CacheStep::PointMember(member, canonical) => {
                    self.index.insert(member, canonical);
                }
                CacheStep::StoreGroup(group) => {
                    self.groups
                        .insert(group.canonical_virtual_media_id.clone(), group.clone());
                    self.listed.insert(group);
                }
                CacheStep::StoreMapping(key, mapping) => {
                    self.by_original.insert(key, mapping);
                }
                CacheStep::StoreMappingWithServer(id, mapping, server) => {
                    self.with_server.insert(id, (mapping, server));
                }
                CacheStep::ForgetMapping(id) => {
                    self.by_original.clear();
                    self.with_server.remove(&id);
                }
                CacheStep::ForgetAllMappings => {
                    self.by_original.clear();
                    self.with_server.clear();
                }
                CacheStep::ForgetAllGroups => {
                    self.groups.clear();
                    self.index.clear();
                    self.listed.clear();
                }
            }
        }
    }

    fn register(&mut self, canonical: &str, members: Vec<MediaDedupeMember>) {
        if let Some(group) = MediaStorageService::register_media_dedupe_group(canonical, members) {
            let existing = self.groups.get(&group.canonical_virtual_media_id).cloned();
            let steps = MediaStorageService::registration_steps(group, &existing);
            self.apply(steps);
        }
    }

    fn find(&self, id: &str) -> Option<MediaDedupeGroup> {
        let indexed = self.index.get(&MediaStorageService::normalize_uuid(id)).cloned();
        self.groups
            .get(&MediaStorageService::dedupe_group_key(id, indexed))
            .cloned()
    }
}

/// A table of mappings with one row for each medium of a server, and the caches in front of it.
struct Storage {
    rows: Vec<MediaMapping>,
    servers: Vec<Server>,
    caches: Caches,
    made: i64,
}

impl Storage {
    fn new() -> Self {
        Storage {
            rows: Vec::new(),
            servers: Vec::new(),
            caches: Caches::new(),
            made: 0,
        }
    }

    fn find(&self, original_media_id: &str, server_url: &str) -> Option<MediaMapping> {
        self.rows
            .iter()
            .find(|m| m.original_media_id == original_media_id && m.server_url == server_url)
            .cloned()
    }

    fn insert(&mut self, original_media_id: &str, server_url: &str) -> Option<MediaMapping> {
        if self.find(original_media_id, server_url).is_some() {
            return None;
        }
        self.made += 1;
        let row = MediaMapping {
            id: self.made,
            virtual_media_id: format!("{:032x}", self.made),
            original_media_id: original_media_id.to_string(),
            server_url: server_url.to_string(),
            created_at: 0,
        };
        self.rows.push(row.clone());
        Some(row)
    }

    fn get_or_create_media_mapping(&mut self, medium: &str, server_url: &str) -> MediaMapping {
        let mut request = MediaStorageService::get_or_create_media_mapping(medium, server_url);
        loop {
            let answer = match request.stage() {
                MappingRequestStage::LookInCache => {
                    MappingAnswer::Cached(self.caches.by_original.get(request.key()).cloned())
                }
                MappingRequestStage::LookUp | MappingRequestStage::LookUpAgain => {
                    MappingAnswer::Row(self.find(request.original_media_id(), request.server_url()))
                }
                MappingRequestStage::Insert => MappingAnswer::Row(
                    self.insert(request.original_media_id(), request.server_url()),
                ),
                MappingRequestStage::Found | MappingRequestStage::Missing => break,
            };
            assert!(request.accepts(&answer));
            request.step(answer);
        }
        if let Some(step) = request.cache_step() {
            self.caches.apply(vec![step]);
        }
        request.into_mapping().unwrap()
    }

    fn get_media_mapping_by_virtual(&self, virtual_media_id: &str) -> Option<MediaMapping> {
        let id = MediaStorageService::normalize_uuid(virtual_media_id);
        self.rows.iter().find(|m| m.virtual_media_id == id).cloned()
    }

    fn get_media_mapping_with_server(&mut self, spelling: &str) -> Option<(MediaMapping, Server)> {
        let id = MediaStorageService::normalize_uuid(spelling);
        if let Some(cached) = self.caches.with_server.get(&id) {
            return Some(cached.clone());
        }
        let mapping = self.get_media_mapping_by_virtual(&id)?;
        let server = self
            .servers
            .iter()
            .find(|s| s.url.trim_end_matches('/') == mapping.server_url.trim_end_matches('/'))
            .cloned()?;
        let step = MediaStorageService::get_media_mapping_with_server(&id, &mapping, &server);
        self.caches.apply(vec![step]);
        Some((mapping, server))
    }

    fn delete_media_mapping(&mut self, virtual_media_id: &str) -> bool {
        let before = self.rows.len();
        self.rows.retain(|m| m.virtual_media_id != virtual_media_id);
        let gone = (before - self.rows.len()) as u64;
        let (deleted, steps) = MediaStorageService::delete_media_mapping(virtual_media_id, gone);
        self.caches.apply(steps);
        deleted
    }

    fn delete_media_mappings_by_server(&mut self, server_url: &str) -> u64 {
        let before = self.rows.len();
        self.rows.retain(|m| m.server_url != server_url);
        let gone = (before - self.rows.len()) as u64;
        let (deleted, steps) = MediaStorageService::delete_media_mappings_by_server(gone);
        self.caches.apply(steps);
        deleted
    }
}

fn member(server_id: i64, id: &str) -> MediaDedupeMember {
    MediaDedupeMember {
        server_id,
        virtual_media_id: id.to_string(),
    }
}

fn mapping(virtual_media_id: &str) -> MediaMapping {
    MediaMapping {
        id: 1,
        virtual_media_id: virtual_media_id.to_string(),
        original_media_id: "original-movie-123".to_string(),
        server_url: "http://localhost:8096".to_string(),
        created_at: 0,
    }
}

const A: &str = "aaaaaaaaaaaaaaaaaaaaaaaaaaaaaaaa";
const B: &str = "bbbbbbbbbbbbbbbbbbbbbbbbbbbbbbbb";
const C: &str = "cccccccccccccccccccccccccccccccc";

#[test]
fn test_media_dedupe_group_cache() {
    let mut service = Caches::new();

    service.register(
        "aaaaaaaaaaaaaaaaaaaaaaaaaaaaaaaa",
        vec![
            MediaDedupeMember {
                server_id: 1,
                virtual_media_id: "aaaaaaaaaaaaaaaaaaaaaaaaaaaaaaaa".to_string(),
            },
            MediaDedupeMember {
                server_id: 2,
                virtual_media_id: "bbbbbbbbbbbbbbbbbbbbbbbbbbbbbbbb".to_string(),
            },
        ],
    );

    let by_canonical = service.find("aaaaaaaaaaaaaaaaaaaaaaaaaaaaaaaa").unwrap();
    assert_eq!(by_canonical.members.len(), 2);

    let by_member = service.find("bbbbbbbbbbbbbbbbbbbbbbbbbbbbbbbb").unwrap();
    assert_eq!(
        by_member.canonical_virtual_media_id,
        "aaaaaaaaaaaaaaaaaaaaaaaaaaaaaaaa"
    );

    let member_server_2 = MediaStorageService::get_media_dedupe_member_for_server(
        &service.find("aaaaaaaaaaaaaaaaaaaaaaaaaaaaaaaa"),
        2,
    )
    .unwrap();
    assert_eq!(member_server_2, "bbbbbbbbbbbbbbbbbbbbbbbbbbbbbbbb");
}

#[test]
fn test_media_storage_service() {
    let mut service = Storage::new();

    let mapping = service.get_or_create_media_mapping("original-movie-123", "http://localhost:8096");

    assert_eq!(mapping.original_media_id, "original-movie-123");
    assert_eq!(mapping.server_url, "http://localhost:8096");

    let retrieved_mapping = service
        .get_media_mapping_by_virtual(&mapping.virtual_media_id)
        .unwrap();

    assert_eq!(retrieved_mapping.virtual_media_id, mapping.virtual_media_id);
    assert_eq!(retrieved_mapping.original_media_id, "original-movie-123");
}

#[test]
fn test_get_media_mapping_with_server() {
    let mut service = Storage::new();
    service.servers.push(Server {
        id: 1,
        name: "Test Server".to_string(),
        url: "http://localhost:8096".to_string(),
        priority: 100,
        created_at: 0,
        updated_at: 0,
    });

    let mapping = service.get_or_create_media_mapping("original-movie-123", "http://localhost:8096");

    let (retrieved_mapping, server) = service
        .get_media_mapping_with_server(&mapping.virtual_media_id)
        .unwrap();

    assert_eq!(retrieved_mapping.virtual_media_id, mapping.virtual_media_id);
    assert_eq!(retrieved_mapping.original_media_id, "original-movie-123");
    assert_eq!(server.name, "Test Server");
    assert_eq!(
        server.url.as_str().trim_end_matches('/'),
        "http://localhost:8096"
    );

    assert!(service.caches.with_server.contains_key(&mapping.virtual_media_id));
    assert!(service.delete_media_mapping(&mapping.virtual_media_id));
    assert!(service
        .get_media_mapping_with_server(&mapping.virtual_media_id)
        .is_none());
}

#[test]
fn test_delete_operations() {
    let mut service = Storage::new();

    let mapping = service.get_or_create_media_mapping("movie-123", "http://localhost:8096");

    assert!(service
        .get_media_mapping_by_virtual(&mapping.virtual_media_id)
        .is_some());

    let deleted = service.delete_media_mapping(&mapping.virtual_media_id);

    assert!(deleted);

    assert!(service
        .get_media_mapping_by_virtual(&mapping.virtual_media_id)
        .is_none());
}

#[test]
fn no_medium_gets_a_second_mapping() {
    let mut service = Storage::new();
    let spelled = "AAAAAAAA-AAAA-AAAA-AAAA-AAAAAAAAAAAA";
    let first = service.get_or_create_media_mapping(A, "http://a");
    assert_eq!(first.original_media_id, A);
    for again in [A, spelled, spelled] {
        let found = service.get_or_create_media_mapping(again, "http://a");
        assert_eq!(found.id, first.id);
        assert_eq!(found.virtual_media_id, first.virtual_media_id);
    }
    let other_server = service.get_or_create_media_mapping(A, "http://b");
    let other_medium = service.get_or_create_media_mapping(B, "http://a");
    assert_ne!(other_server.virtual_media_id, first.virtual_media_id);
    assert_ne!(other_medium.virtual_media_id, first.virtual_media_id);
    assert_eq!(service.rows.len(), 3);
    assert_eq!(service.caches.by_original.len(), 4);
}

#[test]
fn the_mapping_that_another_process_made_is_taken() {
    let mut request = MediaStorageService::get_or_create_media_mapping("m", "http://a");
    assert!(!request.accepts(&MappingAnswer::Row(None)));
    request.step(MappingAnswer::Cached(None));
    request.step(MappingAnswer::Row(None));
    assert_eq!(request.stage(), MappingRequestStage::Insert);
    request.step(MappingAnswer::Row(None));
    assert_eq!(request.stage(), MappingRequestStage::LookUpAgain);
    assert!(request.cache_step().is_none());
    request.step(MappingAnswer::Row(Some(mapping(B))));
    assert_eq!(request.stage(), MappingRequestStage::Found);
    assert!(matches!(
        request.cache_step().unwrap(),
        CacheStep::StoreMapping(key, _) if key == "m|http://a"
    ));
    assert_eq!(request.into_mapping().unwrap().virtual_media_id, B);
    let mut request = MediaStorageService::get_or_create_media_mapping("m", "http://a");
    request.step(MappingAnswer::Cached(Some(mapping(A))));
    assert!(request.cache_step().is_none());
    assert_eq!(request.into_mapping().unwrap().virtual_media_id, A);
    let mut request = MediaStorageService::get_or_create_media_mapping("m", "http://a");
    request.step(MappingAnswer::Cached(None));
    request.step(MappingAnswer::Row(None));
    request.step(MappingAnswer::Row(None));
    request.step(MappingAnswer::Row(None));
    assert_eq!(request.stage(), MappingRequestStage::Missing);
    assert!(request.into_mapping().is_none());
}

#[test]
fn only_the_mapping_with_the_identifier_is_deleted() {
    let mut service = Storage::new();
    let one = service.get_or_create_media_mapping(A, "http://a");
    let two = service.get_or_create_media_mapping(B, "http://a");
    service.caches.register(A, vec![member(1, A), member(2, B)]);
    assert!(!service.delete_media_mapping("no such identifier"));
    assert_eq!(service.rows.len(), 2);
    assert_eq!(service.caches.by_original.len(), 2);
    assert!(service.caches.find(B).is_some());
    assert!(service.delete_media_mapping(&one.virtual_media_id));
    assert!(service.get_media_mapping_by_virtual(&one.virtual_media_id).is_none());
    assert!(service.caches.find(B).is_none());
    let kept = service.get_media_mapping_by_virtual(&two.virtual_media_id).unwrap();
    assert_eq!(kept.original_media_id, B);
    let spelling = two.virtual_media_id.to_uppercase();
    assert_eq!(service.get_media_mapping_by_virtual(&spelling).unwrap().id, two.id);
    let again = service.get_or_create_media_mapping(B, "http://a");
    assert_eq!(again.id, two.id);
}

#[test]
fn only_the_mappings_of_the_server_are_deleted() {
    let mut service = Storage::new();
    let one = service.get_or_create_media_mapping(A, "http://a");
    let two = service.get_or_create_media_mapping(B, "http://a");
    let kept = service.get_or_create_media_mapping(A, "http://b");
    service.caches.register(A, vec![member(1, A), member(2, B)]);
    assert_eq!(service.delete_media_mappings_by_server("http://a"), 2);
    assert!(service.get_media_mapping_by_virtual(&one.virtual_media_id).is_none());
    assert!(service.get_media_mapping_by_virtual(&two.virtual_media_id).is_none());
    assert!(service.caches.with_server.is_empty());
    let found = service.get_or_create_media_mapping(A, "http://b");
    assert_eq!(found.virtual_media_id, kept.virtual_media_id);
    assert!(service.caches.listed.list_media_dedupe_groups().is_empty());
    let again = service.get_or_create_media_mapping(A, "http://a");
    assert_ne!(again.virtual_media_id, one.virtual_media_id);
    service.caches.register(A, vec![member(1, A), member(2, B)]);
    assert_eq!(service.delete_media_mappings_by_server("http://nowhere"), 0);
    assert!(service.caches.listed.list_media_dedupe_groups().is_empty());
    assert_eq!(service.rows.len(), 2);
}

#[test]
fn groups_hold_each_member_once_in_the_stored_spelling() {
    let group = MediaStorageService::register_media_dedupe_group(
        "AAAAAAAA-AAAA-AAAA-AAAA-AAAAAAAAAAAA",
        vec![
            member(1, "AAAAAAAA-AAAA-AAAA-AAAA-AAAAAAAAAAAA"),
            member(1, A),
            member(2, A),
            member(2, "not a uuid"),
        ],
    )
    .unwrap();
    assert_eq!(group.canonical_virtual_media_id, A);
    assert_eq!(
        group.members,
        vec![member(1, A), member(2, A), member(2, "not a uuid")]
    );
    assert!(MediaStorageService::register_media_dedupe_group(A, Vec::new()).is_none());
}

#[test]
fn a_group_replaces_the_one_before_it() {
    let mut caches = Caches::new();
    caches.register(A, vec![member(1, A), member(2, B)]);
    caches.register(C, vec![member(3, C)]);
    caches.register(A, vec![member(1, A), member(4, "new")]);
    assert!(caches.find(B).is_none());
    assert_eq!(caches.find("new").unwrap().canonical_virtual_media_id, A);
    assert_eq!(caches.find(C).unwrap().members, vec![member(3, C)]);
    let listed = caches.listed.list_media_dedupe_groups();
    assert_eq!(listed.len(), 2);
    assert_eq!(listed[0].members[1].virtual_media_id, "new");
    assert_eq!(
        MediaStorageService::get_media_dedupe_member_for_server(&caches.find(A), 9),
        None
    );
    assert_eq!(
        MediaStorageService::get_media_dedupe_member_for_server(&None, 1),
        None
    );
}

#[test]
fn deleting_mappings_empties_the_caches() {
    let mut caches = Caches::new();
    caches.register(A, vec![member(1, A), member(2, B)]);
    let (deleted, steps) = MediaStorageService::delete_media_mapping("v", 0);
    assert!(!deleted);
    assert!(steps.is_empty());
    let (deleted, steps) = MediaStorageService::delete_media_mapping("v", 1);
    assert!(deleted);
    assert!(matches!(&steps[0], CacheStep::ForgetMapping(id) if id == "v"));
    caches.apply(steps);
    assert!(caches.find(A).is_none());
    assert!(caches.listed.list_media_dedupe_groups().is_empty());
    let (deleted, steps) = MediaStorageService::delete_media_mappings_by_server(0);
    assert_eq!(deleted, 0);
    assert_eq!(steps.len(), 2);
    assert!(matches!(steps[0], CacheStep::ForgetAllMappings));
    assert!(matches!(steps[1], CacheStep::ForgetAllGroups));
}

#[test]
fn mappings_are_cached_by_medium_and_server() {
    assert_eq!(
        mapping_cache_key("original-movie-123", "http://localhost:8096"),
        "original-movie-123|http://localhost:8096"
    );
}

#[test]
fn cached_mappings_are_read_back_until_they_are_deleted() {
    let mut caches = Caches::new();
    let server = Server {
        id: 1,
        name: "Test Server".to_string(),
        url: "http://localhost:8096/".to_string(),
        priority: 100,
        created_at: 0,
        updated_at: 0,
    };
    let spelled = "AAAAAAAA-AAAA-AAAA-AAAA-AAAAAAAAAAAA";
    let mut request = MediaStorageService::get_or_create_media_mapping(
        "original-movie-123",
        "http://localhost:8096",
    );
    request.step(MappingAnswer::Cached(None));
    request.step(MappingAnswer::Row(Some(mapping(A))));
    caches.apply(vec![
        request.cache_step().unwrap(),
        MediaStorageService::get_media_mapping_with_server(spelled, &mapping(A), &server),
        MediaStorageService::get_media_mapping_with_server(B, &mapping(B), &server),
    ]);
    let key = mapping_cache_key("original-movie-123", "http://localhost:8096");
    assert_eq!(caches.by_original[&key].virtual_media_id, A);
    assert_eq!(caches.with_server[A].1.name, "Test Server");
    let (_, steps) = MediaStorageService::delete_media_mapping(A, 1);
    caches.apply(steps);
    assert!(caches.by_original.is_empty());
    assert!(!caches.with_server.contains_key(A));
    assert!(caches.with_server.contains_key(B));
    let (deleted, steps) = MediaStorageService::delete_media_mappings_by_server(3);
    assert_eq!(deleted, 3);
    caches.apply(steps);
    assert!(caches.with_server.is_empty());
}
