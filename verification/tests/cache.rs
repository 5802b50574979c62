use psitool::cache::{CacheMap, CachedHash};
use psitool::rvuid::Rvuid;

#[test]
fn cache_insert_get_len() {
    let mut cache = CacheMap::new();
    assert!(cache.is_empty());
    assert_eq!(cache.len(), 0);
    let id = Rvuid::from_bytes(b"first file");
    cache.insert(
        "/pool/a.jpg".to_string(),
        CachedHash { rvuid: id.clone(), path: "a.jpg".to_string() },
    );
    assert_eq!(cache.len(), 1);
    assert!(!cache.is_empty());
    let hit = cache.get(&"/pool/a.jpg".to_string()).unwrap();
    assert_eq!(hit.rvuid, id);
    assert_eq!(hit.path, "a.jpg");
    assert!(cache.get(&"/pool/b.jpg".to_string()).is_none());
}

#[test]
fn cache_insert_replaces_same_key() {
    let mut cache = CacheMap::new();
    let first = Rvuid::from_bytes(b"old content");
    let second = Rvuid::from_bytes(b"new content");
    cache.insert(
        "/pool/a.jpg".to_string(),
        CachedHash { rvuid: first, path: "a.jpg".to_string() },
    );
    cache.insert(
        "/pool/a.jpg".to_string(),
        CachedHash { rvuid: second.clone(), path: "a.jpg".to_string() },
    );
    assert_eq!(cache.len(), 1);
    assert_eq!(cache.get(&"/pool/a.jpg".to_string()).unwrap().rvuid, second);
}

#[test]
fn cache_computes_only_once() {
    // The underlying read, instrumented: the second request for an
    // unchanged file is answered from the cache without reading.
    let mut cache = CacheMap::new();
    let content: &[u8] = b"stimulus bytes on disk";
    let canon = "/pool/canonical/a.jpg".to_string();
    let mut reads: u32 = 0;

    let first = match cache.get(&canon) {
        Some(entry) => entry.rvuid.clone(),
        None => {
            reads += 1;
            cache.record(canon.clone(), "a.jpg".to_string(), content)
        }
    };
    let second = match cache.get(&canon) {
        Some(entry) => entry.rvuid.clone(),
        None => {
            reads += 1;
            cache.record(canon.clone(), "a.jpg".to_string(), content)
        }
    };

    assert_eq!(reads, 1);
    assert_eq!(first, second);
    assert_eq!(first.bytes(), second.bytes());
}

#[test]
fn cached_hash_from_target() {
    let rvuid = Rvuid::from_bytes(b"some picture");
    let target = psitool::target::Target::assemble(
        "/pool/p.jpg".to_string(),
        rvuid.clone(),
        None,
        None,
    )
    .unwrap();
    let entry = CachedHash::from(target);
    assert_eq!(entry.rvuid, rvuid);
    assert_eq!(entry.path, "/pool/p.jpg");
}

#[test]
fn cache_from_entries_later_wins() {
    let a = Rvuid::from_bytes(b"aaa");
    let b = Rvuid::from_bytes(b"bbb");
    let c = Rvuid::from_bytes(b"ccc");
    let entries = vec![
        ("/k1".to_string(), CachedHash { rvuid: a.clone(), path: "k1".to_string() }),
        ("/k2".to_string(), CachedHash { rvuid: b, path: "k2".to_string() }),
        ("/k1".to_string(), CachedHash { rvuid: c.clone(), path: "k1-bis".to_string() }),
    ];
    let cache = CacheMap::from_entries(entries);
    assert_eq!(cache.len(), 2);
    assert_eq!(cache.get(&"/k1".to_string()).unwrap().rvuid, c);
    assert_ne!(cache.get(&"/k1".to_string()).unwrap().rvuid, a);
    assert_eq!(cache.entries().len(), 2);
}
