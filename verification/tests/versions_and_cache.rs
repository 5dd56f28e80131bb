//! Version text, ordering and listing; cache single flight.

use verification::version::{CompilerVersion, parse_version, sort_versions_descending};
use verification::catalog::{VersionCatalog, DownloadDescriptor};
use verification::cache::{CompilerCache, CacheAction, FetchOutcome};

fn version(major: u32, minor: u32, patch: u32, commit: &str) -> CompilerVersion {
    CompilerVersion { major, minor, patch, commit: commit.to_string() }
}

fn descriptor(url: &str) -> DownloadDescriptor {
    DownloadDescriptor { url: url.to_string(), checksum: vec![0x01] }
}

#[test]
fn version_text_round_trip() {
    let v = version(0, 8, 17, "8df45f5f");
    let text = v.to_version_string();
    assert_eq!(text, "v0.8.17+commit.8df45f5f");
    let back = parse_version(&text).unwrap();
    assert_eq!((back.major, back.minor, back.patch), (0, 8, 17));
    assert_eq!(back.commit, "8df45f5f");

    let bare = version(1, 2, 3, "");
    assert_eq!(bare.to_version_string(), "v1.2.3");
    let back = parse_version("1.2.3").unwrap();
    assert_eq!((back.major, back.minor, back.patch), (1, 2, 3));
    assert_eq!(back.commit, "");
}

#[test]
fn malformed_versions_are_rejected() {
    assert!(parse_version("").is_none());
    assert!(parse_version("v0.8").is_none());
    assert!(parse_version("0.8.x").is_none());
    assert!(parse_version("0.8.17+commit.").is_none());
    assert!(parse_version("0.8.17+somethingelse").is_none());
    assert!(parse_version("00.8.17").is_none());
}

#[test]
fn versions_sort_descending_with_ties_adjacent() {
    let input = vec![
        version(0, 8, 7, "aa"),
        version(0, 8, 17, "bb"),
        version(0, 4, 26, ""),
        version(0, 8, 7, "aa"),
        version(1, 0, 0, ""),
    ];
    let sorted = sort_versions_descending(input);
    let texts: Vec<String> = sorted.iter().map(|v| v.to_version_string()).collect();
    assert_eq!(
        texts,
        vec![
            "v1.0.0".to_string(),
            "v0.8.17+commit.bb".to_string(),
            "v0.8.7+commit.aa".to_string(),
            "v0.8.7+commit.aa".to_string(),
            "v0.4.26".to_string(),
        ]
    );
}

#[test]
fn catalog_lists_versions_descending_and_resolves() {
    let catalog = VersionCatalog::new(vec![
        (version(0, 8, 7, "aa"), descriptor("u1")),
        (version(1, 0, 0, ""), descriptor("u2")),
        (version(0, 8, 17, "bb"), descriptor("u3")),
    ]);
    assert_eq!(
        catalog.list_versions(),
        vec![
            "v1.0.0".to_string(),
            "v0.8.17+commit.bb".to_string(),
            "v0.8.7+commit.aa".to_string(),
        ]
    );
    let i = catalog.resolve("v0.8.17+commit.bb").unwrap();
    assert_eq!(catalog.version_at(i).to_version_string(), "v0.8.17+commit.bb");
    assert_eq!(catalog.descriptor_at(i).url, "u3");
    // The leading `v` is an accepted alias.
    assert_eq!(catalog.resolve("0.8.17+commit.bb"), Some(i));
    assert_eq!(catalog.resolve("v9.9.9"), None);
    assert_eq!(catalog.resolve("not-a-version"), None);
}

#[test]
fn single_flight_per_version() {
    let mut cache = CompilerCache::new(2);

    // First request for an uncached version starts the one download.
    assert!(matches!(cache.request(0), CacheAction::StartDownload));
    // Every further request while it is in flight waits; none downloads.
    assert!(matches!(cache.request(0), CacheAction::AwaitInFlight));
    assert!(matches!(cache.request(0), CacheAction::AwaitInFlight));
    // Another version is independent.
    assert!(matches!(cache.request(1), CacheAction::StartDownload));

    // The single download completes; every waiter gets the same path.
    cache.complete(0, FetchOutcome::Fetched("/cache/v0".to_string()));
    for _ in 0..3 {
        match cache.request(0) {
            CacheAction::UseCached(p) => assert_eq!(p, "/cache/v0"),
            other => panic!("expected a cached path, got {:?}", other),
        }
    }
}

#[test]
fn fetch_failure_is_not_cached() {
    let mut cache = CompilerCache::new(1);
    assert!(matches!(cache.request(0), CacheAction::StartDownload));
    cache.complete(0, FetchOutcome::FetchError("checksum mismatch".to_string()));
    // The slot is free again: a retry may succeed.
    assert!(matches!(cache.request(0), CacheAction::StartDownload));
    cache.complete(0, FetchOutcome::Fetched("/cache/v0".to_string()));
    assert!(matches!(cache.request(0), CacheAction::UseCached(_)));
}
