use mc_launcher::minecraft::manifest::{
    get_version_info, IndexedVersion, LatestVersions, VersionChannel, VersionManifest,
};

fn version(id: &str, channel: Option<VersionChannel>, url: &str) -> IndexedVersion {
    IndexedVersion { id: id.to_string(), channel, url: url.to_string() }
}

fn manifest(versions: Vec<IndexedVersion>) -> VersionManifest {
    VersionManifest {
        latest: LatestVersions { release: "1.21".to_string(), snapshot: "24w14a".to_string() },
        versions,
    }
}

#[test]
fn finds_the_version_with_the_id() {
    let index = manifest(vec![
        version("1.21", Some(VersionChannel::Release), "https://example/1.21.json"),
        version("24w14a", Some(VersionChannel::Snapshot), "https://example/24w14a.json"),
        version("b1.7", None, "https://example/b1.7.json"),
    ]);
    let found = get_version_info(&index, "24w14a");
    assert_eq!(found, Some(&index.versions[1]));
    assert_eq!(found.map(|v| v.url.as_str()), Some("https://example/24w14a.json"));
    assert_eq!(get_version_info(&index, "b1.7"), Some(&index.versions[2]));
    assert_eq!(get_version_info(&index, "1.21"), Some(&index.versions[0]));
}

#[test]
fn finds_nothing_for_an_unknown_id() {
    let index = manifest(vec![version("1.21", Some(VersionChannel::Release), "u")]);
    assert_eq!(get_version_info(&index, "1.2"), None);
    assert_eq!(get_version_info(&index, "1.21.1"), None);
    assert_eq!(get_version_info(&index, ""), None);
    assert_eq!(get_version_info(&manifest(Vec::new()), "1.21"), None);
}

#[test]
fn finds_the_first_of_several_with_the_same_id() {
    let index = manifest(vec![
        version("a", None, "first"),
        version("b", Some(VersionChannel::Unknown), "other"),
        version("a", None, "second"),
    ]);
    let found = get_version_info(&index, "a").unwrap();
    assert_eq!(found.url, "first");
}

#[test]
fn ids_are_compared_exactly() {
    let index = manifest(vec![version("Release", None, "u")]);
    assert_eq!(get_version_info(&index, "release"), None);
    assert_eq!(get_version_info(&index, "Release "), None);
    assert!(get_version_info(&index, "Release").is_some());
}
