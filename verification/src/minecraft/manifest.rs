//! The index of the versions that exist, and the search for one of them.

use vstd::prelude::*;

verus! {

/// The index of versions.
#[derive(Debug, Clone, PartialEq, Eq)]
pub struct VersionManifest {
    pub latest: LatestVersions,
    pub versions: Vec<IndexedVersion>,
}

/// The newest version of each channel.
#[derive(Debug, Clone, PartialEq, Eq)]
pub struct LatestVersions {
    pub release: String,
    pub snapshot: String,
}

/// One version of the index, with the url of its description.
#[derive(Debug, Clone, PartialEq, Eq)]
pub struct IndexedVersion {
    pub id: String,
    pub channel: Option<VersionChannel>,
    pub url: String,
}

/// The channel on which a version was published.
#[derive(Debug, Clone, Copy, PartialEq, Eq, Structural)]
pub enum VersionChannel {
    Release,
    Snapshot,
    Unknown,
}

/// Version `i` has the id, and no version before it has.
pub open spec fn is_first_with_id(versions: Seq<IndexedVersion>, id: Seq<char>, i: int) -> bool {
    &&& 0 <= i < versions.len()
    &&& versions[i].id@ == id
    &&& forall|j: int| 0 <= j < i ==> (#[trigger] versions[j]).id@ != id
}

/// Finds the version with the given id: the first one, should several have
/// it; none where no version has it.
pub fn get_version_info<'a>(manifest: &'a VersionManifest, version_id: &str) -> (found: Option<
    &'a IndexedVersion,
>)
    ensures
        match found {
            Some(version) => exists|i: int|
                is_first_with_id(manifest.versions@, version_id@, i) && *version
                    == manifest.versions@[i],
            None => forall|i: int|
                0 <= i < manifest.versions@.len() ==> (#[trigger] manifest.versions@[i]).id@
                    != version_id@,
        },
{
    let wanted = String::from_str(version_id);
    let mut i: usize = 0;
    while i < manifest.versions.len()
        invariant
            i <= manifest.versions.len(),
            wanted@ == version_id@,
            forall|j: int| 0 <= j < i ==> (#[trigger] manifest.versions@[j]).id@ != version_id@,
        decreases manifest.versions.len() - i,
    {
        if manifest.versions[i].id == wanted {
            assert(is_first_with_id(manifest.versions@, version_id@, i as int));
            return Some(&manifest.versions[i]);
        }
        i += 1;
    }
    None
}

} // verus!
