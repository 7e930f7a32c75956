//! Names of the manifest store: under which file a manifest of a product's
//! build is kept.

use vstd::prelude::*;

verus! {

/// What a stored manifest holds.
#[derive(Clone, Copy, Debug, PartialEq, Eq, Structural)]
pub enum ManifestKind {
    /// The file manifest of a build.
    Manifest,
    /// The chunk manifest of a build.
    Chunks,
    /// The file manifest of the change from one build to another.
    Delta,
    /// The chunk manifest of the change from one build to another.
    DeltaChunks,
}

/// The directory below the user's configuration directory that holds all
/// stored manifests.
pub open spec fn store_directory() -> Seq<char> {
    "manifests"@
}

/// The word for a kind of manifest in the name of its file.
pub open spec fn kind_name(kind: ManifestKind) -> Seq<char> {
    match kind {
        ManifestKind::Manifest => "manifest"@,
        ManifestKind::Chunks => "manifest_chunks"@,
        ManifestKind::Delta => "manifest_delta"@,
        ManifestKind::DeltaChunks => "manifest_delta_chunks"@,
    }
}

/// The key of the change from one build to another:
/// `<old_version>_<new_version>`.
pub open spec fn delta_key(old_version: Seq<char>, new_version: Seq<char>) -> Seq<char> {
    old_version + "_"@ + new_version
}

/// The name of the file that holds a manifest: `<build_key>_<kind>.csv`.
pub open spec fn file_name_of(build_key: Seq<char>, kind: ManifestKind) -> Seq<char> {
    build_key + "_"@ + kind_name(kind) + ".csv"@
}

/// Where a manifest is kept, as the components of its path below the
/// user's configuration directory:
/// `manifests/<product_slug>/<build_key>_<kind>.csv`.
pub open spec fn location_of(
    product_slug: Seq<char>,
    build_key: Seq<char>,
    kind: ManifestKind,
) -> Seq<Seq<char>> {
    seq![store_directory(), product_slug, file_name_of(build_key, kind)]
}

/// The word for a kind of manifest in the name of its file.
pub fn kind_word(kind: ManifestKind) -> (r: &'static str)
    ensures
        r@ == kind_name(kind),
{
    match kind {
        ManifestKind::Manifest => "manifest",
        ManifestKind::Chunks => "manifest_chunks",
        ManifestKind::Delta => "manifest_delta",
        ManifestKind::DeltaChunks => "manifest_delta_chunks",
    }
}

/// The key under which the change from one build to another is stored.
pub fn delta_build_key(old_version: &str, new_version: &str) -> (r: String)
    ensures
        r@ == delta_key(old_version@, new_version@),
{
    let mut key = String::from_str(old_version);
    key.append("_");
    key.append(new_version);
    key
}

/// The name of the file that holds a manifest.
pub fn manifest_file_name(build_key: &str, kind: ManifestKind) -> (r: String)
    ensures
        r@ == file_name_of(build_key@, kind),
{
    let mut name = String::from_str(build_key);
    name.append("_");
    name.append(kind_word(kind));
    name.append(".csv");
    name
}

/// Where a manifest is kept, as the components of its path below the
/// user's configuration directory.
pub fn manifest_location(product_slug: &str, build_key: &str, kind: ManifestKind) -> (r: Vec<
    String,
>)
    ensures
        r.deep_view() == location_of(product_slug@, build_key@, kind),
{
    let mut parts: Vec<String> = Vec::new();
    parts.push(String::from_str("manifests"));
    parts.push(String::from_str(product_slug));
    parts.push(manifest_file_name(build_key, kind));
    assert(parts.deep_view() =~= location_of(product_slug@, build_key@, kind));
    parts
}

} // verus!
