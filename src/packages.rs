//! Names of the final package list: the manifest re-indexed by system and package.
use vstd::prelude::*;
use vstd::string::*;
use crate::extract::{replace_all, replace_all_exec};
use crate::manifest::{Details, Manifest, ManifestKey};
use crate::manifest::{DetailsView, KeyView};
use crate::model::{version_text, Arch, Engine, OperatingSystem, Version};
use crate::schedule::VersionView;

verus! {

/// The system string of an architecture and operating system: `arch-os`.
pub open spec fn system_text(arch: Arch, os: OperatingSystem) -> Seq<char> {
    arch.spec_name() + "-"@ + os.spec_name()
}

/// The package name of an engine at a version: `engine_version`, with each `.`
/// of the version written `_`.
pub open spec fn package_text(engine: Engine, version: Version) -> Seq<char> {
    engine.spec_name() + "_"@ + replace_all(version.spec_text(), "."@, "_"@)
}

/// The system string of `arch` and `os`, e.g. `x86_64-linux`.
pub fn system_name(arch: Arch, os: OperatingSystem) -> (r: String)
    ensures
        r@ == system_text(arch, os),
{
    let mut r = String::from_str(arch.name());
    r.append("-");
    r.append(os.name());
    r
}

/// The package name of `engine` at `version`, e.g. `elasticsearch_8_1_0`.
pub fn package_name(engine: Engine, version: &Version) -> (r: String)
    ensures
        r@ == package_text(engine, *version),
{
    let t = version.text();
    let mut r = String::from_str(engine.name());
    r.append("_");
    let v = replace_all_exec(t.as_str(), ".", "_");
    r.append(v.as_str());
    r
}

/// One package of the final list.
#[derive(Debug)]
pub struct Package {
    pub system: String,
    pub name: String,
    pub engine: Engine,
    pub version: Version,
    pub url: String,
    pub hash: String,
}

/// The value of a package: `(system, name, engine, version, url, hash)`.
pub type PackageView = (Seq<char>, Seq<char>, Engine, VersionView, Seq<char>, Seq<char>);

impl View for Package {
    type V = PackageView;

    open spec fn view(&self) -> PackageView {
        (self.system@, self.name@, self.engine, self.version@, self.url@, self.hash@)
    }
}

/// The package form of the manifest entry `k`, `d`.
pub open spec fn package_of(k: KeyView, d: DetailsView) -> PackageView {
    let v = k.1;
    (
        system_text(k.2, k.3),
        k.0.spec_name() + "_"@ + replace_all(version_text(v.0, v.1, v.2, v.3, v.4), "."@, "_"@),
        k.0,
        v,
        d.0,
        d.1,
    )
}

/// The package of a manifest entry.
pub fn package_from(key: &ManifestKey, details: &Details) -> (r: Package)
    ensures
        r@ == package_of(key@, details@),
{
    Package {
        system: system_name(key.arch, key.os),
        name: package_name(key.engine, &key.version),
        engine: key.engine,
        version: key.version.duplicate(),
        url: details.url.clone(),
        hash: details.hash.clone(),
    }
}

/// The final package list: the package of each entry of the manifest, in the
/// order of its key list.
pub fn package_list(manifest: &Manifest) -> (r: Vec<Package>)
    requires
        manifest.wf(),
    ensures
        r@.len() == manifest@.len(),
        forall|i: int|
            0 <= i < r@.len() ==> #[trigger] r@[i]@ == package_of(
                manifest.key_list()[i],
                manifest@[manifest.key_list()[i]],
            ),
{
    let mut r: Vec<Package> = Vec::new();
    let mut i: usize = 0;
    let n = manifest.len();
    while i < n
        invariant
            manifest.wf(),
            n == manifest@.len(),
            i <= n,
            r@.len() == i,
            forall|j: int|
                0 <= j < r@.len() ==> #[trigger] r@[j]@ == package_of(
                    manifest.key_list()[j],
                    manifest@[manifest.key_list()[j]],
                ),
        decreases n - i,
    {
        let (key, d) = manifest.entry(i);
        let p = package_from(key, d);
        r.push(p);
        i = i + 1;
    }
    r
}

} // verus!
