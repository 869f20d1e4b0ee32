//! The manifest: each artifact key mapped to the URL and content hash of its artifact.
use vstd::prelude::*;
use vstd::string::*;
use crate::model::{Arch, Engine, OperatingSystem, Version};

verus! {

/// The identity of one artifact variant.
#[derive(Debug)]
pub struct ManifestKey {
    pub engine: Engine,
    pub version: Version,
    pub arch: Arch,
    pub os: OperatingSystem,
}

/// The value of a key: `(engine, version parts, architecture, operating system)`.
pub type KeyView = (Engine, (u64, u64, u64, Seq<char>, Seq<char>), Arch, OperatingSystem);

/// Where an artifact is downloaded from, and the content hash of its bytes.
#[derive(Debug)]
pub struct Details {
    pub url: String,
    pub hash: String,
}

/// The value of details: `(url, hash)`.
pub type DetailsView = (Seq<char>, Seq<char>);

impl View for ManifestKey {
    type V = KeyView;

    open spec fn view(&self) -> KeyView {
        (self.engine, self.version@, self.arch, self.os)
    }
}

impl View for Details {
    type V = DetailsView;

    open spec fn view(&self) -> DetailsView {
        (self.url@, self.hash@)
    }
}

impl Version {
    /// A copy of this version.
    pub fn duplicate(&self) -> (r: Version)
        ensures
            r@ == self@,
    {
        Version {
            major: self.major,
            minor: self.minor,
            patch: self.patch,
            pre: self.pre.clone(),
            build: self.build.clone(),
        }
    }
}

impl ManifestKey {
    pub fn new(engine: Engine, version: Version, arch: Arch, os: OperatingSystem) -> (r:
        ManifestKey)
        ensures
            r@ == (engine, version@, arch, os),
    {
        ManifestKey { engine, version, arch, os }
    }

    /// Whether two keys name the same artifact variant.
    pub fn same(&self, other: &ManifestKey) -> (r: bool)
        ensures
            r == (self@ == other@),
    {
        self.engine == other.engine && self.arch == other.arch && self.os == other.os
            && self.version.same(&other.version)
    }

    /// A copy of this key.
    pub fn duplicate(&self) -> (r: ManifestKey)
        ensures
            r@ == self@,
    {
        ManifestKey {
            engine: self.engine,
            version: self.version.duplicate(),
            arch: self.arch,
            os: self.os,
        }
    }
}

impl Details {
    pub fn new(url: String, hash: String) -> (r: Details)
        ensures
            r@ == (url@, hash@),
    {
        Details { url, hash }
    }

    /// A copy of these details.
    pub fn duplicate(&self) -> (r: Details)
        ensures
            r@ == self@,
    {
        Details { url: self.url.clone(), hash: self.hash.clone() }
    }
}

/// The manifest, held as one flat list of distinct keys with their details.
pub struct Manifest {
    entries: Vec<(ManifestKey, Details)>,
    model: Ghost<Map<KeyView, DetailsView>>,
}

impl View for Manifest {
    type V = Map<KeyView, DetailsView>;

    closed spec fn view(&self) -> Map<KeyView, DetailsView> {
        self.model@
    }
}

impl Manifest {
    /// The list holds each key once, and exactly the keys of the map, each with its details.
    pub closed spec fn wf(&self) -> bool {
        &&& self.model@.dom().finite()
        &&& self.model@.len() == self.entries@.len()
        &&& forall|i: int|
            0 <= i < self.entries@.len() ==> #[trigger] self.model@.contains_key(
                self.entries@[i].0@,
            ) && self.model@[self.entries@[i].0@] == self.entries@[i].1@
        &&& forall|i: int, j: int|
            0 <= i < j < self.entries@.len() ==> #[trigger] self.entries@[i].0@
                != #[trigger] self.entries@[j].0@
        &&& forall|k: KeyView| #[trigger]
            self.model@.contains_key(k) ==> exists|i: int|
                0 <= i < self.entries@.len() && #[trigger] self.entries@[i].0@ == k
    }

    /// The keys in the order of the list.
    pub closed spec fn key_list(&self) -> Seq<KeyView> {
        self.entries@.map_values(|e: (ManifestKey, Details)| e.0@)
    }

    /// The key list holds each key of the manifest once.
    pub proof fn lemma_key_list(&self)
        requires
            self.wf(),
        ensures
            self.key_list().len() == self@.len(),
            self.key_list().no_duplicates(),
            forall|i: int|
                0 <= i < self.key_list().len() ==> #[trigger] self@.contains_key(
                    self.key_list()[i],
                ),
            forall|k: KeyView| #[trigger] self@.contains_key(k) ==> self.key_list().contains(k),
    {
        assert forall|i: int| 0 <= i < self.key_list().len() implies #[trigger] self@.contains_key(
            self.key_list()[i],
        ) by {
            assert(self.model@.contains_key(self.entries@[i].0@));
        }
        assert forall|k: KeyView| #[trigger] self@.contains_key(k) implies self.key_list().contains(
            k,
        ) by {
            let i = choose|i: int| 0 <= i < self.entries@.len() && #[trigger] self.entries@[i].0@ == k;
            assert(self.key_list()[i] == k);
        }
    }

    /// An empty manifest.
    pub fn new() -> (r: Manifest)
        ensures
            r.wf(),
            r@ == Map::<KeyView, DetailsView>::empty(),
    {
        Manifest { entries: Vec::new(), model: Ghost(Map::empty()) }
    }

    /// The number of keys.
    pub fn len(&self) -> (r: usize)
        requires
            self.wf(),
        ensures
            r == self@.len(),
    {
        self.entries.len()
    }

    /// The `i`-th entry of the list, with its details.
    pub fn entry(&self, i: usize) -> (r: (&ManifestKey, &Details))
        requires
            self.wf(),
            i < self@.len(),
        ensures
            self@.contains_key(r.0@),
            self@[r.0@] == r.1@,
            r.0@ == self.key_list()[i as int],
    {
        let e = &self.entries[i];
        assert(self.model@.contains_key(self.entries@[i as int].0@));
        (&e.0, &e.1)
    }

    fn position(&self, key: &ManifestKey) -> (r: Option<usize>)
        requires
            self.wf(),
        ensures
            r matches Some(i) ==> i < self.entries@.len() && self.entries@[i as int].0@ == key@,
            r is None ==> !self@.contains_key(key@),
    {
        let mut i: usize = 0;
        while i < self.entries.len()
            invariant
                self.wf(),
                i <= self.entries@.len(),
                forall|j: int| 0 <= j < i ==> self.entries@[j].0@ != key@,
            decreases self.entries@.len() - i,
        {
            if self.entries[i].0.same(key) {
                return Some(i);
            }
            i = i + 1;
        }
        None
    }

    /// Whether the manifest has an entry for `key`.
    pub fn contains(&self, key: &ManifestKey) -> (r: bool)
        requires
            self.wf(),
        ensures
            r == self@.contains_key(key@),
    {
        self.position(key).is_some()
    }

    /// The details recorded for `key`, if any.
    pub fn get(&self, key: &ManifestKey) -> (r: Option<&Details>)
        requires
            self.wf(),
        ensures
            r matches Some(d) ==> self@.contains_key(key@) && self@[key@] == d@,
            r is None ==> !self@.contains_key(key@),
    {
        match self.position(key) {
            Some(i) => {
                assert(self.model@.contains_key(self.entries@[i as int].0@));
                Some(&self.entries[i].1)
            },
            None => None,
        }
    }

    /// Records `details` for `key` unless the key already has an entry, which is
    /// never overwritten. Returns whether an entry was added.
    pub fn apply(&mut self, key: ManifestKey, details: Details) -> (r: bool)
        requires
            old(self).wf(),
        ensures
            final(self).wf(),
            r == !old(self)@.contains_key(key@),
            final(self)@ == if r {
                old(self)@.insert(key@, details@)
            } else {
                old(self)@
            },
    {
        if self.contains(&key) {
            return false;
        }
        let ghost k = key@;
        let ghost d = details@;
        let ghost old_entries = self.entries@;
        self.model = Ghost(self.model@.insert(k, d));
        self.entries.push((key, details));
        proof {
            assert(self.entries@.len() == old_entries.len() + 1);
            assert forall|i: int| 0 <= i < old_entries.len() implies self.entries@[i] == old_entries[i] by {}
            assert forall|kk: KeyView| #[trigger] self.model@.contains_key(kk) implies exists|i: int|
                0 <= i < self.entries@.len() && #[trigger] self.entries@[i].0@ == kk by {
                if kk == k {
                    assert(self.entries@[old_entries.len() as int].0@ == kk);
                } else {
                    let i = choose|i: int| 0 <= i < old_entries.len() && #[trigger] old_entries[i].0@ == kk;
                    assert(self.entries@[i].0@ == kk);
                }
            }
        }
        true
    }
}

} // verus!
