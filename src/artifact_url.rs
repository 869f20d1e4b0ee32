//! Derives the download URL of a release artifact from its key.
use vstd::prelude::*;
use vstd::string::*;
use crate::error::ManifestError;
use crate::model::{Arch, Engine, OperatingSystem, Version};

verus! {

#[verifier::external_type_specification]
#[verifier::external_body]
pub struct ExUrlParseError(::url::ParseError);

/// Whether the URL library accepts `s` as an absolute URL.
pub uninterp spec fn url_accepts(s: Seq<char>) -> bool;

/// Relies on url::Url::parse: it succeeds exactly when the text is a valid URL.
#[verifier::external_body]
fn parse_url(s: &str) -> (r: Result<(), ::url::ParseError>)
    ensures
        r is Ok == url_accepts(s@),
{
    ::url::Url::parse(s).map(|_| ())
}

/// The spelling of an architecture in an engine's artifact names.
pub open spec fn arch_label(arch: Arch, engine: Engine) -> Seq<char> {
    match (arch, engine) {
        (Arch::X86_64, Engine::OpenSearch) => "x64"@,
        (Arch::Aarch64, Engine::OpenSearch) => "arm64"@,
        (Arch::X86_64, _) => "x86_64"@,
        (Arch::Aarch64, _) => "aarch64"@,
    }
}

/// The spelling of an operating system in an engine's artifact names.
pub open spec fn os_label(os: OperatingSystem, engine: Engine) -> Seq<char> {
    match (os, engine) {
        (OperatingSystem::Linux, Engine::Quickwit) => "unknown-linux-gnu"@,
        (OperatingSystem::Darwin, Engine::Quickwit) => "apple-darwin"@,
        (OperatingSystem::Linux, _) => "linux"@,
        (OperatingSystem::Darwin, _) => "darwin"@,
    }
}

impl Arch {
    /// The spelling of this architecture in `engine`'s artifact names.
    pub fn format(&self, engine: Engine) -> (r: String)
        ensures
            r@ == arch_label(*self, engine),
    {
        let s = match (self, engine) {
            (Arch::X86_64, Engine::Elasticsearch) => "x86_64",
            (Arch::X86_64, Engine::OpenSearch) => "x64",
            (Arch::X86_64, Engine::Quickwit) => "x86_64",
            (Arch::Aarch64, Engine::Elasticsearch) => "aarch64",
            (Arch::Aarch64, Engine::OpenSearch) => "arm64",
            (Arch::Aarch64, Engine::Quickwit) => "aarch64",
        };
        String::from_str(s)
    }
}

impl OperatingSystem {
    /// The spelling of this operating system in `engine`'s artifact names.
    pub fn format(&self, engine: Engine) -> (r: String)
        ensures
            r@ == os_label(*self, engine),
    {
        let s = match (self, engine) {
            (OperatingSystem::Linux, Engine::Elasticsearch) => "linux",
            (OperatingSystem::Linux, Engine::OpenSearch) => "linux",
            (OperatingSystem::Linux, Engine::Quickwit) => "unknown-linux-gnu",
            (OperatingSystem::Darwin, Engine::Elasticsearch) => "darwin",
            (OperatingSystem::Darwin, Engine::OpenSearch) => "darwin",
            (OperatingSystem::Darwin, Engine::Quickwit) => "apple-darwin",
        };
        String::from_str(s)
    }
}

/// OpenSearch publishes one Linux archive per architecture.
pub open spec fn opensearch_url(t: Seq<char>, arch: Arch) -> Seq<char> {
    "https://artifacts.opensearch.org/releases/core/opensearch/"@ + t + "/opensearch-min-"@ + t
        + "-linux-"@ + arch_label(arch, Engine::OpenSearch) + ".tar.gz"@
}

/// Elasticsearch changed its download layout several times across major versions.
pub open spec fn elasticsearch_url(
    major: u64,
    t: Seq<char>,
    arch: Arch,
    os: OperatingSystem,
) -> Seq<char> {
    if major <= 1 {
        "https://download.elastic.co/elasticsearch/elasticsearch/elasticsearch-"@ + t + ".tar.gz"@
    } else if major <= 4 {
        "https://download.elastic.co/elasticsearch/release/org/elasticsearch/distribution/tar/elasticsearch/"@
            + t + "/elasticsearch-"@ + t + ".tar.gz"@
    } else if major <= 6 {
        "https://artifacts.elastic.co/downloads/elasticsearch/elasticsearch-"@ + t + ".tar.gz"@
    } else if major == 7 {
        "https://artifacts.elastic.co/downloads/elasticsearch/elasticsearch-"@ + t + "-"@
            + os.spec_name() + "-x86_64.tar.gz"@
    } else {
        "https://artifacts.elastic.co/downloads/elasticsearch/elasticsearch-"@ + t + "-"@
            + os.spec_name() + "-"@ + arch_label(arch, Engine::Elasticsearch) + ".tar.gz"@
    }
}

/// Quickwit publishes one archive per target triple.
pub open spec fn quickwit_url(t: Seq<char>, arch: Arch, os: OperatingSystem) -> Seq<char> {
    "https://github.com/quickwit-oss/quickwit/releases/download/v"@ + t + "/quickwit-v"@ + t + "-"@
        + arch_label(arch, Engine::Quickwit) + "-"@ + os_label(os, Engine::Quickwit) + ".tar.gz"@
}

/// The download URL of the artifact of `engine` for a version with major number
/// `major` and canonical text `t`, for `arch` and `os`.
pub open spec fn url_for(
    engine: Engine,
    major: u64,
    t: Seq<char>,
    arch: Arch,
    os: OperatingSystem,
) -> Seq<char> {
    match engine {
        Engine::Elasticsearch => elasticsearch_url(major, t, arch, os),
        Engine::OpenSearch => opensearch_url(t, arch),
        Engine::Quickwit => quickwit_url(t, arch, os),
    }
}

/// The download URL of the artifact of `engine` at `version` for `arch` and `os`.
pub open spec fn artifact_url(
    engine: Engine,
    version: Version,
    arch: Arch,
    os: OperatingSystem,
) -> Seq<char> {
    url_for(engine, version.major, version.spec_text(), arch, os)
}

/// Whether the derived URL of `engine` at `version` depends on the architecture.
pub open spec fn scheme_varies_by_arch(engine: Engine, version: Version) -> bool {
    match engine {
        Engine::Elasticsearch => version.major >= 8,
        Engine::OpenSearch => true,
        Engine::Quickwit => true,
    }
}

/// Whether the derived URL of `engine` at `version` depends on the operating system.
pub open spec fn scheme_varies_by_os(engine: Engine, version: Version) -> bool {
    match engine {
        Engine::Elasticsearch => version.major >= 7,
        Engine::OpenSearch => false,
        Engine::Quickwit => true,
    }
}

/// What `get_url` returns for a URL text `u`: the text itself when it is a valid URL.
pub open spec fn checked_url(r: Result<String, ManifestError>, u: Seq<char>) -> bool {
    match r {
        Ok(s) => url_accepts(u) && s@ == u,
        Err(e) => !url_accepts(u) && e is ParseUrl,
    }
}

fn checked(u: String) -> (r: Result<String, ManifestError>)
    ensures
        checked_url(r, u@),
{
    match parse_url(u.as_str()) {
        Ok(()) => Ok(u),
        Err(_) => Err(ManifestError::ParseUrl),
    }
}

fn get_opensearch_url(version: &Version, arch: &Arch, _system: &OperatingSystem) -> (r: Result<
    String,
    ManifestError,
>)
    ensures
        checked_url(r, opensearch_url(version.spec_text(), *arch)),
{
    let arch = arch.format(Engine::OpenSearch);
    let t = version.text();
    let mut u = String::from_str("https://artifacts.opensearch.org/releases/core/opensearch/");
    u.append(t.as_str());
    u.append("/opensearch-min-");
    u.append(t.as_str());
    u.append("-linux-");
    u.append(arch.as_str());
    u.append(".tar.gz");
    checked(u)
}

fn get_elasticsearch_url(version: &Version, arch: &Arch, system: &OperatingSystem) -> (r: Result<
    String,
    ManifestError,
>)
    ensures
        checked_url(r, elasticsearch_url(version.major, version.spec_text(), *arch, *system)),
{
    let arch = arch.format(Engine::Elasticsearch);
    let system = system.name();
    let t = version.text();
    let mut u;
    if version.major <= 1 {
        u = String::from_str("https://download.elastic.co/elasticsearch/elasticsearch/elasticsearch-");
        u.append(t.as_str());
        u.append(".tar.gz");
    } else if version.major <= 4 {
        u = String::from_str(
            "https://download.elastic.co/elasticsearch/release/org/elasticsearch/distribution/tar/elasticsearch/",
        );
        u.append(t.as_str());
        u.append("/elasticsearch-");
        u.append(t.as_str());
        u.append(".tar.gz");
    } else if version.major <= 6 {
        u = String::from_str("https://artifacts.elastic.co/downloads/elasticsearch/elasticsearch-");
        u.append(t.as_str());
        u.append(".tar.gz");
    } else if version.major == 7 {
        u = String::from_str("https://artifacts.elastic.co/downloads/elasticsearch/elasticsearch-");
        u.append(t.as_str());
        u.append("-");
        u.append(system);
        u.append("-x86_64.tar.gz");
    } else {
        u = String::from_str("https://artifacts.elastic.co/downloads/elasticsearch/elasticsearch-");
        u.append(t.as_str());
        u.append("-");
        u.append(system);
        u.append("-");
        u.append(arch.as_str());
        u.append(".tar.gz");
    }
    checked(u)
}

fn get_quickwit_url(version: &Version, arch: &Arch, system: &OperatingSystem) -> (r: Result<
    String,
    ManifestError,
>)
    ensures
        checked_url(r, quickwit_url(version.spec_text(), *arch, *system)),
{
    let arch = arch.format(Engine::Quickwit);
    let system = system.format(Engine::Quickwit);
    let t = version.text();
    let mut u = String::from_str("https://github.com/quickwit-oss/quickwit/releases/download/v");
    u.append(t.as_str());
    u.append("/quickwit-v");
    u.append(t.as_str());
    u.append("-");
    u.append(arch.as_str());
    u.append("-");
    u.append(system.as_str());
    u.append(".tar.gz");
    checked(u)
}

/// Derives the download URL of the artifact of `engine` at `version` for
/// `arch` and `system`. Fails only where the URL library rejects the text.
pub fn get_url(engine: &Engine, version: &Version, arch: &Arch, system: &OperatingSystem) -> (r:
    Result<String, ManifestError>)
    ensures
        checked_url(r, artifact_url(*engine, *version, *arch, *system)),
{
    match engine {
        Engine::Elasticsearch => get_elasticsearch_url(version, arch, system),
        Engine::OpenSearch => get_opensearch_url(version, arch, system),
        Engine::Quickwit => get_quickwit_url(version, arch, system),
    }
}

/// URL derivation depends only on the key's values: two versions with the same
/// parts give the same URL for every engine, architecture and operating system.
pub proof fn lemma_url_deterministic(
    engine: Engine,
    v1: Version,
    v2: Version,
    arch: Arch,
    os: OperatingSystem,
)
    requires
        v1@ == v2@,
    ensures
        artifact_url(engine, v1, arch, os) == artifact_url(engine, v2, arch, os),
{
}

proof fn lemma_labels()
    ensures
        "x64"@ =~= seq!['x', '6', '4'],
        "arm64"@ =~= seq!['a', 'r', 'm', '6', '4'],
        "x86_64"@ =~= seq!['x', '8', '6', '_', '6', '4'],
        "aarch64"@ =~= seq!['a', 'a', 'r', 'c', 'h', '6', '4'],
        "linux"@ =~= seq!['l', 'i', 'n', 'u', 'x'],
        "darwin"@ =~= seq!['d', 'a', 'r', 'w', 'i', 'n'],
        "unknown-linux-gnu"@.len() == 17,
        "unknown-linux-gnu"@[0] == 'u',
        "apple-darwin"@.len() == 12,
        "apple-darwin"@[0] == 'a',
        "-"@ =~= seq!['-'],
{
    reveal_strlit("x64");
    reveal_strlit("arm64");
    reveal_strlit("x86_64");
    reveal_strlit("aarch64");
    reveal_strlit("linux");
    reveal_strlit("darwin");
    reveal_strlit("unknown-linux-gnu");
    reveal_strlit("apple-darwin");
    reveal_strlit("-");
}

/// Where a URL scheme varies by architecture or operating system, keys of one
/// engine and version that differ on such an axis get distinct URLs.
pub proof fn lemma_url_distinguishes_variants(
    engine: Engine,
    version: Version,
    a1: Arch,
    o1: OperatingSystem,
    a2: Arch,
    o2: OperatingSystem,
)
    requires
        (scheme_varies_by_arch(engine, version) && a1 != a2) || (scheme_varies_by_os(
            engine,
            version,
        ) && o1 != o2),
    ensures
        artifact_url(engine, version, a1, o1) != artifact_url(engine, version, a2, o2),
{
    lemma_labels();
    let t = version.spec_text();
    let u1 = artifact_url(engine, version, a1, o1);
    let u2 = artifact_url(engine, version, a2, o2);
    match engine {
        Engine::OpenSearch => {
            let p = "https://artifacts.opensearch.org/releases/core/opensearch/"@ + t
                + "/opensearch-min-"@ + t + "-linux-"@;
            let k = p.len() as int;
            assert(u1[k] != u2[k]);
        },
        Engine::Quickwit => {
            let p = "https://github.com/quickwit-oss/quickwit/releases/download/v"@ + t
                + "/quickwit-v"@ + t + "-"@;
            if a1 != a2 {
                let k = p.len() as int;
                assert(u1[k] != u2[k]);
            } else {
                let k = (p.len() + arch_label(a1, engine).len() + 1) as int;
                assert(u1[k] != u2[k]);
            }
        },
        Engine::Elasticsearch => {
            let p = "https://artifacts.elastic.co/downloads/elasticsearch/elasticsearch-"@ + t
                + "-"@;
            if o1 != o2 {
                let k = p.len() as int;
                assert(u1[k] != u2[k]);
            } else {
                let k = (p.len() + o1.spec_name().len() + 1) as int;
                assert(u1[k] != u2[k]);
            }
        },
    }
}

/// Keys of one engine and version that differ only on axes that the engine's
/// URL scheme ignores share one URL, and so one download.
pub proof fn lemma_url_shared_across_ignored_axes(
    engine: Engine,
    version: Version,
    a1: Arch,
    o1: OperatingSystem,
    a2: Arch,
    o2: OperatingSystem,
)
    requires
        scheme_varies_by_arch(engine, version) ==> a1 == a2,
        scheme_varies_by_os(engine, version) ==> o1 == o2,
    ensures
        artifact_url(engine, version, a1, o1) == artifact_url(engine, version, a2, o2),
{
    let t = version.spec_text();
    if engine == Engine::Elasticsearch && version.major < 7 {
        assert(elasticsearch_url(version.major, t, a1, o1) == elasticsearch_url(
            version.major,
            t,
            a2,
            o2,
        ));
    }
}

} // verus!
