use artifact_manifest::artifact_url::get_url;
use artifact_manifest::model::{Arch, Engine, OperatingSystem, Version};

fn url(engine: Engine, version: &str, arch: Arch, os: OperatingSystem) -> String {
    let v = Version::parse(version).unwrap();
    get_url(&engine, &v, &arch, &os).unwrap()
}

#[test]
fn elasticsearch_flat_layout() {
    assert_eq!(
        "https://download.elastic.co/elasticsearch/elasticsearch/elasticsearch-0.90.13.tar.gz",
        url(Engine::Elasticsearch, "0.90.13", Arch::Aarch64, OperatingSystem::Darwin)
    );
}

#[test]
fn elasticsearch_distribution_layout() {
    assert_eq!(
        "https://download.elastic.co/elasticsearch/release/org/elasticsearch/distribution/tar/elasticsearch/2.4.6/elasticsearch-2.4.6.tar.gz",
        url(Engine::Elasticsearch, "2.4.6", Arch::X86_64, OperatingSystem::Linux)
    );
}

#[test]
fn elasticsearch_artifacts_layout() {
    assert_eq!(
        "https://artifacts.elastic.co/downloads/elasticsearch/elasticsearch-6.8.0.tar.gz",
        url(Engine::Elasticsearch, "6.8.0", Arch::X86_64, OperatingSystem::Linux)
    );
}

#[test]
fn elasticsearch_seven_is_x86_only() {
    assert_eq!(
        "https://artifacts.elastic.co/downloads/elasticsearch/elasticsearch-7.17.0-darwin-x86_64.tar.gz",
        url(Engine::Elasticsearch, "7.17.0", Arch::Aarch64, OperatingSystem::Darwin)
    );
}

#[test]
fn elasticsearch_eight_has_arch() {
    assert_eq!(
        "https://artifacts.elastic.co/downloads/elasticsearch/elasticsearch-8.1.0-linux-aarch64.tar.gz",
        url(Engine::Elasticsearch, "8.1.0", Arch::Aarch64, OperatingSystem::Linux)
    );
}

#[test]
fn opensearch_is_linux_only() {
    assert_eq!(
        "https://artifacts.opensearch.org/releases/core/opensearch/2.4.0/opensearch-min-2.4.0-linux-arm64.tar.gz",
        url(Engine::OpenSearch, "2.4.0", Arch::Aarch64, OperatingSystem::Darwin)
    );
    assert_eq!(
        "https://artifacts.opensearch.org/releases/core/opensearch/2.4.0/opensearch-min-2.4.0-linux-x64.tar.gz",
        url(Engine::OpenSearch, "2.4.0", Arch::X86_64, OperatingSystem::Linux)
    );
}

#[test]
fn quickwit_target_triples() {
    assert_eq!(
        "https://github.com/quickwit-oss/quickwit/releases/download/v0.6.1/quickwit-v0.6.1-x86_64-unknown-linux-gnu.tar.gz",
        url(Engine::Quickwit, "0.6.1", Arch::X86_64, OperatingSystem::Linux)
    );
    assert_eq!(
        "https://github.com/quickwit-oss/quickwit/releases/download/v0.6.1/quickwit-v0.6.1-aarch64-apple-darwin.tar.gz",
        url(Engine::Quickwit, "0.6.1", Arch::Aarch64, OperatingSystem::Darwin)
    );
}

#[test]
fn prerelease_version_in_url() {
    assert_eq!(
        "https://artifacts.elastic.co/downloads/elasticsearch/elasticsearch-8.0.0-rc1-linux-x86_64.tar.gz",
        url(Engine::Elasticsearch, "8.0.0-rc1", Arch::X86_64, OperatingSystem::Linux)
    );
}

#[test]
fn url_derivation_is_deterministic() {
    for engine in Engine::all() {
        for arch in Arch::all() {
            for os in OperatingSystem::all() {
                assert_eq!(url(engine, "8.1.0", arch, os), url(engine, "8.1.0", arch, os));
            }
        }
    }
}

#[test]
fn varying_schemes_give_distinct_urls() {
    let mut seen: Vec<String> = Vec::new();
    for arch in Arch::all() {
        for os in OperatingSystem::all() {
            let u = url(Engine::Quickwit, "0.7.0", arch, os);
            assert!(!seen.contains(&u));
            seen.push(u);
        }
    }
    assert_ne!(
        url(Engine::Elasticsearch, "7.10.0", Arch::X86_64, OperatingSystem::Linux),
        url(Engine::Elasticsearch, "7.10.0", Arch::X86_64, OperatingSystem::Darwin)
    );
    assert_ne!(
        url(Engine::OpenSearch, "2.4.0", Arch::X86_64, OperatingSystem::Linux),
        url(Engine::OpenSearch, "2.4.0", Arch::Aarch64, OperatingSystem::Linux)
    );
}

#[test]
fn labels_per_engine() {
    assert_eq!("x64", Arch::X86_64.format(Engine::OpenSearch));
    assert_eq!("arm64", Arch::Aarch64.format(Engine::OpenSearch));
    assert_eq!("aarch64", Arch::Aarch64.format(Engine::Quickwit));
    assert_eq!("unknown-linux-gnu", OperatingSystem::Linux.format(Engine::Quickwit));
    assert_eq!("apple-darwin", OperatingSystem::Darwin.format(Engine::Quickwit));
    assert_eq!("darwin", OperatingSystem::Darwin.format(Engine::Elasticsearch));
}

#[test]
fn release_version_text() {
    let v = Version::new(8, 10, 2);
    assert_eq!("8.10.2", v.text());
    assert_eq!(
        "https://artifacts.elastic.co/downloads/elasticsearch/elasticsearch-8.10.2-darwin-x86_64.tar.gz",
        get_url(&Engine::Elasticsearch, &v, &Arch::X86_64, &OperatingSystem::Darwin).unwrap()
    );
}
