use artifact_manifest::artifact_url::get_url;
use artifact_manifest::digest::ArtifactHasher;
use artifact_manifest::manifest::{Details, Manifest, ManifestKey};
use artifact_manifest::model::{Arch, Engine, OperatingSystem, Version};
use artifact_manifest::packages::{package_list, package_name, system_name};
use artifact_manifest::schedule::{Action, Scheduler};

fn v(text: &str) -> Version {
    Version::parse(text).unwrap()
}

fn stub_hash(url: &str) -> String {
    let mut h = ArtifactHasher::new();
    assert!(h.update(url.as_bytes()));
    h.finish()
}

struct Run {
    fetched: Vec<String>,
    max_in_flight: usize,
    abandoned: usize,
}

/// Drives one pass to its end; fetches complete in the order they started,
/// and those whose URL is in `failing` fail.
fn run_pass(
    engine: Engine,
    versions: Vec<Version>,
    limit: usize,
    manifest: &mut Manifest,
    failing: &[&str],
) -> Run {
    let mut s = Scheduler::new(engine, versions, limit);
    let mut queue: Vec<String> = Vec::new();
    let mut run = Run { fetched: Vec::new(), max_in_flight: 0, abandoned: 0 };
    let mut in_flight: usize = 0;
    loop {
        match s.step(manifest).unwrap() {
            Action::Fetch { key, url } => {
                assert!(!manifest.contains(&key));
                run.fetched.push(url.clone());
                queue.push(url);
                in_flight += 1;
            }
            Action::Join { key, .. } => {
                assert!(!manifest.contains(&key));
                in_flight += 1;
            }
            Action::Record { key, details } => {
                assert!(manifest.apply(key, details));
            }
            Action::Abandon { .. } => run.abandoned += 1,
            Action::Wait => {
                let url = queue.remove(0);
                let outcome = if failing.contains(&url.as_str()) { None } else { Some(stub_hash(&url)) };
                let waiting = s.in_flight_count();
                let entries = s.complete(&url, outcome);
                in_flight = s.in_flight_count();
                if !failing.contains(&url.as_str()) {
                    assert_eq!(waiting - in_flight, entries.len());
                }
                for (key, details) in entries {
                    assert!(manifest.apply(key, details));
                }
            }
            Action::Finished => break,
        }
        assert_eq!(in_flight, s.in_flight_count());
        run.max_in_flight = run.max_in_flight.max(in_flight);
    }
    run
}

#[test]
fn end_to_end_resumes_from_prior_manifest() {
    let mut m = Manifest::new();
    let prior_url = get_url(&Engine::Quickwit, &v("1.0.0"), &Arch::X86_64, &OperatingSystem::Linux).unwrap();
    let prior = Details::new(prior_url.clone(), stub_hash(&prior_url));
    assert!(m.apply(
        ManifestKey::new(Engine::Quickwit, v("1.0.0"), Arch::X86_64, OperatingSystem::Linux),
        prior,
    ));
    let run = run_pass(Engine::Quickwit, vec![v("1.0.0"), v("2.0.0")], 4, &mut m, &[]);
    assert_eq!(7, run.fetched.len());
    assert!(!run.fetched.contains(&prior_url));
    assert_eq!(8, m.len());
    for text in ["1.0.0", "2.0.0"] {
        for arch in Arch::all() {
            for os in OperatingSystem::all() {
                let key = ManifestKey::new(Engine::Quickwit, v(text), arch, os);
                let d = m.get(&key).unwrap();
                assert_eq!(get_url(&Engine::Quickwit, &v(text), &arch, &os).unwrap(), d.url);
                assert!(!d.hash.is_empty());
                assert_eq!(stub_hash(&d.url), d.hash);
            }
        }
    }
}

#[test]
fn second_run_fetches_nothing() {
    let mut m = Manifest::new();
    let first = run_pass(Engine::Elasticsearch, vec![v("8.1.0"), v("8.2.0")], 2, &mut m, &[]);
    assert_eq!(8, first.fetched.len());
    let second = run_pass(Engine::Elasticsearch, vec![v("8.1.0"), v("8.2.0")], 2, &mut m, &[]);
    assert_eq!(0, second.fetched.len());
    assert_eq!(8, m.len());
}

#[test]
fn shared_url_is_fetched_once() {
    let mut m = Manifest::new();
    let run = run_pass(Engine::OpenSearch, vec![v("2.4.0")], 4, &mut m, &[]);
    assert_eq!(2, run.fetched.len());
    assert_eq!(4, m.len());
    let linux = m.get(&ManifestKey::new(Engine::OpenSearch, v("2.4.0"), Arch::Aarch64, OperatingSystem::Linux)).unwrap();
    let darwin = m.get(&ManifestKey::new(Engine::OpenSearch, v("2.4.0"), Arch::Aarch64, OperatingSystem::Darwin)).unwrap();
    assert_eq!(linux.url, darwin.url);
    assert_eq!(linux.hash, darwin.hash);
}

#[test]
fn flat_layout_needs_one_fetch_per_version() {
    let mut m = Manifest::new();
    let run = run_pass(Engine::Elasticsearch, vec![v("1.7.5"), v("6.8.0")], 4, &mut m, &[]);
    assert_eq!(2, run.fetched.len());
    assert_eq!(8, m.len());
}

#[test]
fn in_flight_never_exceeds_limit() {
    for limit in [1usize, 2, 3] {
        let mut m = Manifest::new();
        let run = run_pass(Engine::Quickwit, vec![v("0.5.0"), v("0.6.0"), v("0.7.0")], limit, &mut m, &[]);
        assert!(run.max_in_flight <= limit);
        assert_eq!(limit, run.max_in_flight);
        assert_eq!(12, m.len());
    }
}

#[test]
fn failed_fetch_is_shared_and_left_for_later() {
    let mut m = Manifest::new();
    let failing = "https://artifacts.opensearch.org/releases/core/opensearch/2.4.0/opensearch-min-2.4.0-linux-x64.tar.gz";
    let run = run_pass(Engine::OpenSearch, vec![v("2.4.0")], 1, &mut m, &[failing]);
    assert_eq!(2, run.fetched.len());
    assert_eq!(1, run.abandoned);
    assert_eq!(2, m.len());
    assert!(!m.contains(&ManifestKey::new(Engine::OpenSearch, v("2.4.0"), Arch::X86_64, OperatingSystem::Linux)));
    assert!(!m.contains(&ManifestKey::new(Engine::OpenSearch, v("2.4.0"), Arch::X86_64, OperatingSystem::Darwin)));
}

#[test]
fn cancelled_pass_hands_out_nothing() {
    let m = Manifest::new();
    let mut s = Scheduler::new(Engine::Quickwit, vec![v("0.7.0")], 2);
    match s.step(&m).unwrap() {
        Action::Fetch { .. } => {}
        other => panic!("unexpected {:?}", other),
    }
    s.cancel();
    match s.step(&m).unwrap() {
        Action::Finished => {}
        other => panic!("unexpected {:?}", other),
    }
}

#[test]
fn empty_version_list_finishes_at_once() {
    let m = Manifest::new();
    let mut s = Scheduler::new(Engine::Elasticsearch, Vec::new(), 4);
    assert!(matches!(s.step(&m).unwrap(), Action::Finished));
}

#[test]
fn apply_never_overwrites() {
    let mut m = Manifest::new();
    let key = ManifestKey::new(Engine::Quickwit, v("0.7.0"), Arch::X86_64, OperatingSystem::Linux);
    assert!(m.apply(key.duplicate(), Details::new("u1".to_string(), "h1".to_string())));
    assert!(!m.apply(key.duplicate(), Details::new("u2".to_string(), "h2".to_string())));
    assert_eq!(1, m.len());
    assert_eq!("h1", m.get(&key).unwrap().hash);
    let other = ManifestKey::new(Engine::Quickwit, v("0.7.0"), Arch::X86_64, OperatingSystem::Darwin);
    assert!(m.get(&other).is_none());
}

#[test]
fn package_names() {
    assert_eq!("x86_64-linux", system_name(Arch::X86_64, OperatingSystem::Linux));
    assert_eq!("aarch64-darwin", system_name(Arch::Aarch64, OperatingSystem::Darwin));
    assert_eq!("elasticsearch_8_1_0", package_name(Engine::Elasticsearch, &v("8.1.0")));
    assert_eq!("opensearch_2_4_0-rc1", package_name(Engine::OpenSearch, &v("2.4.0-rc1")));
}

#[test]
fn package_list_covers_manifest() {
    let mut m = Manifest::new();
    run_pass(Engine::Quickwit, vec![v("0.7.0")], 2, &mut m, &[]);
    let ps = package_list(&m);
    assert_eq!(4, ps.len());
    for p in &ps {
        assert_eq!("quickwit_0_7_0", p.name);
        assert_eq!(stub_hash(&p.url), p.hash);
    }
    assert!(ps.iter().any(|p| p.system == "aarch64-darwin"));
}

#[test]
fn one_fetch_serves_every_variant_of_flat_release() {
    let mut m = Manifest::new();
    let run = run_pass(Engine::Elasticsearch, vec![Version::new(1, 7, 5)], 4, &mut m, &[]);
    let url = "https://download.elastic.co/elasticsearch/elasticsearch/elasticsearch-1.7.5.tar.gz";
    assert_eq!(vec![url.to_string()], run.fetched);
    assert_eq!(4, m.len());
    for arch in Arch::all() {
        for os in OperatingSystem::all() {
            let d = m.get(&ManifestKey::new(Engine::Elasticsearch, Version::new(1, 7, 5), arch, os)).unwrap();
            assert_eq!(url, d.url);
            assert_eq!(stub_hash(url), d.hash);
        }
    }
}
