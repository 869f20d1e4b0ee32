//! The per-engine scheduler: which artifact keys still need work, which URL
//! each needs, when a fetch may start, and how one fetch serves every key that
//! shares its URL. It decides; the caller performs the fetches and reports
//! their outcomes.
use vstd::prelude::*;
use vstd::seq_lib::*;
use crate::artifact_url::{get_url, url_accepts, url_for};
use crate::error::ManifestError;
use crate::manifest::{Details, DetailsView, KeyView, Manifest, ManifestKey};
use crate::model::{all_arches, all_systems, version_text, Arch, Engine, OperatingSystem, Version};

verus! {

broadcast use group_seq_properties;

/// What is known of the hash of one artifact URL during a pass.
#[derive(Debug)]
pub enum Memo {
    /// A fetch of the URL has started and not completed.
    Fetching,
    /// The fetch completed with this hash.
    Hashed(String),
    /// The fetch failed; every key that shares the URL is abandoned.
    Failed,
}

/// The value of a memo entry.
pub enum MemoState {
    Fetching,
    Hashed(Seq<char>),
    Failed,
}

impl View for Memo {
    type V = MemoState;

    open spec fn view(&self) -> MemoState {
        match self {
            Memo::Fetching => MemoState::Fetching,
            Memo::Hashed(h) => MemoState::Hashed(h@),
            Memo::Failed => MemoState::Failed,
        }
    }
}

/// What the caller is to do next.
#[derive(Debug)]
pub enum Action {
    /// Fetch and hash `url`, then report the outcome with `complete`. The entry
    /// for `key` comes back from that call.
    Fetch { key: ManifestKey, url: String },
    /// `url` is already being fetched; the entry for `key` comes back from the
    /// `complete` call of that fetch.
    Join { key: ManifestKey, url: String },
    /// `url` was hashed earlier in this pass: apply this entry.
    Record { key: ManifestKey, details: Details },
    /// The fetch of this key's URL failed earlier in this pass: the key is left
    /// for a later run.
    Abandon { key: ManifestKey },
    /// No work can start now: wait for a fetch in flight to complete.
    Wait,
    /// No work is left, or the pass was cancelled.
    Finished,
}

/// The value of a version.
pub type VersionView = (u64, u64, u64, Seq<char>, Seq<char>);

/// The `k`-th key of an engine's pass: versions outermost, then architectures,
/// then operating systems, so that all variants of a version come together.
pub open spec fn key_at(engine: Engine, versions: Seq<VersionView>, k: int) -> KeyView {
    (engine, versions[k / 4], all_arches()[(k % 4) / 2], all_systems()[k % 2])
}

/// The artifact URL of a key.
pub open spec fn key_url(key: KeyView) -> Seq<char> {
    let v = key.1;
    url_for(key.0, v.0, version_text(v.0, v.1, v.2, v.3, v.4), key.2, key.3)
}

/// The first position at or after `k` whose key the manifest `m` lacks, or
/// the end of the pass.
pub open spec fn next_missing(
    engine: Engine,
    versions: Seq<VersionView>,
    m: Map<KeyView, DetailsView>,
    k: int,
) -> int
    decreases 4 * versions.len() - k,
{
    if k < 0 || k >= 4 * versions.len() || !m.contains_key(key_at(engine, versions, k)) {
        k
    } else {
        next_missing(engine, versions, m, k + 1)
    }
}

/// Keeps the units in flight that wait on another URL than `u`.
pub open spec fn other_url(u: Seq<char>) -> spec_fn((KeyView, Seq<char>)) -> bool {
    |p: (KeyView, Seq<char>)| p.1 != u
}

/// Keeps the units in flight that wait on `u`.
pub open spec fn same_url(u: Seq<char>) -> spec_fn((KeyView, Seq<char>)) -> bool {
    |p: (KeyView, Seq<char>)| p.1 == u
}

/// The values of a list of units in flight.
pub open spec fn units_view(v: Seq<(ManifestKey, String)>) -> Seq<(KeyView, Seq<char>)> {
    v.map_values(|p: (ManifestKey, String)| (p.0@, p.1@))
}

/// The values of a list of entries.
pub open spec fn entries_view(v: Seq<(ManifestKey, Details)>) -> Seq<(KeyView, DetailsView)> {
    v.map_values(|e: (ManifestKey, Details)| (e.0@, e.1@))
}

/// The key that an action hands out, if any.
pub open spec fn handed_out(a: Action) -> Option<KeyView> {
    match a {
        Action::Fetch { key, .. } => Some(key@),
        Action::Join { key, .. } => Some(key@),
        Action::Record { key, .. } => Some(key@),
        Action::Abandon { key } => Some(key@),
        _ => None,
    }
}

/// Nothing but the position moved.
pub open spec fn only_moved(s0: Scheduler, s1: Scheduler) -> bool {
    &&& s1.in_flight() == s0.in_flight()
    &&& s1.memo() == s0.memo()
    &&& s1.fetch_log() == s0.fetch_log()
}

/// What one `step` does, on the manifest `m`: skip the keys that `m` has, then
/// hand out the next key if a unit may start, fetching its URL only where no
/// fetch of it was asked for before.
pub open spec fn stepped(
    s0: Scheduler,
    s1: Scheduler,
    m: Map<KeyView, DetailsView>,
    r: Result<Action, ManifestError>,
) -> bool {
    let j = next_missing(s0.engine(), s0.versions(), m, s0.position());
    let key = key_at(s0.engine(), s0.versions(), j);
    let u = key_url(key);
    if s0.is_stopped() {
        &&& s1.position() == s0.position()
        &&& only_moved(s0, s1)
        &&& r matches Ok(a) && a is Finished
    } else if j >= 4 * s0.versions().len() {
        &&& s1.position() == j
        &&& only_moved(s0, s1)
        &&& r matches Ok(a) && if s0.in_flight().len() == 0 {
            a is Finished
        } else {
            a is Wait
        }
    } else if s0.in_flight().len() >= s0.limit() {
        &&& s1.position() == j
        &&& only_moved(s0, s1)
        &&& r matches Ok(a) && a is Wait
    } else if !url_accepts(u) {
        &&& s1.position() == j
        &&& only_moved(s0, s1)
        &&& r matches Err(e) && e is ParseUrl
    } else {
        &&& s1.position() == j + 1
        &&& issued(s0, s1, key, u, r)
    }
}

/// How handing out `key`, whose URL is `u`, changes the units in flight, the
/// memo and the fetch log, and what it returns: a fetch only where no fetch
/// of `u` was asked for before.
pub open spec fn issued(
    s0: Scheduler,
    s1: Scheduler,
    key: KeyView,
    u: Seq<char>,
    r: Result<Action, ManifestError>,
) -> bool {
    if !s0.memo().contains_key(u) {
        &&& s1.in_flight() == s0.in_flight().push((key, u))
        &&& s1.memo() == s0.memo().insert(u, MemoState::Fetching)
        &&& s1.fetch_log() == s0.fetch_log().push(u)
        &&& r matches Ok(Action::Fetch { key: k, url }) && k@ == key && url@ == u
    } else {
        &&& s1.memo() == s0.memo()
        &&& s1.fetch_log() == s0.fetch_log()
        &&& match s0.memo()[u] {
            MemoState::Fetching => {
                &&& s1.in_flight() == s0.in_flight().push((key, u))
                &&& r matches Ok(Action::Join { key: k, url }) && k@ == key && url@ == u
            },
            MemoState::Hashed(h) => {
                &&& s1.in_flight() == s0.in_flight()
                &&& r matches Ok(Action::Record { key: k, details }) && k@ == key && details@ == (
                u,
                h,
            )
            },
            MemoState::Failed => {
                &&& s1.in_flight() == s0.in_flight()
                &&& r matches Ok(Action::Abandon { key: k }) && k@ == key
            },
        }
    }
}

proof fn lemma_next_missing(
    engine: Engine,
    versions: Seq<VersionView>,
    m: Map<KeyView, DetailsView>,
    k: int,
)
    requires
        0 <= k <= 4 * versions.len(),
    ensures
        k <= next_missing(engine, versions, m, k) <= 4 * versions.len(),
        next_missing(engine, versions, m, k) < 4 * versions.len() ==> !m.contains_key(
            key_at(engine, versions, next_missing(engine, versions, m, k)),
        ),
    decreases 4 * versions.len() - k,
{
    if k < 4 * versions.len() && m.contains_key(key_at(engine, versions, k)) {
        lemma_next_missing(engine, versions, m, k + 1);
    }
}

/// The memo state that a fetch outcome leaves: its hash, or failure.
pub open spec fn settled(outcome: Option<String>) -> MemoState {
    match outcome {
        Some(h) => MemoState::Hashed(h@),
        None => MemoState::Failed,
    }
}

/// The entries that units waiting on a fetch receive when it yields hash `h`.
pub open spec fn recorded(units: Seq<(KeyView, Seq<char>)>, h: Seq<char>) -> Seq<
    (KeyView, DetailsView),
> {
    units.map_values(|p: (KeyView, Seq<char>)| (p.0, (p.1, h)))
}

/// The entries that a fetch outcome yields for the units waiting on it.
pub open spec fn released(units: Seq<(KeyView, Seq<char>)>, outcome: Option<String>) -> Seq<
    (KeyView, DetailsView),
> {
    match outcome {
        Some(h) => recorded(units, h@),
        None => Seq::empty(),
    }
}

/// Whether every key that `r` hands out is one that the manifest `m` lacks.
pub open spec fn hands_out_only_missing(
    r: Result<Action, ManifestError>,
    m: Map<KeyView, DetailsView>,
) -> bool {
    match r {
        Ok(a) => match handed_out(a) {
            Some(k) => !m.contains_key(k),
            None => true,
        },
        Err(_) => true,
    }
}

/// Works through the keys of one engine's pass, at most `limit` of them in flight.
pub struct Scheduler {
    engine: Engine,
    versions: Vec<Version>,
    limit: usize,
    next: usize,
    pending: Vec<(ManifestKey, String)>,
    memo: Vec<(String, Memo)>,
    memo_model: Ghost<Map<Seq<char>, MemoState>>,
    log: Ghost<Seq<Seq<char>>>,
    stopped: bool,
}

impl Scheduler {
    pub closed spec fn engine(&self) -> Engine {
        self.engine
    }

    /// The versions of the pass.
    pub closed spec fn versions(&self) -> Seq<VersionView> {
        self.versions@.map_values(|v: Version| v@)
    }

    /// The most units that may be in flight at once.
    pub closed spec fn limit(&self) -> nat {
        self.limit as nat
    }

    /// The position of the next key to consider.
    pub closed spec fn position(&self) -> int {
        self.next as int
    }

    /// The units in flight: each key with the URL whose fetch it waits on.
    pub closed spec fn in_flight(&self) -> Seq<(KeyView, Seq<char>)> {
        units_view(self.pending@)
    }

    /// What is known of each URL whose fetch was asked for.
    pub closed spec fn memo(&self) -> Map<Seq<char>, MemoState> {
        self.memo_model@
    }

    /// Every URL that this scheduler asked to fetch, in order.
    pub closed spec fn fetch_log(&self) -> Seq<Seq<char>> {
        self.log@
    }

    /// Whether the pass was cancelled.
    pub closed spec fn is_stopped(&self) -> bool {
        self.stopped
    }

    pub closed spec fn wf(&self) -> bool {
        &&& self.limit >= 1
        &&& self.versions@.len() * 4 <= usize::MAX
        &&& self.next <= 4 * self.versions@.len()
        &&& self.pending@.len() <= self.limit
        &&& forall|i: int|
            0 <= i < self.memo@.len() ==> #[trigger] self.memo_model@.contains_key(
                self.memo@[i].0@,
            ) && self.memo_model@[self.memo@[i].0@] == self.memo@[i].1@
        &&& forall|i: int, j: int|
            0 <= i < j < self.memo@.len() ==> #[trigger] self.memo@[i].0@
                != #[trigger] self.memo@[j].0@
        &&& forall|u: Seq<char>| #[trigger]
            self.memo_model@.contains_key(u) ==> exists|i: int|
                0 <= i < self.memo@.len() && #[trigger] self.memo@[i].0@ == u
        &&& self.log@.no_duplicates()
        &&& forall|u: Seq<char>| #[trigger]
            self.log@.contains(u) == self.memo_model@.contains_key(u)
        &&& forall|i: int|
            0 <= i < self.pending@.len() ==> #[trigger] self.memo_model@.contains_key(
                self.pending@[i].1@,
            ) && self.memo_model@[self.pending@[i].1@] == MemoState::Fetching
    }

    proof fn lemma_moved_wf(s0: Scheduler, s1: Scheduler)
        requires
            s0.wf(),
            s1.limit == s0.limit,
            s1.versions@ == s0.versions@,
            s1.pending@ == s0.pending@,
            s1.memo@ == s0.memo@,
            s1.memo_model@ == s0.memo_model@,
            s1.log@ == s0.log@,
            s1.next <= 4 * s1.versions@.len(),
        ensures
            s1.wf(),
    {
        assert forall|u: Seq<char>| #[trigger] s1.memo_model@.contains_key(u) implies exists|i: int|
            0 <= i < s1.memo@.len() && #[trigger] s1.memo@[i].0@ == u by {
            let i = choose|i: int| 0 <= i < s0.memo@.len() && #[trigger] s0.memo@[i].0@ == u;
            assert(s1.memo@[i].0@ == u);
        }
    }

    proof fn lemma_settled_wf(s0: Scheduler, s1: Scheduler, i: int, u: Seq<char>)
        requires
            s0.wf(),
            0 <= i < s0.memo@.len(),
            s0.memo@[i].0@ == u,
            s1.memo@.len() == s0.memo@.len(),
            s1.memo@[i].0@ == u,
            forall|j: int| 0 <= j < s0.memo@.len() && j != i ==> s1.memo@[j] == s0.memo@[j],
            s1.memo_model@ == s0.memo_model@.insert(u, s1.memo@[i].1@),
            s1.limit == s0.limit,
            s1.versions@ == s0.versions@,
            s1.next == s0.next,
            s1.log@ == s0.log@,
            s1.pending@.len() <= s1.limit,
            forall|j: int|
                0 <= j < s1.pending@.len() ==> #[trigger] s0.memo_model@.contains_key(
                    s1.pending@[j].1@,
                ),
            forall|j: int|
                0 <= j < s1.pending@.len() ==> s0.memo_model@[#[trigger] s1.pending@[j].1@]
                    == MemoState::Fetching,
            forall|j: int| 0 <= j < s1.pending@.len() ==> #[trigger] s1.pending@[j].1@ != u,
        ensures
            s1.wf(),
    {
        assert forall|v: Seq<char>| #[trigger] s1.memo_model@.contains_key(v) implies exists|j: int|
            0 <= j < s1.memo@.len() && #[trigger] s1.memo@[j].0@ == v by {
            if v == u {
                assert(s1.memo@[i].0@ == v);
            } else {
                let j = choose|j: int| 0 <= j < s0.memo@.len() && #[trigger] s0.memo@[j].0@ == v;
                assert(s1.memo@[j].0@ == v);
            }
        }
        assert forall|j: int| 0 <= j < s1.memo@.len() implies #[trigger] s1.memo_model@.contains_key(
            s1.memo@[j].0@,
        ) && s1.memo_model@[s1.memo@[j].0@] == s1.memo@[j].1@ by {
            if j != i {
                assert(s0.memo_model@.contains_key(s0.memo@[j].0@));
            }
        }
        assert forall|a: int, b: int| 0 <= a < b < s1.memo@.len() implies #[trigger] s1.memo@[a].0@
            != #[trigger] s1.memo@[b].0@ by {
            assert(s0.memo@[a].0@ != s0.memo@[b].0@);
        }
        assert forall|j: int| 0 <= j < s1.pending@.len() implies #[trigger] s1.memo_model@.contains_key(
            s1.pending@[j].1@,
        ) && s1.memo_model@[s1.pending@[j].1@] == MemoState::Fetching by {
            assert(s0.memo_model@.contains_key(s1.pending@[j].1@));
        }
    }

    /// A pass over every (version, architecture, operating system) of `engine`,
    /// with at most `limit` units in flight.
    pub fn new(engine: Engine, versions: Vec<Version>, limit: usize) -> (r: Scheduler)
        requires
            limit >= 1,
            versions@.len() * 4 <= usize::MAX,
        ensures
            r.wf(),
            r.engine() == engine,
            r.versions() == versions@.map_values(|v: Version| v@),
            r.limit() == limit,
            r.position() == 0,
            r.in_flight() == Seq::<(KeyView, Seq<char>)>::empty(),
            r.memo() == Map::<Seq<char>, MemoState>::empty(),
            r.fetch_log() == Seq::<Seq<char>>::empty(),
            !r.is_stopped(),
    {
        let r = Scheduler {
            engine,
            versions,
            limit,
            next: 0,
            pending: Vec::new(),
            memo: Vec::new(),
            memo_model: Ghost(Map::empty()),
            log: Ghost(Seq::empty()),
            stopped: false,
        };
        assert(r.in_flight() =~= Seq::<(KeyView, Seq<char>)>::empty());
        r
    }

    /// The number of units in flight.
    pub fn in_flight_count(&self) -> (r: usize)
        requires
            self.wf(),
        ensures
            r == self.in_flight().len(),
    {
        self.pending.len()
    }

    /// Stops the pass: no further work is handed out.
    pub fn cancel(&mut self)
        requires
            old(self).wf(),
        ensures
            final(self).wf(),
            final(self).is_stopped(),
            final(self).engine() == old(self).engine(),
            final(self).versions() == old(self).versions(),
            final(self).limit() == old(self).limit(),
            final(self).position() == old(self).position(),
            final(self).in_flight() == old(self).in_flight(),
            final(self).memo() == old(self).memo(),
            final(self).fetch_log() == old(self).fetch_log(),
    {
        let ghost memo = self.memo@;
        self.stopped = true;
        assert forall|u: Seq<char>| #[trigger] self.memo_model@.contains_key(u) implies exists|i: int|
            0 <= i < self.memo@.len() && #[trigger] self.memo@[i].0@ == u by {
            let i = choose|i: int| 0 <= i < memo.len() && #[trigger] memo[i].0@ == u;
            assert(self.memo@[i].0@ == u);
        }
    }

    fn key_at_exec(&self, k: usize) -> (r: ManifestKey)
        requires
            self.wf(),
            k < 4 * self.versions@.len(),
        ensures
            r@ == key_at(self.engine(), self.versions(), k as int),
    {
        let v = self.versions[k / 4].duplicate();
        let arch = if (k % 4) / 2 == 0 {
            Arch::X86_64
        } else {
            Arch::Aarch64
        };
        let os = if k % 2 == 0 {
            OperatingSystem::Linux
        } else {
            OperatingSystem::Darwin
        };
        ManifestKey::new(self.engine, v, arch, os)
    }

    fn memo_find(&self, url: &String) -> (r: Option<usize>)
        requires
            self.wf(),
        ensures
            r matches Some(i) ==> i < self.memo@.len() && self.memo@[i as int].0@ == url@
                && self.memo_model@.contains_key(url@) && self.memo_model@[url@]
                == self.memo@[i as int].1@,
            r is None ==> !self.memo_model@.contains_key(url@),
    {
        let mut i: usize = 0;
        while i < self.memo.len()
            invariant
                self.wf(),
                i <= self.memo@.len(),
                forall|j: int| 0 <= j < i ==> self.memo@[j].0@ != url@,
            decreases self.memo@.len() - i,
        {
            if self.memo[i].0 == *url {
                assert(self.memo_model@.contains_key(self.memo@[i as int].0@));
                return Some(i);
            }
            i = i + 1;
        }
        None
    }
    /// Decides the next thing to do for this pass, given the current manifest.
    pub fn step(&mut self, manifest: &Manifest) -> (r: Result<Action, ManifestError>)
        requires
            old(self).wf(),
            manifest.wf(),
        ensures
            final(self).wf(),
            final(self).engine() == old(self).engine(),
            final(self).versions() == old(self).versions(),
            final(self).limit() == old(self).limit(),
            final(self).is_stopped() == old(self).is_stopped(),
            stepped(*old(self), *final(self), manifest@, r),
            hands_out_only_missing(r, manifest@),
    {
        if self.stopped {
            return Ok(Action::Finished);
        }
        let ghost vs = self.versions();
        let total = 4 * self.versions.len();
        let mut j = self.next;
        while j < total && manifest.contains(&self.key_at_exec(j))
            invariant
                self.wf(),
                manifest.wf(),
                total == 4 * self.versions@.len(),
                vs == self.versions(),
                vs.len() == self.versions@.len(),
                self == old(self),
                old(self).position() <= j <= total,
                next_missing(self.engine(), vs, manifest@, old(self).position()) == next_missing(
                    self.engine(),
                    vs,
                    manifest@,
                    j as int,
                ),
            decreases total - j,
        {
            j = j + 1;
        }
        proof {
            lemma_next_missing(self.engine(), vs, manifest@, j as int);
        }
        if j >= total {
            self.next = j;
            proof {
                Self::lemma_moved_wf(*old(self), *self);
            }
            if self.pending.len() == 0 {
                return Ok(Action::Finished);
            } else {
                return Ok(Action::Wait);
            }
        }
        if self.pending.len() >= self.limit {
            self.next = j;
            proof {
                Self::lemma_moved_wf(*old(self), *self);
            }
            return Ok(Action::Wait);
        }
        let key = self.key_at_exec(j);
        let url = match get_url(&key.engine, &key.version, &key.arch, &key.os) {
            Ok(u) => u,
            Err(e) => {
                self.next = j;
                proof {
                    Self::lemma_moved_wf(*old(self), *self);
                }
                return Err(e);
            },
        };
        assert(url@ == key_url(key@));
        self.next = j + 1;
        proof {
            Self::lemma_moved_wf(*old(self), *self);
        }
        self.issue(key, url)
    }

    fn issue(&mut self, key: ManifestKey, url: String) -> (r: Result<Action, ManifestError>)
        requires
            old(self).wf(),
            old(self).pending@.len() < old(self).limit,
        ensures
            final(self).wf(),
            final(self).engine == old(self).engine,
            final(self).versions == old(self).versions,
            final(self).limit == old(self).limit,
            final(self).next == old(self).next,
            final(self).stopped == old(self).stopped,
            issued(*old(self), *final(self), key@, url@, r),
            handed_out(r->Ok_0) == Some(key@),
            r is Ok,
    {
        match self.memo_find(&url) {
            None => {
                let ghost memo = self.memo@;
                let ghost pending = self.pending@;
                let ghost log = self.log@;
                proof {
                    assert(!log.contains(url@));
                    assert forall|a: int, b: int|
                        0 <= a < log.len() + 1 && 0 <= b < log.len() + 1 && a != b implies #[trigger] log.push(url@)[a]
                        != #[trigger] log.push(url@)[b] by {
                        if a == log.len() {
                            assert(log[b] != url@ || log.contains(url@));
                        } else if b == log.len() {
                            assert(log[a] != url@ || log.contains(url@));
                        }
                    }
                }
                self.memo_model = Ghost(self.memo_model@.insert(url@, MemoState::Fetching));
                self.log = Ghost(self.log@.push(url@));
                self.memo.push((url.clone(), Memo::Fetching));
                self.pending.push((key.duplicate(), url.clone()));
                proof {
                    assert forall|i: int| 0 <= i < memo.len() implies self.memo@[i] == memo[i] by {}
                    assert forall|i: int| 0 <= i < pending.len() implies self.pending@[i] == pending[i] by {}
                    assert forall|v: Seq<char>| #[trigger]
                        self.memo_model@.contains_key(v) implies exists|i: int|
                        0 <= i < self.memo@.len() && #[trigger] self.memo@[i].0@ == v by {
                        if v == url@ {
                            assert(self.memo@[memo.len() as int].0@ == v);
                        } else {
                            let i = choose|i: int| 0 <= i < memo.len() && #[trigger] memo[i].0@ == v;
                            assert(self.memo@[i].0@ == v);
                        }
                    }
                    assert(self.in_flight() =~= old(self).in_flight().push((key@, url@)));
                }
                Ok(Action::Fetch { key, url })
            },
            Some(i) => {
                let ghost memo = self.memo@;
                let ghost pending = self.pending@;
                match &self.memo[i].1 {
                    Memo::Fetching => {
                        self.pending.push((key.duplicate(), url.clone()));
                        proof {
                            assert forall|i: int| 0 <= i < pending.len() implies self.pending@[i] == pending[i] by {}
                            assert forall|v: Seq<char>| #[trigger]
                                self.memo_model@.contains_key(v) implies exists|i: int|
                                0 <= i < self.memo@.len() && #[trigger] self.memo@[i].0@ == v by {
                                let i = choose|i: int| 0 <= i < memo.len() && #[trigger] memo[i].0@ == v;
                                assert(self.memo@[i].0@ == v);
                            }
                            assert(self.in_flight() =~= old(self).in_flight().push((key@, url@)));
                        }
                        Ok(Action::Join { key, url })
                    },
                    Memo::Hashed(h) => {
                        let details = Details::new(url, h.clone());
                        Ok(Action::Record { key, details })
                    },
                    Memo::Failed => {
                        Ok(Action::Abandon { key })
                    },
                }
            },
        }
    }

    /// Reports the outcome of the fetch of `url`: its hash, or `None` where it
    /// failed. Every unit waiting on that fetch leaves the set in flight; on
    /// success each gets its entry, which is returned to be applied. A URL whose
    /// fetch is not in flight changes nothing.
    pub fn complete(&mut self, url: &String, outcome: Option<String>) -> (r: Vec<
        (ManifestKey, Details),
    >)
        requires
            old(self).wf(),
        ensures
            final(self).wf(),
            final(self).engine() == old(self).engine(),
            final(self).versions() == old(self).versions(),
            final(self).limit() == old(self).limit(),
            final(self).position() == old(self).position(),
            final(self).is_stopped() == old(self).is_stopped(),
            final(self).fetch_log() == old(self).fetch_log(),
            if old(self).memo().contains_key(url@) && old(self).memo()[url@] == MemoState::Fetching {
                &&& final(self).memo() == old(self).memo().insert(url@, settled(outcome))
                &&& final(self).in_flight() == old(self).in_flight().filter(other_url(url@))
                &&& entries_view(r@) == released(
                    old(self).in_flight().filter(same_url(url@)),
                    outcome,
                )
            } else {
                &&& final(self).memo() == old(self).memo()
                &&& final(self).in_flight() == old(self).in_flight()
                &&& r@.len() == 0
            },
    {
        let i = match self.memo_find(url) {
            Some(i) => i,
            None => {
                return Vec::new();
            },
        };
        match &self.memo[i].1 {
            Memo::Fetching => {},
            _ => {
                return Vec::new();
            },
        }
        let ghost units = self.in_flight();
        let mut kept: Vec<(ManifestKey, String)> = Vec::new();
        let mut out: Vec<(ManifestKey, Details)> = Vec::new();
        let mut k: usize = 0;
        while k < self.pending.len()
            invariant
                self == old(self),
                self.wf(),
                units == self.in_flight(),
                units.len() == self.pending@.len(),
                k <= self.pending@.len(),
                units_view(kept@) == units.take(k as int).filter(other_url(url@)),
                entries_view(out@) == released(units.take(k as int).filter(same_url(url@)), outcome),
                kept@.len() <= self.limit,
                forall|j: int|
                    0 <= j < kept@.len() ==> #[trigger] self.memo_model@.contains_key(kept@[j].1@),
                forall|j: int|
                    0 <= j < kept@.len() ==> self.memo_model@[#[trigger] kept@[j].1@] == MemoState::Fetching,
                forall|j: int|
                    0 <= j < kept@.len() ==> #[trigger] kept@[j].1@ != url@,
            decreases self.pending@.len() - k,
        {
            let p = &self.pending[k];
            let ghost kv = kept@;
            let ghost ov = out@;
            proof {
                assert(units.take(k + 1) =~= units.take(k as int).push(units[k as int]));
                units.take(k as int).lemma_filter_push(units[k as int], other_url(url@));
                units.take(k as int).lemma_filter_push(units[k as int], same_url(url@));
                units.take(k as int).filter(other_url(url@)).lemma_filter_len(other_url(url@));
                units.take(k as int).lemma_filter_len(other_url(url@));
                assert(units[k as int] == (p.0@, p.1@));
                assert(self.memo_model@.contains_key(self.pending@[k as int].1@));
            }
            if p.1 == *url {
                match &outcome {
                    Some(h) => {
                        out.push((p.0.duplicate(), Details::new(url.clone(), h.clone())));
                        proof {
                            assert(entries_view(out@) =~= entries_view(ov).push((p.0@, (url@, h@))));
                        }
                    },
                    None => {},
                }
            } else {
                kept.push((p.0.duplicate(), p.1.clone()));
                proof {
                    assert(units_view(kept@) =~= units_view(kv).push((p.0@, p.1@)));
                    assert forall|j: int| 0 <= j < kv.len() implies kept@[j] == kv[j] by {}
                    assert(kept@[kv.len() as int].1@ == self.pending@[k as int].1@);
                    assert(self.memo_model@.contains_key(kept@[kv.len() as int].1@));
                }
            }
            k = k + 1;
        }
        proof {
            assert(units.take(units.len() as int) =~= units);
        }
        let ghost s0 = *self;
        let new_memo = match outcome {
            Some(h) => Memo::Hashed(h),
            None => Memo::Failed,
        };
        self.memo[i] = (url.clone(), new_memo);
        self.memo_model = Ghost(self.memo_model@.insert(url@, self.memo@[i as int].1@));
        self.pending = kept;
        proof {
            Self::lemma_settled_wf(s0, *self, i as int, url@);
        }
        out
    }
}

/// Each artifact URL is fetched at most once in a pass: the log of the fetches
/// that `step` asked for never holds a URL twice, and holds exactly the URLs
/// that the memo knows.
pub proof fn lemma_each_url_fetched_once(s: Scheduler)
    requires
        s.wf(),
    ensures
        s.fetch_log().no_duplicates(),
        forall|u: Seq<char>| #[trigger] s.fetch_log().contains(u) == s.memo().contains_key(u),
{
}

/// A second request for a URL that the memo knows starts no fetch: it joins
/// the fetch in flight, or takes its hash or its failure.
pub proof fn lemma_second_request_shares_fetch(
    s1: Scheduler,
    s2: Scheduler,
    key: KeyView,
    u: Seq<char>,
    r: Result<Action, ManifestError>,
)
    requires
        s1.memo().contains_key(u),
        issued(s1, s2, key, u, r),
    ensures
        !(r matches Ok(Action::Fetch { .. })),
        s2.fetch_log() == s1.fetch_log(),
{
}

/// At no point are more than `limit` units of a pass in flight.
pub proof fn lemma_in_flight_bounded(s: Scheduler)
    requires
        s.wf(),
    ensures
        s.in_flight().len() <= s.limit(),
{
}

proof fn lemma_all_present(
    engine: Engine,
    versions: Seq<VersionView>,
    m: Map<KeyView, DetailsView>,
    k: int,
)
    requires
        0 <= k <= 4 * versions.len(),
        forall|i: int| k <= i < 4 * versions.len() ==> m.contains_key(#[trigger] key_at(engine, versions, i)),
    ensures
        next_missing(engine, versions, m, k) == 4 * versions.len(),
    decreases 4 * versions.len() - k,
{
    if k < 4 * versions.len() {
        lemma_all_present(engine, versions, m, k + 1);
    }
}

/// On a manifest that already holds every remaining key of a pass with nothing
/// in flight, `step` finishes the pass and asks for no fetch.
pub proof fn lemma_present_keys_need_no_fetch(
    s0: Scheduler,
    s1: Scheduler,
    m: Map<KeyView, DetailsView>,
    r: Result<Action, ManifestError>,
)
    requires
        s0.wf(),
        s0.in_flight().len() == 0,
        forall|i: int|
            s0.position() <= i < 4 * s0.versions().len() ==> m.contains_key(
                #[trigger] key_at(s0.engine(), s0.versions(), i),
            ),
        stepped(s0, s1, m, r),
    ensures
        r matches Ok(a) && a is Finished,
        s1.fetch_log() == s0.fetch_log(),
        s1.in_flight() == s0.in_flight(),
{
    if !s0.is_stopped() {
        lemma_all_present(s0.engine(), s0.versions(), m, s0.position());
    }
}

} // verus!
