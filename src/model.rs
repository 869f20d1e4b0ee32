//! The data model: engines, architectures, operating systems and versions.
use vstd::prelude::*;
use vstd::string::*;

verus! {

/// A search-engine distribution whose release artifacts are tracked.
#[derive(Clone, Copy, Debug, PartialEq, Eq, Structural, Hash, PartialOrd, Ord)]
pub enum Engine {
    Elasticsearch,
    OpenSearch,
    Quickwit,
}

/// A CPU architecture.
#[derive(Clone, Copy, Debug, PartialEq, Eq, Structural, Hash, PartialOrd, Ord)]
pub enum Arch {
    X86_64,
    Aarch64,
}

/// An operating system.
#[derive(Clone, Copy, Debug, PartialEq, Eq, Structural, Hash, PartialOrd, Ord)]
pub enum OperatingSystem {
    Linux,
    Darwin,
}

/// Every architecture, in enumeration order.
pub open spec fn all_arches() -> Seq<Arch> {
    seq![Arch::X86_64, Arch::Aarch64]
}

/// Every operating system, in enumeration order.
pub open spec fn all_systems() -> Seq<OperatingSystem> {
    seq![OperatingSystem::Linux, OperatingSystem::Darwin]
}

/// Every engine, in enumeration order.
pub open spec fn all_engines() -> Seq<Engine> {
    seq![Engine::Elasticsearch, Engine::OpenSearch, Engine::Quickwit]
}

impl Engine {
    /// Lower-case name, as used for map keys in the manifest file.
    pub open spec fn spec_name(self) -> Seq<char> {
        match self {
            Engine::Elasticsearch => "elasticsearch"@,
            Engine::OpenSearch => "opensearch"@,
            Engine::Quickwit => "quickwit"@,
        }
    }

    pub fn name(&self) -> (r: &'static str)
        ensures
            r@ == self.spec_name(),
    {
        match self {
            Engine::Elasticsearch => "elasticsearch",
            Engine::OpenSearch => "opensearch",
            Engine::Quickwit => "quickwit",
        }
    }

    /// All engines.
    pub fn all() -> (r: Vec<Engine>)
        ensures
            r@ == all_engines(),
    {
        let r = vec![Engine::Elasticsearch, Engine::OpenSearch, Engine::Quickwit];
        assert(r@ =~= all_engines());
        r
    }
}

impl Arch {
    /// Lower-case name, as used for map keys in the manifest file.
    pub open spec fn spec_name(self) -> Seq<char> {
        match self {
            Arch::X86_64 => "x86_64"@,
            Arch::Aarch64 => "aarch64"@,
        }
    }

    pub fn name(&self) -> (r: &'static str)
        ensures
            r@ == self.spec_name(),
    {
        match self {
            Arch::X86_64 => "x86_64",
            Arch::Aarch64 => "aarch64",
        }
    }

    /// All architectures.
    pub fn all() -> (r: Vec<Arch>)
        ensures
            r@ == all_arches(),
    {
        let r = vec![Arch::X86_64, Arch::Aarch64];
        assert(r@ =~= all_arches());
        r
    }
}

impl OperatingSystem {
    /// Lower-case name, as used for map keys in the manifest file.
    pub open spec fn spec_name(self) -> Seq<char> {
        match self {
            OperatingSystem::Linux => "linux"@,
            OperatingSystem::Darwin => "darwin"@,
        }
    }

    pub fn name(&self) -> (r: &'static str)
        ensures
            r@ == self.spec_name(),
    {
        match self {
            OperatingSystem::Linux => "linux",
            OperatingSystem::Darwin => "darwin",
        }
    }

    /// All operating systems.
    pub fn all() -> (r: Vec<OperatingSystem>)
        ensures
            r@ == all_systems(),
    {
        let r = vec![OperatingSystem::Linux, OperatingSystem::Darwin];
        assert(r@ =~= all_systems());
        r
    }
}

/// The character of a decimal digit.
pub open spec fn digit_char(d: nat) -> char {
    if d == 0 { '0' } else if d == 1 { '1' } else if d == 2 { '2' } else if d == 3 { '3' }
    else if d == 4 { '4' } else if d == 5 { '5' } else if d == 6 { '6' } else if d == 7 { '7' }
    else if d == 8 { '8' } else { '9' }
}

/// Whether `c` is an ASCII decimal digit.
pub open spec fn is_digit(c: char) -> bool {
    '0' <= c && c <= '9'
}

/// The decimal rendering of `n`, most significant digit first, without leading zeros.
pub open spec fn decimal(n: nat) -> Seq<char>
    decreases n,
{
    if n < 10 {
        seq![digit_char(n)]
    } else {
        decimal(n / 10).push(digit_char(n % 10))
    }
}

fn digit_str(d: u64) -> (r: &'static str)
    requires
        d < 10,
    ensures
        r@ == seq![digit_char(d as nat)],
{
    proof {
        reveal_strlit("0");
        reveal_strlit("1");
        reveal_strlit("2");
        reveal_strlit("3");
        reveal_strlit("4");
        reveal_strlit("5");
        reveal_strlit("6");
        reveal_strlit("7");
        reveal_strlit("8");
        reveal_strlit("9");
    }
    let r = if d == 0 { "0" } else if d == 1 { "1" } else if d == 2 { "2" } else if d == 3 { "3" }
    else if d == 4 { "4" } else if d == 5 { "5" } else if d == 6 { "6" } else if d == 7 { "7" }
    else if d == 8 { "8" } else { "9" };
    assert(r@ =~= seq![digit_char(d as nat)]);
    r
}

/// Appends the decimal rendering of `n` to `out`.
pub fn push_decimal(out: &mut String, n: u64)
    ensures
        final(out)@ == old(out)@ + decimal(n as nat),
    decreases n,
{
    if n < 10 {
        out.append(digit_str(n));
    } else {
        push_decimal(out, n / 10);
        out.append(digit_str(n % 10));
        assert(final(out)@ =~= old(out)@ + decimal(n as nat));
    }
}

/// A semantic version: `MAJOR.MINOR.PATCH`, an optional pre-release tag and
/// optional build metadata.
#[derive(Debug)]
pub struct Version {
    pub major: u64,
    pub minor: u64,
    pub patch: u64,
    pub pre: String,
    pub build: String,
}

/// The canonical text of a version with the given parts.
pub open spec fn version_text(
    major: u64,
    minor: u64,
    patch: u64,
    pre: Seq<char>,
    build: Seq<char>,
) -> Seq<char> {
    let core = decimal(major as nat) + "."@ + decimal(minor as nat) + "."@ + decimal(patch as nat);
    let with_pre = if pre.len() == 0 { core } else { core + "-"@ + pre };
    if build.len() == 0 { with_pre } else { with_pre + "+"@ + build }
}

impl View for Version {
    type V = (u64, u64, u64, Seq<char>, Seq<char>);

    open spec fn view(&self) -> Self::V {
        (self.major, self.minor, self.patch, self.pre@, self.build@)
    }
}

impl Version {
    /// The canonical text of this version.
    pub open spec fn spec_text(&self) -> Seq<char> {
        version_text(self.major, self.minor, self.patch, self.pre@, self.build@)
    }

    /// A release version without pre-release tag or build metadata.
    pub fn new(major: u64, minor: u64, patch: u64) -> (r: Version)
        ensures
            r@ == (major, minor, patch, Seq::<char>::empty(), Seq::<char>::empty()),
    {
        Version { major, minor, patch, pre: String::new(), build: String::new() }
    }

    /// The canonical text of this version, e.g. `1.2.3-rc1`.
    pub fn text(&self) -> (r: String)
        ensures
            r@ == self.spec_text(),
    {
        let mut r = String::new();
        push_decimal(&mut r, self.major);
        r.append(".");
        push_decimal(&mut r, self.minor);
        r.append(".");
        push_decimal(&mut r, self.patch);
        if self.pre.unicode_len() > 0 {
            r.append("-");
            r.append(self.pre.as_str());
        }
        if self.build.unicode_len() > 0 {
            r.append("+");
            r.append(self.build.as_str());
        }
        r
    }

    /// Whether two versions have the same parts.
    pub fn same(&self, other: &Version) -> (r: bool)
        ensures
            r == (self@ == other@),
    {
        self.major == other.major && self.minor == other.minor && self.patch == other.patch
            && self.pre == other.pre && self.build == other.build
    }
}

} // verus!
