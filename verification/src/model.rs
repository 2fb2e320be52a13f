//! The data model: architecture kinds, compilation units, the arena of
//! packages, targets and profiles that units index into, the build
//! configuration, and the error taxonomy.

use vstd::prelude::*;

verus! {

/// Whether a unit is compiled to run on the build machine (`Host`) or for the
/// final target architecture (`Target`).
#[derive(Clone, Copy, PartialEq, Eq, Hash, Debug, Structural)]
pub enum Kind {
    Host,
    Target,
}

/// One thing to compile: a package, a buildable target inside it, the build
/// profile, and the architecture kind. The first three are indices into the
/// session's [`Arena`], so units are cheap, copyable identities and two units
/// are equal exactly when all four components are.
#[derive(Clone, Copy, PartialEq, Eq, Hash, Debug, Structural)]
pub struct Unit {
    pub pkg: usize,
    pub target: usize,
    pub profile: usize,
    pub kind: Kind,
}

/// Two units built from the same package, target, profile and kind are the
/// same unit, and distinct components give distinct units.
pub proof fn lemma_unit_identity(u1: Unit, u2: Unit)
    ensures
        (u1 == u2) <==> (u1.pkg == u2.pkg && u1.target == u2.target && u1.profile == u2.profile
            && u1.kind == u2.kind),
{
}

/// Type of each file generated by a unit.
#[derive(Copy, Clone, PartialEq, Eq, Debug, Structural)]
pub enum TargetFileType {
    /// Not a special file type.
    Normal,
    /// Something that can be linked against (e.g. a library).
    Linkable,
    /// A piece of external debug information.
    DebugInfo,
}

/// One buildable artifact description inside a package.
#[derive(Clone, Copy, PartialEq, Eq, Debug, Structural)]
pub struct TargetModel {
    /// True for build scripts and procedural-macro/plugin crates: the artifact
    /// must be compiled for, and run on, the build machine.
    pub for_host: bool,
}

/// A named bundle of build-mode parameters.
#[derive(Clone, Copy, PartialEq, Eq, Debug, Structural)]
pub struct ProfileModel {
    /// This profile stands for the execution of a custom build script.
    pub run_custom_build: bool,
    /// Whether this profile permits incremental compilation by default.
    pub incremental: bool,
}

/// A dependency declared by a package: the package depended on and an
/// optional platform predicate gating it.
#[derive(Clone)]
pub struct DepModel {
    /// Index of the package depended on.
    pub pkg: usize,
    /// If present, the dependency is active only on matching platforms.
    pub platform: Option<crate::cfgs::Platform>,
}

/// One package of the already-resolved dependency graph.
#[derive(Clone)]
pub struct PackageModel {
    /// The target a dependency on this package resolves to (its library).
    pub lib_target: usize,
    /// The declared dependencies of this package.
    pub deps: Vec<DepModel>,
    /// True when the package originates from a locally editable source
    /// location rather than a registry or version-control checkout.
    pub is_local: bool,
}

/// The named profiles of the session, as indices into the arena's profiles.
#[derive(Clone, Copy, PartialEq, Eq, Debug, Structural)]
pub struct Profiles {
    pub dev: usize,
    pub release: usize,
    pub test_deps: usize,
    pub bench_deps: usize,
}

/// The arena owning all packages, targets and profiles of the session.
/// Units hold indices into it. Packages are topologically ordered: every
/// dependency of a package has a strictly smaller index, which models the
/// requirement that the resolved package graph is acyclic.
pub struct Arena {
    pub packages: Vec<PackageModel>,
    pub targets: Vec<TargetModel>,
    pub profiles: Vec<ProfileModel>,
}

impl Arena {
    /// Package `p` is internally consistent: its library target exists and
    /// every dependency points at an earlier package.
    pub open spec fn pkg_wf(&self, p: int) -> bool {
        &&& self.packages@[p].lib_target < self.targets@.len()
        &&& forall|d: int|
            0 <= d < self.packages@[p].deps@.len() ==> (#[trigger] self.packages@[p].deps@[d]).pkg
                < p
    }

    /// The whole arena is well formed.
    pub open spec fn wf(&self) -> bool {
        forall|p: int| 0 <= p < self.packages@.len() ==> #[trigger] self.pkg_wf(p)
    }

    /// The unit's indices all lie inside the arena.
    pub open spec fn unit_wf(&self, u: Unit) -> bool {
        &&& u.pkg < self.packages@.len()
        &&& u.target < self.targets@.len()
        &&& u.profile < self.profiles@.len()
    }

    /// The profile selection indices all lie inside the arena.
    pub open spec fn profiles_wf(&self, ps: Profiles) -> bool {
        &&& ps.dev < self.profiles@.len()
        &&& ps.release < self.profiles@.len()
        &&& ps.test_deps < self.profiles@.len()
        &&& ps.bench_deps < self.profiles@.len()
    }

    /// Decide `wf` at run time, for callers handed an arena from outside.
    pub fn check_wf(&self) -> (r: bool)
        ensures
            r == self.wf(),
    {
        let np = self.packages.len();
        let mut p: usize = 0;
        while p < np
            invariant
                np == self.packages@.len(),
                p <= np,
                forall|k: int| 0 <= k < p ==> #[trigger] self.pkg_wf(k),
            decreases np - p,
        {
            if self.packages[p].lib_target >= self.targets.len() {
                proof {
                    assert(!self.pkg_wf(p as int));
                }
                return false;
            }
            let deps = &self.packages[p].deps;
            let nd = deps.len();
            let mut d: usize = 0;
            while d < nd
                invariant
                    np == self.packages@.len(),
                    p < np,
                    deps == &self.packages@[p as int].deps,
                    nd == deps@.len(),
                    d <= nd,
                    forall|k: int|
                        0 <= k < d ==> (#[trigger] self.packages@[p as int].deps@[k]).pkg < p,
                decreases nd - d,
            {
                if deps[d].pkg >= p {
                    proof {
                        assert(!self.pkg_wf(p as int));
                    }
                    return false;
                }
                d = d + 1;
            }
            proof {
                assert(self.pkg_wf(p as int));
            }
            p = p + 1;
        }
        true
    }

    /// Decide `unit_wf` at run time.
    pub fn check_unit_wf(&self, u: &Unit) -> (r: bool)
        ensures
            r == self.unit_wf(*u),
    {
        u.pkg < self.packages.len() && u.target < self.targets.len() && u.profile
            < self.profiles.len()
    }

    /// Decide `profiles_wf` at run time.
    pub fn check_profiles_wf(&self, ps: &Profiles) -> (r: bool)
        ensures
            r == self.profiles_wf(*ps),
    {
        ps.dev < self.profiles.len() && ps.release < self.profiles.len() && ps.test_deps
            < self.profiles.len() && ps.bench_deps < self.profiles.len()
    }
}

/// User configuration for one architecture side of the build.
#[derive(Clone)]
pub struct TargetConfig {
    /// User-specified linker program, if any.
    pub linker: Option<String>,
    /// User-specified archiver program, if any.
    pub ar: Option<String>,
}

/// The global build configuration handed in by the caller.
#[derive(Clone)]
pub struct BuildConfig {
    /// The triple of the machine performing the build.
    pub host_triple: String,
    /// The explicitly requested target triple, if any.
    pub requested_target: Option<String>,
    /// How many compiler processes may run concurrently.
    pub jobs: u32,
    /// Whether this is a release build.
    pub release: bool,
    /// Whether this is a test build.
    pub test: bool,
    /// Host-side user configuration.
    pub host: TargetConfig,
    /// Target-side user configuration.
    pub target: TargetConfig,
}

/// Everything that can fail while constructing the build context.
#[derive(Clone, PartialEq, Eq, Debug)]
pub enum ContextError {
    /// The compiler emitted no line for a crate type where one was expected.
    MalformedCrateTypeOutput { crate_type: String },
    /// A crate-type line was missing the prefix/suffix delimiter.
    MalformedFileNamesOutput,
    /// The sysroot line was missing from the combined probe output.
    MissingSysroot,
    /// An active-configuration line from the compiler could not be parsed.
    MalformedCfgLine { line: String },
    /// Creating the private concurrency token pool failed.
    PoolCreation,
    /// Acquiring a concurrency token failed with an input/output error.
    TokenAcquire,
    /// A separate host probe was needed but not supplied.
    ProbeMissing,
    /// A package id was queried that the arena does not hold.
    PackageNotFound,
    /// A unit's dependencies were queried before the graph computed them.
    IncompleteGraph,
}

impl ContextError {
    /// A human-readable report of the failure, naming the crate type or the
    /// line under inspection where one is known.
    pub fn message(&self) -> (r: String)
        ensures
            match self {
                ContextError::MalformedCrateTypeOutput { crate_type } => r@
                    == "malformed output when learning about crate-type "@ + crate_type@
                    + " information"@,
                ContextError::MalformedFileNamesOutput => r@
                    == "the file-names listing of the compiler cannot be parsed"@,
                ContextError::MissingSysroot => r@
                    == "output of the sysroot query missing when learning about target-specific information"@,
                ContextError::MalformedCfgLine { line } => r@
                    == "failed to parse the configuration predicate `"@ + line@ + "`"@,
                ContextError::PoolCreation => r@ == "failed to create the concurrency token pool"@,
                ContextError::TokenAcquire => r@ == "failed to acquire a concurrency token"@,
                ContextError::ProbeMissing => r@
                    == "no probe output was supplied for the host architecture"@,
                ContextError::PackageNotFound => r@ == "package id not found in this session"@,
                ContextError::IncompleteGraph => r@
                    == "dependencies queried for a unit the graph never computed"@,
            },
    {
        match self {
            ContextError::MalformedCrateTypeOutput { crate_type } => {
                let mut m = "malformed output when learning about crate-type ".to_owned();
                m.append(crate_type.as_str());
                m.append(" information");
                m
            },
            ContextError::MalformedFileNamesOutput => {
                "the file-names listing of the compiler cannot be parsed".to_owned()
            },
            ContextError::MissingSysroot => {
                "output of the sysroot query missing when learning about target-specific information".to_owned()
            },
            ContextError::MalformedCfgLine { line } => {
                let mut m = "failed to parse the configuration predicate `".to_owned();
                m.append(line.as_str());
                m.append("`");
                m
            },
            ContextError::PoolCreation => {
                "failed to create the concurrency token pool".to_owned()
            },
            ContextError::TokenAcquire => "failed to acquire a concurrency token".to_owned(),
            ContextError::ProbeMissing => {
                "no probe output was supplied for the host architecture".to_owned()
            },
            ContextError::PackageNotFound => "package id not found in this session".to_owned(),
            ContextError::IncompleteGraph => {
                "dependencies queried for a unit the graph never computed".to_owned()
            },
        }
    }
}

} // verus!
