//! The build context: one immutable, query-only facade composing the probed
//! per-architecture capability tables, the unit dependency graph, the flag
//! and incremental-compilation configuration snapshots, and the concurrency
//! token pool. Construction runs front to back and fails as a whole on the
//! first error; no partial context is ever returned.

use vstd::prelude::*;

use crate::cfgs::Cfg;
use crate::flags::{resolve_flags, resolved_flags, FlagConfig};
use crate::graph::{
    build_unit_graph, graph_at, graph_closed, graph_contains_key, graph_edges_decrease,
    graph_keys_unique, unit_deps_spec, UnitGraph,
};
use crate::incremental::{incremental_args_for, incremental_args_spec};
use crate::model::{Arena, BuildConfig, ContextError, Kind, Profiles, TargetConfig, Unit};
use crate::plugin::{plugin_marked, walk_used_in_plugin};
use crate::pool::TokenPool;
use crate::probe::{parse_probe_output, probe_spec, TargetInfo};
use crate::strings::{str_eq, views_of};

verus! {

/// The captured configuration-file snapshot consumed at construction.
pub struct ConfigSnapshot {
    /// Sections carrying extra compiler flags.
    pub rustflags: FlagConfig,
    /// Sections carrying extra documentation-compiler flags.
    pub rustdocflags: FlagConfig,
    /// The global incremental-compilation toggle, if configured.
    pub incremental: Option<bool>,
    /// Whether warnings are shown even for non-local packages.
    pub extra_verbose: bool,
}

/// The captured environment-variable snapshot consumed at construction.
pub struct EnvSnapshot {
    /// The global incremental-compilation override variable, verbatim.
    pub incremental: Option<String>,
    /// The extra compiler flags variable, verbatim.
    pub rustflags: Option<String>,
    /// The extra documentation-compiler flags variable, verbatim.
    pub rustdocflags: Option<String>,
}

/// The raw output of one compiler probe invocation.
pub struct ProbeRaw {
    /// What the compiler printed on its output stream.
    pub stdout: String,
    /// What the compiler printed on its error stream.
    pub stderr: String,
    /// Whether the combined query (file names, sysroot, configuration)
    /// succeeded; when false, only the file-name lines are present.
    pub has_extra: bool,
}

/// The effective triple the build targets: the requested one, or the host's.
pub open spec fn target_triple_spec(bc: BuildConfig) -> Seq<char> {
    match bc.requested_target {
        Some(t) => t@,
        None => bc.host_triple@,
    }
}

/// Host and target need separate probes exactly when a target triple was
/// requested and differs from the host triple.
pub open spec fn separate_probe_spec(bc: BuildConfig) -> bool {
    match bc.requested_target {
        Some(t) => t@ != bc.host_triple@,
        None => false,
    }
}

/// Whether host and target must be probed separately.
pub fn needs_separate_target_probe(bc: &BuildConfig) -> (r: bool)
    ensures
        r == separate_probe_spec(*bc),
{
    match &bc.requested_target {
        Some(t) => !str_eq(t.as_str(), bc.host_triple.as_str()),
        None => false,
    }
}

/// The profile that dependencies are built with: the development or release
/// profile, or their test/bench counterparts in a test build.
pub open spec fn lib_profile_spec(ps: Profiles, bc: BuildConfig) -> usize {
    if bc.test {
        if bc.release {
            ps.bench_deps
        } else {
            ps.test_deps
        }
    } else {
        if bc.release {
            ps.release
        } else {
            ps.dev
        }
    }
}

/// View of an optional active-configuration list.
pub open spec fn opt_cfgs_view(c: Option<Vec<Cfg>>) -> Option<Seq<Cfg>> {
    match c {
        Some(v) => Some(v@),
        None => None,
    }
}

/// View of an optional string.
pub open spec fn opt_str_view(s: Option<String>) -> Option<Seq<char>> {
    match s {
        Some(v) => Some(v@),
        None => None,
    }
}

/// The build context, containing all information about a build task.
pub struct Context {
    /// The arena of packages, targets and profiles units index into.
    pub arena: Arena,
    /// The global build configuration.
    pub build_config: BuildConfig,
    /// The named profile selection.
    pub profiles: Profiles,
    /// (Package, kind) pairs whose build-script execution is overridden.
    pub build_script_overridden: Vec<(usize, Kind)>,
    /// Units that feed, directly or transitively, something host-requiring.
    pub used_in_plugin: Vec<Unit>,
    /// The concurrency token pool.
    pub jobserver: TokenPool,
    /// Probed facts for the target architecture.
    pub target_info: TargetInfo,
    /// Probed facts for the host architecture.
    pub host_info: TargetInfo,
    /// The captured incremental-compilation environment override.
    pub incremental_env: Option<bool>,
    /// The configured global incremental-compilation toggle.
    pub global_incremental: Option<bool>,
    /// Flag sections for the compiler.
    pub rustflags_config: FlagConfig,
    /// Flag sections for the documentation compiler.
    pub rustdocflags_config: FlagConfig,
    /// The captured compiler-flags environment override.
    pub env_rustflags: Option<String>,
    /// The captured documentation-compiler-flags environment override.
    pub env_rustdocflags: Option<String>,
    /// Whether warnings are shown even for non-local packages.
    pub extra_verbose: bool,
    /// The incremental state directory for host units.
    pub host_incremental_dir: String,
    /// The incremental state directory for target units.
    pub target_incremental_dir: String,
    /// The finished unit dependency graph.
    pub unit_dependencies: UnitGraph,
}

impl Context {
    /// The probed facts for one kind.
    pub open spec fn info_cfg(&self, kind: Kind) -> Option<Vec<Cfg>> {
        match kind {
            Kind::Host => self.host_info.cfg,
            Kind::Target => self.target_info.cfg,
        }
    }

    /// The user configuration for one kind.
    pub open spec fn target_config_spec(&self, kind: Kind) -> TargetConfig {
        match kind {
            Kind::Host => self.build_config.host,
            Kind::Target => self.build_config.target,
        }
    }

    /// The incremental state directory for one kind.
    pub open spec fn incr_dir_spec(&self, kind: Kind) -> Seq<char> {
        match kind {
            Kind::Host => self.host_incremental_dir@,
            Kind::Target => self.target_incremental_dir@,
        }
    }

    /// Structural well-formedness: the arena, the profile selection and the
    /// graph are consistent, and the plugin set holds no duplicates.
    pub open spec fn wf(&self) -> bool {
        &&& self.arena.wf()
        &&& self.arena.profiles_wf(self.profiles)
        &&& graph_keys_unique(self.unit_dependencies@)
        &&& graph_closed(self.unit_dependencies@)
        &&& graph_edges_decrease(self.unit_dependencies@)
        &&& forall|i: int|
            0 <= i < self.unit_dependencies@.len() ==> self.arena.unit_wf(
                (#[trigger] self.unit_dependencies@[i]).0,
            )
        &&& self.used_in_plugin@.no_duplicates()
    }

    /// Construct the context: capture the environment and configuration
    /// snapshots, attach to or create the token pool, parse the probe output
    /// for each architecture (reusing one probe when host and target triples
    /// coincide), and expand the root units into the complete dependency
    /// graph. Any failure aborts construction; no partial context escapes.
    pub fn new(
        arena: Arena,
        build_config: BuildConfig,
        profiles: Profiles,
        roots: &Vec<Unit>,
        config: ConfigSnapshot,
        env: EnvSnapshot,
        host_probe: Option<ProbeRaw>,
        target_probe: ProbeRaw,
        overrides: Vec<(usize, Kind)>,
        env_client: Option<&jobserver::Client>,
        windows_host: bool,
        host_incremental_dir: String,
        target_incremental_dir: String,
    ) -> (r: Result<Context, ContextError>)
        requires
            arena.wf(),
            arena.profiles_wf(profiles),
            forall|i: int| 0 <= i < roots@.len() ==> arena.unit_wf(#[trigger] roots@[i]),
            build_config.jobs >= 1,
        ensures
            match r {
                Ok(cx) => {
                    &&& cx.wf()
                    &&& cx.arena == arena
                    &&& cx.build_config == build_config
                    &&& cx.profiles == profiles
                    &&& cx.build_script_overridden == overrides
                    &&& cx.used_in_plugin@ == Seq::<Unit>::empty()
                    &&& cx.jobserver.shared == (env_client is Some)
                    &&& cx.rustflags_config == config.rustflags
                    &&& cx.rustdocflags_config == config.rustdocflags
                    &&& cx.global_incremental == config.incremental
                    &&& cx.extra_verbose == config.extra_verbose
                    &&& cx.env_rustflags == env.rustflags
                    &&& cx.env_rustdocflags == env.rustdocflags
                    &&& cx.host_incremental_dir == host_incremental_dir
                    &&& cx.target_incremental_dir == target_incremental_dir
                    &&& cx.incremental_env == (match env.incremental {
                        Some(s) => Some(s@ == "1"@),
                        None => None,
                    })
                    &&& probe_spec(
                        Kind::Target,
                        target_triple_spec(build_config),
                        target_probe.has_extra,
                        windows_host,
                        target_probe.stdout@,
                        target_probe.stderr@,
                    ) == Some(cx.target_info@)
                    &&& !separate_probe_spec(build_config) ==> cx.host_info@ == cx.target_info@
                    &&& separate_probe_spec(build_config) ==> (host_probe matches Some(hp)
                        && probe_spec(
                        Kind::Host,
                        build_config.host_triple@,
                        hp.has_extra,
                        windows_host,
                        hp.stdout@,
                        hp.stderr@,
                    ) == Some(cx.host_info@))
                    &&& forall|i: int|
                        0 <= i < roots@.len() ==> graph_contains_key(
                            cx.unit_dependencies@,
                            #[trigger] roots@[i],
                        )
                    &&& forall|i: int|
                        0 <= i < cx.unit_dependencies@.len() ==> (
                        #[trigger] cx.unit_dependencies@[i]).1 == unit_deps_spec(
                            arena,
                            cx.unit_dependencies@[i].0,
                            lib_profile_spec(profiles, build_config),
                            overrides@,
                            build_config.host_triple@,
                            target_triple_spec(build_config),
                            opt_cfgs_view(cx.host_info.cfg),
                            opt_cfgs_view(cx.target_info.cfg),
                        )
                },
                Err(e) => {
                    ||| (e == ContextError::PoolCreation && env_client is None)
                    ||| (e == ContextError::ProbeMissing && separate_probe_spec(build_config)
                        && host_probe is None)
                    ||| ((e matches ContextError::MalformedCrateTypeOutput { .. } || e
                        matches ContextError::MalformedFileNamesOutput || e
                        matches ContextError::MissingSysroot || e
                        matches ContextError::MalformedCfgLine { .. }) && (probe_spec(
                        Kind::Target,
                        target_triple_spec(build_config),
                        target_probe.has_extra,
                        windows_host,
                        target_probe.stdout@,
                        target_probe.stderr@,
                    ) is None || (separate_probe_spec(build_config) && (host_probe
                        matches Some(hp) && probe_spec(
                        Kind::Host,
                        build_config.host_triple@,
                        hp.has_extra,
                        windows_host,
                        hp.stdout@,
                        hp.stderr@,
                    ) is None))))
                },
            },
    {
        let incremental_env: Option<bool> = match &env.incremental {
            Some(s) => Some(str_eq(s.as_str(), "1")),
            None => None,
        };
        let pool = match TokenPool::new(env_client, build_config.jobs) {
            Ok(p) => p,
            Err(e) => {
                return Err(e);
            },
        };
        let target_triple: &str = match &build_config.requested_target {
            Some(t) => t.as_str(),
            None => build_config.host_triple.as_str(),
        };
        let target_info = match parse_probe_output(
            Kind::Target,
            target_triple,
            target_probe.has_extra,
            windows_host,
            target_probe.stdout.as_str(),
            target_probe.stderr.as_str(),
        ) {
            Ok(info) => info,
            Err(e) => {
                return Err(e);
            },
        };
        let separate = needs_separate_target_probe(&build_config);
        let host_info = if separate {
            match &host_probe {
                Some(hp) => {
                    match parse_probe_output(
                        Kind::Host,
                        build_config.host_triple.as_str(),
                        hp.has_extra,
                        windows_host,
                        hp.stdout.as_str(),
                        hp.stderr.as_str(),
                    ) {
                        Ok(info) => info,
                        Err(e) => {
                            return Err(e);
                        },
                    }
                },
                None => {
                    return Err(ContextError::ProbeMissing);
                },
            }
        } else {
            match parse_probe_output(
                Kind::Target,
                target_triple,
                target_probe.has_extra,
                windows_host,
                target_probe.stdout.as_str(),
                target_probe.stderr.as_str(),
            ) {
                Ok(info) => info,
                Err(e) => {
                    return Err(e);
                },
            }
        };
        let lib_profile = if build_config.test {
            if build_config.release {
                profiles.bench_deps
            } else {
                profiles.test_deps
            }
        } else {
            if build_config.release {
                profiles.release
            } else {
                profiles.dev
            }
        };
        let host_cfg: Option<&Vec<Cfg>> = match &host_info.cfg {
            Some(v) => Some(v),
            None => None,
        };
        let target_cfg: Option<&Vec<Cfg>> = match &target_info.cfg {
            Some(v) => Some(v),
            None => None,
        };
        let graph = build_unit_graph(
            &arena,
            roots,
            lib_profile,
            &overrides,
            build_config.host_triple.as_str(),
            target_triple,
            host_cfg,
            target_cfg,
        );
        let cx = Context {
            arena,
            build_config,
            profiles,
            build_script_overridden: overrides,
            used_in_plugin: Vec::new(),
            jobserver: pool,
            target_info,
            host_info,
            incremental_env,
            global_incremental: config.incremental,
            rustflags_config: config.rustflags,
            rustdocflags_config: config.rustdocflags,
            env_rustflags: env.rustflags,
            env_rustdocflags: env.rustdocflags,
            extra_verbose: config.extra_verbose,
            host_incremental_dir,
            target_incremental_dir,
            unit_dependencies: graph,
        };
        Ok(cx)
    }

    /// The triple of the machine performing the build.
    pub fn host_triple(&self) -> (r: &str)
        ensures
            r@ == self.build_config.host_triple@,
    {
        self.build_config.host_triple.as_str()
    }

    /// The triple this context targets: the requested one, or the host's.
    pub fn target_triple(&self) -> (r: &str)
        ensures
            r@ == target_triple_spec(self.build_config),
    {
        match &self.build_config.requested_target {
            Some(t) => t.as_str(),
            None => self.build_config.host_triple.as_str(),
        }
    }

    /// The requested (not effective) target triple of the build.
    pub fn requested_target(&self) -> (r: Option<&str>)
        ensures
            match r {
                Some(t) => self.build_config.requested_target matches Some(s) && s@ == t@,
                None => self.build_config.requested_target is None,
            },
    {
        match &self.build_config.requested_target {
            Some(t) => Some(t.as_str()),
            None => None,
        }
    }

    /// Number of jobs specified for this build.
    pub fn jobs(&self) -> (r: u32)
        ensures
            r == self.build_config.jobs,
    {
        self.build_config.jobs
    }

    /// The profile dependencies are built with.
    pub fn lib_profile(&self) -> (r: usize)
        ensures
            r == lib_profile_spec(self.profiles, self.build_config),
    {
        if self.build_config.test {
            if self.build_config.release {
                self.profiles.bench_deps
            } else {
                self.profiles.test_deps
            }
        } else {
            if self.build_config.release {
                self.profiles.release
            } else {
                self.profiles.dev
            }
        }
    }

    /// The profile build scripts are built with: the dependency profile.
    pub fn build_script_profile(&self, _pkg: usize) -> (r: usize)
        ensures
            r == lib_profile_spec(self.profiles, self.build_config),
    {
        self.lib_profile()
    }

    /// The package with the given id.
    pub fn get_package(&self, id: usize) -> (r: Result<&crate::model::PackageModel, ContextError>)
        ensures
            match r {
                Ok(_) => id < self.arena.packages@.len(),
                Err(e) => id >= self.arena.packages@.len() && e
                    == ContextError::PackageNotFound,
            },
    {
        if id < self.arena.packages.len() {
            Ok(&self.arena.packages[id])
        } else {
            Err(ContextError::PackageNotFound)
        }
    }

    /// The user-specified linker for one kind, if any.
    pub fn linker(&self, kind: Kind) -> (r: Option<&String>)
        ensures
            match r {
                Some(s) => self.target_config_spec(kind).linker == Some(*s),
                None => self.target_config_spec(kind).linker is None,
            },
    {
        match kind {
            Kind::Host => match &self.build_config.host.linker {
                Some(s) => Some(s),
                None => None,
            },
            Kind::Target => match &self.build_config.target.linker {
                Some(s) => Some(s),
                None => None,
            },
        }
    }

    /// The user-specified archiver for one kind, if any.
    pub fn ar(&self, kind: Kind) -> (r: Option<&String>)
        ensures
            match r {
                Some(s) => self.target_config_spec(kind).ar == Some(*s),
                None => self.target_config_spec(kind).ar is None,
            },
    {
        match kind {
            Kind::Host => match &self.build_config.host.ar {
                Some(s) => Some(s),
                None => None,
            },
            Kind::Target => match &self.build_config.target.ar {
                Some(s) => Some(s),
                None => None,
            },
        }
    }

    /// The active configuration predicates probed for one kind, when the
    /// combined query succeeded.
    pub fn cfg(&self, kind: Kind) -> (r: Option<&Vec<Cfg>>)
        ensures
            match r {
                Some(c) => opt_cfgs_view(self.info_cfg(kind)) == Some(c@),
                None => self.info_cfg(kind) is None,
            },
    {
        match kind {
            Kind::Host => match &self.host_info.cfg {
                Some(v) => Some(v),
                None => None,
            },
            Kind::Target => match &self.target_info.cfg {
                Some(v) => Some(v),
                None => None,
            },
        }
    }

    /// All units registered as dependencies of the given unit. A unit whose
    /// profile runs an overridden custom build script has none: the override
    /// supersedes further discovery. Querying a unit the graph never
    /// computed is a construction-order fault, reported as an error.
    pub fn dep_targets(&self, unit: &Unit) -> (r: Result<Vec<Unit>, ContextError>)
        requires
            self.arena.unit_wf(*unit),
        ensures
            match r {
                Ok(d) => {
                    &&& (self.arena.profiles@[unit.profile as int].run_custom_build
                        && self.build_script_overridden@.contains((unit.pkg, unit.kind))) ==> d@
                        == Seq::<Unit>::empty()
                    &&& !(self.arena.profiles@[unit.profile as int].run_custom_build
                        && self.build_script_overridden@.contains((unit.pkg, unit.kind)))
                        ==> graph_contains_key(self.unit_dependencies@, *unit) && d@ == graph_at(
                        self.unit_dependencies@,
                        *unit,
                    )
                },
                Err(e) => !(self.arena.profiles@[unit.profile as int].run_custom_build
                    && self.build_script_overridden@.contains((unit.pkg, unit.kind)))
                    && !graph_contains_key(self.unit_dependencies@, *unit) && e
                    == ContextError::IncompleteGraph,
            },
    {
        if self.arena.profiles[unit.profile].run_custom_build && crate::graph::override_contains(
            &self.build_script_overridden,
            unit.pkg,
            unit.kind,
        ) {
            let d: Vec<Unit> = Vec::new();
            return Ok(d);
        }
        match self.unit_dependencies.get(unit) {
            Some(d) => {
                let n = d.len();
                let mut out: Vec<Unit> = Vec::new();
                let mut i: usize = 0;
                while i < n
                    invariant
                        n == d@.len(),
                        i <= n,
                        out@ =~= d@.subrange(0, i as int),
                    decreases n - i,
                {
                    out.push(d[i]);
                    i = i + 1;
                }
                proof {
                    assert(out@ =~= d@);
                }
                Ok(out)
            },
            None => Err(ContextError::IncompleteGraph),
        }
    }

    /// Whether a platform-gated dependency is active for one kind.
    pub fn dep_platform_activated(&self, dep: &crate::model::DepModel, kind: Kind) -> (r: bool)
        ensures
            r == crate::graph::dep_active(
                *dep,
                kind,
                self.build_config.host_triple@,
                target_triple_spec(self.build_config),
                opt_cfgs_view(self.host_info.cfg),
                opt_cfgs_view(self.target_info.cfg),
            ),
    {
        match &dep.platform {
            None => true,
            Some(p) => match kind {
                Kind::Host => crate::cfgs::platform_matches_exec(
                    p,
                    self.build_config.host_triple.as_str(),
                    match &self.host_info.cfg {
                        Some(v) => Some(v),
                        None => None,
                    },
                ),
                Kind::Target => crate::cfgs::platform_matches_exec(
                    p,
                    self.target_triple(),
                    match &self.target_info.cfg {
                        Some(v) => Some(v),
                        None => None,
                    },
                ),
            },
        }
    }

    /// The extra compiler arguments requesting incremental compilation for
    /// one unit.
    pub fn incremental_args(&self, unit: &Unit) -> (r: Vec<String>)
        requires
            self.arena.unit_wf(*unit),
        ensures
            views_of(r@) =~= incremental_args_spec(
                self.incremental_env,
                self.global_incremental,
                self.arena.profiles@[unit.profile as int].incremental,
                self.arena.packages@[unit.pkg as int].is_local,
                self.incr_dir_spec(unit.kind),
            ),
    {
        let profile_default = self.arena.profiles[unit.profile].incremental;
        let is_local = self.arena.packages[unit.pkg].is_local;
        let dir: &str = match unit.kind {
            Kind::Host => self.host_incremental_dir.as_str(),
            Kind::Target => self.target_incremental_dir.as_str(),
        };
        incremental_args_for(
            self.incremental_env,
            self.global_incremental,
            profile_default,
            is_local,
            dir,
        )
    }

    /// The extra compiler flags for one unit.
    pub fn rustflags_args(&self, unit: &Unit) -> (r: Vec<String>)
        ensures
            resolved_flags(
                opt_str_view(self.build_config.requested_target),
                self.build_config.host_triple@,
                unit.kind,
                opt_str_view(self.env_rustflags),
                opt_cfgs_view(self.info_cfg(unit.kind)),
                self.rustflags_config,
                views_of(r@),
            ),
    {
        let active: Option<&Vec<Cfg>> = match unit.kind {
            Kind::Host => match &self.host_info.cfg {
                Some(v) => Some(v),
                None => None,
            },
            Kind::Target => match &self.target_info.cfg {
                Some(v) => Some(v),
                None => None,
            },
        };
        resolve_flags(
            &self.build_config.requested_target,
            self.build_config.host_triple.as_str(),
            unit.kind,
            &self.env_rustflags,
            active,
            &self.rustflags_config,
        )
    }

    /// The extra documentation-compiler flags for one unit.
    pub fn rustdocflags_args(&self, unit: &Unit) -> (r: Vec<String>)
        ensures
            resolved_flags(
                opt_str_view(self.build_config.requested_target),
                self.build_config.host_triple@,
                unit.kind,
                opt_str_view(self.env_rustdocflags),
                opt_cfgs_view(self.info_cfg(unit.kind)),
                self.rustdocflags_config,
                views_of(r@),
            ),
    {
        let active: Option<&Vec<Cfg>> = match unit.kind {
            Kind::Host => match &self.host_info.cfg {
                Some(v) => Some(v),
                None => None,
            },
            Kind::Target => match &self.target_info.cfg {
                Some(v) => Some(v),
                None => None,
            },
        };
        resolve_flags(
            &self.build_config.requested_target,
            self.build_config.host_triple.as_str(),
            unit.kind,
            &self.env_rustdocflags,
            active,
            &self.rustdocflags_config,
        )
    }

    /// Whether warnings are shown for the given package: always for locally
    /// editable sources, otherwise only in extra-verbose mode.
    pub fn show_warnings(&self, pkg: usize) -> (r: bool)
        requires
            pkg < self.arena.packages@.len(),
        ensures
            r == (self.arena.packages@[pkg as int].is_local || self.extra_verbose),
    {
        self.arena.packages[pkg].is_local || self.extra_verbose
    }

    /// Walk the finished graph from the given roots and mark every unit that
    /// feeds something host-requiring. Membership in the marked set only
    /// grows, so repeated calls with overlapping root sets are cumulative,
    /// and every new member is genuinely plugin-reachable from these roots.
    pub fn build_used_in_plugin_map(&mut self, roots: &Vec<Unit>)
        requires
            old(self).wf(),
            forall|i: int|
                0 <= i < roots@.len() ==> old(self).arena.unit_wf(#[trigger] roots@[i]),
        ensures
            final(self).wf(),
            final(self).arena == old(self).arena,
            final(self).build_config == old(self).build_config,
            final(self).profiles == old(self).profiles,
            final(self).build_script_overridden == old(self).build_script_overridden,
            final(self).jobserver == old(self).jobserver,
            final(self).target_info == old(self).target_info,
            final(self).host_info == old(self).host_info,
            final(self).incremental_env == old(self).incremental_env,
            final(self).global_incremental == old(self).global_incremental,
            final(self).rustflags_config == old(self).rustflags_config,
            final(self).rustdocflags_config == old(self).rustdocflags_config,
            final(self).env_rustflags == old(self).env_rustflags,
            final(self).env_rustdocflags == old(self).env_rustdocflags,
            final(self).extra_verbose == old(self).extra_verbose,
            final(self).host_incremental_dir == old(self).host_incremental_dir,
            final(self).target_incremental_dir == old(self).target_incremental_dir,
            final(self).unit_dependencies == old(self).unit_dependencies,
            forall|u: Unit|
                old(self).used_in_plugin@.contains(u) ==> final(self).used_in_plugin@.contains(
                    u,
                ),
            forall|u: Unit|
                final(self).used_in_plugin@.contains(u) ==> old(self).used_in_plugin@.contains(u)
                    || plugin_marked(
                    old(self).unit_dependencies@,
                    old(self).arena,
                    roots@,
                    u,
                ),
            forall|u: Unit|
                plugin_marked(old(self).unit_dependencies@, old(self).arena, roots@, u)
                    ==> final(self).used_in_plugin@.contains(u),
    {
        walk_used_in_plugin(&self.unit_dependencies, &self.arena, roots, &mut self.used_in_plugin);
    }
}

} // verus!
