use build_context::cfgs::Cfg;
use build_context::context::{
    needs_separate_target_probe, ConfigSnapshot, Context, EnvSnapshot, ProbeRaw,
};
use build_context::flags::FlagConfig;
use build_context::model::{
    Arena, BuildConfig, ContextError, DepModel, Kind, PackageModel, ProfileModel, Profiles,
    TargetConfig, TargetModel, Unit,
};

fn probe_stdout() -> String {
    "___\nlib___.rlib\nlib___.so\nlib___.so\nlib___.a\nlib___.so\n/sysroot\nunix\ntarget_os=\"linux\"\n"
        .to_string()
}

fn arena() -> Arena {
    Arena {
        packages: vec![
            PackageModel { lib_target: 0, deps: Vec::new(), is_local: false },
            PackageModel {
                lib_target: 1,
                deps: vec![DepModel { pkg: 0, platform: None }],
                is_local: true,
            },
        ],
        targets: vec![TargetModel { for_host: false }, TargetModel { for_host: false }],
        profiles: vec![
            ProfileModel { run_custom_build: false, incremental: true },
            ProfileModel { run_custom_build: false, incremental: false },
            ProfileModel { run_custom_build: false, incremental: true },
            ProfileModel { run_custom_build: false, incremental: false },
        ],
    }
}

fn profiles() -> Profiles {
    Profiles { dev: 0, release: 1, test_deps: 2, bench_deps: 3 }
}

fn build_config() -> BuildConfig {
    BuildConfig {
        host_triple: "x86_64-host".to_string(),
        requested_target: None,
        jobs: 2,
        release: false,
        test: false,
        host: TargetConfig { linker: Some("host-ld".to_string()), ar: None },
        target: TargetConfig { linker: None, ar: Some("target-ar".to_string()) },
    }
}

fn config_snapshot() -> ConfigSnapshot {
    ConfigSnapshot {
        rustflags: FlagConfig {
            target_sections: Vec::new(),
            build_flags: Some(vec!["-Cdefault".to_string()]),
        },
        rustdocflags: FlagConfig { target_sections: Vec::new(), build_flags: None },
        incremental: None,
        extra_verbose: false,
    }
}

fn make_context() -> Context {
    let root = Unit { pkg: 1, target: 1, profile: 0, kind: Kind::Target };
    Context::new(
        arena(),
        build_config(),
        profiles(),
        &vec![root],
        config_snapshot(),
        EnvSnapshot { incremental: Some("1".to_string()), rustflags: None, rustdocflags: None },
        None,
        ProbeRaw { stdout: probe_stdout(), stderr: String::new(), has_extra: true },
        Vec::new(),
        None,
        false,
        "/layout/host/incremental".to_string(),
        "/layout/target/incremental".to_string(),
    )
    .unwrap()
}

#[test]
fn context_answers_basic_queries() {
    let cx = make_context();
    // no inherited client was supplied, so the pool is private
    assert!(!cx.jobserver.shared);
    assert_eq!(cx.host_triple(), "x86_64-host");
    assert_eq!(cx.target_triple(), "x86_64-host");
    assert_eq!(cx.requested_target(), None);
    assert_eq!(cx.jobs(), 2);
    assert_eq!(cx.lib_profile(), 0);
    assert_eq!(cx.build_script_profile(0), 0);
    assert!(cx.get_package(1).is_ok());
    assert_eq!(cx.get_package(7).err(), Some(ContextError::PackageNotFound));
    assert_eq!(cx.linker(Kind::Host), Some(&"host-ld".to_string()));
    assert_eq!(cx.linker(Kind::Target), None);
    assert_eq!(cx.ar(Kind::Target), Some(&"target-ar".to_string()));
    assert_eq!(cx.ar(Kind::Host), None);
    assert!(!cx.show_warnings(0));
    assert!(cx.show_warnings(1));
}

#[test]
fn context_probe_results_are_shared_when_triples_coincide() {
    let cx = make_context();
    let cfgs = cx.cfg(Kind::Target).unwrap();
    assert_eq!(cfgs.len(), 2);
    let host_cfgs = cx.cfg(Kind::Host).unwrap();
    assert_eq!(host_cfgs.len(), 2);
    assert_eq!(
        cx.target_info.sysroot_libdir,
        Some("/sysroot/lib/rustlib/x86_64-host/lib".to_string())
    );
    assert_eq!(cx.host_info.sysroot_libdir, cx.target_info.sysroot_libdir);
}

#[test]
fn context_dep_targets_follow_the_graph() {
    let cx = make_context();
    let root = Unit { pkg: 1, target: 1, profile: 0, kind: Kind::Target };
    let dep = Unit { pkg: 0, target: 0, profile: 0, kind: Kind::Target };
    assert_eq!(cx.dep_targets(&root).unwrap(), vec![dep]);
    assert_eq!(cx.dep_targets(&dep).unwrap(), Vec::<Unit>::new());
    let unknown = Unit { pkg: 0, target: 0, profile: 1, kind: Kind::Host };
    assert_eq!(cx.dep_targets(&unknown).err(), Some(ContextError::IncompleteGraph));
}

#[test]
fn context_incremental_args_use_env_override_and_locality() {
    let cx = make_context();
    let local_root = Unit { pkg: 1, target: 1, profile: 0, kind: Kind::Target };
    let registry_dep = Unit { pkg: 0, target: 0, profile: 0, kind: Kind::Target };
    assert_eq!(
        cx.incremental_args(&local_root),
        vec!["-C".to_string(), "incremental=/layout/target/incremental".to_string()]
    );
    // a non-local source never compiles incrementally
    assert_eq!(cx.incremental_args(&registry_dep), Vec::<String>::new());
}

#[test]
fn context_rustflags_fall_back_to_blanket_configuration() {
    let cx = make_context();
    let root = Unit { pkg: 1, target: 1, profile: 0, kind: Kind::Target };
    assert_eq!(cx.rustflags_args(&root), vec!["-Cdefault".to_string()]);
    assert_eq!(cx.rustdocflags_args(&root), Vec::<String>::new());
}

#[test]
fn context_plugin_map_grows_monotonically() {
    let mut cx = make_context();
    let root = Unit { pkg: 1, target: 1, profile: 0, kind: Kind::Target };
    cx.build_used_in_plugin_map(&vec![root]);
    // no target requires the host here, so nothing is marked
    assert_eq!(cx.used_in_plugin, Vec::<Unit>::new());
}

#[test]
fn separate_probe_needed_only_for_foreign_requested_target() {
    let mut bc = build_config();
    assert!(!needs_separate_target_probe(&bc));
    bc.requested_target = Some("x86_64-host".to_string());
    assert!(!needs_separate_target_probe(&bc));
    bc.requested_target = Some("arm-none".to_string());
    assert!(needs_separate_target_probe(&bc));
}

#[test]
fn missing_host_probe_fails_construction() {
    let mut bc = build_config();
    bc.requested_target = Some("arm-none".to_string());
    let root = Unit { pkg: 1, target: 1, profile: 0, kind: Kind::Target };
    let r = Context::new(
        arena(),
        bc,
        profiles(),
        &vec![root],
        config_snapshot(),
        EnvSnapshot { incremental: None, rustflags: None, rustdocflags: None },
        None,
        ProbeRaw { stdout: probe_stdout(), stderr: String::new(), has_extra: true },
        Vec::new(),
        None,
        false,
        "/h".to_string(),
        "/t".to_string(),
    );
    assert_eq!(r.err().map(|e| format!("{:?}", e)), Some("ProbeMissing".to_string()));
}

#[test]
fn cross_compiling_context_keeps_host_and_target_apart() {
    let mut bc = build_config();
    bc.requested_target = Some("arm-none".to_string());
    let root = Unit { pkg: 1, target: 1, profile: 0, kind: Kind::Target };
    let host_stdout = "___\nlib___.rlib\nlib___.so\nlib___.so\nlib___.a\nlib___.so\n/hostroot\nunix\n";
    let cx = Context::new(
        arena(),
        bc,
        profiles(),
        &vec![root],
        config_snapshot(),
        EnvSnapshot { incremental: None, rustflags: None, rustdocflags: None },
        Some(ProbeRaw {
            stdout: host_stdout.to_string(),
            stderr: String::new(),
            has_extra: true,
        }),
        ProbeRaw { stdout: probe_stdout(), stderr: String::new(), has_extra: true },
        Vec::new(),
        None,
        false,
        "/h".to_string(),
        "/t".to_string(),
    )
    .unwrap();
    assert_eq!(cx.target_triple(), "arm-none");
    assert_eq!(
        cx.target_info.sysroot_libdir,
        Some("/sysroot/lib/rustlib/arm-none/lib".to_string())
    );
    assert_eq!(cx.host_info.sysroot_libdir, Some("/hostroot/lib".to_string()));
    // with an explicitly requested target, host units get no flags
    let host_unit = Unit { pkg: 0, target: 0, profile: 0, kind: Kind::Host };
    assert_eq!(cx.rustflags_args(&host_unit), Vec::<String>::new());
}

#[test]
fn dep_targets_empty_for_overridden_build_script_unit() {
    let mut a = arena();
    a.profiles[0].run_custom_build = true;
    let root = Unit { pkg: 1, target: 1, profile: 0, kind: Kind::Target };
    let cx = Context::new(
        a,
        build_config(),
        profiles(),
        &vec![root],
        config_snapshot(),
        EnvSnapshot { incremental: None, rustflags: None, rustdocflags: None },
        None,
        ProbeRaw { stdout: probe_stdout(), stderr: String::new(), has_extra: true },
        vec![(1usize, Kind::Target)],
        None,
        false,
        "/h".to_string(),
        "/t".to_string(),
    )
    .unwrap();
    assert_eq!(cx.dep_targets(&root).unwrap(), Vec::<Unit>::new());
}

#[test]
fn plugin_walk_end_to_end_marks_build_script_side() {
    // root A depends on a host-requiring unit B, which depends on C
    let a = Arena {
        packages: vec![
            PackageModel { lib_target: 0, deps: Vec::new(), is_local: false },
            PackageModel {
                lib_target: 1,
                deps: vec![DepModel { pkg: 0, platform: None }],
                is_local: false,
            },
            PackageModel {
                lib_target: 2,
                deps: vec![DepModel { pkg: 1, platform: None }],
                is_local: true,
            },
        ],
        targets: vec![
            TargetModel { for_host: false },
            TargetModel { for_host: true },
            TargetModel { for_host: false },
        ],
        profiles: vec![
            ProfileModel { run_custom_build: false, incremental: true },
            ProfileModel { run_custom_build: false, incremental: false },
            ProfileModel { run_custom_build: false, incremental: true },
            ProfileModel { run_custom_build: false, incremental: false },
        ],
    };
    let root = Unit { pkg: 2, target: 2, profile: 0, kind: Kind::Target };
    let mut cx = Context::new(
        a,
        build_config(),
        profiles(),
        &vec![root],
        config_snapshot(),
        EnvSnapshot { incremental: None, rustflags: None, rustdocflags: None },
        None,
        ProbeRaw { stdout: probe_stdout(), stderr: String::new(), has_extra: true },
        Vec::new(),
        None,
        false,
        "/h".to_string(),
        "/t".to_string(),
    )
    .unwrap();
    cx.build_used_in_plugin_map(&vec![root]);
    let b = Unit { pkg: 1, target: 1, profile: 0, kind: Kind::Host };
    let c = Unit { pkg: 0, target: 0, profile: 0, kind: Kind::Host };
    assert!(!cx.used_in_plugin.contains(&root));
    assert!(cx.used_in_plugin.contains(&b));
    assert!(cx.used_in_plugin.contains(&c));
}
