use build_context::model::{
    Arena, DepModel, Kind, PackageModel, ProfileModel, Profiles, TargetModel, Unit,
};

fn small_arena() -> Arena {
    Arena {
        packages: vec![
            PackageModel { lib_target: 0, deps: Vec::new(), is_local: false },
            PackageModel {
                lib_target: 0,
                deps: vec![DepModel { pkg: 0, platform: None }],
                is_local: true,
            },
        ],
        targets: vec![TargetModel { for_host: false }],
        profiles: vec![ProfileModel { run_custom_build: false, incremental: true }],
    }
}

#[test]
fn well_formed_arena_passes_the_check() {
    assert!(small_arena().check_wf());
}

#[test]
fn dangling_library_target_fails_the_check() {
    let mut a = small_arena();
    a.packages[0].lib_target = 5;
    assert!(!a.check_wf());
}

#[test]
fn forward_dependency_fails_the_check() {
    // a dependency on a later package breaks the topological order that
    // models the acyclicity of the resolved graph
    let mut a = small_arena();
    a.packages[0].deps.push(DepModel { pkg: 1, platform: None });
    assert!(!a.check_wf());
}

#[test]
fn unit_and_profile_bounds_are_checked() {
    let a = small_arena();
    let inside = Unit { pkg: 1, target: 0, profile: 0, kind: Kind::Host };
    let outside = Unit { pkg: 1, target: 3, profile: 0, kind: Kind::Host };
    assert!(a.check_unit_wf(&inside));
    assert!(!a.check_unit_wf(&outside));
    assert!(a.check_profiles_wf(&Profiles { dev: 0, release: 0, test_deps: 0, bench_deps: 0 }));
    assert!(!a.check_profiles_wf(&Profiles { dev: 0, release: 1, test_deps: 0, bench_deps: 0 }));
}
