use std::collections::hash_map::DefaultHasher;
use std::hash::{Hash, Hasher};

use build_context::cfgs::{Cfg, Platform};
use build_context::graph::build_unit_graph;
use build_context::model::{
    Arena, DepModel, Kind, PackageModel, ProfileModel, TargetModel, Unit,
};
use build_context::plugin::walk_used_in_plugin;

fn hash_of(u: &Unit) -> u64 {
    let mut h = DefaultHasher::new();
    u.hash(&mut h);
    h.finish()
}

#[test]
fn units_with_equal_components_are_equal_and_hash_alike() {
    let u1 = Unit { pkg: 3, target: 1, profile: 0, kind: Kind::Target };
    let u2 = Unit { pkg: 3, target: 1, profile: 0, kind: Kind::Target };
    let u3 = Unit { pkg: 3, target: 1, profile: 0, kind: Kind::Host };
    assert_eq!(u1, u2);
    assert_eq!(hash_of(&u1), hash_of(&u2));
    assert_ne!(u1, u3);
}

// Three packages in topological order: 0 is a plain library, 1 is a
// host-requiring (plugin) library depending on 0, 2 depends on 1.
fn plugin_arena() -> Arena {
    Arena {
        packages: vec![
            PackageModel { lib_target: 0, deps: Vec::new(), is_local: false },
            PackageModel {
                lib_target: 1,
                deps: vec![DepModel { pkg: 0, platform: None }],
                is_local: false,
            },
            PackageModel {
                lib_target: 2,
                deps: vec![DepModel { pkg: 1, platform: None }],
                is_local: true,
            },
        ],
        targets: vec![
            TargetModel { for_host: false },
            TargetModel { for_host: true },
            TargetModel { for_host: false },
        ],
        profiles: vec![ProfileModel { run_custom_build: false, incremental: true }],
    }
}

#[test]
fn graph_expands_roots_and_forces_host_kind() {
    let arena = plugin_arena();
    let root = Unit { pkg: 2, target: 2, profile: 0, kind: Kind::Target };
    let roots = vec![root];
    let overrides: Vec<(usize, Kind)> = Vec::new();
    let g = build_unit_graph(&arena, &roots, 0, &overrides, "host", "host", None, None);
    // the root's dependency on the plugin package is forced to the host kind
    let b = Unit { pkg: 1, target: 1, profile: 0, kind: Kind::Host };
    let c = Unit { pkg: 0, target: 0, profile: 0, kind: Kind::Host };
    assert!(g.contains_key(&root));
    assert!(g.contains_key(&b));
    assert!(g.contains_key(&c));
    assert_eq!(g.get(&root).unwrap(), &vec![b]);
    assert_eq!(g.get(&b).unwrap(), &vec![c]);
    assert_eq!(g.get(&c).unwrap(), &Vec::<Unit>::new());
}

#[test]
fn graph_is_closed_and_edges_decrease_package_index() {
    let arena = plugin_arena();
    let root = Unit { pkg: 2, target: 2, profile: 0, kind: Kind::Target };
    let roots = vec![root];
    let overrides: Vec<(usize, Kind)> = Vec::new();
    let g = build_unit_graph(&arena, &roots, 0, &overrides, "host", "host", None, None);
    for (u, deps) in &g.entries {
        for d in deps {
            assert!(d.pkg < u.pkg);
            assert!(g.contains_key(d));
        }
    }
}

#[test]
fn platform_gated_dependency_is_skipped_when_inactive() {
    let arena = Arena {
        packages: vec![
            PackageModel { lib_target: 0, deps: Vec::new(), is_local: false },
            PackageModel { lib_target: 0, deps: Vec::new(), is_local: false },
            PackageModel {
                lib_target: 0,
                deps: vec![
                    DepModel {
                        pkg: 0,
                        platform: Some(Platform::Pred(Cfg::Name("unix".to_string()))),
                    },
                    DepModel {
                        pkg: 1,
                        platform: Some(Platform::Triple("the-target".to_string())),
                    },
                ],
                is_local: true,
            },
        ],
        targets: vec![TargetModel { for_host: false }],
        profiles: vec![ProfileModel { run_custom_build: false, incremental: false }],
    };
    let root = Unit { pkg: 2, target: 0, profile: 0, kind: Kind::Target };
    let roots = vec![root];
    let overrides: Vec<(usize, Kind)> = Vec::new();
    let active = vec![Cfg::Name("windows".to_string())];
    let g = build_unit_graph(
        &arena,
        &roots,
        0,
        &overrides,
        "host",
        "the-target",
        None,
        Some(&active),
    );
    // the cfg(unix) dependency does not match, the triple-named one does
    let kept = Unit { pkg: 1, target: 0, profile: 0, kind: Kind::Target };
    assert_eq!(g.get(&root).unwrap(), &vec![kept]);
}

#[test]
fn duplicate_edges_are_collapsed() {
    let arena = Arena {
        packages: vec![
            PackageModel { lib_target: 0, deps: Vec::new(), is_local: false },
            PackageModel {
                lib_target: 0,
                deps: vec![
                    DepModel { pkg: 0, platform: None },
                    DepModel { pkg: 0, platform: None },
                ],
                is_local: true,
            },
        ],
        targets: vec![TargetModel { for_host: false }],
        profiles: vec![ProfileModel { run_custom_build: false, incremental: false }],
    };
    let root = Unit { pkg: 1, target: 0, profile: 0, kind: Kind::Target };
    let roots = vec![root];
    let overrides: Vec<(usize, Kind)> = Vec::new();
    let g = build_unit_graph(&arena, &roots, 0, &overrides, "h", "h", None, None);
    assert_eq!(g.get(&root).unwrap().len(), 1);
}

#[test]
fn overridden_build_script_unit_has_no_dependencies() {
    let arena = Arena {
        packages: vec![
            PackageModel { lib_target: 0, deps: Vec::new(), is_local: false },
            PackageModel {
                lib_target: 0,
                deps: vec![DepModel { pkg: 0, platform: None }],
                is_local: true,
            },
        ],
        targets: vec![TargetModel { for_host: false }],
        profiles: vec![ProfileModel { run_custom_build: true, incremental: false }],
    };
    let root = Unit { pkg: 1, target: 0, profile: 0, kind: Kind::Target };
    let roots = vec![root];
    let overrides = vec![(1usize, Kind::Target)];
    let g = build_unit_graph(&arena, &roots, 0, &overrides, "h", "h", None, None);
    assert_eq!(g.get(&root).unwrap(), &Vec::<Unit>::new());
}

#[test]
fn plugin_walk_marks_host_feeding_units_only() {
    let arena = plugin_arena();
    let root = Unit { pkg: 2, target: 2, profile: 0, kind: Kind::Target };
    let roots = vec![root];
    let overrides: Vec<(usize, Kind)> = Vec::new();
    let g = build_unit_graph(&arena, &roots, 0, &overrides, "host", "host", None, None);
    let mut used: Vec<Unit> = Vec::new();
    walk_used_in_plugin(&g, &arena, &roots, &mut used);
    let b = Unit { pkg: 1, target: 1, profile: 0, kind: Kind::Host };
    let c = Unit { pkg: 0, target: 0, profile: 0, kind: Kind::Host };
    assert!(!used.contains(&root));
    assert!(used.contains(&b));
    assert!(used.contains(&c));
    assert_eq!(used.len(), 2);
}

#[test]
fn plugin_walk_membership_only_grows() {
    let arena = plugin_arena();
    let root = Unit { pkg: 2, target: 2, profile: 0, kind: Kind::Target };
    let roots = vec![root];
    let overrides: Vec<(usize, Kind)> = Vec::new();
    let g = build_unit_graph(&arena, &roots, 0, &overrides, "host", "host", None, None);
    let mut used: Vec<Unit> = Vec::new();
    walk_used_in_plugin(&g, &arena, &roots, &mut used);
    let before = used.clone();
    // a second, overlapping walk from a deeper root keeps every member
    let b = Unit { pkg: 1, target: 1, profile: 0, kind: Kind::Host };
    let roots2 = vec![b];
    walk_used_in_plugin(&g, &arena, &roots2, &mut used);
    for u in &before {
        assert!(used.contains(u));
    }
}
