use build_context::cfgs::Cfg;
use build_context::flags::{resolve_flags, FlagConfig, FlagSection};
use build_context::incremental::{incremental_args_for, incremental_policy};
use build_context::model::Kind;

fn section(name: &str, flags: &[&str]) -> FlagSection {
    FlagSection {
        name: name.to_string(),
        flags: flags.iter().map(|s| s.to_string()).collect(),
    }
}

fn strs(v: Vec<&str>) -> Vec<String> {
    v.into_iter().map(|s| s.to_string()).collect()
}

#[test]
fn env_override_wins_over_everything() {
    let config = FlagConfig {
        target_sections: vec![section("host-triple", &["-Cfrom-config"])],
        build_flags: Some(strs(vec!["-Cfrom-build"])),
    };
    let env = Some("  -C  debug-assertions=on \t -Zother ".to_string());
    let r = resolve_flags(&None, "host-triple", Kind::Target, &env, None, &config);
    assert_eq!(r, strs(vec!["-C", "debug-assertions=on", "-Zother"]));
}

#[test]
fn host_units_get_no_flags_when_target_requested() {
    let config = FlagConfig {
        target_sections: vec![section("the-target", &["-Cfrom-config"])],
        build_flags: Some(strs(vec!["-Cfrom-build"])),
    };
    let req = Some("the-target".to_string());
    let env = Some("-Cfrom-env".to_string());
    let r = resolve_flags(&req, "the-target", Kind::Host, &env, None, &config);
    assert_eq!(r, Vec::<String>::new());
}

#[test]
fn triple_section_applies_to_target_kind() {
    let config = FlagConfig {
        target_sections: vec![section("the-target", &["-Ca"])],
        build_flags: Some(strs(vec!["-Cfrom-build"])),
    };
    let req = Some("the-target".to_string());
    let r = resolve_flags(&req, "host", Kind::Target, &None, None, &config);
    assert_eq!(r, strs(vec!["-Ca"]));
}

#[test]
fn matching_cfg_sections_apply_in_sorted_name_order() {
    let active = vec![Cfg::Name("alpha".to_string()), Cfg::Name("zeta".to_string())];
    let first = FlagConfig {
        target_sections: vec![
            section("cfg(zeta)", &["-Z1"]),
            section("cfg(alpha)", &["-A1"]),
        ],
        build_flags: None,
    };
    let second = FlagConfig {
        target_sections: vec![
            section("cfg(alpha)", &["-A1"]),
            section("cfg(zeta)", &["-Z1"]),
        ],
        build_flags: None,
    };
    let r1 = resolve_flags(&None, "host", Kind::Target, &None, Some(&active), &first);
    let r2 = resolve_flags(&None, "host", Kind::Target, &None, Some(&active), &second);
    assert_eq!(r1, strs(vec!["-A1", "-Z1"]));
    assert_eq!(r2, strs(vec!["-A1", "-Z1"]));
}

#[test]
fn non_matching_cfg_sections_are_skipped() {
    let active = vec![Cfg::Name("unix".to_string())];
    let config = FlagConfig {
        target_sections: vec![
            section("cfg(windows)", &["-W"]),
            section("cfg(unix)", &["-U"]),
        ],
        build_flags: None,
    };
    let r = resolve_flags(&None, "host", Kind::Target, &None, Some(&active), &config);
    assert_eq!(r, strs(vec!["-U"]));
}

#[test]
fn triple_flags_come_before_cfg_flags() {
    let active = vec![Cfg::Name("unix".to_string())];
    let config = FlagConfig {
        target_sections: vec![section("cfg(unix)", &["-U"]), section("host", &["-H"])],
        build_flags: None,
    };
    let r = resolve_flags(&None, "host", Kind::Target, &None, Some(&active), &config);
    assert_eq!(r, strs(vec!["-H", "-U"]));
}

#[test]
fn blanket_flags_apply_only_when_nothing_else_matched() {
    let config = FlagConfig {
        target_sections: vec![section("other-triple", &["-O"])],
        build_flags: Some(strs(vec!["-B"])),
    };
    let r = resolve_flags(&None, "host", Kind::Target, &None, None, &config);
    assert_eq!(r, strs(vec!["-B"]));
    let empty = FlagConfig { target_sections: Vec::new(), build_flags: None };
    let r2 = resolve_flags(&None, "host", Kind::Target, &None, None, &empty);
    assert_eq!(r2, Vec::<String>::new());
}

#[test]
fn cfg_sections_ignored_when_active_set_unavailable() {
    let config = FlagConfig {
        target_sections: vec![section("cfg(unix)", &["-U"])],
        build_flags: Some(strs(vec!["-B"])),
    };
    let r = resolve_flags(&None, "host", Kind::Target, &None, None, &config);
    assert_eq!(r, strs(vec!["-B"]));
}

#[test]
fn incremental_policy_table() {
    assert_eq!(incremental_policy(Some(true), Some(false), false), true);
    assert_eq!(incremental_policy(Some(false), Some(true), true), false);
    assert_eq!(incremental_policy(None, Some(false), true), false);
    assert_eq!(incremental_policy(None, Some(true), true), true);
    assert_eq!(incremental_policy(None, Some(true), false), false);
    assert_eq!(incremental_policy(None, None, true), true);
    assert_eq!(incremental_policy(None, None, false), false);
}

#[test]
fn incremental_args_name_the_directory() {
    let r = incremental_args_for(None, None, true, true, "/tmp/incr");
    assert_eq!(r, strs(vec!["-C", "incremental=/tmp/incr"]));
}

#[test]
fn incremental_args_empty_for_non_local_sources() {
    let r = incremental_args_for(Some(true), Some(true), true, false, "/tmp/incr");
    assert_eq!(r, Vec::<String>::new());
}

#[test]
fn incremental_args_empty_when_policy_denies() {
    let r = incremental_args_for(Some(false), None, true, true, "/tmp/incr");
    assert_eq!(r, Vec::<String>::new());
}
