use build_context::model::{ContextError, Kind};
use build_context::probe::{
    known_crate_types, parse_crate_type, parse_probe_output, probe_command_args, sysroot_libdir,
};

#[test]
fn crate_type_lines_parse_in_order() {
    let lines: Vec<String> = vec!["lib___rlib".to_string(), "lib___dylib".to_string()];
    let r1 = parse_crate_type("rlib", "", &lines, 0).unwrap();
    assert_eq!(r1, (Some(("lib".to_string(), "rlib".to_string())), 1));
    let r2 = parse_crate_type("dylib", "", &lines, 1).unwrap();
    assert_eq!(r2, (Some(("lib".to_string(), "dylib".to_string())), 2));
}

#[test]
fn unknown_crate_type_diagnostic_yields_unsupported() {
    let lines: Vec<String> = vec!["lib___rlib".to_string()];
    let err = "unknown crate type: dylib";
    let r1 = parse_crate_type("rlib", err, &lines, 0).unwrap();
    assert_eq!(r1, (Some(("lib".to_string(), "rlib".to_string())), 1));
    let r2 = parse_crate_type("dylib", err, &lines, 1).unwrap();
    assert_eq!(r2, (None, 1));
}

#[test]
fn unsupported_crate_type_diagnostic_yields_unsupported() {
    let lines: Vec<String> = Vec::new();
    let err = "error: unsupported crate type `proc-macro`";
    let r = parse_crate_type("proc-macro", err, &lines, 0).unwrap();
    assert_eq!(r, (None, 0));
}

#[test]
fn missing_line_is_malformed_crate_type_output() {
    let lines: Vec<String> = Vec::new();
    let r = parse_crate_type("rlib", "", &lines, 0);
    assert_eq!(
        r,
        Err(ContextError::MalformedCrateTypeOutput { crate_type: "rlib".to_string() })
    );
}

#[test]
fn missing_delimiter_is_malformed_file_names_output() {
    let lines: Vec<String> = vec!["libnothing.rlib".to_string()];
    let r = parse_crate_type("rlib", "", &lines, 0);
    assert_eq!(r, Err(ContextError::MalformedFileNamesOutput));
}

#[test]
fn line_is_trimmed_and_suffix_stops_at_next_delimiter() {
    let lines: Vec<String> = vec!["  lib___rlib___extra  ".to_string()];
    let r = parse_crate_type("rlib", "", &lines, 0).unwrap();
    assert_eq!(r, (Some(("lib".to_string(), "rlib".to_string())), 1));
}

#[test]
fn full_probe_output_with_sysroot_and_cfg() {
    let stdout = "___\nlib___.rlib\nlib___.so\nlib___.so\nlib___.a\nlib___.so\n/sysroot\ndebug_assertions\ntarget_os=\"linux\"\n";
    let info = parse_probe_output(Kind::Target, "arm-none", true, false, stdout, "").unwrap();
    assert_eq!(info.crate_types.len(), 6);
    assert_eq!(info.crate_types[0].0, "bin");
    assert_eq!(
        info.crate_types[1].1,
        Some(("lib".to_string(), ".rlib".to_string()))
    );
    assert_eq!(
        info.sysroot_libdir,
        Some("/sysroot/lib/rustlib/arm-none/lib".to_string())
    );
    let cfgs = info.cfg.unwrap();
    assert_eq!(cfgs.len(), 2);
    match &cfgs[0] {
        build_context::cfgs::Cfg::Name(n) => assert_eq!(n, "debug_assertions"),
        _ => panic!("expected a flag predicate"),
    }
    match &cfgs[1] {
        build_context::cfgs::Cfg::KeyPair(k, v) => {
            assert_eq!(k, "target_os");
            assert_eq!(v, "linux");
        },
        _ => panic!("expected a key/value predicate"),
    }
}

#[test]
fn probe_without_extra_leaves_sysroot_and_cfg_unset() {
    let stdout = "___\nlib___.rlib\nlib___.so\nlib___.so\nlib___.a\nlib___.so\n";
    let info = parse_probe_output(Kind::Target, "arm-none", false, false, stdout, "").unwrap();
    assert_eq!(info.sysroot_libdir, None);
    assert!(info.cfg.is_none());
}

#[test]
fn probe_missing_sysroot_line_fails() {
    let stdout = "___\nlib___.rlib\nlib___.so\nlib___.so\nlib___.a\nlib___.so\n";
    let r = parse_probe_output(Kind::Target, "arm-none", true, false, stdout, "");
    assert_eq!(r.err(), Some(ContextError::MissingSysroot));
}

#[test]
fn probe_malformed_cfg_line_fails() {
    let stdout = "___\nlib___.rlib\nlib___.so\nlib___.so\nlib___.a\nlib___.so\n/sysroot\nnot valid!\n";
    let r = parse_probe_output(Kind::Target, "arm-none", true, false, stdout, "");
    assert_eq!(
        r.err(),
        Some(ContextError::MalformedCfgLine { line: "not valid!".to_string() })
    );
}

#[test]
fn sysroot_libdir_follows_kind_rules() {
    assert_eq!(sysroot_libdir(Kind::Host, "/sr", "t", false), "/sr/lib");
    assert_eq!(sysroot_libdir(Kind::Host, "/sr", "t", true), "/sr/bin");
    assert_eq!(
        sysroot_libdir(Kind::Target, "/sr", "arm-none", false),
        "/sr/lib/rustlib/arm-none/lib"
    );
}

#[test]
fn known_crate_types_are_fixed_and_ordered() {
    let ts = known_crate_types();
    assert_eq!(
        ts,
        vec!["bin", "rlib", "dylib", "cdylib", "staticlib", "proc-macro"]
    );
}

#[test]
fn probe_command_args_for_target_kind() {
    let flags: Vec<String> = vec!["-C".to_string(), "opt-level=2".to_string()];
    let args = probe_command_args(Kind::Target, "arm-none", &flags, true);
    let expect: Vec<String> = vec![
        "-", "--crate-name", "___", "--print=file-names", "-C", "opt-level=2", "--target",
        "arm-none", "--crate-type", "bin", "--crate-type", "rlib", "--crate-type", "dylib",
        "--crate-type", "cdylib", "--crate-type", "staticlib", "--crate-type", "proc-macro",
        "--print=sysroot", "--print=cfg",
    ]
        .into_iter()
        .map(|s| s.to_string())
        .collect();
    assert_eq!(args, expect);
}

#[test]
fn probe_command_args_for_host_kind_without_extra() {
    let flags: Vec<String> = Vec::new();
    let args = probe_command_args(Kind::Host, "ignored", &flags, false);
    assert!(!args.contains(&"--target".to_string()));
    assert!(!args.contains(&"--print=sysroot".to_string()));
    assert_eq!(args[args.len() - 1], "proc-macro");
}
