use build_context::cfgs::{cfg_eq, cfg_in_set, parse_cfg, platform_matches_exec, section_pred, Cfg, Platform};
use build_context::model::{ContextError, TargetFileType};
use build_context::pool::TokenPool;
use build_context::strings::{
    contains_str, find_sub, split_lines, split_whitespace, str_eq, str_lex_le, trim,
};

#[test]
fn cfg_lines_parse_as_flags_and_pairs() {
    match parse_cfg("debug_assertions").unwrap() {
        Cfg::Name(n) => assert_eq!(n, "debug_assertions"),
        _ => panic!("expected a flag predicate"),
    }
    match parse_cfg("target_pointer_width=\"64\"").unwrap() {
        Cfg::KeyPair(k, v) => {
            assert_eq!(k, "target_pointer_width");
            assert_eq!(v, "64");
        },
        _ => panic!("expected a key/value predicate"),
    }
    assert_eq!(
        parse_cfg("no quotes=here").err(),
        Some(ContextError::MalformedCfgLine { line: "no quotes=here".to_string() })
    );
    assert!(parse_cfg("").is_err());
}

#[test]
fn cfg_equality_and_membership() {
    let a = Cfg::Name("unix".to_string());
    let b = Cfg::Name("unix".to_string());
    let c = Cfg::KeyPair("target_os".to_string(), "linux".to_string());
    assert!(cfg_eq(&a, &b));
    assert!(!cfg_eq(&a, &c));
    let active = vec![b, c];
    assert!(cfg_in_set(&active, &a));
    assert!(!cfg_in_set(&active, &Cfg::Name("windows".to_string())));
}

#[test]
fn section_names_of_cfg_shape_parse_to_predicates() {
    match section_pred("cfg(unix)").unwrap() {
        Cfg::Name(n) => assert_eq!(n, "unix"),
        _ => panic!("expected a flag predicate"),
    }
    match section_pred("cfg( target_os=\"linux\" )").unwrap() {
        Cfg::KeyPair(k, v) => {
            assert_eq!(k, "target_os");
            assert_eq!(v, "linux");
        },
        _ => panic!("expected a key/value predicate"),
    }
    assert!(section_pred("x86_64-unknown-linux-gnu").is_none());
    assert!(section_pred("cfg()").is_none());
}

#[test]
fn platform_predicates_match_triples_and_cfgs() {
    let by_triple = Platform::Triple("arm-none".to_string());
    assert!(platform_matches_exec(&by_triple, "arm-none", None));
    assert!(!platform_matches_exec(&by_triple, "x86", None));
    let by_cfg = Platform::Pred(Cfg::Name("unix".to_string()));
    let active = vec![Cfg::Name("unix".to_string())];
    assert!(platform_matches_exec(&by_cfg, "any", Some(&active)));
    // a configuration predicate never matches when the set is unavailable
    assert!(!platform_matches_exec(&by_cfg, "any", None));
}

#[test]
fn string_utilities_behave() {
    assert!(str_eq("abc", "abc"));
    assert!(!str_eq("abc", "abd"));
    assert!(str_lex_le("cfg(alpha)", "cfg(zeta)"));
    assert!(!str_lex_le("b", "a"));
    assert!(str_lex_le("a", "ab"));
    assert_eq!(trim("  x y\t"), "x y");
    assert_eq!(split_whitespace(" a  b\tc "), vec!["a", "b", "c"]);
    assert_eq!(split_lines("a\r\nb\nc"), vec!["a", "b", "c"]);
    assert_eq!(split_lines("a\n\nb\n"), vec!["a", "", "b"]);
    assert_eq!(find_sub("lib___rlib", "___"), Some(3));
    assert_eq!(find_sub("norlib", "___"), None);
    assert!(contains_str("unknown crate type: dylib", "unknown crate type"));
}

#[test]
fn private_token_pool_hands_out_tokens() {
    let pool = TokenPool::new(None, 2).unwrap();
    assert!(!pool.shared);
    let token = pool.acquire().unwrap();
    drop(token);
}

#[test]
fn pool_attaches_to_an_existing_client() {
    let orchestrator = jobserver::Client::new(3).unwrap();
    let pool = TokenPool::new(Some(&orchestrator), 8).unwrap();
    assert!(pool.shared);
    let token = pool.acquire().unwrap();
    drop(token);
}

#[test]
fn error_messages_name_the_subject() {
    let e = ContextError::MalformedCrateTypeOutput { crate_type: "rlib".to_string() };
    assert_eq!(
        e.message(),
        "malformed output when learning about crate-type rlib information"
    );
    let e2 = ContextError::MalformedCfgLine { line: "bad!".to_string() };
    assert_eq!(e2.message(), "failed to parse the configuration predicate `bad!`");
    assert_eq!(
        ContextError::PoolCreation.message(),
        "failed to create the concurrency token pool"
    );
}

#[test]
fn target_file_types_are_distinct() {
    assert_eq!(TargetFileType::Normal, TargetFileType::Normal);
    assert_ne!(TargetFileType::Linkable, TargetFileType::DebugInfo);
}
