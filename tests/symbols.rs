use armerge::{compile_policy, parse_nm_output, ArmergeKeepOrRemove, Binding, Symbol, SymbolPattern};

fn sym(name: &str, binding: Binding, defined: bool) -> Symbol {
    Symbol { name: name.to_string(), binding, defined }
}

fn strings(v: &[&str]) -> Vec<String> {
    v.iter().map(|s| s.to_string()).collect()
}

#[test]
fn pattern_matches_anywhere_in_the_name() {
    let p = SymbolPattern::new("util").ok().unwrap();
    assert!(p.is_match("my_util_fn"));
    assert!(p.is_match("util"));
    assert!(!p.is_match("utl"));
    let anchored = SymbolPattern::new("^api_").ok().unwrap();
    assert!(anchored.is_match("api_open"));
    assert!(!anchored.is_match("x_api_open"));
    assert_eq!(anchored.as_str(), "^api_");
}

#[test]
fn keep_policy_localizes_everything_else() {
    let policy = compile_policy(ArmergeKeepOrRemove::KeepSymbols, &strings(&["^api_", "_init$"])).ok().unwrap();
    let table = vec![
        sym("api_open", Binding::Global, true),
        sym("helper", Binding::Global, true),
        sym("lib_init", Binding::Weak, true),
        sym("weak_helper", Binding::Weak, true),
        sym("memcpy", Binding::Global, false),
        sym("already_local", Binding::Local, true),
    ];
    let out = policy.localize(&table);
    let bindings: Vec<Binding> = out.iter().map(|s| s.binding).collect();
    assert_eq!(
        bindings,
        vec![Binding::Global, Binding::Local, Binding::Weak, Binding::Local, Binding::Global, Binding::Local]
    );
    let names: Vec<&str> = out.iter().map(|s| s.name.as_str()).collect();
    assert_eq!(names, vec!["api_open", "helper", "lib_init", "weak_helper", "memcpy", "already_local"]);
    assert_eq!(policy.symbols_to_localize(&table), strings(&["helper", "weak_helper"]));
}

#[test]
fn remove_policy_localizes_only_matches() {
    let policy = compile_policy(ArmergeKeepOrRemove::RemoveSymbols, &strings(&["vendor"])).ok().unwrap();
    let table = vec![
        sym("vendor_zlib_inflate", Binding::Global, true),
        sym("public_fn", Binding::Global, true),
        sym("vendor_import", Binding::Global, false),
    ];
    assert_eq!(policy.symbols_to_localize(&table), strings(&["vendor_zlib_inflate"]));
    let out = policy.localize(&table);
    assert_eq!(out[0].binding, Binding::Local);
    assert_eq!(out[1].binding, Binding::Global);
    assert_eq!(out[2].binding, Binding::Global);
    assert!(!out[2].defined);
}

#[test]
fn patterns_that_match_nothing_are_harmless() {
    let policy = compile_policy(ArmergeKeepOrRemove::RemoveSymbols, &strings(&["no_such_symbol"])).ok().unwrap();
    let table = vec![sym("f", Binding::Global, true)];
    assert!(policy.symbols_to_localize(&table).is_empty());
}

#[test]
fn nm_portable_output_is_parsed() {
    let out = b"api_open T 0000000000000000 0000000000000010\nmemcpy U\nweak_fn W 20 4\nlocal_fn t 30 2\nundef_weak w\n\nmalformed\n".to_vec();
    let syms = parse_nm_output(&out);
    let got: Vec<(&str, Binding, bool)> = syms.iter().map(|s| (s.name.as_str(), s.binding, s.defined)).collect();
    assert_eq!(
        got,
        vec![
            ("api_open", Binding::Global, true),
            ("memcpy", Binding::Global, false),
            ("weak_fn", Binding::Weak, true),
            ("local_fn", Binding::Local, true),
            ("undef_weak", Binding::Weak, false),
        ]
    );
}

#[test]
fn nm_output_without_final_newline() {
    let syms = parse_nm_output(&b"last D 8".to_vec());
    assert_eq!(syms.len(), 1);
    assert_eq!(syms[0].name, "last");
    assert_eq!(syms[0].binding, Binding::Global);
    assert!(parse_nm_output(&Vec::new()).is_empty());
}

#[test]
fn nm_names_that_are_not_utf8_are_skipped() {
    let syms = parse_nm_output(&vec![0xff, 0xfe, b' ', b'T', b'\n', b'o', b'k', b' ', b'T']);
    assert_eq!(syms.len(), 1);
    assert_eq!(syms[0].name, "ok");
}
