use armerge::{compile_policy, ArMerger, ArmergeKeepOrRemove, MergeError, Phase, Step, ToolConfig, ToolOutcome};

fn strings(v: &[&str]) -> Vec<String> {
    v.iter().map(|s| s.to_string()).collect()
}

fn ok_run() -> ToolOutcome {
    ToolOutcome::Exited { success: true, stdout: String::new(), stderr: String::new() }
}

fn expect_run(step: Step, tool: &str, args: &[&str]) {
    match step {
        Step::Run(inv) => {
            assert_eq!(inv.tool, tool);
            assert_eq!(inv.args, strings(args));
        }
        Step::Finished => panic!("expected a run of {}", tool),
    }
}

fn tools() -> ToolConfig {
    ToolConfig::from_overrides(None, None, None, None)
}

fn simple_session(macos: bool) -> ArMerger {
    ArMerger::new(
        strings(&["w/a.o", "w/b.o"]),
        strings(&["a.o", "b.o"]),
        "w/out.a",
        None,
        strings(&["b.o"]),
        tools(),
        macos,
    )
}

#[test]
fn simple_merge_packs_in_gathered_order() {
    let mut s = simple_session(false);
    expect_run(s.start(), "ar", &["qcs", "w/out.a", "w/a.o", "w/b.o"]);
    assert!(matches!(s.advance(ok_run(), &Vec::new()), Ok(Step::Finished)));
    assert!(matches!(s.advance(ok_run(), &Vec::new()), Ok(Step::Finished)));
}

#[test]
fn simple_merge_on_macos_uses_libtool() {
    let mut s = simple_session(true);
    expect_run(s.start(), "libtool", &["-static", "-o", "w/out.a", "w/a.o", "w/b.o"]);
}

#[test]
fn keep_merge_inspects_localizes_orders_and_packs() {
    let policy = compile_policy(ArmergeKeepOrRemove::KeepSymbols, &strings(&["^api_"])).ok().unwrap();
    let mut s = ArMerger::new(
        strings(&["w/a.o", "w/b.o", "w/c.o"]),
        strings(&["a.o", "b.o", "c.o"]),
        "w/out.a",
        Some(policy),
        strings(&["b.o", "a.o"]),
        tools(),
        false,
    );
    expect_run(s.start(), "nm", &["-g", "-P", "w/a.o"]);
    let listing = b"api_open T 0 8\nhelper T 8 4\nmemcpy U\n".to_vec();
    expect_run(s.advance(ok_run(), &listing).ok().unwrap(), "objcopy", &["-L", "helper", "w/a.o"]);
    expect_run(s.advance(ok_run(), &Vec::new()).ok().unwrap(), "nm", &["-g", "-P", "w/b.o"]);
    expect_run(s.advance(ok_run(), &b"api_close T 0 8\n".to_vec()).ok().unwrap(), "nm", &["-g", "-P", "w/c.o"]);
    expect_run(
        s.advance(ok_run(), &b"c_internal T 0 8\nc_weak W 8 8\n".to_vec()).ok().unwrap(),
        "objcopy",
        &["-L", "c_internal", "-L", "c_weak", "w/c.o"],
    );
    expect_run(s.advance(ok_run(), &Vec::new()).ok().unwrap(), "ar", &["qcs", "w/out.a", "w/b.o", "w/a.o", "w/c.o"]);
    assert!(matches!(s.advance(ok_run(), &Vec::new()), Ok(Step::Finished)));
}

#[test]
fn failed_symbol_listing_aborts_before_packing() {
    let policy = compile_policy(ArmergeKeepOrRemove::RemoveSymbols, &strings(&["x"])).ok().unwrap();
    let mut s = ArMerger::new(strings(&["w/a.o"]), strings(&["a.o"]), "w/out.a", Some(policy), Vec::new(), tools(), false);
    expect_run(s.start(), "nm", &["-g", "-P", "w/a.o"]);
    let failed = ToolOutcome::Exited { success: false, stdout: "out".to_string(), stderr: "nm: bad object".to_string() };
    match s.advance(failed, &Vec::new()) {
        Err(MergeError::ExternalToolError { reason, tool, args, stdout, stderr }) => {
            assert_eq!(reason, "Failed to list symbols with `nm`");
            assert_eq!(tool, "nm");
            assert_eq!(args, strings(&["-g", "-P", "w/a.o"]));
            assert_eq!(stdout, "out");
            assert_eq!(stderr, "nm: bad object");
        }
        other => panic!("unexpected {:?}", other.map(|_| ())),
    }
    assert!(matches!(s.advance(ok_run(), &Vec::new()), Ok(Step::Finished)));
}

#[test]
fn archiver_launch_failure_names_the_archiver() {
    let mut s = simple_session(true);
    let _ = s.start();
    let r = s.advance(ToolOutcome::LaunchFailed { message: "not found".to_string() }, &Vec::new());
    match r {
        Err(MergeError::ExternalToolLaunchError { tool, inner }) => {
            assert_eq!(tool, "libtool");
            assert_eq!(inner, "not found");
        }
        other => panic!("unexpected {:?}", other.map(|_| ())),
    }
}

#[test]
fn archiver_failure_keeps_arguments_and_output() {
    let mut s = simple_session(false);
    let _ = s.start();
    let failed = ToolOutcome::Exited { success: false, stdout: "o".to_string(), stderr: "ar: w/b.o: No such file".to_string() };
    match s.advance(failed, &Vec::new()) {
        Err(MergeError::ExternalToolError { reason, tool, args, stdout, stderr }) => {
            assert_eq!(reason, "Failed to merge object files with `ar`");
            assert_eq!(tool, "ar");
            assert_eq!(args, strings(&["qcs", "w/out.a", "w/a.o", "w/b.o"]));
            assert_eq!(stdout, "o");
            assert_eq!(stderr, "ar: w/b.o: No such file");
        }
        other => panic!("unexpected {:?}", other.map(|_| ())),
    }
}

#[test]
fn advance_before_start_starts() {
    let mut s = simple_session(false);
    expect_run(s.advance(ok_run(), &Vec::new()).ok().unwrap(), "ar", &["qcs", "w/out.a", "w/a.o", "w/b.o"]);
}

#[test]
fn phases_are_comparable() {
    assert_eq!(Phase::AwaitSymbols(1), Phase::AwaitSymbols(1));
    assert_ne!(Phase::Created, Phase::Closed);
}
