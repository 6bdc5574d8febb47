use armerge::{resolve_tool, tool_result, MacArBuilder, MergeError, ToolConfig, ToolInvocation, ToolOutcome};

fn strings(v: &[&str]) -> Vec<String> {
    v.iter().map(|s| s.to_string()).collect()
}

fn default_tools() -> ToolConfig {
    ToolConfig::from_overrides(None, None, None, None)
}

#[test]
fn close_packs_all_objects_with_libtool() {
    let mut b = MacArBuilder::new("out/libmerged.a");
    assert!(b.append_obj("x/a.o").is_ok());
    assert!(b.append_obj("x/b.o").is_ok());
    let inv = b.close(&default_tools()).expect("first close runs libtool");
    assert_eq!(inv.tool, "libtool");
    assert_eq!(inv.args, strings(&["-static", "-o", "out/libmerged.a", "x/a.o", "x/b.o"]));
}

#[test]
fn close_twice_runs_archiver_once() {
    let mut b = MacArBuilder::new("libout.a");
    b.append_obj("a.o").unwrap();
    let tools = default_tools();
    assert!(b.close(&tools).is_some());
    assert!(b.close(&tools).is_none());
}

#[test]
fn close_without_objects_still_names_output() {
    let mut b = MacArBuilder::new("empty.a");
    let inv = b.close(&default_tools()).unwrap();
    assert_eq!(inv.args, strings(&["-static", "-o", "empty.a"]));
}

#[test]
fn libtool_override_is_used() {
    let tools = ToolConfig::from_overrides(Some("/opt/bin/libtool-15".to_string()), None, None, None);
    let mut b = MacArBuilder::new("o.a");
    let inv = b.close(&tools).unwrap();
    assert_eq!(inv.tool, "/opt/bin/libtool-15");
}

#[test]
fn tools_fall_back_to_conventional_names() {
    let t = default_tools();
    assert_eq!(t.libtool, "libtool");
    assert_eq!(t.ar, "ar");
    assert_eq!(t.nm, "nm");
    assert_eq!(t.objcopy, "objcopy");
    let t = ToolConfig::from_overrides(None, Some("llvm-ar".to_string()), Some("llvm-nm".to_string()), Some("".to_string()));
    assert_eq!(t.ar, "llvm-ar");
    assert_eq!(t.nm, "llvm-nm");
    assert_eq!(t.objcopy, "");
}

#[test]
fn resolve_tool_prefers_override() {
    assert_eq!(resolve_tool(Some("gnu-ar".to_string()), "ar"), "gnu-ar");
    assert_eq!(resolve_tool(None, "ar"), "ar");
}

fn sample_invocation() -> ToolInvocation {
    ToolInvocation { tool: "libtool".to_string(), args: strings(&["-static", "-o", "out.a", "a.o"]) }
}

#[test]
fn launch_failure_names_the_tool() {
    let r = tool_result(
        "Failed to merge object files with `libtool`",
        sample_invocation(),
        ToolOutcome::LaunchFailed { message: "No such file or directory (os error 2)".to_string() },
    );
    match r {
        Err(MergeError::ExternalToolLaunchError { tool, inner }) => {
            assert_eq!(tool, "libtool");
            assert_eq!(inner, "No such file or directory (os error 2)");
        }
        other => panic!("unexpected {:?}", other),
    }
}

#[test]
fn failing_tool_reports_arguments_and_output() {
    let r = tool_result(
        "Failed to merge object files with `libtool`",
        sample_invocation(),
        ToolOutcome::Exited {
            success: false,
            stdout: "partial\n".to_string(),
            stderr: "libtool: can't open file: a.o\n".to_string(),
        },
    );
    match r {
        Err(MergeError::ExternalToolError { reason, tool, args, stdout, stderr }) => {
            assert_eq!(reason, "Failed to merge object files with `libtool`");
            assert_eq!(tool, "libtool");
            assert_eq!(args, strings(&["-static", "-o", "out.a", "a.o"]));
            assert_eq!(stdout, "partial\n");
            assert_eq!(stderr, "libtool: can't open file: a.o\n");
        }
        other => panic!("unexpected {:?}", other),
    }
}

#[test]
fn successful_tool_run_is_ok() {
    let r = tool_result(
        "reason",
        sample_invocation(),
        ToolOutcome::Exited { success: true, stdout: "noise".to_string(), stderr: String::new() },
    );
    assert!(r.is_ok());
}

#[test]
fn nm_and_objcopy_invocations() {
    let t = default_tools();
    let inv = t.symbols_invocation("w/a.o");
    assert_eq!(inv.tool, "nm");
    assert_eq!(inv.args, strings(&["-g", "-P", "w/a.o"]));
    let inv = t.localize_invocation("w/a.o", &strings(&["foo", "bar"]));
    assert_eq!(inv.tool, "objcopy");
    assert_eq!(inv.args, strings(&["-L", "foo", "-L", "bar", "w/a.o"]));
    let inv = t.localize_invocation("w/b.o", &Vec::new());
    assert_eq!(inv.args, strings(&["w/b.o"]));
}
