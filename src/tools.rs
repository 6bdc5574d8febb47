use vstd::prelude::*;
use vstd::string::StringExecFns;
use crate::error::MergeError;

verus! {

/// The executables the merge runs, each already resolved from its override.
#[derive(Debug, Clone)]
pub struct ToolConfig {
    pub libtool: String,
    pub ar: String,
    pub nm: String,
    pub objcopy: String,
}

/// One run of an external tool: the executable and its arguments.
#[derive(Debug, Clone)]
pub struct ToolInvocation {
    pub tool: String,
    pub args: Vec<String>,
}

/// What came of running a tool, as the caller observed it.
#[derive(Debug, Clone)]
pub enum ToolOutcome {
    /// The executable could not be spawned; the text describes why.
    LaunchFailed { message: String },
    /// The tool ran to completion with the given status and captured output.
    Exited { success: bool, stdout: String, stderr: String },
}

/// The views of a list of strings.
pub open spec fn string_views(v: Seq<String>) -> Seq<Seq<char>> {
    v.map_values(|s: String| s@)
}

/// The executable chosen for a tool: the override when one is set, else the
/// conventional name.
pub open spec fn resolved_tool(override_value: Option<Seq<char>>, default_name: Seq<char>) -> Seq<
    char,
> {
    match override_value {
        Some(v) => v,
        None => default_name,
    }
}

/// Picks the executable for a tool: a set override wins, even when empty;
/// otherwise the conventional bare name, looked up on the search path.
pub fn resolve_tool(override_value: Option<String>, default_name: &str) -> (r: String)
    ensures
        r@ == resolved_tool(
            match override_value {
                Some(v) => Some(v@),
                None => None,
            },
            default_name@,
        ),
{
    match override_value {
        Some(v) => v,
        None => String::from_str(default_name),
    }
}

/// Conventional name of the macOS archiver.
pub open spec fn libtool_name() -> Seq<char> {
    seq!['l', 'i', 'b', 't', 'o', 'o', 'l']
}

/// Conventional name of the symbol table tool.
pub open spec fn nm_name() -> Seq<char> {
    seq!['n', 'm']
}

/// Conventional name of the object editing tool.
pub open spec fn objcopy_name() -> Seq<char> {
    seq!['o', 'b', 'j', 'c', 'o', 'p', 'y']
}

/// The option view of an optional string.
pub open spec fn opt_view(o: Option<String>) -> Option<Seq<char>> {
    match o {
        Some(v) => Some(v@),
        None => None,
    }
}

/// Conventional name of the generic archiver.
pub open spec fn ar_name() -> Seq<char> {
    seq!['a', 'r']
}

impl ToolConfig {
    /// Resolves every tool once, from the values of the override variables
    /// `LIBTOOL`, `AR`, `NM` and `OBJCOPY` (`None` where a variable is unset).
    pub fn from_overrides(
        libtool: Option<String>,
        ar: Option<String>,
        nm: Option<String>,
        objcopy: Option<String>,
    ) -> (r: ToolConfig)
        ensures
            r.libtool@ == resolved_tool(opt_view(libtool), libtool_name()),
            r.ar@ == resolved_tool(opt_view(ar), ar_name()),
            r.nm@ == resolved_tool(opt_view(nm), nm_name()),
            r.objcopy@ == resolved_tool(opt_view(objcopy), objcopy_name()),
    {
        proof {
            reveal_strlit("libtool");
            reveal_strlit("ar");
            reveal_strlit("nm");
            reveal_strlit("objcopy");
        }
        assert(libtool_name() =~= "libtool"@);
        assert(ar_name() =~= "ar"@);
        assert(nm_name() =~= "nm"@);
        assert(objcopy_name() =~= "objcopy"@);
        ToolConfig {
            libtool: resolve_tool(libtool, "libtool"),
            ar: resolve_tool(ar, "ar"),
            nm: resolve_tool(nm, "nm"),
            objcopy: resolve_tool(objcopy, "objcopy"),
        }
    }

    /// The run of `nm` that lists the external symbols of one object in the
    /// portable format: `nm -g -P <obj>`.
    pub fn symbols_invocation(&self, obj_path: &str) -> (r: ToolInvocation)
        ensures
            r.tool@ == self.nm@,
            string_views(r.args@) == seq![seq!['-', 'g'], seq!['-', 'P'], obj_path@],
    {
        let mut args: Vec<String> = Vec::new();
        args.push(String::from_str("-g"));
        args.push(String::from_str("-P"));
        args.push(String::from_str(obj_path));
        proof {
            reveal_strlit("-g");
            reveal_strlit("-P");
            assert("-g"@ =~= seq!['-', 'g']);
            assert("-P"@ =~= seq!['-', 'P']);
            assert(string_views(args@) =~= seq![seq!['-', 'g'], seq!['-', 'P'], obj_path@]);
        }
        ToolInvocation { tool: self.nm.clone(), args }
    }

    /// The run of `objcopy` that makes the named symbols of one object local,
    /// in place: `objcopy -L <name> ... <obj>`.
    pub fn localize_invocation(&self, obj_path: &str, names: &Vec<String>) -> (r: ToolInvocation)
        ensures
            r.tool@ == self.objcopy@,
            string_views(r.args@) == localize_args(string_views(names@)).push(obj_path@),
    {
        let mut args: Vec<String> = Vec::new();
        let mut i: usize = 0;
        assert(string_views(args@) =~= localize_args(string_views(names@).take(0)));
        while i < names.len()
            invariant
                0 <= i <= names@.len(),
                string_views(args@) == localize_args(string_views(names@).take(i as int)),
            decreases names@.len() - i,
        {
            let ghost prev = args@;
            proof {
                reveal_strlit("-L");
                assert("-L"@ =~= seq!['-', 'L']);
            }
            args.push(String::from_str("-L"));
            args.push(names[i].clone());
            assert(string_views(names@).take(i + 1).drop_last() =~= string_views(names@).take(i as int));
            assert(string_views(args@) =~= string_views(prev) + seq![seq!['-', 'L'], names@[i as int]@]);
            i = i + 1;
        }
        assert(string_views(names@).take(i as int) =~= string_views(names@));
        let ghost before = args@;
        args.push(String::from_str(obj_path));
        assert(string_views(args@) =~= string_views(before).push(obj_path@));
        ToolInvocation { tool: self.objcopy.clone(), args }
    }
}

/// Appends copies of `items` to `args`.
pub(crate) fn push_all(args: &mut Vec<String>, items: &Vec<String>)
    ensures
        string_views(final(args)@) == string_views(old(args)@) + string_views(items@),
{
    let ghost head = string_views(args@);
    let mut i: usize = 0;
    while i < items.len()
        invariant
            0 <= i <= items@.len(),
            string_views(args@) == head + string_views(items@).take(i as int),
        decreases items@.len() - i,
    {
        let ghost prev = args@;
        args.push(items[i].clone());
        assert(string_views(args@) =~= string_views(prev).push(items@[i as int]@));
        assert(string_views(items@).take(i + 1) =~= string_views(items@).take(i as int).push(
            items@[i as int]@,
        ));
        i = i + 1;
    }
    assert(string_views(items@).take(i as int) =~= string_views(items@));
}

/// The options that make each of `names` local: `-L <name>` for each.
pub open spec fn localize_args(names: Seq<Seq<char>>) -> Seq<Seq<char>>
    decreases names.len(),
{
    if names.len() == 0 {
        Seq::empty()
    } else {
        localize_args(names.drop_last()) + seq![seq!['-', 'L'], names.last()]
    }
}

/// Whether a tool run succeeded.
pub open spec fn succeeded(outcome: ToolOutcome) -> bool {
    outcome matches ToolOutcome::Exited { success, .. } && success
}

/// The result a tool run stands for: launch failures and non-zero exits
/// become errors that carry the tool, its arguments and its output.
pub open spec fn tool_result_spec(
    reason: Seq<char>,
    tool_name: Seq<char>,
    arguments: Seq<Seq<char>>,
    outcome: ToolOutcome,
    r: Result<(), MergeError>,
) -> bool {
    match outcome {
        ToolOutcome::LaunchFailed { message } => match r {
            Err(MergeError::ExternalToolLaunchError { tool, inner }) => tool@ == tool_name
                && inner@ == message@,
            _ => false,
        },
        ToolOutcome::Exited { success, stdout, stderr } => if success {
            r is Ok
        } else {
            match r {
                Err(MergeError::ExternalToolError { reason: why, tool, args, stdout: out, stderr: err }) => {
                    &&& why@ == reason
                    &&& tool@ == tool_name
                    &&& string_views(args@) == arguments
                    &&& out@ == stdout@
                    &&& err@ == stderr@
                },
                _ => false,
            }
        },
    }
}

/// Turns the observed outcome of a tool run into the merge's result.
pub fn tool_result(reason: &str, inv: ToolInvocation, outcome: ToolOutcome) -> (r: Result<(), MergeError>)
    ensures
        tool_result_spec(reason@, inv.tool@, string_views(inv.args@), outcome, r),
{
    match outcome {
        ToolOutcome::LaunchFailed { message } => Err(
            MergeError::ExternalToolLaunchError { tool: inv.tool, inner: message },
        ),
        ToolOutcome::Exited { success, stdout, stderr } => {
            if success {
                Ok(())
            } else {
                Err(
                    MergeError::ExternalToolError {
                        reason: String::from_str(reason),
                        tool: inv.tool,
                        args: inv.args,
                        stdout,
                        stderr,
                    },
                )
            }
        },
    }
}

} // verus!
