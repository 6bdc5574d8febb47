use vstd::prelude::*;
use vstd::string::StringExecFns;
use crate::arbuilder::common::{ar_args, CommonArBuilder};
use crate::arbuilder::mac::{libtool_args, MacArBuilder};
use crate::classify::{to_localize, SymbolPolicy};
use crate::error::MergeError;
use crate::order::{distinct_names, merge_order, names_at, ordered_names};
use crate::symbols::{nm_symbols, parse_nm_output};
use crate::tools::{localize_args, string_views, succeeded, tool_result, tool_result_spec, ToolConfig, ToolInvocation, ToolOutcome};

verus! {

/// Where a merge session stands: which tool run it waits for, if any.
#[derive(Debug, Clone, Copy, PartialEq, Eq, Structural)]
pub enum Phase {
    /// Nothing has run yet.
    Created,
    /// Waiting for the symbol listing of the member at this position.
    AwaitSymbols(usize),
    /// Waiting for the localization of the member at this position.
    AwaitLocalize(usize),
    /// Waiting for the archiver to write the output.
    AwaitPack,
    /// Done, successfully or not; nothing more runs.
    Closed,
}

/// What the caller is asked to do next.
#[derive(Debug)]
pub enum Step {
    /// Run this tool and report its outcome to `advance`.
    Run(ToolInvocation),
    /// The merge is over.
    Finished,
}

/// A one-shot merge of extracted members into one output archive.
///
/// The session decides every tool run: with a symbol policy, it lists the
/// symbols of each member with `nm`, localizes the rejected ones with
/// `objcopy`, then packs the members in the requested order; without one,
/// it packs them as gathered. The first failing run ends the session with
/// that run's error, before the archiver is ever asked to write.
pub struct ArMerger {
    obj_paths: Vec<String>,
    names: Vec<String>,
    output: String,
    policy: Option<SymbolPolicy>,
    order: Vec<String>,
    tools: ToolConfig,
    macos: bool,
    phase: Phase,
    pending: Option<ToolInvocation>,
}

/// Text of the error when listing symbols fails.
pub open spec fn nm_reason() -> Seq<char> {
    "Failed to list symbols with `nm`"@
}

/// Text of the error when localizing symbols fails.
pub open spec fn objcopy_reason() -> Seq<char> {
    "Failed to localize symbols with `objcopy`"@
}

/// Text of the error when packing fails.
pub open spec fn pack_reason(macos: bool) -> Seq<char> {
    if macos {
        "Failed to merge object files with `libtool`"@
    } else {
        "Failed to merge object files with `ar`"@
    }
}

/// Whether `step` asks to run `tool` with `args`.
pub open spec fn runs(step: Step, tool: Seq<char>, args: Seq<Seq<char>>) -> bool {
    step matches Step::Run(inv) && inv.tool@ == tool && string_views(inv.args@) == args
}

impl ArMerger {
    /// The extracted object files, in the order they were gathered.
    pub closed spec fn spec_paths(self) -> Seq<Seq<char>> {
        string_views(self.obj_paths@)
    }

    /// The member names, one for each object file.
    pub closed spec fn spec_names(self) -> Seq<Seq<char>> {
        string_views(self.names@)
    }

    /// Where the archive is written.
    pub closed spec fn spec_output(self) -> Seq<char> {
        self.output@
    }

    /// The entries of the order file.
    pub closed spec fn spec_order(self) -> Seq<Seq<char>> {
        string_views(self.order@)
    }

    /// Whether symbols are left alone.
    pub closed spec fn is_simple(self) -> bool {
        self.policy is None
    }

    /// The symbol policy, when there is one.
    pub closed spec fn spec_policy(self) -> SymbolPolicy
        recommends
            !self.is_simple(),
    {
        self.policy->0
    }

    /// The resolved tools.
    pub closed spec fn spec_tools(self) -> ToolConfig {
        self.tools
    }

    /// Whether the macOS archiver is used.
    pub closed spec fn spec_macos(self) -> bool {
        self.macos
    }

    /// The current phase.
    pub closed spec fn phase(self) -> Phase {
        self.phase
    }

    /// The executable of the run waited for.
    pub closed spec fn pending_tool(self) -> Seq<char> {
        self.pending->0.tool@
    }

    /// The arguments of the run waited for.
    pub closed spec fn pending_args(self) -> Seq<Seq<char>> {
        string_views(self.pending->0.args@)
    }

    /// The session's invariant.
    pub closed spec fn wf(self) -> bool {
        &&& self.obj_paths@.len() == self.names@.len()
        &&& distinct_names(string_views(self.names@))
        &&& match self.phase {
            Phase::AwaitSymbols(i) => i < self.obj_paths@.len() && self.policy is Some
                && self.pending is Some,
            Phase::AwaitLocalize(i) => i < self.obj_paths@.len() && self.policy is Some
                && self.pending is Some,
            Phase::AwaitPack => self.pending is Some && self.pending->0.tool@ == self.archiver(),
            _ => true,
        }
    }

    /// The archiver executable this session packs with.
    pub open spec fn archiver(self) -> Seq<char> {
        if self.spec_macos() {
            self.spec_tools().libtool@
        } else {
            self.spec_tools().ar@
        }
    }

    /// `post` holds the same merge as `pre`.
    pub open spec fn same_merge(pre: ArMerger, post: ArMerger) -> bool {
        &&& post.spec_paths() == pre.spec_paths()
        &&& post.spec_names() == pre.spec_names()
        &&& post.spec_output() == pre.spec_output()
        &&& post.spec_order() == pre.spec_order()
        &&& post.is_simple() == pre.is_simple()
        &&& (!pre.is_simple() ==> post.spec_policy() == pre.spec_policy())
        &&& post.spec_tools() == pre.spec_tools()
        &&& post.spec_macos() == pre.spec_macos()
    }

    /// The objects in packing order: as gathered without a policy, else
    /// listed members first in the order file's sequence, then the others.
    pub open spec fn is_pack_order(self, objs: Seq<Seq<char>>) -> bool {
        if self.is_simple() {
            objs == self.spec_paths()
        } else {
            exists|idx: Seq<usize>|
                {
                    &&& forall|k: int| 0 <= k < idx.len() ==> #[trigger] idx[k] < self.spec_paths().len()
                    &&& names_at(self.spec_names(), idx) == ordered_names(self.spec_names(), self.spec_order())
                    &&& objs == names_at(self.spec_paths(), idx)
                }
        }
    }

    /// `step` is the archiver run that packs this session's output.
    pub open spec fn packs(self, step: Step) -> bool {
        exists|objs: Seq<Seq<char>>|
            {
                &&& self.is_pack_order(objs)
                &&& if self.spec_macos() {
                    runs(step, self.spec_tools().libtool@, libtool_args(self.spec_output(), objs))
                } else {
                    runs(step, self.spec_tools().ar@, ar_args(self.spec_output(), objs))
                }
            }
    }

    /// `post` and `step` continue the localization at member `j`: list its
    /// symbols, or pack once every member is done.
    pub open spec fn continues_at(post: ArMerger, j: int, step: Step) -> bool {
        if j < post.spec_paths().len() {
            post.phase() == Phase::AwaitSymbols(j as usize) && runs(
                step,
                post.spec_tools().nm@,
                seq![seq!['-', 'g'], seq!['-', 'P'], post.spec_paths()[j]],
            )
        } else {
            post.phase() == Phase::AwaitPack && post.packs(step)
        }
    }

    /// A new session over the object files `obj_paths`, written out from
    /// the members named `names` (the same positions), packed into `output`.
    /// Without a policy the members are packed as they are and `order` is
    /// not used. On macOS (`macos`) `libtool` packs, elsewhere `ar`.
    pub fn new(
        obj_paths: Vec<String>,
        names: Vec<String>,
        output: &str,
        policy: Option<SymbolPolicy>,
        order: Vec<String>,
        tools: ToolConfig,
        macos: bool,
    ) -> (r: ArMerger)
        requires
            obj_paths@.len() == names@.len(),
            distinct_names(string_views(names@)),
        ensures
            r.wf(),
            r.phase() == Phase::Created,
            r.spec_paths() == string_views(obj_paths@),
            r.spec_names() == string_views(names@),
            r.spec_output() == output@,
            r.spec_order() == string_views(order@),
            r.is_simple() == policy is None,
            policy matches Some(p) ==> r.spec_policy() == p,
            r.spec_tools() == tools,
            r.spec_macos() == macos,
    {
        ArMerger {
            obj_paths,
            names,
            output: String::from_str(output),
            policy,
            order,
            tools,
            macos,
            phase: Phase::Created,
            pending: None,
        }
    }
}

/// The same run as `inv`.
fn copy_invocation(inv: &ToolInvocation) -> (r: ToolInvocation)
    ensures
        r.tool@ == inv.tool@,
        string_views(r.args@) == string_views(inv.args@),
{
    let mut args: Vec<String> = Vec::new();
    crate::tools::push_all(&mut args, &inv.args);
    assert(string_views(args@) =~= string_views(inv.args@));
    ToolInvocation { tool: inv.tool.clone(), args }
}

/// The error a failed run stands for, as a unit result.
pub open spec fn as_unit(r: Result<Step, MergeError>) -> Result<(), MergeError> {
    match r {
        Ok(_) => Ok(()),
        Err(e) => Err(e),
    }
}

/// Text of the error when the run waited for in `phase` fails.
pub open spec fn reason_for(phase: Phase, macos: bool) -> Seq<char> {
    match phase {
        Phase::AwaitSymbols(_) => nm_reason(),
        Phase::AwaitLocalize(_) => objcopy_reason(),
        _ => pack_reason(macos),
    }
}

/// What one call of `advance` does: from `pre` to `post`, given the
/// outcome and standard output of the run waited for, returning `r`.
pub open spec fn advance_post(
    pre: ArMerger,
    post: ArMerger,
    outcome: ToolOutcome,
    stdout: Seq<u8>,
    r: Result<Step, MergeError>,
) -> bool {
    &&& ArMerger::same_merge(pre, post)
    &&& match pre.phase() {
        Phase::Created => (r matches Ok(step) && ArMerger::starts(pre, post, step)),
        Phase::Closed => (r matches Ok(Step::Finished) && post.phase() == Phase::Closed),
        _ => if !succeeded(outcome) {
            &&& post.phase() == Phase::Closed
            &&& r is Err
            &&& tool_result_spec(
                reason_for(pre.phase(), pre.spec_macos()),
                pre.pending_tool(),
                pre.pending_args(),
                outcome,
                as_unit(r),
            )
        } else {
            match pre.phase() {
                Phase::AwaitSymbols(i) => {
                    let names = to_localize(
                        pre.spec_policy().mode,
                        pre.spec_policy().spec_patterns(),
                        nm_symbols(stdout),
                    );
                    if names.len() > 0 {
                        &&& post.phase() == Phase::AwaitLocalize(i)
                        &&& (r matches Ok(step) && runs(
                            step,
                            pre.spec_tools().objcopy@,
                            localize_args(names).push(pre.spec_paths()[i as int]),
                        ))
                    } else {
                        (r matches Ok(step) && ArMerger::continues_at(post, i + 1, step))
                    }
                },
                Phase::AwaitLocalize(i) => (r matches Ok(step) && ArMerger::continues_at(
                    post,
                    i + 1,
                    step,
                )),
                _ => (r matches Ok(Step::Finished) && post.phase() == Phase::Closed),
            }
        },
    }
}

impl ArMerger {
    /// The first step of a session: pack at once without a policy, else
    /// list the symbols of the first member.
    pub open spec fn starts(pre: ArMerger, post: ArMerger, step: Step) -> bool {
        if pre.is_simple() {
            post.phase() == Phase::AwaitPack && post.packs(step)
        } else {
            ArMerger::continues_at(post, 0, step)
        }
    }

    /// `step` is the run now waited for.
    pub open spec fn waits_for(self, step: Step) -> bool {
        step matches Step::Run(inv) && self.pending_tool() == inv.tool@ && self.pending_args()
            == string_views(inv.args@)
    }

    fn objects_in_pack_order(&self) -> (r: Vec<String>)
        requires
            self.wf(),
        ensures
            self.is_pack_order(string_views(r@)),
    {
        match &self.policy {
            None => {
                let mut r: Vec<String> = Vec::new();
                crate::tools::push_all(&mut r, &self.obj_paths);
                assert(string_views(r@) =~= string_views(self.obj_paths@));
                r
            },
            Some(_) => {
                let idx = merge_order(&self.names, &self.order);
                let mut r: Vec<String> = Vec::new();
                let mut k: usize = 0;
                while k < idx.len()
                    invariant
                        0 <= k <= idx@.len(),
                        self.obj_paths@.len() == self.names@.len(),
                        forall|j: int| 0 <= j < idx@.len() ==> idx@[j] < self.names@.len(),
                        string_views(r@) == names_at(string_views(self.obj_paths@), idx@.take(k as int)),
                    decreases idx@.len() - k,
                {
                    let ghost prev = r@;
                    r.push(self.obj_paths[idx[k]].clone());
                    assert(string_views(r@) =~= string_views(prev).push(self.obj_paths@[idx@[k as int] as int]@));
                    assert(names_at(string_views(self.obj_paths@), idx@.take(k + 1)) =~= names_at(
                        string_views(self.obj_paths@),
                        idx@.take(k as int),
                    ).push(string_views(self.obj_paths@)[idx@[k as int] as int]));
                    k = k + 1;
                }
                assert(idx@.take(k as int) =~= idx@);
                assert(self.spec_paths() == string_views(self.obj_paths@));
                r
            },
        }
    }

    fn issue_pack(&mut self) -> (r: Step)
        requires
            old(self).wf(),
        ensures
            final(self).wf(),
            ArMerger::same_merge(*old(self), *final(self)),
            final(self).phase() == Phase::AwaitPack,
            final(self).packs(r),
            final(self).waits_for(r),
    {
        let objs = self.objects_in_pack_order();
        let ghost ov = string_views(objs@);
        let ghost pre = *self;
        assert(pre.is_pack_order(ov));
        let inv = if self.macos {
            let mut b = MacArBuilder::new(self.output.as_str());
            let mut i: usize = 0;
            while i < objs.len()
                invariant
                    0 <= i <= objs@.len(),
                    b.spec_output_path() == self.output@,
                    !b.is_closed(),
                    b.spec_obj_paths() == string_views(objs@).take(i as int),
                decreases objs@.len() - i,
            {
                let _ = b.append_obj(objs[i].as_str());
                assert(string_views(objs@).take(i + 1) =~= string_views(objs@).take(i as int).push(objs@[i as int]@));
                i = i + 1;
            }
            assert(string_views(objs@).take(i as int) =~= string_views(objs@));
            match b.close(&self.tools) {
                Some(inv) => inv,
                None => {
                    return Step::Finished;
                },
            }
        } else {
            let mut b = CommonArBuilder::new(self.output.as_str());
            let mut i: usize = 0;
            while i < objs.len()
                invariant
                    0 <= i <= objs@.len(),
                    b.spec_output_path() == self.output@,
                    !b.is_closed(),
                    b.spec_obj_paths() == string_views(objs@).take(i as int),
                decreases objs@.len() - i,
            {
                let _ = b.append_obj(objs[i].as_str());
                assert(string_views(objs@).take(i + 1) =~= string_views(objs@).take(i as int).push(objs@[i as int]@));
                i = i + 1;
            }
            assert(string_views(objs@).take(i as int) =~= string_views(objs@));
            match b.close(&self.tools) {
                Some(inv) => inv,
                None => {
                    return Step::Finished;
                },
            }
        };
        self.pending = Some(copy_invocation(&inv));
        self.phase = Phase::AwaitPack;
        let r = Step::Run(inv);
        assert(self.spec_paths() == pre.spec_paths() && self.spec_names() == pre.spec_names()
            && self.spec_order() == pre.spec_order() && self.is_simple() == pre.is_simple());
        proof {
            if pre.is_simple() {
                assert(self.is_pack_order(ov));
            } else {
                let idx = choose|idx: Seq<usize>|
                    {
                        &&& forall|k: int| 0 <= k < idx.len() ==> #[trigger] idx[k] < pre.spec_paths().len()
                        &&& names_at(pre.spec_names(), idx) == ordered_names(pre.spec_names(), pre.spec_order())
                        &&& ov == names_at(pre.spec_paths(), idx)
                    };
                assert(self.is_pack_order(ov));
            }
        }
        r
    }

    fn issue_from(&mut self, j: usize) -> (r: Step)
        requires
            old(self).wf(),
            old(self).policy is Some,
            j <= old(self).obj_paths@.len(),
        ensures
            final(self).wf(),
            ArMerger::same_merge(*old(self), *final(self)),
            ArMerger::continues_at(*final(self), j as int, r),
            final(self).waits_for(r),
    {
        if j < self.obj_paths.len() {
            let inv = self.tools.symbols_invocation(self.obj_paths[j].as_str());
            self.pending = Some(copy_invocation(&inv));
            self.phase = Phase::AwaitSymbols(j);
            Step::Run(inv)
        } else {
            self.issue_pack()
        }
    }

    /// Starts the session: the first run to perform.
    pub fn start(&mut self) -> (r: Step)
        requires
            old(self).wf(),
            old(self).phase() == Phase::Created,
        ensures
            final(self).wf(),
            ArMerger::same_merge(*old(self), *final(self)),
            ArMerger::starts(*old(self), *final(self), r),
            final(self).waits_for(r),
    {
        if self.policy.is_none() {
            self.issue_pack()
        } else {
            self.issue_from(0)
        }
    }

    /// Takes the outcome of the run asked for last (and its standard
    /// output) and returns the next step. A failed run closes the session
    /// with that run's error; the archiver's success closes it with
    /// `Finished`. A closed session asks for nothing more; one not started
    /// yet starts.
    pub fn advance(&mut self, outcome: ToolOutcome, stdout: &Vec<u8>) -> (r: Result<Step, MergeError>)
        requires
            old(self).wf(),
        ensures
            final(self).wf(),
            advance_post(*old(self), *final(self), outcome, stdout@, r),
            (r matches Ok(Step::Run(_))) ==> (r matches Ok(step) && final(self).waits_for(step)),
    {
        match self.phase {
            Phase::Created => {
                return Ok(self.start());
            },
            Phase::Closed => {
                return Ok(Step::Finished);
            },
            _ => {},
        }
        let inv = match &self.pending {
            Some(p) => copy_invocation(p),
            None => {
                return Ok(Step::Finished);
            },
        };
        let ok = match &outcome {
            ToolOutcome::Exited { success, .. } => *success,
            _ => false,
        };
        if !ok {
            let reason = match self.phase {
                Phase::AwaitSymbols(_) => String::from_str("Failed to list symbols with `nm`"),
                Phase::AwaitLocalize(_) => String::from_str("Failed to localize symbols with `objcopy`"),
                _ => if self.macos {
                    String::from_str("Failed to merge object files with `libtool`")
                } else {
                    String::from_str("Failed to merge object files with `ar`")
                },
            };
            self.phase = Phase::Closed;
            return match tool_result(reason.as_str(), inv, outcome) {
                Err(e) => Err(e),
                Ok(()) => Ok(Step::Finished),
            };
        }
        match self.phase {
            Phase::AwaitSymbols(i) => {
                let n = self.obj_paths.len();
                assert(i < n);
                let syms = parse_nm_output(stdout);
                let names = match &self.policy {
                    Some(p) => p.symbols_to_localize(&syms),
                    None => {
                        return Ok(Step::Finished);
                    },
                };
                if names.len() > 0 {
                    let next = self.tools.localize_invocation(self.obj_paths[i].as_str(), &names);
                    self.pending = Some(copy_invocation(&next));
                    self.phase = Phase::AwaitLocalize(i);
                    Ok(Step::Run(next))
                } else {
                    Ok(self.issue_from(i + 1))
                }
            },
            Phase::AwaitLocalize(i) => {
                let n = self.obj_paths.len();
                assert(i < n);
                Ok(self.issue_from(i + 1))
            },
            _ => {
                self.phase = Phase::Closed;
                Ok(Step::Finished)
            },
        }
    }
}

/// When the archiver cannot be launched, the merge fails with a launch
/// error that names the archiver, and the session is closed.
pub proof fn lemma_archiver_launch_failure(
    pre: ArMerger,
    post: ArMerger,
    message: String,
    stdout: Seq<u8>,
    r: Result<Step, MergeError>,
)
    requires
        pre.wf(),
        pre.phase() == Phase::AwaitPack,
        advance_post(pre, post, ToolOutcome::LaunchFailed { message }, stdout, r),
    ensures
        r matches Err(MergeError::ExternalToolLaunchError { tool, inner }) && tool@ == pre.archiver()
            && inner@ == message@,
        post.phase() == Phase::Closed,
{
}

/// When the archiver exits with failure, the error carries the exact
/// arguments it was given and its standard output and error verbatim.
pub proof fn lemma_archiver_failure_diagnostics(
    pre: ArMerger,
    post: ArMerger,
    out: String,
    err: String,
    stdout: Seq<u8>,
    r: Result<Step, MergeError>,
)
    requires
        pre.wf(),
        pre.phase() == Phase::AwaitPack,
        advance_post(pre, post, ToolOutcome::Exited { success: false, stdout: out, stderr: err }, stdout, r),
    ensures
        r matches Err(MergeError::ExternalToolError { reason, tool, args, stdout: o, stderr: e }) && tool@
            == pre.archiver() && string_views(args@) == pre.pending_args() && o@ == out@ && e@ == err@,
        post.phase() == Phase::Closed,
{
}

/// A closed session stays closed and asks for nothing more, whatever is
/// reported to it.
pub proof fn lemma_closed_is_final(
    pre: ArMerger,
    post: ArMerger,
    outcome: ToolOutcome,
    stdout: Seq<u8>,
    r: Result<Step, MergeError>,
)
    requires
        pre.phase() == Phase::Closed,
        advance_post(pre, post, outcome, stdout, r),
    ensures
        r matches Ok(Step::Finished),
        post.phase() == Phase::Closed,
{
}

} // verus!
