use vstd::prelude::*;
use vstd::string::StringExecFns;
use crate::error::MergeError;
use crate::tools::{push_all, string_views, ToolConfig, ToolInvocation};

verus! {

/// Packs object files into a static archive with an `ar`-style archiver,
/// for platforms other than macOS. It behaves as `MacArBuilder` does, but
/// its single run is `ar qcs <output> <objects...>`.
#[derive(Debug)]
pub struct CommonArBuilder {
    output_path: String,
    obj_paths: Vec<String>,
    closed: bool,
}

/// The arguments `ar` gets to pack `objs` into `out`.
pub open spec fn ar_args(out: Seq<char>, objs: Seq<Seq<char>>) -> Seq<Seq<char>> {
    seq![seq!['q', 'c', 's'], out] + objs
}

/// What one `close` does to a builder, as for `MacArBuilder`.
pub open spec fn common_close_post(
    pre: CommonArBuilder,
    post: CommonArBuilder,
    tool: Seq<char>,
    r: Option<ToolInvocation>,
) -> bool {
    &&& post.spec_output_path() == pre.spec_output_path()
    &&& post.spec_obj_paths() == pre.spec_obj_paths()
    &&& post.is_closed()
    &&& if pre.is_closed() {
        r is None
    } else {
        &&& r is Some
        &&& r->0.tool@ == tool
        &&& string_views(r->0.args@) == ar_args(pre.spec_output_path(), pre.spec_obj_paths())
    }
}

impl CommonArBuilder {
    /// Where the archive is written.
    pub closed spec fn spec_output_path(self) -> Seq<char> {
        self.output_path@
    }

    /// The object files collected so far, in order.
    pub closed spec fn spec_obj_paths(self) -> Seq<Seq<char>> {
        string_views(self.obj_paths@)
    }

    /// Whether the archive has already been asked for.
    pub closed spec fn is_closed(self) -> bool {
        self.closed
    }

    /// An open builder for the archive at `path`, with no objects yet.
    pub fn new(path: &str) -> (r: Self)
        ensures
            r.spec_output_path() == path@,
            r.spec_obj_paths() == Seq::<Seq<char>>::empty(),
            !r.is_closed(),
    {
        let r = CommonArBuilder { output_path: String::from_str(path), obj_paths: Vec::new(), closed: false };
        assert(string_views(r.obj_paths@) =~= Seq::<Seq<char>>::empty());
        r
    }

    /// Records one more object file to be packed, after those recorded so far.
    pub fn append_obj(&mut self, path: &str) -> (r: Result<(), MergeError>)
        ensures
            r is Ok,
            final(self).spec_output_path() == old(self).spec_output_path(),
            final(self).spec_obj_paths() == old(self).spec_obj_paths().push(path@),
            final(self).is_closed() == old(self).is_closed(),
    {
        let ghost before = self.obj_paths@;
        self.obj_paths.push(String::from_str(path));
        assert(string_views(self.obj_paths@) =~= string_views(before).push(path@));
        Ok(())
    }

    /// Closes the builder: the first call returns the `ar` run that writes
    /// the archive; every later call returns `None`.
    pub fn close(&mut self, tools: &ToolConfig) -> (r: Option<ToolInvocation>)
        ensures
            common_close_post(*old(self), *final(self), tools.ar@, r),
    {
        if self.closed {
            return None;
        }
        self.closed = true;
        let mut args: Vec<String> = Vec::new();
        args.push(String::from_str("qcs"));
        args.push(self.output_path.clone());
        proof {
            reveal_strlit("qcs");
            assert("qcs"@ =~= seq!['q', 'c', 's']);
            assert(string_views(args@) =~= seq![seq!['q', 'c', 's'], self.output_path@]);
        }
        push_all(&mut args, &self.obj_paths);
        Some(ToolInvocation { tool: tools.ar.clone(), args })
    }
}

/// Closing an `ar` builder twice asks for exactly one archiver run.
pub proof fn lemma_common_close_runs_once(
    b0: CommonArBuilder,
    b1: CommonArBuilder,
    b2: CommonArBuilder,
    tool: Seq<char>,
    r1: Option<ToolInvocation>,
    r2: Option<ToolInvocation>,
)
    requires
        !b0.is_closed(),
        common_close_post(b0, b1, tool, r1),
        common_close_post(b1, b2, tool, r2),
    ensures
        r1 is Some,
        r2 is None,
        b2.is_closed(),
        b2.spec_obj_paths() == b0.spec_obj_paths(),
{
}

} // verus!
