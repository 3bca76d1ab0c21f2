//! The doctor report: which tools and native libraries the host has.
use vstd::prelude::*;
use crate::backend::BackendCapabilities;

verus! {

/// Whether a command-line tool was found on the `PATH`.
#[derive(Debug, Clone, PartialEq, Eq)]
pub struct ToolStatus {
    pub name: &'static str,
    pub found: bool,
    pub detail: String,
}

/// Whether a native library that compositors build against was found.
#[derive(Debug, Clone, PartialEq, Eq)]
pub struct NativeDependencyStatus {
    pub name: &'static str,
    pub found: bool,
    pub detail: String,
}

/// What the host machine is.
#[derive(Debug, Clone, Copy, PartialEq, Eq, Structural)]
pub struct HostStatus {
    pub apple_silicon: bool,
    pub macos: bool,
}

/// What `doctor` found.
#[derive(Debug, Clone, PartialEq, Eq)]
pub struct DoctorReport {
    pub tools: Vec<ToolStatus>,
    pub native_dependencies: Vec<NativeDependencyStatus>,
    pub host: HostStatus,
    pub backend: BackendCapabilities,
}

/// The names of the tools not found, in report order.
pub open spec fn missing_tool_names(ts: Seq<ToolStatus>) -> Seq<&'static str>
    decreases ts.len(),
{
    if ts.len() == 0 {
        seq![]
    } else if ts.last().found {
        missing_tool_names(ts.drop_last())
    } else {
        missing_tool_names(ts.drop_last()).push(ts.last().name)
    }
}

/// The names of the native libraries not found, in report order.
pub open spec fn missing_dependency_names(ds: Seq<NativeDependencyStatus>) -> Seq<&'static str>
    decreases ds.len(),
{
    if ds.len() == 0 {
        seq![]
    } else if ds.last().found {
        missing_dependency_names(ds.drop_last())
    } else {
        missing_dependency_names(ds.drop_last()).push(ds.last().name)
    }
}

impl DoctorReport {
    /// The names of the tools that were not found.
    pub fn missing_tools(&self) -> (r: Vec<&'static str>)
        ensures
            r@ == missing_tool_names(self.tools@),
    {
        let mut r: Vec<&'static str> = Vec::new();
        let mut i: usize = 0;
        assert(self.tools@.take(0) =~= Seq::<ToolStatus>::empty());
        while i < self.tools.len()
            invariant
                i <= self.tools@.len(),
                r@ == missing_tool_names(self.tools@.take(i as int)),
            decreases self.tools.len() - i,
        {
            assert(self.tools@.take(i + 1).drop_last() =~= self.tools@.take(i as int));
            if !self.tools[i].found {
                r.push(self.tools[i].name);
            }
            i += 1;
        }
        assert(self.tools@.take(self.tools@.len() as int) =~= self.tools@);
        r
    }

    /// The names of the native libraries that were not found.
    pub fn missing_native_dependencies(&self) -> (r: Vec<&'static str>)
        ensures
            r@ == missing_dependency_names(self.native_dependencies@),
    {
        let mut r: Vec<&'static str> = Vec::new();
        let mut i: usize = 0;
        assert(self.native_dependencies@.take(0) =~= Seq::<NativeDependencyStatus>::empty());
        while i < self.native_dependencies.len()
            invariant
                i <= self.native_dependencies@.len(),
                r@ == missing_dependency_names(self.native_dependencies@.take(i as int)),
            decreases self.native_dependencies.len() - i,
        {
            assert(self.native_dependencies@.take(i + 1).drop_last() =~= self.native_dependencies@.take(i as int));
            if !self.native_dependencies[i].found {
                r.push(self.native_dependencies[i].name);
            }
            i += 1;
        }
        assert(self.native_dependencies@.take(self.native_dependencies@.len() as int) =~= self.native_dependencies@);
        r
    }
}

} // verus!
