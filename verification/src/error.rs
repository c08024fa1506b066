//! What can go wrong, and what each failure means for the rest of the process.

use vstd::prelude::*;
use vstd::string::*;

verus! {

/// A server capability that the renderer cannot work without.
#[derive(Clone, Copy, Debug, PartialEq, Eq, Structural)]
pub enum Capability {
    /// The factory for surfaces.
    Compositor,
    /// The factory for shared-memory pools.
    SharedMemory,
    /// The factory for layer surfaces.
    LayerShell,
}

impl Capability {
    /// The interface name under which compositors advertise the capability.
    pub open spec fn interface_text(self) -> Seq<char> {
        match self {
            Capability::Compositor => "wl_compositor"@,
            Capability::SharedMemory => "wl_shm"@,
            Capability::LayerShell => "zwlr_layer_shell_v1"@,
        }
    }

    /// The interface name under which compositors advertise the capability.
    pub fn interface_name(&self) -> (name: &'static str)
        ensures
            name@ == self.interface_text(),
    {
        match self {
            Capability::Compositor => "wl_compositor",
            Capability::SharedMemory => "wl_shm",
            Capability::LayerShell => "zwlr_layer_shell_v1",
        }
    }
}

/// Every failure the renderer distinguishes.
#[derive(Clone, Copy, Debug, PartialEq, Eq, Structural)]
pub enum RenderError {
    /// No compositor session could be reached.
    TransportUnavailable,
    /// The session closed while the renderer was running.
    ConnectionLost,
    /// The compositor never advertised a capability the renderer needs.
    MissingCapability(Capability),
    /// The memory behind a pool could not be sized or mapped.
    AllocationFailed,
    /// A buffer was asked of a pool that has too little room left.
    OutOfPoolSpace,
    /// The compositor refused the background layer for an output.
    LayerRoleRejected,
}

/// What the process does about a failure.
#[derive(Clone, Copy, Debug, PartialEq, Eq, Structural)]
pub enum Recovery {
    /// Nothing can be done: the process ends with a diagnostic.
    Fatal,
    /// The allocation is tried once more; a second failure abandons the output.
    RetryAllocation,
    /// The affected output is given up, the other outputs go on.
    AbandonOutput,
}

impl RenderError {
    /// The policy for each failure: losing the transport or a required capability ends the
    /// process, running out of shared memory is worth one more attempt, and a refused layer
    /// costs only the output it was refused on.
    pub open spec fn recovery_of(self) -> Recovery {
        match self {
            RenderError::TransportUnavailable => Recovery::Fatal,
            RenderError::ConnectionLost => Recovery::Fatal,
            RenderError::MissingCapability(_) => Recovery::Fatal,
            RenderError::AllocationFailed => Recovery::RetryAllocation,
            RenderError::OutOfPoolSpace => Recovery::RetryAllocation,
            RenderError::LayerRoleRejected => Recovery::AbandonOutput,
        }
    }

    /// What the process does about this failure.
    pub fn recovery(&self) -> (r: Recovery)
        ensures
            r == self.recovery_of(),
    {
        match self {
            RenderError::TransportUnavailable => Recovery::Fatal,
            RenderError::ConnectionLost => Recovery::Fatal,
            RenderError::MissingCapability(_) => Recovery::Fatal,
            RenderError::AllocationFailed => Recovery::RetryAllocation,
            RenderError::OutOfPoolSpace => Recovery::RetryAllocation,
            RenderError::LayerRoleRejected => Recovery::AbandonOutput,
        }
    }

    /// Whether the failure ends the process.
    pub fn is_fatal(&self) -> (fatal: bool)
        ensures
            fatal == (self.recovery_of() is Fatal),
    {
        match self.recovery() {
            Recovery::Fatal => true,
            _ => false,
        }
    }

    /// The text of the diagnostic line for this failure.
    pub open spec fn diagnostic_text(self) -> Seq<char> {
        match self {
            RenderError::TransportUnavailable => "no compositor session is reachable"@,
            RenderError::ConnectionLost => "the compositor closed the session"@,
            RenderError::MissingCapability(c) => "the compositor does not offer "@
                + c.interface_text(),
            RenderError::AllocationFailed => "shared memory could not be sized or mapped"@,
            RenderError::OutOfPoolSpace => "the shared-memory pool is too small for the buffer"@,
            RenderError::LayerRoleRejected => "the compositor refused the background layer"@,
        }
    }

    /// The diagnostic line for this failure.
    pub fn diagnostic(&self) -> (line: String)
        ensures
            line@ == self.diagnostic_text(),
    {
        match self {
            RenderError::TransportUnavailable => String::from_str(
                "no compositor session is reachable",
            ),
            RenderError::ConnectionLost => String::from_str("the compositor closed the session"),
            RenderError::MissingCapability(c) => String::from_str(
                "the compositor does not offer ",
            ).concat(c.interface_name()),
            RenderError::AllocationFailed => String::from_str(
                "shared memory could not be sized or mapped",
            ),
            RenderError::OutOfPoolSpace => String::from_str(
                "the shared-memory pool is too small for the buffer",
            ),
            RenderError::LayerRoleRejected => String::from_str(
                "the compositor refused the background layer",
            ),
        }
    }
}

} // verus!
