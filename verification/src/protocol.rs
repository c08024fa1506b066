//! The vocabulary between the renderer's logic and the compositor session: what arrives as an
//! event, and what the logic asks the session to do in answer.

use vstd::prelude::*;
use crate::error::{Capability, RenderError};
use crate::shm::{Backing, PixelBuffer};

verus! {

/// What a global announces itself as.
#[derive(Clone, Copy, Debug, PartialEq, Eq, Structural)]
pub enum Interface {
    /// The factory for surfaces.
    Compositor,
    /// The factory for shared-memory pools.
    SharedMemory,
    /// The factory for layer surfaces.
    LayerShell,
    /// One display.
    Output,
    /// Anything the renderer has no use for.
    Other,
}

impl Interface {
    /// The capability that the interface provides, if it is one of the required three.
    pub open spec fn capability_of(self) -> Option<Capability> {
        match self {
            Interface::Compositor => Some(Capability::Compositor),
            Interface::SharedMemory => Some(Capability::SharedMemory),
            Interface::LayerShell => Some(Capability::LayerShell),
            _ => None,
        }
    }

    /// Whether the renderer binds globals of this interface: the required three and outputs.
    pub open spec fn wanted(self) -> bool {
        !(self is Other)
    }

    /// The interface under which `capability` is advertised.
    pub open spec fn providing(capability: Capability) -> Interface {
        match capability {
            Capability::Compositor => Interface::Compositor,
            Capability::SharedMemory => Interface::SharedMemory,
            Capability::LayerShell => Interface::LayerShell,
        }
    }

    /// The capability that the interface provides, if it is one of the required three.
    pub fn capability(&self) -> (c: Option<Capability>)
        ensures
            c == self.capability_of(),
    {
        match self {
            Interface::Compositor => Some(Capability::Compositor),
            Interface::SharedMemory => Some(Capability::SharedMemory),
            Interface::LayerShell => Some(Capability::LayerShell),
            _ => None,
        }
    }

    /// Whether the renderer binds globals of this interface.
    pub fn is_wanted(&self) -> (w: bool)
        ensures
            w == self.wanted(),
    {
        match self {
            Interface::Other => false,
            _ => true,
        }
    }
}

/// The text of an interface name, mapped to what the renderer makes of it.
pub open spec fn interface_of(name: Seq<char>) -> Interface {
    if name == "wl_compositor"@ {
        Interface::Compositor
    } else if name == "wl_shm"@ {
        Interface::SharedMemory
    } else if name == "zwlr_layer_shell_v1"@ {
        Interface::LayerShell
    } else if name == "wl_output"@ {
        Interface::Output
    } else {
        Interface::Other
    }
}

/// Whether two strings hold the same text.
fn same_text(a: &str, b: &str) -> (same: bool)
    ensures
        same == (a@ == b@),
{
    a.to_owned() == b.to_owned()
}

/// Tells from the name a global is advertised under what the renderer makes of it.
pub fn classify_interface(name: &str) -> (interface: Interface)
    ensures
        interface == interface_of(name@),
{
    if same_text(name, "wl_compositor") {
        Interface::Compositor
    } else if same_text(name, "wl_shm") {
        Interface::SharedMemory
    } else if same_text(name, "zwlr_layer_shell_v1") {
        Interface::LayerShell
    } else if same_text(name, "wl_output") {
        Interface::Output
    } else {
        Interface::Other
    }
}

/// The layers a shell stacks surfaces in, from back to front.
#[derive(Clone, Copy, Debug, PartialEq, Eq, Structural)]
pub enum Layer {
    Background,
    Bottom,
    Top,
    Overlay,
}

/// Anchor bit for the top edge.
pub const ANCHOR_TOP: u32 = 1;

/// Anchor bit for the bottom edge.
pub const ANCHOR_BOTTOM: u32 = 2;

/// Anchor bit for the left edge.
pub const ANCHOR_LEFT: u32 = 4;

/// Anchor bit for the right edge.
pub const ANCHOR_RIGHT: u32 = 8;

/// The placement a layer surface asks for.
#[derive(Clone, Copy, Debug, PartialEq, Eq, Structural)]
pub struct LayerRole {
    pub layer: Layer,
    /// Requested width; 0 leaves it to the compositor.
    pub width: u32,
    /// Requested height; 0 leaves it to the compositor.
    pub height: u32,
    /// The edges the surface is anchored to, as a mask of the anchor bits.
    pub anchor: u32,
    /// Space to reserve at the anchored edge; -1 reserves none and lets nothing be pushed.
    pub exclusive_zone: i32,
    /// Whether the surface wants keyboard focus.
    pub keyboard_focus: bool,
}

impl LayerRole {
    /// Whether the role anchors the surface to the edge with bit `edge`.
    pub open spec fn anchored_to(self, edge: u32) -> bool {
        self.anchor & edge == edge
    }

    /// The role of a wallpaper: behind every window, as large as the output lets it be,
    /// fixed to all four edges, reserving no space and never focused.
    pub open spec fn wallpaper() -> LayerRole {
        LayerRole {
            layer: Layer::Background,
            width: 0,
            height: 0,
            anchor: 15,
            exclusive_zone: -1i32,
            keyboard_focus: false,
        }
    }

    /// The role every surface of the renderer asks for.
    pub fn background() -> (role: LayerRole)
        ensures
            role == Self::wallpaper(),
            role.anchor == ANCHOR_TOP | ANCHOR_BOTTOM | ANCHOR_LEFT | ANCHOR_RIGHT,
            role.anchored_to(ANCHOR_TOP),
            role.anchored_to(ANCHOR_BOTTOM),
            role.anchored_to(ANCHOR_LEFT),
            role.anchored_to(ANCHOR_RIGHT),
    {
        let anchor: u32 = ANCHOR_TOP | ANCHOR_BOTTOM | ANCHOR_LEFT | ANCHOR_RIGHT;
        assert(1u32 | 2u32 | 4u32 | 8u32 == 15u32) by (bit_vector);
        assert(15u32 & 1u32 == 1u32) by (bit_vector);
        assert(15u32 & 2u32 == 2u32) by (bit_vector);
        assert(15u32 & 4u32 == 4u32) by (bit_vector);
        assert(15u32 & 8u32 == 8u32) by (bit_vector);
        LayerRole {
            layer: Layer::Background,
            width: 0,
            height: 0,
            anchor,
            exclusive_zone: -1,
            keyboard_focus: false,
        }
    }
}

/// Something the session reports to the renderer's logic.
#[derive(Clone, Copy, Debug, PartialEq, Eq, Structural)]
pub enum Event {
    /// The compositor advertises a global.
    GlobalAnnounced { name: u32, interface: Interface, version: u32 },
    /// The compositor has announced everything it had to announce when the session began.
    Synced,
    /// The compositor withdraws a global.
    GlobalRemoved { name: u32 },
    /// An output reports its size in pixels.
    OutputMode { output: u32, width: u32, height: u32 },
    /// The compositor tells a layer surface its size; 0 leaves a dimension to the client.
    Configure { output: u32, serial: u32, width: u32, height: u32 },
    /// The compositor refuses or closes the layer surface of an output.
    RoleRejected { output: u32 },
    /// The session tried to make the pool it was asked for.
    PoolOutcome { output: u32, capacity: u64, backing: Backing },
    /// The compositor no longer reads the buffer of an output.
    BufferReleased { output: u32 },
    /// The transport closed.
    ConnectionLost,
}

impl Event {
    /// The output an event is about, if it is about one. The withdrawal of a global is about
    /// the output of that name, should there be one.
    pub open spec fn subject(self) -> Option<u32> {
        match self {
            Event::GlobalAnnounced { .. } => None,
            Event::Synced => None,
            Event::GlobalRemoved { name } => Some(name),
            Event::OutputMode { output, .. } => Some(output),
            Event::Configure { output, .. } => Some(output),
            Event::RoleRejected { output } => Some(output),
            Event::PoolOutcome { output, .. } => Some(output),
            Event::BufferReleased { output } => Some(output),
            Event::ConnectionLost => None,
        }
    }

    /// The output an event is about, if it is about one.
    pub fn about(&self) -> (output: Option<u32>)
        ensures
            output == self.subject(),
    {
        match self {
            Event::GlobalAnnounced { .. } => None,
            Event::Synced => None,
            Event::GlobalRemoved { name } => Some(*name),
            Event::OutputMode { output, .. } => Some(*output),
            Event::Configure { output, .. } => Some(*output),
            Event::RoleRejected { output } => Some(*output),
            Event::PoolOutcome { output, .. } => Some(*output),
            Event::BufferReleased { output } => Some(*output),
            Event::ConnectionLost => None,
        }
    }
}

/// Something the renderer's logic asks the session to do.
#[derive(Clone, Copy, Debug, PartialEq, Eq, Structural)]
pub enum Action {
    /// Bind the global `name` at `version`.
    Bind { name: u32, interface: Interface, version: u32 },
    /// Create the surface for an output.
    CreateSurface { output: u32 },
    /// Give the surface its layer role on the output.
    RequestLayer { output: u32, role: LayerRole },
    /// Acknowledge the configure event with this serial.
    AckConfigure { output: u32, serial: u32 },
    /// Make a shared-memory pool of `capacity` bytes and report how it went.
    CreatePool { output: u32, capacity: u64 },
    /// Paint the pattern into the buffer.
    Paint { output: u32, buffer: PixelBuffer },
    /// Attach the buffer to the surface.
    Attach { output: u32, buffer: PixelBuffer },
    /// Mark the rectangle from the origin to (`width`, `height`) as changed.
    Damage { output: u32, width: u32, height: u32 },
    /// Commit the surface's pending state.
    Commit { output: u32 },
    /// Destroy the buffer of the output's surface.
    DestroyBuffer { output: u32 },
    /// Give up the pool of the output's surface.
    ReleasePool { output: u32 },
    /// Destroy the surface and its layer role.
    DestroySurface { output: u32 },
    /// Let go of the output itself.
    ReleaseOutput { output: u32 },
    /// Say on the diagnostic channel that the output's pipeline was abandoned.
    Diagnostic { output: u32, error: RenderError },
    /// Say on the diagnostic channel why the process ends, and end it.
    Abort { error: RenderError },
}

} // verus!
