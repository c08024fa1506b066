//! The layer surface of one output and the steps that take it from creation to a committed
//! frame and, in the end, to its teardown.
//!
//! A surface moves through
//! `Created -> SurfaceBound -> LayerRequested -> Configured -> Committed -> Released`,
//! and from any of them to `Destroyed` when its output goes away or its pipeline is given up.
//! Every step is a function from the surface and an event to the surface afterwards and the
//! actions the session has to take; the session itself is not touched here.

use vstd::prelude::*;
use crate::error::RenderError;
use crate::keyed::Keyed;
use crate::protocol::{Action, Event, LayerRole};
use crate::shm::{
    carve_buffer,
    create_pool,
    frame_bytes,
    frame_demand,
    row_stride,
    Backing,
    BufferOwner,
    MemoryPool,
    PixelBuffer,
    PixelFormat,
};

verus! {

/// Where a layer surface stands in its life.
#[derive(Clone, Copy, Debug, PartialEq, Eq, Structural)]
pub enum SurfaceState {
    /// Nothing was asked of the compositor yet.
    Created,
    /// The surface object was asked for.
    SurfaceBound,
    /// The layer role was asked for; the compositor has not answered.
    LayerRequested,
    /// The compositor's size was acknowledged; no frame is committed at that size.
    Configured,
    /// A frame of the configured size is committed and the compositor reads it.
    Committed,
    /// The compositor gave the committed frame's buffer back.
    Released,
    /// The surface is gone, and with it everything it held.
    Destroyed,
}

/// The layer surface of one output, with the pool and the buffer it holds.
#[derive(Clone, Copy, Debug, PartialEq, Eq, Structural)]
pub struct LayerSurface {
    /// The output the surface is shown on.
    pub output: u32,
    pub state: SurfaceState,
    /// Width in pixels that the most recent configure settled on; 0 before the first.
    pub width: u32,
    /// Height in pixels that the most recent configure settled on; 0 before the first.
    pub height: u32,
    /// Whether a pool was asked for and the answer is still to come.
    pub awaiting_pool: bool,
    /// Whether the allocation under way is already the second attempt.
    pub retried: bool,
    pub pool: Option<MemoryPool>,
    pub buffer: Option<PixelBuffer>,
}

impl Keyed for LayerSurface {
    open spec fn key_of(&self) -> u32 {
        self.output
    }

    fn key(&self) -> (k: u32) {
        self.output
    }
}

/// The size a surface takes in one dimension: what the compositor asked for, or the output's
/// own size where the compositor left the choice to the client.
pub open spec fn settled(asked: u32, natural: u32) -> u32 {
    if asked > 0 {
        asked
    } else {
        natural
    }
}

/// How many of `actions` give up a pool.
pub open spec fn pool_releases(actions: Seq<Action>) -> nat
    decreases actions.len(),
{
    if actions.len() == 0 {
        0
    } else {
        pool_releases(actions.drop_last()) + if actions.last() is ReleasePool {
            1nat
        } else {
            0nat
        }
    }
}

/// Whether one of `actions` writes pixels.
pub open spec fn paints(actions: Seq<Action>) -> bool {
    exists|i: int| 0 <= i < actions.len() && (#[trigger] actions[i]) is Paint
}

impl LayerSurface {
    /// A surface for `output` of which nothing exists yet.
    pub open spec fn fresh(output: u32) -> LayerSurface {
        LayerSurface {
            output,
            state: SurfaceState::Created,
            width: 0,
            height: 0,
            awaiting_pool: false,
            retried: false,
            pool: None,
            buffer: None,
        }
    }

    /// Whether the surface still exists.
    pub open spec fn live(self) -> bool {
        !(self.state is Destroyed)
    }

    /// The frame a committed surface holds for a `width` by `height` output: one unpadded
    /// buffer at the start of its pool.
    pub open spec fn frame(width: u32, height: u32, owner: BufferOwner) -> PixelBuffer {
        PixelBuffer {
            width,
            height,
            stride: (4 * width) as u64,
            offset: 0,
            len: (4 * width * height) as u64,
            format: PixelFormat::Argb8888,
            owner,
        }
    }

    /// Whether the surface holds a pool with exactly the frame of its configured size in it,
    /// owned by `owner`.
    pub open spec fn holds_frame(self, owner: BufferOwner) -> bool {
        &&& !self.awaiting_pool
        &&& !self.retried
        &&& 0 < self.width
        &&& 0 < self.height
        &&& self.buffer == Some(Self::frame(self.width, self.height, owner))
        &&& self.pool matches Some(pool)
        &&& pool.used == 4 * self.width * self.height
        &&& pool.used <= pool.capacity
    }

    /// What holds of a surface in each state: it has a pool and a buffer exactly while a
    /// frame is committed, the buffer then has the configured size, and the compositor owns
    /// it from the commit until the release.
    pub open spec fn wf(self) -> bool {
        match self.state {
            SurfaceState::Created | SurfaceState::SurfaceBound | SurfaceState::LayerRequested => {
                &&& self.pool is None
                &&& self.buffer is None
                &&& !self.awaiting_pool
                &&& !self.retried
                &&& self.width == 0
                &&& self.height == 0
            },
            SurfaceState::Configured => {
                &&& self.pool is None
                &&& self.buffer is None
                &&& (self.retried ==> self.awaiting_pool)
            },
            SurfaceState::Committed => self.holds_frame(BufferOwner::Compositor),
            SurfaceState::Released => self.holds_frame(BufferOwner::Released),
            SurfaceState::Destroyed => {
                &&& self.pool is None
                &&& self.buffer is None
                &&& !self.awaiting_pool
                &&& !self.retried
            },
        }
    }

    /// The frame the compositor shows for the surface, if it shows one.
    pub open spec fn shown(self) -> Option<PixelBuffer> {
        if self.state is Committed || self.state is Released {
            self.buffer
        } else {
            None
        }
    }

    /// The requests that let go of the buffer and the pool, the buffer first.
    pub open spec fn release_actions(self) -> Seq<Action> {
        (if self.buffer is Some {
            seq![Action::DestroyBuffer { output: self.output }]
        } else {
            Seq::<Action>::empty()
        }) + (if self.pool is Some {
            seq![Action::ReleasePool { output: self.output }]
        } else {
            Seq::<Action>::empty()
        })
    }

    /// The requests that take a live surface down: buffer, pool, then the surface itself if
    /// it was ever asked for.
    pub open spec fn teardown_actions(self) -> Seq<Action> {
        self.release_actions() + (if self.state is Created {
            Seq::<Action>::empty()
        } else {
            seq![Action::DestroySurface { output: self.output }]
        })
    }

    /// The surface after its teardown.
    pub open spec fn torn_down(self) -> LayerSurface {
        LayerSurface {
            output: self.output,
            state: SurfaceState::Destroyed,
            width: self.width,
            height: self.height,
            awaiting_pool: false,
            retried: false,
            pool: None,
            buffer: None,
        }
    }

    /// The surface after it was asked to create its surface object.
    pub open spec fn after_bind(self) -> LayerSurface {
        if self.state is Created {
            LayerSurface { state: SurfaceState::SurfaceBound, ..self }
        } else {
            self
        }
    }

    /// The requests that create the surface object.
    pub open spec fn bind_actions(self) -> Seq<Action> {
        if self.state is Created {
            seq![Action::CreateSurface { output: self.output }]
        } else {
            Seq::<Action>::empty()
        }
    }

    /// The surface after it was asked to take its layer role.
    pub open spec fn after_layer_request(self) -> LayerSurface {
        if self.state is SurfaceBound {
            LayerSurface { state: SurfaceState::LayerRequested, ..self }
        } else {
            self
        }
    }

    /// The requests that give the surface its role: the wallpaper role, then a commit without
    /// a buffer, which makes the compositor answer with a size.
    pub open spec fn layer_request_actions(self) -> Seq<Action> {
        if self.state is SurfaceBound {
            seq![
                Action::RequestLayer { output: self.output, role: LayerRole::wallpaper() },
                Action::Commit { output: self.output },
            ]
        } else {
            Seq::<Action>::empty()
        }
    }

    /// Whether the surface has a role that the compositor can configure.
    pub open spec fn configurable(self) -> bool {
        self.state is LayerRequested || self.state is Configured || self.state is Committed
            || self.state is Released
    }

    /// Whether the surface already has a frame of `width` by `height` committed.
    pub open spec fn same_frame(self, width: u32, height: u32) -> bool {
        &&& self.state is Committed || self.state is Released
        &&& self.buffer is Some
        &&& self.width == width
        &&& self.height == height
    }

    /// The surface after the compositor settled its size on `width` by `height`. A size the
    /// committed frame already has changes nothing; any other size drops the frame and
    /// leaves the surface waiting for a new one.
    pub open spec fn after_configure(self, width: u32, height: u32) -> LayerSurface {
        if !self.configurable() || self.same_frame(width, height) {
            self
        } else {
            LayerSurface {
                output: self.output,
                state: SurfaceState::Configured,
                width,
                height,
                awaiting_pool: self.awaiting_pool || (0 < width && 0 < height),
                retried: false,
                pool: None,
                buffer: None,
            }
        }
    }

    /// The requests that answer a configure event: the acknowledgement comes first; then
    /// either a commit of the frame that is already attached, or the release of the old
    /// frame and the request for a pool that holds the new one.
    pub open spec fn configure_actions(self, serial: u32, width: u32, height: u32) -> Seq<Action> {
        if !self.configurable() {
            Seq::<Action>::empty()
        } else if self.same_frame(width, height) {
            seq![
                Action::AckConfigure { output: self.output, serial },
                Action::Commit { output: self.output },
            ]
        } else {
            seq![Action::AckConfigure { output: self.output, serial }] + self.release_actions() + (
            if 0 < width && 0 < height && !self.awaiting_pool {
                seq![
                    Action::CreatePool {
                        output: self.output,
                        capacity: frame_demand(width, height),
                    },
                ]
            } else {
                Seq::<Action>::empty()
            })
        }
    }

    /// Whether the surface waits for the pool it asked for.
    pub open spec fn awaits_pool(self) -> bool {
        self.state is Configured && self.awaiting_pool
    }

    /// Whether a pool of `capacity` bytes that was backed as `backing` says can hold the
    /// surface's frame.
    pub open spec fn pool_serves(self, capacity: u64, backing: Backing) -> bool {
        backing is Mapped && 4 * self.width * self.height <= capacity
    }

    /// The surface after the session reported on the pool. A pool that holds the frame takes
    /// the surface to `Committed`; the first failure leaves it waiting for a second attempt,
    /// and the second failure destroys it.
    pub open spec fn after_pool_outcome(self, capacity: u64, backing: Backing) -> LayerSurface {
        if !self.awaits_pool() {
            self
        } else if self.width == 0 || self.height == 0 {
            LayerSurface { awaiting_pool: false, retried: false, ..self }
        } else if self.pool_serves(capacity, backing) {
            LayerSurface {
                output: self.output,
                state: SurfaceState::Committed,
                width: self.width,
                height: self.height,
                awaiting_pool: false,
                retried: false,
                pool: Some(
                    MemoryPool { capacity, used: (4 * self.width * self.height) as u64 },
                ),
                buffer: Some(Self::frame(self.width, self.height, BufferOwner::Compositor)),
            }
        } else if !self.retried {
            LayerSurface { retried: true, ..self }
        } else {
            self.torn_down()
        }
    }

    /// The error that a pool which does not serve stands for.
    pub open spec fn pool_error(backing: Backing) -> RenderError {
        if backing is Mapped {
            RenderError::OutOfPoolSpace
        } else {
            RenderError::AllocationFailed
        }
    }

    /// The requests that answer the report on the pool. With a pool that holds the frame:
    /// paint the buffer while the client still owns it, attach it, mark all of it damaged,
    /// commit. After a first failure: ask again. After a second: take the surface down and
    /// say why. A pool that was made but is of no use is given up in every case.
    pub open spec fn pool_outcome_actions(self, capacity: u64, backing: Backing) -> Seq<Action> {
        let unused = if backing is Mapped {
            seq![Action::ReleasePool { output: self.output }]
        } else {
            Seq::<Action>::empty()
        };
        if !self.awaits_pool() {
            Seq::<Action>::empty()
        } else if self.width == 0 || self.height == 0 {
            unused
        } else if self.pool_serves(capacity, backing) {
            let buffer = Self::frame(self.width, self.height, BufferOwner::Client);
            seq![
                Action::Paint { output: self.output, buffer },
                Action::Attach { output: self.output, buffer },
                Action::Damage { output: self.output, width: self.width, height: self.height },
                Action::Commit { output: self.output },
            ]
        } else if !self.retried {
            unused + seq![
                Action::CreatePool {
                    output: self.output,
                    capacity: frame_demand(self.width, self.height),
                },
            ]
        } else {
            unused + self.teardown_actions() + seq![
                Action::Diagnostic { output: self.output, error: Self::pool_error(backing) },
            ]
        }
    }

    /// The surface after the compositor gave the committed buffer back.
    pub open spec fn after_release(self) -> LayerSurface {
        match (self.state, self.buffer) {
            (SurfaceState::Committed, Some(buffer)) => LayerSurface {
                state: SurfaceState::Released,
                buffer: Some(PixelBuffer { owner: BufferOwner::Released, ..buffer }),
                ..self
            },
            _ => self,
        }
    }

    /// The surface after its output went away or its pipeline was given up.
    pub open spec fn after_destroy(self) -> LayerSurface {
        if self.live() {
            self.torn_down()
        } else {
            self
        }
    }

    /// The requests that take the surface down when its output went away.
    pub open spec fn destroy_actions(self) -> Seq<Action> {
        if self.live() {
            self.teardown_actions()
        } else {
            Seq::<Action>::empty()
        }
    }

    /// The requests that take the surface down when the compositor refused its role, and
    /// the diagnostic that says so.
    pub open spec fn rejection_actions(self) -> Seq<Action> {
        if self.live() {
            self.teardown_actions() + seq![
                Action::Diagnostic { output: self.output, error: RenderError::LayerRoleRejected },
            ]
        } else {
            Seq::<Action>::empty()
        }
    }

    /// The surface after `event`. Events about other outputs, and events that mean nothing in
    /// the surface's state, leave it as it is. `natural_width` and `natural_height` are the
    /// size its output reported.
    pub open spec fn after(self, event: Event, natural_width: u32, natural_height: u32) -> LayerSurface {
        if event.subject() != Some(self.output) {
            self
        } else {
            match event {
                Event::Configure { width, height, .. } => self.after_configure(
                    settled(width, natural_width),
                    settled(height, natural_height),
                ),
                Event::PoolOutcome { capacity, backing, .. } => self.after_pool_outcome(
                    capacity,
                    backing,
                ),
                Event::BufferReleased { .. } => self.after_release(),
                Event::RoleRejected { .. } => self.after_destroy(),
                Event::GlobalRemoved { .. } => self.after_destroy(),
                _ => self,
            }
        }
    }

    /// The actions with which the surface answers `event`.
    pub open spec fn reaction(self, event: Event, natural_width: u32, natural_height: u32) -> Seq<
        Action,
    > {
        if event.subject() != Some(self.output) {
            Seq::<Action>::empty()
        } else {
            match event {
                Event::Configure { serial, width, height, .. } => self.configure_actions(
                    serial,
                    settled(width, natural_width),
                    settled(height, natural_height),
                ),
                Event::PoolOutcome { capacity, backing, .. } => self.pool_outcome_actions(
                    capacity,
                    backing,
                ),
                Event::RoleRejected { .. } => self.rejection_actions(),
                Event::GlobalRemoved { .. } => self.destroy_actions(),
                _ => Seq::<Action>::empty(),
            }
        }
    }
}

/// The size a surface takes in one dimension.
pub fn settle(asked: u32, natural: u32) -> (size: u32)
    ensures
        size == settled(asked, natural),
{
    if asked > 0 {
        asked
    } else {
        natural
    }
}

impl LayerSurface {
    /// A surface for `output` of which nothing exists yet.
    pub fn new(output: u32) -> (surface: LayerSurface)
        ensures
            surface == Self::fresh(output),
            surface.wf(),
    {
        LayerSurface {
            output,
            state: SurfaceState::Created,
            width: 0,
            height: 0,
            awaiting_pool: false,
            retried: false,
            pool: None,
            buffer: None,
        }
    }

    /// Whether the surface still exists.
    pub fn is_live(&self) -> (live: bool)
        ensures
            live == self.live(),
    {
        match self.state {
            SurfaceState::Destroyed => false,
            _ => true,
        }
    }

    /// Appends the requests that let go of the buffer and the pool.
    fn push_release(&self, actions: &mut Vec<Action>)
        ensures
            final(actions)@ == old(actions)@ + self.release_actions(),
    {
        if self.buffer.is_some() {
            actions.push(Action::DestroyBuffer { output: self.output });
        }
        if self.pool.is_some() {
            actions.push(Action::ReleasePool { output: self.output });
        }
        assert(actions@ =~= old(actions)@ + self.release_actions());
    }

    /// Appends the requests that take the surface down.
    fn push_teardown(&self, actions: &mut Vec<Action>)
        ensures
            final(actions)@ == old(actions)@ + self.teardown_actions(),
    {
        self.push_release(actions);
        match self.state {
            SurfaceState::Created => {},
            _ => {
                actions.push(Action::DestroySurface { output: self.output });
            },
        }
        assert(actions@ =~= old(actions)@ + self.teardown_actions());
    }

    /// Marks the surface as gone.
    fn tear_down(&mut self)
        ensures
            *final(self) == old(self).torn_down(),
    {
        self.state = SurfaceState::Destroyed;
        self.awaiting_pool = false;
        self.retried = false;
        self.pool = None;
        self.buffer = None;
    }

    /// `Created -> SurfaceBound`: asks for the surface object. In any other state nothing
    /// happens.
    pub fn bind_surface(&mut self) -> (actions: Vec<Action>)
        ensures
            *final(self) == old(self).after_bind(),
            actions@ == old(self).bind_actions(),
            old(self).wf() ==> final(self).wf(),
    {
        let mut actions: Vec<Action> = Vec::new();
        match self.state {
            SurfaceState::Created => {
                self.state = SurfaceState::SurfaceBound;
                actions.push(Action::CreateSurface { output: self.output });
            },
            _ => {},
        }
        assert(actions@ =~= old(self).bind_actions());
        actions
    }

    /// `SurfaceBound -> LayerRequested`: asks for the wallpaper role and commits, so that
    /// the compositor answers with a size. In any other state nothing happens.
    pub fn request_layer(&mut self) -> (actions: Vec<Action>)
        ensures
            *final(self) == old(self).after_layer_request(),
            actions@ == old(self).layer_request_actions(),
            old(self).wf() ==> final(self).wf(),
    {
        let mut actions: Vec<Action> = Vec::new();
        match self.state {
            SurfaceState::SurfaceBound => {
                self.state = SurfaceState::LayerRequested;
                actions.push(
                    Action::RequestLayer { output: self.output, role: LayerRole::background() },
                );
                actions.push(Action::Commit { output: self.output });
            },
            _ => {},
        }
        assert(actions@ =~= old(self).layer_request_actions());
        actions
    }

    /// Whether the surface already has a frame of `width` by `height` committed.
    fn has_frame(&self, width: u32, height: u32) -> (same: bool)
        ensures
            same == self.same_frame(width, height),
    {
        let committed = match self.state {
            SurfaceState::Committed => true,
            SurfaceState::Released => true,
            _ => false,
        };
        committed && self.buffer.is_some() && self.width == width && self.height == height
    }

    /// `-> Configured`: the compositor settled the surface's size on `width` by `height`.
    ///
    /// The event is acknowledged before anything else. If a frame of that size is already
    /// committed, it is committed again as it is. Otherwise the old frame is let go, the
    /// surface waits in `Configured`, and a pool for the new frame is asked for unless one
    /// is under way or the size is empty. A surface without a role ignores the event.
    pub fn configure(&mut self, serial: u32, width: u32, height: u32) -> (actions: Vec<Action>)
        ensures
            *final(self) == old(self).after_configure(width, height),
            actions@ == old(self).configure_actions(serial, width, height),
            old(self).wf() ==> final(self).wf(),
    {
        let mut actions: Vec<Action> = Vec::new();
        let configurable = match self.state {
            SurfaceState::LayerRequested => true,
            SurfaceState::Configured => true,
            SurfaceState::Committed => true,
            SurfaceState::Released => true,
            _ => false,
        };
        if !configurable {
            assert(actions@ =~= old(self).configure_actions(serial, width, height));
            return actions;
        }
        actions.push(Action::AckConfigure { output: self.output, serial });
        if self.has_frame(width, height) {
            actions.push(Action::Commit { output: self.output });
            assert(actions@ =~= old(self).configure_actions(serial, width, height));
            return actions;
        }
        self.push_release(&mut actions);
        let sized = 0 < width && 0 < height;
        if sized && !self.awaiting_pool {
            actions.push(
                Action::CreatePool { output: self.output, capacity: frame_bytes(width, height) },
            );
        }
        assert(actions@ =~= old(self).configure_actions(serial, width, height));
        self.state = SurfaceState::Configured;
        self.width = width;
        self.height = height;
        self.awaiting_pool = self.awaiting_pool || sized;
        self.retried = false;
        self.pool = None;
        self.buffer = None;
        actions
    }

    /// `Configured -> Committed`, or the way out when memory runs short: the session reports
    /// on the pool of `capacity` bytes that it was asked to make.
    ///
    /// If the pool is mapped and holds the frame, the frame's buffer is carved from it,
    /// painted, attached, damaged in full and committed; from then on the compositor owns
    /// the buffer. If not, the allocation is asked for once more; when that fails too, the
    /// surface is taken down and the failure goes to the diagnostic channel. A surface that
    /// waits for no pool ignores the event.
    pub fn pool_outcome(&mut self, capacity: u64, backing: Backing) -> (actions: Vec<Action>)
        ensures
            *final(self) == old(self).after_pool_outcome(capacity, backing),
            actions@ == old(self).pool_outcome_actions(capacity, backing),
            old(self).wf() ==> final(self).wf(),
    {
        let mut actions: Vec<Action> = Vec::new();
        let waiting = match self.state {
            SurfaceState::Configured => self.awaiting_pool,
            _ => false,
        };
        if !waiting {
            assert(actions@ =~= old(self).pool_outcome_actions(capacity, backing));
            return actions;
        }
        let made = create_pool(capacity, backing);
        if self.width == 0 || self.height == 0 {
            if made.is_ok() {
                actions.push(Action::ReleasePool { output: self.output });
            }
            assert(actions@ =~= old(self).pool_outcome_actions(capacity, backing));
            self.awaiting_pool = false;
            self.retried = false;
            return actions;
        }
        let (carved, error) = match made {
            Ok(mut pool) => {
                let carved = carve_buffer(
                    &mut pool,
                    self.width,
                    self.height,
                    row_stride(self.width),
                    PixelFormat::Argb8888,
                );
                match carved {
                    Ok(buffer) => (Some((pool, buffer)), RenderError::OutOfPoolSpace),
                    Err(error) => (None, error),
                }
            },
            Err(error) => (None, error),
        };
        match carved {
            Some((pool, buffer)) => {
                actions.push(Action::Paint { output: self.output, buffer });
                actions.push(Action::Attach { output: self.output, buffer });
                actions.push(
                    Action::Damage { output: self.output, width: self.width, height: self.height },
                );
                actions.push(Action::Commit { output: self.output });
                assert(actions@ =~= old(self).pool_outcome_actions(capacity, backing));
                self.state = SurfaceState::Committed;
                self.awaiting_pool = false;
                self.retried = false;
                self.pool = Some(pool);
                self.buffer = Some(
                    PixelBuffer {
                        width: buffer.width,
                        height: buffer.height,
                        stride: buffer.stride,
                        offset: buffer.offset,
                        len: buffer.len,
                        format: buffer.format,
                        owner: BufferOwner::Compositor,
                    },
                );
            },
            None => {
                if made.is_ok() {
                    actions.push(Action::ReleasePool { output: self.output });
                }
                if !self.retried {
                    actions.push(
                        Action::CreatePool {
                            output: self.output,
                            capacity: frame_bytes(self.width, self.height),
                        },
                    );
                    assert(actions@ =~= old(self).pool_outcome_actions(capacity, backing));
                    self.retried = true;
                } else {
                    self.push_teardown(&mut actions);
                    actions.push(Action::Diagnostic { output: self.output, error });
                    assert(actions@ =~= old(self).pool_outcome_actions(capacity, backing));
                    self.tear_down();
                }
            },
        }
        actions
    }

    /// `Committed -> Released`: the compositor gave the buffer back, which may now be reused
    /// or freed. In any other state nothing happens.
    pub fn buffer_released(&mut self)
        ensures
            *final(self) == old(self).after_release(),
            old(self).wf() ==> final(self).wf(),
    {
        match (self.state, self.buffer) {
            (SurfaceState::Committed, Some(buffer)) => {
                self.state = SurfaceState::Released;
                self.buffer = Some(
                    PixelBuffer {
                        width: buffer.width,
                        height: buffer.height,
                        stride: buffer.stride,
                        offset: buffer.offset,
                        len: buffer.len,
                        format: buffer.format,
                        owner: BufferOwner::Released,
                    },
                );
            },
            _ => {},
        }
    }

    /// `-> Destroyed`: the output went away. Buffer, pool and surface are let go, in that
    /// order, each of them once. A surface that is already gone asks for nothing.
    pub fn destroy(&mut self) -> (actions: Vec<Action>)
        ensures
            *final(self) == old(self).after_destroy(),
            actions@ == old(self).destroy_actions(),
            old(self).wf() ==> final(self).wf(),
    {
        let mut actions: Vec<Action> = Vec::new();
        if self.is_live() {
            self.push_teardown(&mut actions);
            self.tear_down();
        }
        assert(actions@ =~= old(self).destroy_actions());
        actions
    }

    /// `-> Destroyed`: the compositor refused the layer role. The surface is taken down as
    /// in [`LayerSurface::destroy`] and the refusal goes to the diagnostic channel.
    pub fn reject_role(&mut self) -> (actions: Vec<Action>)
        ensures
            *final(self) == old(self).after_destroy(),
            actions@ == old(self).rejection_actions(),
            old(self).wf() ==> final(self).wf(),
    {
        let mut actions: Vec<Action> = Vec::new();
        if self.is_live() {
            self.push_teardown(&mut actions);
            actions.push(
                Action::Diagnostic { output: self.output, error: RenderError::LayerRoleRejected },
            );
            self.tear_down();
        }
        assert(actions@ =~= old(self).rejection_actions());
        actions
    }

    /// Takes the surface through `event` and returns the actions that answer it.
    /// `natural_width` and `natural_height` are the size the surface's output reported; they
    /// stand in where a configure event leaves a dimension open.
    pub fn handle(&mut self, event: Event, natural_width: u32, natural_height: u32) -> (actions:
        Vec<Action>)
        ensures
            *final(self) == old(self).after(event, natural_width, natural_height),
            actions@ == old(self).reaction(event, natural_width, natural_height),
            old(self).wf() ==> final(self).wf(),
    {
        let mine = match event.about() {
            Some(output) => output == self.output,
            None => false,
        };
        if !mine {
            return Vec::new();
        }
        match event {
            Event::Configure { serial, width, height, .. } => self.configure(
                serial,
                settle(width, natural_width),
                settle(height, natural_height),
            ),
            Event::PoolOutcome { capacity, backing, .. } => self.pool_outcome(capacity, backing),
            Event::BufferReleased { .. } => {
                self.buffer_released();
                Vec::new()
            },
            Event::RoleRejected { .. } => self.reject_role(),
            Event::GlobalRemoved { .. } => self.destroy(),
            _ => Vec::new(),
        }
    }
}

/// Counting pool releases goes through concatenation.
pub proof fn lemma_pool_releases_concat(first: Seq<Action>, second: Seq<Action>)
    ensures
        pool_releases(first + second) == pool_releases(first) + pool_releases(second),
    decreases second.len(),
{
    if second.len() == 0 {
        assert(first + second =~= first);
    } else {
        assert((first + second).drop_last() =~= first + second.drop_last());
        lemma_pool_releases_concat(first, second.drop_last());
    }
}

/// A single action releases one pool if it is a pool release, and none otherwise.
pub proof fn lemma_pool_releases_single(action: Action)
    ensures
        pool_releases(seq![action]) == if action is ReleasePool {
            1nat
        } else {
            0nat
        },
{
    assert(seq![action].drop_last() =~= Seq::<Action>::empty());
    assert(pool_releases(seq![action].drop_last()) == 0);
}

/// Every step keeps a well-formed surface well-formed, and on its output.
pub proof fn lemma_step_keeps_well_formed(
    surface: LayerSurface,
    event: Event,
    natural_width: u32,
    natural_height: u32,
)
    requires
        surface.wf(),
    ensures
        surface.after(event, natural_width, natural_height).wf(),
        surface.after(event, natural_width, natural_height).output == surface.output,
{
}

/// `Destroyed` is final: whatever arrives afterwards, the surface stays as it is and asks
/// for nothing, least of all for a write to a buffer.
pub proof fn lemma_destroyed_is_final(
    surface: LayerSurface,
    event: Event,
    natural_width: u32,
    natural_height: u32,
)
    requires
        !surface.live(),
    ensures
        surface.after(event, natural_width, natural_height) == surface,
        surface.reaction(event, natural_width, natural_height) == Seq::<Action>::empty(),
        !paints(surface.reaction(event, natural_width, natural_height)),
{
    assert(surface.reaction(event, natural_width, natural_height) =~= Seq::<Action>::empty());
}

/// Pixels are written at one point only: when a surface that waits in `Configured` without
/// a buffer gets its pool. The buffer written is new and the client's, it has the size of
/// the most recent configure, and it is attached, damaged in full and committed right after,
/// in that order; from then on the compositor owns it.
pub proof fn lemma_paint_only_before_commit(
    surface: LayerSurface,
    event: Event,
    natural_width: u32,
    natural_height: u32,
)
    requires
        surface.wf(),
        paints(surface.reaction(event, natural_width, natural_height)),
    ensures
        surface.state is Configured,
        surface.buffer is None,
        ({
            let next = surface.after(event, natural_width, natural_height);
            let buffer = LayerSurface::frame(next.width, next.height, BufferOwner::Client);
            &&& next.state is Committed
            &&& next.width == surface.width
            &&& next.height == surface.height
            &&& next.buffer == Some(
                LayerSurface::frame(next.width, next.height, BufferOwner::Compositor),
            )
            &&& surface.reaction(event, natural_width, natural_height) == seq![
                Action::Paint { output: surface.output, buffer },
                Action::Attach { output: surface.output, buffer },
                Action::Damage { output: surface.output, width: next.width, height: next.height },
                Action::Commit { output: surface.output },
            ]
        }),
{
    let actions = surface.reaction(event, natural_width, natural_height);
    let k = choose|i: int| 0 <= i < actions.len() && (#[trigger] actions[i]) is Paint;
    assert(actions[k] is Paint);
    match event {
        Event::Configure { serial, width, height, .. } => {
            let w = settled(width, natural_width);
            let h = settled(height, natural_height);
            assert(actions == surface.configure_actions(serial, w, h));
            assert(false);
        },
        Event::PoolOutcome { capacity, backing, .. } => {
            assert(actions == surface.pool_outcome_actions(capacity, backing));
            if !surface.pool_serves(capacity, backing) || surface.width == 0 || surface.height
                == 0 {
                assert(false);
            }
        },
        Event::RoleRejected { .. } => {
            assert(false);
        },
        Event::GlobalRemoved { .. } => {
            assert(false);
        },
        _ => {
            assert(false);
        },
    }
}

/// A surface enters `Committed` in one way only: its buffer, which has exactly the size of
/// the most recent configure, is painted, attached and damaged in full, and only then is the
/// surface committed.
pub proof fn lemma_commit_follows_attach_and_damage(
    surface: LayerSurface,
    event: Event,
    natural_width: u32,
    natural_height: u32,
)
    requires
        surface.wf(),
        !(surface.state is Committed),
        surface.after(event, natural_width, natural_height).state is Committed,
    ensures
        surface.state is Configured,
        ({
            let next = surface.after(event, natural_width, natural_height);
            let buffer = LayerSurface::frame(surface.width, surface.height, BufferOwner::Client);
            &&& next.width == surface.width
            &&& next.height == surface.height
            &&& next.shown() == Some(
                LayerSurface::frame(surface.width, surface.height, BufferOwner::Compositor),
            )
            &&& surface.reaction(event, natural_width, natural_height) == seq![
                Action::Paint { output: surface.output, buffer },
                Action::Attach { output: surface.output, buffer },
                Action::Damage {
                    output: surface.output,
                    width: surface.width,
                    height: surface.height,
                },
                Action::Commit { output: surface.output },
            ]
        }),
{
}

/// The frame of a committed surface is as long as its rows, its rows have room for their
/// pixels, it has the size of the most recent configure, and it lies inside its pool.
pub proof fn lemma_committed_frame_geometry(surface: LayerSurface)
    requires
        surface.wf(),
        surface.state is Committed || surface.state is Released,
    ensures
        surface.buffer is Some,
        surface.pool is Some,
        ({
            let buffer = surface.buffer->0;
            let pool = surface.pool->0;
            &&& buffer.wf()
            &&& buffer.width == surface.width
            &&& buffer.height == surface.height
            &&& buffer.stride >= 4 * surface.width
            &&& buffer.len == buffer.stride * buffer.height
            &&& buffer.inside(pool)
            &&& pool.wf()
            &&& !buffer.writable()
        }),
{
    let w = surface.width;
    let h = surface.height;
    assert(4 * w * h == (4 * w) * h);
    assert(4 * w <= 4 * w * h) by (nonlinear_arith)
        requires
            0 < h,
            0 <= w,
    ;
}

/// Committing what is already committed changes nothing: a configure event that repeats
/// the size of the committed frame is acknowledged and answered with a bare commit, and the
/// surface, its buffer and the frame the compositor shows are the same afterwards, however
/// often this happens.
pub proof fn lemma_recommit_is_idempotent(
    surface: LayerSurface,
    serial: u32,
    again: u32,
    natural_width: u32,
    natural_height: u32,
)
    requires
        surface.state is Committed || surface.state is Released,
        surface.buffer is Some,
    ensures
        ({
            let once = surface.after_configure(surface.width, surface.height);
            let twice = once.after_configure(surface.width, surface.height);
            &&& once == surface
            &&& twice == once
            &&& once.shown() == surface.shown()
            &&& surface.configure_actions(serial, surface.width, surface.height) == seq![
                Action::AckConfigure { output: surface.output, serial },
                Action::Commit { output: surface.output },
            ]
            &&& once.configure_actions(again, surface.width, surface.height) == seq![
                Action::AckConfigure { output: surface.output, serial: again },
                Action::Commit { output: surface.output },
            ]
        }),
        0 < surface.width && 0 < surface.height ==> {
            let event = Event::Configure {
                output: surface.output,
                serial,
                width: surface.width,
                height: surface.height,
            };
            &&& surface.after(event, natural_width, natural_height) == surface
            &&& !paints(surface.reaction(event, natural_width, natural_height))
        },
{
    if 0 < surface.width && 0 < surface.height {
        let event = Event::Configure {
            output: surface.output,
            serial,
            width: surface.width,
            height: surface.height,
        };
        let actions = surface.reaction(event, natural_width, natural_height);
        assert(actions == surface.configure_actions(serial, surface.width, surface.height));
        assert(actions.len() == 2);
        assert(!(actions[0] is Paint));
        assert(!(actions[1] is Paint));
    }
}

/// Taking a surface down gives up its pool exactly once if it has one, and leaves nothing
/// behind that could be given up again.
pub proof fn lemma_teardown_releases_pool_once(surface: LayerSurface)
    ensures
        pool_releases(surface.teardown_actions()) == if surface.pool is Some {
            1nat
        } else {
            0nat
        },
        surface.torn_down().pool is None,
        surface.torn_down().buffer is None,
        surface.torn_down().destroy_actions() == Seq::<Action>::empty(),
{
    let buffer = if surface.buffer is Some {
        seq![Action::DestroyBuffer { output: surface.output }]
    } else {
        Seq::<Action>::empty()
    };
    let pool = if surface.pool is Some {
        seq![Action::ReleasePool { output: surface.output }]
    } else {
        Seq::<Action>::empty()
    };
    let own = if surface.state is Created {
        Seq::<Action>::empty()
    } else {
        seq![Action::DestroySurface { output: surface.output }]
    };
    assert(surface.teardown_actions() == (buffer + pool) + own);
    lemma_pool_releases_concat(buffer + pool, own);
    lemma_pool_releases_concat(buffer, pool);
    lemma_pool_releases_single(Action::DestroyBuffer { output: surface.output });
    lemma_pool_releases_single(Action::ReleasePool { output: surface.output });
    lemma_pool_releases_single(Action::DestroySurface { output: surface.output });
}

/// The withdrawal of an output and the release of its buffer may arrive in either order:
/// the surface ends up destroyed in the same state, the session is asked for the same
/// actions, and the pool is given up exactly once if the surface had one.
pub proof fn lemma_removal_and_release_commute(
    surface: LayerSurface,
    natural_width: u32,
    natural_height: u32,
)
    requires
        surface.wf(),
        surface.live(),
    ensures
        ({
            let removal = Event::GlobalRemoved { name: surface.output };
            let release = Event::BufferReleased { output: surface.output };
            let removed = surface.after(removal, natural_width, natural_height);
            let released = surface.after(release, natural_width, natural_height);
            let removal_first = surface.reaction(removal, natural_width, natural_height)
                + removed.reaction(release, natural_width, natural_height);
            let release_first = surface.reaction(release, natural_width, natural_height)
                + released.reaction(removal, natural_width, natural_height);
            &&& removed.after(release, natural_width, natural_height) == released.after(
                removal,
                natural_width,
                natural_height,
            )
            &&& !removed.after(release, natural_width, natural_height).live()
            &&& removal_first == release_first
            &&& pool_releases(removal_first) == if surface.pool is Some {
                1nat
            } else {
                0nat
            }
        }),
{
    let removal = Event::GlobalRemoved { name: surface.output };
    let release = Event::BufferReleased { output: surface.output };
    let removed = surface.after(removal, natural_width, natural_height);
    let released = surface.after(release, natural_width, natural_height);
    let removal_first = surface.reaction(removal, natural_width, natural_height) + removed.reaction(
        release,
        natural_width,
        natural_height,
    );
    let release_first = surface.reaction(release, natural_width, natural_height)
        + released.reaction(removal, natural_width, natural_height);
    assert(released.teardown_actions() =~= surface.teardown_actions());
    assert(removal_first =~= surface.teardown_actions());
    assert(release_first =~= surface.teardown_actions());
    lemma_teardown_releases_pool_once(surface);
}

} // verus!
