//! Shared-memory pools and the pixel buffers carved from them.
//!
//! The types here keep the books: how large a pool is, how much of it is taken, where each
//! buffer lies and who may touch it. Creating and mapping the memory itself is left to the
//! caller, who reports how it went.

use vstd::prelude::*;
use crate::error::RenderError;
use crate::pattern::{in_image, paint, painted, BYTES_PER_PIXEL};

verus! {

/// How pixels are encoded. Buffers are always 32-bit ARGB, which on a little-endian host lies
/// in memory as blue, green, red, alpha.
#[derive(Clone, Copy, Debug, PartialEq, Eq, Structural)]
pub enum PixelFormat {
    Argb8888,
}

/// Who may touch a buffer's memory right now.
#[derive(Clone, Copy, Debug, PartialEq, Eq, Structural)]
pub enum BufferOwner {
    /// The client may write the pixels.
    Client,
    /// The buffer was attached and committed; the compositor reads it and the client must
    /// keep its hands off.
    Compositor,
    /// The compositor gave the buffer back; it may be reused or freed.
    Released,
}

/// How the attempt to back a pool with shared memory ended.
#[derive(Clone, Copy, Debug, PartialEq, Eq, Structural)]
pub enum Backing {
    /// The memory file has its size and is mapped.
    Mapped,
    /// The memory file could not be given its size.
    NotSized,
    /// The memory file could not be mapped.
    NotMapped,
}

/// A shared-memory region: `capacity` bytes, of which the first `used` are taken by buffers.
#[derive(Clone, Copy, Debug, PartialEq, Eq, Structural)]
pub struct MemoryPool {
    pub capacity: u64,
    pub used: u64,
}

impl MemoryPool {
    /// Buffers never take more than the pool has.
    pub open spec fn wf(self) -> bool {
        self.used <= self.capacity
    }

    /// How many bytes a buffer of `height` rows, `stride` bytes apart, takes.
    pub open spec fn demand(height: u32, stride: u64) -> int {
        stride * height
    }

    /// Whether such a buffer still fits behind the buffers already carved.
    pub open spec fn has_room(self, height: u32, stride: u64) -> bool {
        self.used + Self::demand(height, stride) <= self.capacity
    }
}

/// One frame of pixels inside a pool.
#[derive(Clone, Copy, Debug, PartialEq, Eq, Structural)]
pub struct PixelBuffer {
    /// Pixels per row.
    pub width: u32,
    /// Rows.
    pub height: u32,
    /// Bytes from the start of one row to the start of the next.
    pub stride: u64,
    /// Where in the pool the first row starts.
    pub offset: u64,
    /// Bytes from the start of the first row to the end of the last.
    pub len: u64,
    pub format: PixelFormat,
    pub owner: BufferOwner,
}

impl PixelBuffer {
    /// A buffer is as long as its rows, and a row has room for its pixels.
    pub open spec fn wf(self) -> bool {
        &&& 0 < self.width
        &&& 0 < self.height
        &&& 4 * self.width <= self.stride
        &&& self.len == self.stride * self.height
        &&& self.offset + self.len <= u64::MAX
    }

    /// Whether the buffer lies wholly inside `pool`.
    pub open spec fn inside(self, pool: MemoryPool) -> bool {
        self.offset + self.len <= pool.capacity
    }

    /// The buffer that `carve_buffer` cuts from `pool`.
    pub open spec fn carved_from(
        pool: MemoryPool,
        width: u32,
        height: u32,
        stride: u64,
        format: PixelFormat,
    ) -> PixelBuffer {
        PixelBuffer {
            width,
            height,
            stride,
            offset: pool.used,
            len: MemoryPool::demand(height, stride) as u64,
            format,
            owner: BufferOwner::Client,
        }
    }

    /// Whether the client may write the pixels.
    pub open spec fn writable(self) -> bool {
        self.owner is Client
    }

    /// Whether the pattern can be painted into a mapping of `mapped` bytes: the client owns
    /// the buffer, every row has room for its pixels and the last row ends inside the mapping.
    pub open spec fn fillable(self, mapped: nat) -> bool {
        &&& self.writable()
        &&& 4 * self.width <= self.stride
        &&& self.offset + self.stride * self.height <= mapped
    }

    /// Whether the client may write the pixels.
    pub fn is_writable(&self) -> (w: bool)
        ensures
            w == self.writable(),
    {
        match self.owner {
            BufferOwner::Client => true,
            _ => false,
        }
    }

    /// Paints the pattern into the buffer's place in `mapping`, the pool's memory. Nothing is
    /// written unless the client owns the buffer and the buffer lies inside the mapping.
    pub fn fill(&self, mapping: &mut [u8]) -> (done: bool)
        ensures
            done == self.fillable(old(mapping)@.len()),
            done ==> final(mapping)@ == painted(
                old(mapping)@,
                self.offset as int,
                self.width as int,
                self.height as int,
                self.stride as int,
            ),
            !done ==> final(mapping)@ == old(mapping)@,
    {
        let mapped: usize = mapping.len();
        if !self.is_writable() {
            return false;
        }
        if self.stride / 4 < self.width as u64 {
            return false;
        }
        let end: u64 = match self.stride.checked_mul(self.height as u64) {
            Some(len) => match self.offset.checked_add(len) {
                Some(end) => end,
                None => { return false; },
            },
            None => { return false; },
        };
        if end > mapped as u64 {
            return false;
        }
        if self.height == 0 || self.width == 0 {
            assert(mapping@ =~= painted(
                mapping@,
                self.offset as int,
                self.width as int,
                self.height as int,
                self.stride as int,
            )) by {
                assert forall|i: int| 0 <= i < mapping@.len() implies !in_image(
                    i,
                    self.offset as int,
                    self.width as int,
                    self.height as int,
                    self.stride as int,
                ) by {
                    if 0 < self.width && self.offset <= i {
                        assert(0 <= (i - self.offset) / (self.stride as int)) by (nonlinear_arith)
                            requires
                                0 <= i - self.offset,
                                0 < self.stride,
                        ;
                    }
                }
            }
            return true;
        }
        assert(self.stride <= self.stride * self.height) by (nonlinear_arith)
            requires
                0 < self.height,
                0 <= self.stride,
        ;
        paint(mapping, self.offset as usize, self.width, self.height, self.stride as usize);
        true
    }
}

/// Bytes per row of a `width` pixels wide buffer without padding.
pub fn row_stride(width: u32) -> (stride: u64)
    ensures
        stride == 4 * width,
{
    BYTES_PER_PIXEL * (width as u64)
}

/// The bytes one unpadded `width` by `height` frame takes, as far as a `u64` can say:
/// beyond that the answer is `u64::MAX`, which no pool can hold.
pub open spec fn frame_demand(width: u32, height: u32) -> u64 {
    if 4 * width * height <= u64::MAX {
        (4 * width * height) as u64
    } else {
        u64::MAX
    }
}

/// The capacity to ask for when a pool shall hold one unpadded `width` by `height` frame.
pub fn frame_bytes(width: u32, height: u32) -> (bytes: u64)
    ensures
        bytes == frame_demand(width, height),
{
    assert(4 * width * height == (4 * width) * height) by (nonlinear_arith);
    match row_stride(width).checked_mul(height as u64) {
        Some(bytes) => bytes,
        None => u64::MAX,
    }
}

/// Records a new pool of `capacity_bytes` once the caller has tried to back it with memory.
/// The pool exists exactly when the memory was sized and mapped.
pub fn create_pool(capacity_bytes: u64, backing: Backing) -> (r: Result<MemoryPool, RenderError>)
    ensures
        backing is Mapped ==> r == Ok::<MemoryPool, RenderError>(
            MemoryPool { capacity: capacity_bytes, used: 0 },
        ),
        !(backing is Mapped) ==> r == Err::<MemoryPool, RenderError>(
            RenderError::AllocationFailed,
        ),
{
    match backing {
        Backing::Mapped => Ok(MemoryPool { capacity: capacity_bytes, used: 0 }),
        _ => Err(RenderError::AllocationFailed),
    }
}

/// Cuts a buffer of `height` rows, `stride` bytes apart, from the free end of `pool`.
///
/// The buffer starts where the last one ended and belongs to the client. When the pool has
/// too little room left, the pool is left as it was and the caller has to make a larger one.
pub fn carve_buffer(
    pool: &mut MemoryPool,
    width: u32,
    height: u32,
    stride: u64,
    format: PixelFormat,
) -> (r: Result<PixelBuffer, RenderError>)
    requires
        0 < width,
        0 < height,
        4 * width <= stride,
    ensures
        old(pool).has_room(height, stride) ==> {
            &&& r == Ok::<PixelBuffer, RenderError>(
                PixelBuffer::carved_from(*old(pool), width, height, stride, format),
            )
            &&& *final(pool) == MemoryPool {
                capacity: old(pool).capacity,
                used: (old(pool).used + stride * height) as u64,
            }
        },
        !old(pool).has_room(height, stride) ==> {
            &&& r == Err::<PixelBuffer, RenderError>(RenderError::OutOfPoolSpace)
            &&& *final(pool) == *old(pool)
        },
        r matches Ok(buffer) ==> {
            &&& buffer.wf()
            &&& buffer.len == stride * height
            &&& buffer.stride >= 4 * width
            &&& buffer.inside(*final(pool))
            &&& (old(pool).wf() ==> final(pool).wf())
        },
{
    let len: u64 = match stride.checked_mul(height as u64) {
        Some(len) => len,
        None => { return Err(RenderError::OutOfPoolSpace); },
    };
    let end: u64 = match pool.used.checked_add(len) {
        Some(end) => end,
        None => { return Err(RenderError::OutOfPoolSpace); },
    };
    if end > pool.capacity {
        return Err(RenderError::OutOfPoolSpace);
    }
    let buffer = PixelBuffer {
        width,
        height,
        stride,
        offset: pool.used,
        len,
        format,
        owner: BufferOwner::Client,
    };
    pool.used = end;
    Ok(buffer)
}

} // verus!
