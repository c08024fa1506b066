use hackerland::error::RenderError;
use hackerland::pattern::pixel_at;
use hackerland::shm::{
    carve_buffer, create_pool, frame_bytes, row_stride, Backing, BufferOwner, MemoryPool,
    PixelBuffer, PixelFormat,
};

fn buffer(width: u32, height: u32, stride: u64, offset: u64, owner: BufferOwner) -> PixelBuffer {
    PixelBuffer {
        width,
        height,
        stride,
        offset,
        len: stride * height as u64,
        format: PixelFormat::Argb8888,
        owner,
    }
}

#[test]
fn a_mapped_pool_is_empty_and_has_its_capacity() {
    assert_eq!(
        create_pool(8_294_400, Backing::Mapped),
        Ok(MemoryPool { capacity: 8_294_400, used: 0 })
    );
}

#[test]
fn a_pool_that_cannot_be_sized_fails_to_allocate() {
    assert_eq!(create_pool(4096, Backing::NotSized), Err(RenderError::AllocationFailed));
}

#[test]
fn a_pool_that_cannot_be_mapped_fails_to_allocate() {
    assert_eq!(create_pool(4096, Backing::NotMapped), Err(RenderError::AllocationFailed));
}

#[test]
fn stride_of_an_unpadded_row() {
    assert_eq!(row_stride(1920), 7680);
    assert_eq!(row_stride(0), 0);
    assert_eq!(row_stride(u32::MAX), 17_179_869_180);
}

#[test]
fn bytes_of_a_full_hd_frame() {
    assert_eq!(frame_bytes(1920, 1080), 8_294_400);
}

#[test]
fn bytes_of_an_impossible_frame_saturate() {
    assert_eq!(frame_bytes(u32::MAX, u32::MAX), u64::MAX);
    assert_eq!(frame_bytes(u32::MAX, 1), 17_179_869_180);
    assert_eq!(frame_bytes(0, 1080), 0);
}

#[test]
fn carving_a_full_hd_buffer() {
    let mut pool = create_pool(8_294_400, Backing::Mapped).unwrap();
    let carved = carve_buffer(&mut pool, 1920, 1080, 7680, PixelFormat::Argb8888).unwrap();
    assert_eq!(carved, buffer(1920, 1080, 7680, 0, BufferOwner::Client));
    assert_eq!(carved.len, carved.stride * 1080);
    assert!(carved.stride >= 1920 * 4);
    assert_eq!(pool, MemoryPool { capacity: 8_294_400, used: 8_294_400 });
}

#[test]
fn carved_length_is_stride_times_height_for_many_sizes() {
    for &(w, h, pad) in [(1u32, 1u32, 0u64), (3, 5, 4), (640, 480, 0), (1366, 768, 8)].iter() {
        let stride = row_stride(w) + pad;
        let mut pool = create_pool(stride * h as u64, Backing::Mapped).unwrap();
        let carved = carve_buffer(&mut pool, w, h, stride, PixelFormat::Argb8888).unwrap();
        assert_eq!(carved.len, stride * h as u64);
        assert!(carved.stride >= w as u64 * 4);
        assert!(carved.offset + carved.len <= pool.capacity);
    }
}

#[test]
fn a_second_buffer_starts_where_the_first_ends() {
    let mut pool = create_pool(100, Backing::Mapped).unwrap();
    let first = carve_buffer(&mut pool, 2, 3, 8, PixelFormat::Argb8888).unwrap();
    let second = carve_buffer(&mut pool, 4, 2, 16, PixelFormat::Argb8888).unwrap();
    assert_eq!(first, buffer(2, 3, 8, 0, BufferOwner::Client));
    assert_eq!(second, buffer(4, 2, 16, 24, BufferOwner::Client));
    assert_eq!(pool, MemoryPool { capacity: 100, used: 56 });
}

#[test]
fn carving_beyond_the_capacity_is_out_of_pool_space() {
    let mut pool = create_pool(8_294_399, Backing::Mapped).unwrap();
    assert_eq!(
        carve_buffer(&mut pool, 1920, 1080, 7680, PixelFormat::Argb8888),
        Err(RenderError::OutOfPoolSpace)
    );
    assert_eq!(pool, MemoryPool { capacity: 8_294_399, used: 0 });
}

#[test]
fn carving_from_a_full_pool_is_out_of_pool_space() {
    let mut pool = create_pool(64, Backing::Mapped).unwrap();
    assert!(carve_buffer(&mut pool, 4, 4, 16, PixelFormat::Argb8888).is_ok());
    assert_eq!(
        carve_buffer(&mut pool, 1, 1, 4, PixelFormat::Argb8888),
        Err(RenderError::OutOfPoolSpace)
    );
    assert_eq!(pool.used, 64);
}

#[test]
fn carving_a_length_beyond_u64_is_out_of_pool_space() {
    let mut pool = create_pool(u64::MAX, Backing::Mapped).unwrap();
    assert_eq!(
        carve_buffer(&mut pool, 1, u32::MAX, u64::MAX, PixelFormat::Argb8888),
        Err(RenderError::OutOfPoolSpace)
    );
    assert_eq!(pool.used, 0);
}

#[test]
fn a_client_buffer_is_writable_and_others_are_not() {
    assert!(buffer(1, 1, 4, 0, BufferOwner::Client).is_writable());
    assert!(!buffer(1, 1, 4, 0, BufferOwner::Compositor).is_writable());
    assert!(!buffer(1, 1, 4, 0, BufferOwner::Released).is_writable());
}

#[test]
fn fill_paints_the_buffer_at_its_offset() {
    let frame = buffer(3, 2, 12, 8, BufferOwner::Client);
    let mut mapping = vec![0u8; 40];
    assert!(frame.fill(&mut mapping));
    assert_eq!(mapping[..8], [0u8; 8]);
    for y in 0..2u32 {
        for x in 0..3u32 {
            let at = 8 + y as usize * 12 + 4 * x as usize;
            assert_eq!(mapping[at..at + 4], pixel_at(x, y, 3, 2).to_bgra());
        }
    }
    assert_eq!(mapping[32..], [0u8; 8]);
}

#[test]
fn fill_refuses_a_buffer_the_compositor_owns() {
    let frame = buffer(3, 2, 12, 0, BufferOwner::Compositor);
    let mut mapping = vec![9u8; 24];
    assert!(!frame.fill(&mut mapping));
    assert_eq!(mapping, vec![9u8; 24]);
}

#[test]
fn fill_refuses_a_released_buffer() {
    let frame = buffer(3, 2, 12, 0, BufferOwner::Released);
    let mut mapping = vec![9u8; 24];
    assert!(!frame.fill(&mut mapping));
    assert_eq!(mapping, vec![9u8; 24]);
}

#[test]
fn fill_refuses_a_mapping_that_is_too_short() {
    let frame = buffer(3, 2, 12, 1, BufferOwner::Client);
    let mut mapping = vec![9u8; 24];
    assert!(!frame.fill(&mut mapping));
    assert_eq!(mapping, vec![9u8; 24]);
}

#[test]
fn fill_refuses_rows_too_narrow_for_their_pixels() {
    let frame = buffer(3, 2, 11, 0, BufferOwner::Client);
    let mut mapping = vec![9u8; 64];
    assert!(!frame.fill(&mut mapping));
    assert_eq!(mapping, vec![9u8; 64]);
}

#[test]
fn fill_of_an_empty_buffer_writes_nothing() {
    let frame = buffer(0, 0, 0, 4, BufferOwner::Client);
    let mut mapping = vec![9u8; 8];
    assert!(frame.fill(&mut mapping));
    assert_eq!(mapping, vec![9u8; 8]);
}
