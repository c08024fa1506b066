use hackerland::error::RenderError;
use hackerland::protocol::{Action, Event, LayerRole};
use hackerland::shm::{Backing, BufferOwner, MemoryPool, PixelBuffer, PixelFormat};
use hackerland::surface::{settle, LayerSurface, SurfaceState};

const OUT: u32 = 42;

fn frame(width: u32, height: u32, owner: BufferOwner) -> PixelBuffer {
    PixelBuffer {
        width,
        height,
        stride: 4 * width as u64,
        offset: 0,
        len: 4 * width as u64 * height as u64,
        format: PixelFormat::Argb8888,
        owner,
    }
}

fn requested() -> LayerSurface {
    let mut surface = LayerSurface::new(OUT);
    surface.bind_surface();
    surface.request_layer();
    surface
}

fn configured(width: u32, height: u32) -> LayerSurface {
    let mut surface = requested();
    surface.configure(1, width, height);
    surface
}

fn committed(width: u32, height: u32) -> LayerSurface {
    let mut surface = configured(width, height);
    surface.pool_outcome(4 * width as u64 * height as u64, Backing::Mapped);
    assert_eq!(surface.state, SurfaceState::Committed);
    surface
}

#[test]
fn a_new_surface_holds_nothing() {
    assert_eq!(
        LayerSurface::new(OUT),
        LayerSurface {
            output: OUT,
            state: SurfaceState::Created,
            width: 0,
            height: 0,
            awaiting_pool: false,
            retried: false,
            pool: None,
            buffer: None,
        }
    );
    assert!(LayerSurface::new(OUT).is_live());
}

#[test]
fn binding_asks_for_the_surface_object() {
    let mut surface = LayerSurface::new(OUT);
    assert_eq!(surface.bind_surface(), vec![Action::CreateSurface { output: OUT }]);
    assert_eq!(surface.state, SurfaceState::SurfaceBound);
    assert_eq!(surface.bind_surface(), vec![]);
    assert_eq!(surface.state, SurfaceState::SurfaceBound);
}

#[test]
fn the_layer_request_carries_the_wallpaper_role_and_a_commit() {
    let mut surface = LayerSurface::new(OUT);
    assert_eq!(surface.request_layer(), vec![]);
    assert_eq!(surface.state, SurfaceState::Created);
    surface.bind_surface();
    assert_eq!(
        surface.request_layer(),
        vec![
            Action::RequestLayer { output: OUT, role: LayerRole::background() },
            Action::Commit { output: OUT },
        ]
    );
    assert_eq!(surface.state, SurfaceState::LayerRequested);
}

#[test]
fn a_dimension_left_open_falls_back_to_the_output() {
    assert_eq!(settle(0, 1920), 1920);
    assert_eq!(settle(800, 1920), 800);
    assert_eq!(settle(0, 0), 0);
}

#[test]
fn configure_is_acknowledged_before_a_pool_is_asked_for() {
    let mut surface = requested();
    assert_eq!(
        surface.configure(77, 1920, 1080),
        vec![
            Action::AckConfigure { output: OUT, serial: 77 },
            Action::CreatePool { output: OUT, capacity: 8_294_400 },
        ]
    );
    assert_eq!(surface.state, SurfaceState::Configured);
    assert_eq!((surface.width, surface.height), (1920, 1080));
    assert!(surface.awaiting_pool);
}

#[test]
fn configure_without_a_role_is_ignored() {
    let mut surface = LayerSurface::new(OUT);
    assert_eq!(surface.configure(1, 1920, 1080), vec![]);
    assert_eq!(surface, LayerSurface::new(OUT));
    surface.bind_surface();
    let bound = surface;
    assert_eq!(surface.configure(1, 1920, 1080), vec![]);
    assert_eq!(surface, bound);
}

#[test]
fn an_empty_size_is_acknowledged_but_gets_no_pool() {
    let mut surface = requested();
    assert_eq!(
        surface.configure(5, 0, 1080),
        vec![Action::AckConfigure { output: OUT, serial: 5 }]
    );
    assert_eq!(surface.state, SurfaceState::Configured);
    assert!(!surface.awaiting_pool);
    assert_eq!(surface.pool_outcome(100, Backing::Mapped), vec![]);
    assert_eq!(surface.state, SurfaceState::Configured);
}

#[test]
fn a_second_configure_while_waiting_asks_for_no_second_pool() {
    let mut surface = configured(1920, 1080);
    assert_eq!(
        surface.configure(2, 1280, 720),
        vec![Action::AckConfigure { output: OUT, serial: 2 }]
    );
    assert!(surface.awaiting_pool);
    assert_eq!((surface.width, surface.height), (1280, 720));
}

#[test]
fn a_pool_that_holds_the_frame_leads_to_the_commit() {
    let mut surface = configured(1920, 1080);
    let client = frame(1920, 1080, BufferOwner::Client);
    assert_eq!(
        surface.pool_outcome(8_294_400, Backing::Mapped),
        vec![
            Action::Paint { output: OUT, buffer: client },
            Action::Attach { output: OUT, buffer: client },
            Action::Damage { output: OUT, width: 1920, height: 1080 },
            Action::Commit { output: OUT },
        ]
    );
    assert_eq!(
        surface,
        LayerSurface {
            output: OUT,
            state: SurfaceState::Committed,
            width: 1920,
            height: 1080,
            awaiting_pool: false,
            retried: false,
            pool: Some(MemoryPool { capacity: 8_294_400, used: 8_294_400 }),
            buffer: Some(frame(1920, 1080, BufferOwner::Compositor)),
        }
    );
    let buffer = surface.buffer.unwrap();
    assert_eq!(buffer.stride, 7680);
    assert_eq!(buffer.len, buffer.stride * 1080);
    assert!(!buffer.is_writable());
}

#[test]
fn a_larger_pool_serves_as_well() {
    let mut surface = configured(10, 10);
    surface.pool_outcome(4096, Backing::Mapped);
    assert_eq!(surface.state, SurfaceState::Committed);
    assert_eq!(surface.pool, Some(MemoryPool { capacity: 4096, used: 400 }));
}

#[test]
fn an_unsolicited_pool_is_ignored() {
    let mut surface = requested();
    let before = surface;
    assert_eq!(surface.pool_outcome(8_294_400, Backing::Mapped), vec![]);
    assert_eq!(surface, before);
    let mut surface = committed(4, 4);
    let before = surface;
    assert_eq!(surface.pool_outcome(64, Backing::Mapped), vec![]);
    assert_eq!(surface, before);
}

#[test]
fn a_failed_allocation_is_retried_once() {
    let mut surface = configured(1920, 1080);
    assert_eq!(
        surface.pool_outcome(8_294_400, Backing::NotMapped),
        vec![Action::CreatePool { output: OUT, capacity: 8_294_400 }]
    );
    assert_eq!(surface.state, SurfaceState::Configured);
    assert!(surface.retried);
    assert!(surface.awaiting_pool);
    let client = frame(1920, 1080, BufferOwner::Client);
    assert_eq!(
        surface.pool_outcome(8_294_400, Backing::Mapped),
        vec![
            Action::Paint { output: OUT, buffer: client },
            Action::Attach { output: OUT, buffer: client },
            Action::Damage { output: OUT, width: 1920, height: 1080 },
            Action::Commit { output: OUT },
        ]
    );
    assert_eq!(surface.state, SurfaceState::Committed);
    assert!(!surface.retried);
}

#[test]
fn a_second_failed_allocation_abandons_the_surface() {
    let mut surface = configured(1920, 1080);
    surface.pool_outcome(8_294_400, Backing::NotSized);
    assert_eq!(
        surface.pool_outcome(8_294_400, Backing::NotSized),
        vec![
            Action::DestroySurface { output: OUT },
            Action::Diagnostic { output: OUT, error: RenderError::AllocationFailed },
        ]
    );
    assert_eq!(surface.state, SurfaceState::Destroyed);
    assert!(!surface.is_live());
    assert_eq!(surface.pool, None);
    assert_eq!(surface.buffer, None);
}

#[test]
fn a_pool_that_is_too_small_is_given_up_and_asked_for_again() {
    let mut surface = configured(1920, 1080);
    assert_eq!(
        surface.pool_outcome(8_294_399, Backing::Mapped),
        vec![
            Action::ReleasePool { output: OUT },
            Action::CreatePool { output: OUT, capacity: 8_294_400 },
        ]
    );
    assert_eq!(surface.state, SurfaceState::Configured);
    assert!(surface.retried);
    assert_eq!(surface.pool, None);
}

#[test]
fn a_second_pool_that_is_too_small_abandons_the_surface() {
    let mut surface = configured(1920, 1080);
    surface.pool_outcome(16, Backing::Mapped);
    assert_eq!(
        surface.pool_outcome(16, Backing::Mapped),
        vec![
            Action::ReleasePool { output: OUT },
            Action::DestroySurface { output: OUT },
            Action::Diagnostic { output: OUT, error: RenderError::OutOfPoolSpace },
        ]
    );
    assert_eq!(surface.state, SurfaceState::Destroyed);
}

#[test]
fn release_hands_the_buffer_back() {
    let mut surface = committed(8, 8);
    surface.buffer_released();
    assert_eq!(surface.state, SurfaceState::Released);
    assert_eq!(surface.buffer, Some(frame(8, 8, BufferOwner::Released)));
    assert_eq!(surface.pool, Some(MemoryPool { capacity: 256, used: 256 }));
}

#[test]
fn release_means_nothing_before_the_commit() {
    let mut surface = configured(8, 8);
    let before = surface;
    surface.buffer_released();
    assert_eq!(surface, before);
}

#[test]
fn committing_the_same_frame_again_changes_nothing() {
    let mut surface = committed(1920, 1080);
    let before = surface;
    let again = vec![
        Action::AckConfigure { output: OUT, serial: 9 },
        Action::Commit { output: OUT },
    ];
    assert_eq!(surface.configure(9, 1920, 1080), again);
    assert_eq!(surface, before);
    assert_eq!(surface.configure(9, 1920, 1080), again);
    assert_eq!(surface, before);
}

#[test]
fn committing_a_released_frame_again_changes_nothing() {
    let mut surface = committed(64, 32);
    surface.buffer_released();
    let before = surface;
    assert_eq!(
        surface.configure(3, 64, 32),
        vec![Action::AckConfigure { output: OUT, serial: 3 }, Action::Commit { output: OUT }]
    );
    assert_eq!(surface, before);
}

#[test]
fn a_resize_drops_the_old_frame_and_asks_for_a_new_pool() {
    let mut surface = committed(1920, 1080);
    assert_eq!(
        surface.configure(4, 2560, 1440),
        vec![
            Action::AckConfigure { output: OUT, serial: 4 },
            Action::DestroyBuffer { output: OUT },
            Action::ReleasePool { output: OUT },
            Action::CreatePool { output: OUT, capacity: 14_745_600 },
        ]
    );
    assert_eq!(surface.state, SurfaceState::Configured);
    assert_eq!(surface.pool, None);
    assert_eq!(surface.buffer, None);
    surface.pool_outcome(14_745_600, Backing::Mapped);
    assert_eq!(surface.state, SurfaceState::Committed);
    assert_eq!(surface.buffer, Some(frame(2560, 1440, BufferOwner::Compositor)));
}

#[test]
fn destroying_a_committed_surface_lets_go_of_everything_once() {
    let mut surface = committed(16, 16);
    assert_eq!(
        surface.destroy(),
        vec![
            Action::DestroyBuffer { output: OUT },
            Action::ReleasePool { output: OUT },
            Action::DestroySurface { output: OUT },
        ]
    );
    assert_eq!(surface.state, SurfaceState::Destroyed);
    assert_eq!(surface.pool, None);
    assert_eq!(surface.buffer, None);
    assert_eq!(surface.destroy(), vec![]);
}

#[test]
fn destroying_a_surface_that_was_never_asked_for_needs_no_request() {
    let mut surface = LayerSurface::new(OUT);
    assert_eq!(surface.destroy(), vec![]);
    assert_eq!(surface.state, SurfaceState::Destroyed);
}

#[test]
fn destroying_a_waiting_surface_needs_only_the_surface_gone() {
    let mut surface = configured(16, 16);
    assert_eq!(surface.destroy(), vec![Action::DestroySurface { output: OUT }]);
    assert!(!surface.awaiting_pool);
}

#[test]
fn a_refused_role_takes_the_surface_down_with_a_diagnostic() {
    let mut surface = requested();
    assert_eq!(
        surface.reject_role(),
        vec![
            Action::DestroySurface { output: OUT },
            Action::Diagnostic { output: OUT, error: RenderError::LayerRoleRejected },
        ]
    );
    assert_eq!(surface.state, SurfaceState::Destroyed);
    assert_eq!(surface.reject_role(), vec![]);
}

#[test]
fn a_destroyed_surface_answers_nothing() {
    let mut surface = committed(16, 16);
    surface.destroy();
    let gone = surface;
    let events = [
        Event::Configure { output: OUT, serial: 1, width: 16, height: 16 },
        Event::PoolOutcome { output: OUT, capacity: 1024, backing: Backing::Mapped },
        Event::BufferReleased { output: OUT },
        Event::RoleRejected { output: OUT },
        Event::GlobalRemoved { name: OUT },
        Event::OutputMode { output: OUT, width: 1, height: 1 },
        Event::Synced,
        Event::ConnectionLost,
    ];
    for event in events {
        assert_eq!(surface.handle(event, 1920, 1080), vec![]);
        assert_eq!(surface, gone);
    }
}

#[test]
fn events_about_other_outputs_are_ignored() {
    let mut surface = committed(16, 16);
    let before = surface;
    let events = [
        Event::Configure { output: 1, serial: 1, width: 32, height: 32 },
        Event::PoolOutcome { output: 1, capacity: 1024, backing: Backing::Mapped },
        Event::BufferReleased { output: 1 },
        Event::RoleRejected { output: 1 },
        Event::GlobalRemoved { name: 1 },
    ];
    for event in events {
        assert_eq!(surface.handle(event, 1920, 1080), vec![]);
        assert_eq!(surface, before);
    }
}

#[test]
fn handle_settles_open_dimensions_on_the_outputs_size() {
    let mut surface = requested();
    assert_eq!(
        surface.handle(Event::Configure { output: OUT, serial: 1, width: 0, height: 0 }, 1920, 1080),
        vec![
            Action::AckConfigure { output: OUT, serial: 1 },
            Action::CreatePool { output: OUT, capacity: 8_294_400 },
        ]
    );
    assert_eq!((surface.width, surface.height), (1920, 1080));
    let mut surface = requested();
    surface.handle(Event::Configure { output: OUT, serial: 1, width: 800, height: 0 }, 1920, 1080);
    assert_eq!((surface.width, surface.height), (800, 1080));
}

#[test]
fn removal_before_release_gives_up_the_pool_once() {
    let mut surface = committed(16, 16);
    let mut actions = surface.handle(Event::GlobalRemoved { name: OUT }, 0, 0);
    actions.extend(surface.handle(Event::BufferReleased { output: OUT }, 0, 0));
    let releases =
        actions.iter().filter(|a| matches!(a, Action::ReleasePool { .. })).count();
    assert_eq!(releases, 1);
    assert_eq!(surface.state, SurfaceState::Destroyed);
}

#[test]
fn release_before_removal_gives_up_the_pool_once() {
    let mut surface = committed(16, 16);
    let mut actions = surface.handle(Event::BufferReleased { output: OUT }, 0, 0);
    actions.extend(surface.handle(Event::GlobalRemoved { name: OUT }, 0, 0));
    let releases =
        actions.iter().filter(|a| matches!(a, Action::ReleasePool { .. })).count();
    assert_eq!(releases, 1);
    assert_eq!(surface.state, SurfaceState::Destroyed);
}

#[test]
fn removal_and_release_commute() {
    let mut first = committed(16, 16);
    let mut second = committed(16, 16);
    let mut a = first.handle(Event::GlobalRemoved { name: OUT }, 0, 0);
    a.extend(first.handle(Event::BufferReleased { output: OUT }, 0, 0));
    let mut b = second.handle(Event::BufferReleased { output: OUT }, 0, 0);
    b.extend(second.handle(Event::GlobalRemoved { name: OUT }, 0, 0));
    assert_eq!(a, b);
    assert_eq!(first, second);
}
