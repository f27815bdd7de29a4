use swapchain::caps::Extent2D;
use swapchain::caps::SurfaceCapabilities;
use swapchain::error::map_driver_error;
use swapchain::error::AcquireError;
use swapchain::error::CreationError;
use swapchain::error::DriverError;
use swapchain::error::OutOfMemory;
use swapchain::surface::remaining_budget;
use swapchain::surface::validate_config;
use swapchain::surface::Fence;
use swapchain::surface::FenceWaitOutcome;
use swapchain::surface::NextImageOutcome;
use swapchain::surface::RawSurface;
use swapchain::surface::Semaphore;
use swapchain::surface::Suboptimal;
use swapchain::surface::Surface;
use swapchain::surface::SwapchainConfig;
use swapchain::surface::Swapchain;

const FORMAT_BGRA8: u32 = 44;

fn test_caps() -> SurfaceCapabilities {
    SurfaceCapabilities {
        min_image_count: 2,
        max_image_count: 3,
        current_extent: None,
        min_extent: Extent2D { width: 1, height: 1 },
        max_extent: Extent2D { width: 4096, height: 4096 },
        max_image_layers: 1,
        usage: 0x10,
        composite_alpha: 0x1,
    }
}

/// Stands in for the driver: configures the surface with `count` images.
fn configure(surface: &mut Surface, count: u32, first_view: u64) {
    let plan = surface.begin_reconfigure();
    // A real embedding destroys plan.fence_to_destroy and reuses
    // plan.old_swapchain here.
    let _ = plan;
    let config = SwapchainConfig {
        format: FORMAT_BGRA8,
        extent: Extent2D { width: 800, height: 600 },
        image_count: count,
        usage: 0x10,
    };
    assert_eq!(validate_config(&test_caps(), &config), Ok(()));
    let mut handles = Vec::new();
    for i in 0..count as u64 {
        handles.push(first_view + i);
    }
    surface.finish_reconfigure(
        7,
        1000,
        config.extent,
        config.format,
        handles,
        Fence { raw: 21 },
        Semaphore { raw: 22 },
    );
}

#[test]
fn configure_within_capability_range_shares_format() {
    let mut surface = Surface::new(RawSurface { handle: 1, instance: 2 });
    configure(&mut surface, 3, 100);
    let active = surface.swapchain.as_ref().unwrap();
    assert!(active.swapchain.image_count >= 2 && active.swapchain.image_count <= 3);
    assert_eq!(active.swapchain.extent, Extent2D { width: 800, height: 600 });
    assert_eq!(active.views.views.len(), 3);
    for view in &active.views.views {
        assert_eq!(view.format, FORMAT_BGRA8);
    }
}

#[test]
fn configure_rejects_count_outside_range() {
    let config = SwapchainConfig {
        format: FORMAT_BGRA8,
        extent: Extent2D { width: 800, height: 600 },
        image_count: 4,
        usage: 0x10,
    };
    assert_eq!(
        validate_config(&test_caps(), &config),
        Err(CreationError::UnsupportedImageCount)
    );
}

#[test]
fn configure_rejects_extent_outside_range() {
    let config = SwapchainConfig {
        format: FORMAT_BGRA8,
        extent: Extent2D { width: 5000, height: 600 },
        image_count: 2,
        usage: 0x10,
    };
    assert_eq!(
        validate_config(&test_caps(), &config),
        Err(CreationError::UnsupportedExtent)
    );
}

#[test]
fn configure_rejects_extent_other_than_fixed() {
    let mut caps = test_caps();
    caps.current_extent = Some(Extent2D { width: 1024, height: 768 });
    let config = SwapchainConfig {
        format: FORMAT_BGRA8,
        extent: Extent2D { width: 800, height: 600 },
        image_count: 2,
        usage: 0x10,
    };
    assert_eq!(validate_config(&caps, &config), Err(CreationError::UnsupportedExtent));
}

#[test]
fn successful_acquire_returns_valid_indexed_view() {
    let mut surface = Surface::new(RawSurface { handle: 1, instance: 2 });
    configure(&mut surface, 2, 100);
    let (request, retired) = surface.start_acquire(5_000_000);
    assert_eq!(request.swapchain, 1000);
    assert_eq!(request.timeout_ns, 5_000_000);
    assert_eq!(request.fence, Fence { raw: 21 });
    assert!(retired.is_empty());
    // Scripted driver: image 1 is ready, configuration still optimal.
    let (img, sub) = surface
        .complete_acquire(1, false, FenceWaitOutcome::Signaled)
        .unwrap();
    let active = surface.swapchain.as_ref().unwrap();
    assert!(img.index < active.swapchain.image_count);
    assert_eq!(img.view.raw, 101);
    assert_eq!(img.view.format, FORMAT_BGRA8);
    assert_eq!(sub, None);
    assert_eq!(active.views.holders, 1);
}

#[test]
fn suboptimal_flag_passed_through() {
    let mut surface = Surface::new(RawSurface { handle: 1, instance: 2 });
    configure(&mut surface, 2, 100);
    let _ = surface.start_acquire(0);
    let (_, sub) = surface
        .complete_acquire(0, true, FenceWaitOutcome::Signaled)
        .unwrap();
    assert_eq!(sub, Some(Suboptimal));
}

#[test]
fn poll_with_nothing_ready_is_not_ready() {
    let mut surface = Surface::new(RawSurface { handle: 1, instance: 2 });
    configure(&mut surface, 2, 100);
    let (request, _) = surface.start_acquire(0);
    // A zero budget means the driver request may not block at all.
    assert_eq!(request.timeout_ns, 0);
    assert_eq!(remaining_budget(request.timeout_ns, 0), 0);
    // Scripted driver: nothing ready within a zero timeout.
    let classified =
        Swapchain::classify_next_image(NextImageOutcome::Failed(DriverError::NotReady));
    assert_eq!(classified, Err(AcquireError::NotReady));
    // The surface stays usable for the next attempt.
    assert!(surface.swapchain.is_some());
}

#[test]
fn wait_budget_never_exceeds_timeout() {
    assert_eq!(remaining_budget(5_000_000, 1_000_000), 4_000_000);
    assert_eq!(remaining_budget(5_000_000, 9_000_000), 0);
    assert_eq!(remaining_budget(0, 123), 0);
    assert_eq!(remaining_budget(u64::MAX, 123), u64::MAX);
}

#[test]
fn surface_lost_leaves_configuration_as_is() {
    let mut surface = Surface::new(RawSurface { handle: 1, instance: 2 });
    configure(&mut surface, 2, 100);
    let _ = surface.start_acquire(1_000);
    let result = surface.complete_acquire(0, false, FenceWaitOutcome::Failed(
        DriverError::SurfaceLostKhr,
    ));
    assert_eq!(result, Err(AcquireError::SurfaceLost));
    let active = surface.swapchain.as_ref().unwrap();
    assert_eq!(active.swapchain.raw, 1000);
    assert_eq!(active.views.holders, 0);
    assert!(surface.stale_views.is_empty());
}

#[test]
fn driver_statuses_map_to_typed_outcomes() {
    assert_eq!(map_driver_error(DriverError::NotReady), AcquireError::NotReady);
    assert_eq!(map_driver_error(DriverError::Timeout), AcquireError::Timeout);
    assert_eq!(map_driver_error(DriverError::OutOfDateKhr), AcquireError::OutOfDate);
    assert_eq!(map_driver_error(DriverError::SurfaceLostKhr), AcquireError::SurfaceLost);
    assert_eq!(
        map_driver_error(DriverError::OutOfHostMemory),
        AcquireError::OutOfMemory(OutOfMemory::Host)
    );
    assert_eq!(
        map_driver_error(DriverError::OutOfDeviceMemory),
        AcquireError::OutOfMemory(OutOfMemory::Device)
    );
    assert_eq!(map_driver_error(DriverError::DeviceLost), AcquireError::DeviceLost);
    assert_eq!(map_driver_error(DriverError::Unrecognized(-13)), AcquireError::Unrecognized(-13));
}

#[test]
fn held_image_keeps_old_view_set_alive_across_reconfigure() {
    let mut surface = Surface::new(RawSurface { handle: 1, instance: 2 });
    configure(&mut surface, 2, 100);
    let _ = surface.start_acquire(1_000);
    let (img, _) = surface
        .complete_acquire(0, false, FenceWaitOutcome::Signaled)
        .unwrap();
    assert_eq!(img.view.raw, 100);

    // Reconfigure while the image is still held: the old set goes stale
    // with its holder intact.
    configure(&mut surface, 2, 200);
    assert_eq!(surface.stale_views.len(), 1);
    assert_eq!(surface.stale_views[0].views.holders, 1);
    assert_eq!(surface.stale_views[0].views.views[0].raw, 100);
    assert_eq!(surface.stale_views[0].semaphore, Semaphore { raw: 22 });

    // The next acquire sweeps nothing: the held reference is still live.
    let (_, retired) = surface.start_acquire(1_000);
    assert!(retired.is_empty());
    assert_eq!(surface.stale_views.len(), 1);
    assert_eq!(surface.stale_views[0].views.views[0].raw, 100);

    // Release the image; one more acquire reclaims the stale entry.
    assert!(surface.release_image(img));
    let (_, retired) = surface.start_acquire(1_000);
    assert_eq!(retired.len(), 1);
    assert_eq!(retired[0].views.views[0].raw, 100);
    assert_eq!(retired[0].views.views[1].raw, 101);
    assert!(surface.stale_views.is_empty());
}

#[test]
fn reconfigure_hands_back_fence_and_reuse_hint() {
    let mut surface = Surface::new(RawSurface { handle: 1, instance: 2 });
    let plan = surface.begin_reconfigure();
    assert_eq!(plan.fence_to_destroy, None);
    assert_eq!(plan.old_swapchain, None);
    configure(&mut surface, 2, 100);
    let plan = surface.begin_reconfigure();
    assert_eq!(plan.fence_to_destroy, Some(Fence { raw: 21 }));
    assert_eq!(plan.old_swapchain, Some(1000));
    assert!(surface.swapchain.is_none());
    assert_eq!(surface.stale_views.len(), 1);
    assert_eq!(surface.stale_views[0].views.holders, 0);
}

#[test]
fn release_of_unknown_image_changes_nothing() {
    let mut surface = Surface::new(RawSurface { handle: 1, instance: 2 });
    configure(&mut surface, 2, 100);
    let _ = surface.start_acquire(1_000);
    let (img, _) = surface
        .complete_acquire(0, false, FenceWaitOutcome::Signaled)
        .unwrap();
    let mut stray = img;
    stray.set_id = 777;
    assert!(!surface.release_image(stray));
    assert_eq!(surface.swapchain.as_ref().unwrap().views.holders, 1);
    // Releasing twice finds no holder the second time.
    assert!(surface.release_image(img));
    assert!(!surface.release_image(img));
}

#[test]
fn teardown_hands_everything_back() {
    let mut surface = Surface::new(RawSurface { handle: 9, instance: 2 });
    configure(&mut surface, 2, 100);
    let _ = surface.start_acquire(1_000);
    let (img, _) = surface
        .complete_acquire(0, false, FenceWaitOutcome::Signaled)
        .unwrap();
    let _ = img;
    configure(&mut surface, 2, 200);
    let plan = surface.destroy();
    assert_eq!(plan.surface, RawSurface { handle: 9, instance: 2 });
    // The still-held stale entry is handed back unconditionally.
    assert_eq!(plan.stale.len(), 1);
    assert_eq!(plan.stale[0].views.holders, 1);
    let active = plan.active.unwrap();
    assert_eq!(active.views.views[0].raw, 200);
}
