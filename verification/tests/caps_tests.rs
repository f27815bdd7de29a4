use swapchain::caps::compatibility;
use swapchain::caps::interpret_capabilities;
use swapchain::caps::interpret_formats;
use swapchain::caps::interpret_present_modes;
use swapchain::caps::Extent2D;
use swapchain::caps::PresentMode;
use swapchain::caps::RawCapabilities;
use swapchain::caps::FORMAT_UNDEFINED;

fn raw_caps() -> RawCapabilities {
    RawCapabilities {
        min_image_count: 2,
        max_image_count: 3,
        current_extent: Extent2D { width: 800, height: 600 },
        min_image_extent: Extent2D { width: 1, height: 1 },
        max_image_extent: Extent2D { width: 4096, height: 4096 },
        max_image_array_layers: 1,
        supported_usage: 0x10,
        supported_composite_alpha: 0x1,
    }
}

#[test]
fn count_range_passthrough() {
    let caps = interpret_capabilities(&raw_caps());
    assert_eq!(caps.min_image_count, 2);
    assert_eq!(caps.max_image_count, 3);
    assert!(caps.min_image_count <= caps.max_image_count);
}

#[test]
fn zero_max_count_means_unbounded() {
    let mut raw = raw_caps();
    raw.max_image_count = 0;
    let caps = interpret_capabilities(&raw);
    assert_eq!(caps.max_image_count, u32::MAX);
    assert!(caps.min_image_count <= caps.max_image_count);
}

#[test]
fn fixed_extent_reported() {
    let caps = interpret_capabilities(&raw_caps());
    assert_eq!(caps.current_extent, Some(Extent2D { width: 800, height: 600 }));
}

#[test]
fn all_ones_extent_means_caller_chooses() {
    let mut raw = raw_caps();
    raw.current_extent = Extent2D { width: u32::MAX, height: u32::MAX };
    let caps = interpret_capabilities(&raw);
    assert_eq!(caps.current_extent, None);
}

#[test]
fn one_all_ones_dimension_means_caller_chooses() {
    let mut raw = raw_caps();
    raw.current_extent = Extent2D { width: u32::MAX, height: 600 };
    let caps = interpret_capabilities(&raw);
    assert_eq!(caps.current_extent, None);
}

#[test]
fn undefined_first_format_means_any() {
    let formats = vec![FORMAT_UNDEFINED];
    assert_eq!(interpret_formats(&formats), None);
}

#[test]
fn known_formats_kept_in_order() {
    let formats = vec![44, 50, FORMAT_UNDEFINED, 37];
    assert_eq!(interpret_formats(&formats), Some(vec![44, 50, 37]));
}

#[test]
fn present_modes_translated_completely_in_order() {
    let modes = vec![2, 1, 7, 0, 3];
    let translated = interpret_present_modes(&modes);
    assert_eq!(
        translated,
        vec![
            PresentMode::Fifo,
            PresentMode::Mailbox,
            PresentMode::Unrecognized(7),
            PresentMode::Immediate,
            PresentMode::Relaxed,
        ]
    );
    assert_eq!(translated.len(), modes.len());
}

#[test]
fn compatibility_combines_all_three() {
    let formats = vec![44, 50];
    let modes = vec![2];
    let (caps, fmts, pms) = compatibility(&raw_caps(), &formats, &modes);
    assert_eq!(caps.min_image_count, 2);
    assert_eq!(caps.max_image_count, 3);
    assert_eq!(caps.min_extent, Extent2D { width: 1, height: 1 });
    assert_eq!(caps.max_extent, Extent2D { width: 4096, height: 4096 });
    assert_eq!(caps.max_image_layers, 1);
    assert_eq!(caps.usage, 0x10);
    assert_eq!(caps.composite_alpha, 0x1);
    assert_eq!(fmts, Some(vec![44, 50]));
    assert_eq!(pms, vec![PresentMode::Fifo]);
}
