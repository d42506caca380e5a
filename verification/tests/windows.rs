use swamp_render::window::{
    choose_surface_format, preferred_surface_format, PhysicalSize, SurfaceConfiguration,
    WgpuWindow, FRAME_LATENCY,
};
use wgpu::TextureFormat::{
    Bgra8Unorm, Bgra8UnormSrgb, Rgb10a2Unorm, Rgba16Float, Rgba8Unorm, Rgba8UnormSrgb,
};

#[test]
fn first_srgb_format_is_taken() {
    assert_eq!(choose_surface_format(&vec![false, true, true]), 1);
    assert_eq!(choose_surface_format(&vec![true, false]), 0);
    assert_eq!(choose_surface_format(&vec![false, false, false, true]), 3);
    assert_eq!(choose_surface_format(&vec![true]), 0);
}

#[test]
fn first_format_is_taken_where_none_is_srgb() {
    assert_eq!(choose_surface_format(&vec![false]), 0);
    assert_eq!(choose_surface_format(&vec![false, false, false]), 0);
}

#[test]
fn srgb_formats_are_preferred() {
    assert_eq!(preferred_surface_format(&vec![Bgra8Unorm, Bgra8UnormSrgb, Rgba8UnormSrgb]), 1);
    assert_eq!(preferred_surface_format(&vec![Rgba8UnormSrgb, Bgra8UnormSrgb]), 0);
    assert_eq!(preferred_surface_format(&vec![Rgba16Float, Rgb10a2Unorm, Bgra8Unorm]), 0);
    assert_eq!(preferred_surface_format(&vec![Rgba16Float, Bgra8Unorm, Rgba8UnormSrgb]), 2);
    assert_eq!(preferred_surface_format(&vec![Bgra8Unorm]), 0);
}

#[test]
fn window_with_a_format_takes_the_window_size() {
    let window = WgpuWindow::with_format(PhysicalSize::new(800, 600), 2);
    assert_eq!(
        *window.surface_config(),
        SurfaceConfiguration {
            format: 2,
            width: 800,
            height: 600,
            desired_maximum_frame_latency: 2,
        }
    );
    assert_eq!(FRAME_LATENCY, 2);
}

#[test]
fn new_window_takes_the_preferred_format() {
    let window =
        WgpuWindow::new(PhysicalSize::new(640, 480), &vec![Bgra8Unorm, Rgba8Unorm, Bgra8UnormSrgb]);
    assert_eq!(
        *window.surface_config(),
        SurfaceConfiguration {
            format: 2,
            width: 640,
            height: 480,
            desired_maximum_frame_latency: 2,
        }
    );
}

#[test]
fn new_window_may_have_no_pixels() {
    let window = WgpuWindow::new(PhysicalSize::new(0, 0), &vec![Bgra8Unorm]);
    assert_eq!(window.surface_config().width, 0);
    assert_eq!(window.surface_config().height, 0);
    assert_eq!(window.surface_config().format, 0);
}

#[test]
fn resize_takes_over_a_size_with_pixels() {
    let mut window = WgpuWindow::with_format(PhysicalSize::new(800, 600), 0);
    assert!(window.resize(PhysicalSize::new(1024, 1)));
    assert_eq!(
        *window.surface_config(),
        SurfaceConfiguration {
            format: 0,
            width: 1024,
            height: 1,
            desired_maximum_frame_latency: 2,
        }
    );
    assert!(window.resize(PhysicalSize::new(u32::MAX, u32::MAX)));
    assert_eq!(window.surface_config().width, u32::MAX);
    assert_eq!(window.surface_config().height, u32::MAX);
}

#[test]
fn resize_passes_over_a_size_without_pixels() {
    let mut window = WgpuWindow::with_format(PhysicalSize::new(800, 600), 1);
    assert!(!window.resize(PhysicalSize::new(0, 600)));
    assert!(!window.resize(PhysicalSize::new(800, 0)));
    assert!(!window.resize(PhysicalSize::new(0, 0)));
    assert_eq!(window.surface_config().width, 800);
    assert_eq!(window.surface_config().height, 600);
    assert_eq!(window.surface_config().format, 1);
}
