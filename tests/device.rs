use kavi::device::{find_memory_type_index, find_queue_family, first_missing_extension, mapped_range, supports_presentation};
use kavi::swapchain::{
    acquire_outcome, find_surface_format, image_count, next_semaphore, present_outcome, AcquireResult, SurfaceFormat,
    SwapchainAcquireImageErr, TimelineCounter,
};

const DEVICE_LOCAL: u32 = 0x1;
const HOST_VISIBLE: u32 = 0x2;
const HOST_COHERENT: u32 = 0x4;

#[test]
fn memory_type_must_be_allowed_and_have_flags() {
    let types = vec![DEVICE_LOCAL, HOST_VISIBLE, HOST_VISIBLE | HOST_COHERENT, DEVICE_LOCAL | HOST_VISIBLE];
    assert_eq!(find_memory_type_index(0b1111, &types, HOST_VISIBLE | HOST_COHERENT), Some(2));
    assert_eq!(find_memory_type_index(0b1010, &types, HOST_VISIBLE), Some(1));
    assert_eq!(find_memory_type_index(0b0001, &types, HOST_VISIBLE), None);
    assert_eq!(find_memory_type_index(0b1000, &types, DEVICE_LOCAL), Some(3));
}

#[test]
fn first_graphics_queue_family() {
    const GRAPHICS: u32 = 0x1;
    const COMPUTE: u32 = 0x2;
    assert_eq!(find_queue_family(&vec![COMPUTE, GRAPHICS | COMPUTE, GRAPHICS], GRAPHICS), Some(1));
    assert_eq!(find_queue_family(&vec![COMPUTE], GRAPHICS), None);
    assert!(supports_presentation(&vec![true, false], &vec![false, false]) == false);
    assert!(supports_presentation(&vec![true, true], &vec![false, true]));
}

#[test]
fn missing_device_extension() {
    let required = vec![b"VK_KHR_swapchain".to_vec(), b"VK_KHR_external_memory".to_vec()];
    let supported = vec![b"VK_KHR_swapchain".to_vec()];
    assert_eq!(first_missing_extension(&required, &supported), Some(1));
    let supported = vec![b"VK_KHR_external_memory".to_vec(), b"VK_KHR_swapchain".to_vec()];
    assert_eq!(first_missing_extension(&required, &supported), None);
}

#[test]
fn mapping_stays_inside_buffer() {
    assert_eq!(mapped_range(2, 3, 16, 80), Some((32, 48)));
    assert_eq!(mapped_range(2, 4, 16, 80), None);
    assert_eq!(mapped_range(u64::MAX, 2, 1, u64::MAX), None);
    assert_eq!(mapped_range(0, 10000, 16, 160000), Some((0, 160000)));
}

#[test]
fn surface_format_and_image_count() {
    let bgra = SurfaceFormat { format: 44, color_space: 0 };
    let other = SurfaceFormat { format: 50, color_space: 0 };
    assert_eq!(find_surface_format(&vec![other, bgra], bgra), Some(bgra));
    assert_eq!(find_surface_format(&vec![other], bgra), None);
    assert_eq!(image_count(2, 0), 3);
    assert_eq!(image_count(2, 2), 2);
    assert_eq!(image_count(2, 8), 3);
    assert_eq!(image_count(u32::MAX, 0), u32::MAX);
}

#[test]
fn acquire_and_present_outcomes() {
    assert_eq!(acquire_outcome(AcquireResult::Acquired { index: 2, suboptimal: false }), Ok(2));
    assert_eq!(
        acquire_outcome(AcquireResult::Acquired { index: 2, suboptimal: true }),
        Err(SwapchainAcquireImageErr::RecreateSwapchain)
    );
    assert_eq!(acquire_outcome(AcquireResult::OutOfDate), Err(SwapchainAcquireImageErr::RecreateSwapchain));
    const OUT_OF_DATE: i32 = -1000001004;
    assert_eq!(present_outcome(Err(OUT_OF_DATE), OUT_OF_DATE), Ok(()));
    assert_eq!(present_outcome(Err(-4), OUT_OF_DATE), Err(-4));
    assert_eq!(present_outcome(Ok(()), OUT_OF_DATE), Ok(()));
}

#[test]
fn semaphores_and_timeline_values_advance() {
    assert_eq!(next_semaphore(0, 3), 1);
    assert_eq!(next_semaphore(2, 3), 0);
    let mut counter = TimelineCounter::new();
    assert_eq!(counter.advance(), Some(1));
    assert_eq!(counter.advance(), Some(2));
}
