use kavi::frames::{FrameScheduler, FRAMES_IN_FLIGHT};

fn scheduler(images: usize) -> FrameScheduler<&'static str, u64> {
    let fbs: Vec<&'static str> = ["fb0", "fb1", "fb2", "fb3"][..images].to_vec();
    let cbs: Vec<u64> = (0..images as u64).map(|i| 100 + i).collect();
    let fences: Vec<u64> = (0..FRAMES_IN_FLIGHT as u64).map(|i| 7 + i).collect();
    FrameScheduler::new(fbs, cbs, fences)
}

#[test]
fn second_begin_waits_on_first_frames_fence() {
    // a fence the GPU signals only when told to
    let mut signaled = vec![false; 16];
    let mut s = scheduler(3);
    let mut log: Vec<String> = Vec::new();

    // first begin_frame
    let fence = s.slot_fence();
    signaled[fence as usize] = true; // the fence starts signaled
    assert!(signaled[fence as usize]);
    assert_eq!(s.claim_image(1), None);
    signaled[fence as usize] = false; // submitted work not finished yet
    log.push("first frame begun".to_string());

    // second begin_frame, no draw_frame in between: same slot fence
    let second = s.slot_fence();
    assert_eq!(second, fence);
    assert!(!signaled[second as usize]); // so it blocks here
    log.push("second frame waits".to_string());
    signaled[fence as usize] = true; // the delayed signal arrives
    log.push("fence signaled".to_string());
    assert!(signaled[second as usize]);
    // handed the same image, it also waits on the fence recorded for it
    assert_eq!(s.claim_image(1), Some(fence));
    log.push("second frame begun".to_string());
    assert_eq!(log, vec!["first frame begun", "second frame waits", "fence signaled", "second frame begun"]);
}

#[test]
fn submit_uses_slot_fence_and_moves_on() {
    let mut s = scheduler(2);
    assert_eq!(s.submit_fence(), 7);
    assert_eq!(s.slot_fence(), 7);
}

#[test]
fn resize_keeps_command_buffers_and_fences() {
    let mut s = scheduler(3);
    s.claim_image(0);
    s.claim_image(2);
    s.recreate(vec!["new0", "new1", "new2"]);
    let frames = s.frames();
    assert_eq!(frames.len(), 3);
    let fbs: Vec<&str> = frames.iter().map(|f| f.fb).collect();
    let cbs: Vec<u64> = frames.iter().map(|f| f.cb).collect();
    assert_eq!(fbs, vec!["new0", "new1", "new2"]);
    assert_eq!(cbs, vec![100, 101, 102]);
    assert_eq!(s.claim_image(2), Some(7));
    assert_eq!(s.claim_image(1), None);
}

#[test]
fn resize_to_fewer_images_keeps_the_first() {
    let mut s = scheduler(3);
    s.recreate(vec!["new0", "new1"]);
    let cbs: Vec<u64> = s.frames().iter().map(|f| f.cb).collect();
    assert_eq!(cbs, vec![100, 101]);
}

#[test]
fn frames_pair_framebuffers_with_command_buffers() {
    let s = FrameScheduler::new(vec!["a", "b", "c"], vec![1u64, 2], vec![9]);
    let pairs: Vec<(&str, u64)> = s.frames().iter().map(|f| (f.fb, f.cb)).collect();
    assert_eq!(pairs, vec![("a", 1), ("b", 2)]);
}
