use rusted_os::addr::PhysPageNum;
use rusted_os::frame::FrameAllocator;
use rusted_os::pid::{pid_alloc, RecycleAllocator};

#[test]
fn frame_alloc_hands_out_fresh_frames_in_order() {
    let mut fa = FrameAllocator::new(100, 104);
    assert_eq!(fa.allocate(), Some(PhysPageNum(100)));
    assert_eq!(fa.allocate(), Some(PhysPageNum(101)));
    assert_eq!(fa.allocate(), Some(PhysPageNum(102)));
    assert_eq!(fa.allocate(), Some(PhysPageNum(103)));
    assert_eq!(fa.allocate(), None);
}

#[test]
fn frame_alloc_reuses_lifo() {
    let mut fa = FrameAllocator::new(10, 20);
    let a = fa.allocate().unwrap();
    let b = fa.allocate().unwrap();
    fa.dealloc(a);
    fa.dealloc(b);
    // LIFO: the most recently freed frame comes back first
    assert_eq!(fa.allocate(), Some(b));
    assert_eq!(fa.allocate(), Some(a));
}

#[test]
fn frame_alloc_then_dealloc_restores_free_pool() {
    // alloc followed by dealloc of the same frame: churn leaks nothing
    let mut fa = FrameAllocator::new(10, 13);
    let p = fa.allocate().unwrap();
    fa.dealloc(p);
    // all three frames are still obtainable
    let x = fa.allocate().unwrap();
    let y = fa.allocate().unwrap();
    let z = fa.allocate().unwrap();
    assert_eq!(fa.allocate(), None);
    let mut got = vec![x.0, y.0, z.0];
    got.sort();
    assert_eq!(got, vec![10, 11, 12]);
}

#[test]
fn frame_double_free_is_detected() {
    let mut fa = FrameAllocator::new(10, 12);
    let p = fa.allocate().unwrap();
    assert!(fa.checked_dealloc(p));
    // the second free of the same frame is refused
    assert!(!fa.checked_dealloc(p));
    // a frame that was never handed out is refused too
    assert!(!fa.checked_dealloc(PhysPageNum(11)));
    assert!(!fa.checked_dealloc(PhysPageNum(999)));
}

#[test]
fn pid_alloc_counts_up_and_recycles_lifo() {
    let mut pa = RecycleAllocator::new();
    assert_eq!(pa.allocate(), 0);
    assert_eq!(pa.allocate(), 1);
    assert_eq!(pa.allocate(), 2);
    pa.dealloc(1);
    pa.dealloc(0);
    assert_eq!(pa.allocate(), 0);
    assert_eq!(pa.allocate(), 1);
    assert_eq!(pa.allocate(), 3);
}

#[test]
fn pid_liveness_tracks_alloc_and_dealloc() {
    let mut pa = RecycleAllocator::new();
    let h = pid_alloc(&mut pa);
    let pid = h.0;
    assert!(pa.is_live(pid));
    h.release(&mut pa);
    assert!(!pa.is_live(pid));
    assert!(!pa.is_live(77));
}
