use render_deque::deque::{GpuWrite, PointRenderDeque, SyncPlan, UploadSource};
use render_deque::ring::{HostRing, MAX_LEN, STARTING_SLOTS};

/// Carries out a plan on a simulated GPU buffer.
fn apply(gpu: &mut Vec<u32>, plan: &SyncPlan<u32>, deque: &PointRenderDeque<u32>) {
    if let Some(cap) = plan.allocate {
        *gpu = vec![u32::MAX; cap];
    }
    let source: &[u32] = match &plan.source {
        UploadSource::Ring => deque.get_buffer().storage(),
        UploadSource::Copied(v) => v,
    };
    for w in &plan.writes {
        gpu[w.dst..w.dst + w.len].copy_from_slice(&source[w.src..w.src + w.len]);
    }
}

/// The elements the draw ranges cover, in draw order.
fn drawn(gpu: &[u32], deque: &PointRenderDeque<u32>) -> Vec<u32> {
    let mut out = Vec::new();
    for (start, count) in deque.bind().draw() {
        out.extend_from_slice(&gpu[start..start + count]);
    }
    out
}

fn contents(deque: &PointRenderDeque<u32>) -> Vec<u32> {
    let (a, b) = deque.get_buffer().as_slices();
    let mut out = a.to_vec();
    out.extend_from_slice(b);
    out
}

fn written(plan: &SyncPlan<u32>) -> usize {
    plan.writes.iter().map(|w| w.len).sum()
}

#[test]
fn draws_cover_queue_after_each_sync() {
    let mut d: PointRenderDeque<u32> = PointRenderDeque::with_capacity(4);
    let mut gpu = Vec::new();
    let mut next = 0u32;
    for round in 0..40usize {
        for _ in 0..(round * 7) % 11 {
            d.push_back(next);
            next += 1;
        }
        for _ in 0..(round * 5) % 9 {
            if d.front().is_some() {
                d.pop_front();
            }
        }
        let plan = d.buffer();
        apply(&mut gpu, &plan, &d);
        let ranges = d.bind().draw();
        let total: usize = ranges.iter().map(|r| r.1).sum();
        assert_eq!(total, d.len());
        assert_eq!(drawn(&gpu, &d), contents(&d));
    }
}

#[test]
fn capacity_grows_in_powers_of_two() {
    let mut d: PointRenderDeque<u32> = PointRenderDeque::new();
    let mut last = d.capacity();
    assert_eq!(last, 0);
    for k in 0..3000u32 {
        d.push_back(k);
        if k % 3 == 0 {
            d.pop_front();
        }
        if k % 100 == 0 {
            d.buffer();
            let cap = d.capacity();
            assert!(cap >= last);
            assert!(cap.is_power_of_two());
            last = cap;
        }
    }
}

#[test]
fn round_trip_leaves_nothing_to_draw() {
    let mut d: PointRenderDeque<u32> = PointRenderDeque::new();
    let mut gpu = Vec::new();
    for k in 0..10u32 {
        d.push_back(k);
    }
    let plan = d.buffer();
    apply(&mut gpu, &plan, &d);
    for k in 0..10u32 {
        assert_eq!(d.pop_front(), k);
    }
    let plan = d.buffer();
    apply(&mut gpu, &plan, &d);
    assert!(plan.writes.is_empty());
    assert_eq!(d.tail(), d.head());
    assert!(d.bind().draw().is_empty());
}

#[test]
fn pushes_beyond_the_cap_are_dropped() {
    let mut d: PointRenderDeque<u32> = PointRenderDeque::new();
    for k in 0..=1_000_000u32 {
        d.push_back(k);
    }
    assert_eq!(d.len(), MAX_LEN);
    assert_eq!(d.len(), 1_000_000);
    let c = contents(&d);
    assert_eq!(c[0], 0);
    assert_eq!(c[999_999], 999_999);
    assert!(!c.contains(&1_000_000));
}

#[test]
fn wrapped_range_draws_twice() {
    // A ring of 8 slots holds at most 7 elements: one slot stays free.
    let mut d: PointRenderDeque<u32> = PointRenderDeque::with_capacity(8);
    let mut gpu = Vec::new();
    for k in 0..7u32 {
        d.push_back(k);
    }
    let plan = d.buffer();
    apply(&mut gpu, &plan, &d);
    assert_eq!(d.capacity(), 8);
    for _ in 0..3 {
        d.pop_front();
    }
    for k in 100..103u32 {
        d.push_back(k);
    }
    let plan = d.buffer();
    apply(&mut gpu, &plan, &d);
    assert_eq!(plan.allocate, None);
    assert!(matches!(&plan.source, UploadSource::Copied(v) if v == &vec![100, 101, 102]));
    assert_eq!(
        plan.writes,
        vec![GpuWrite { dst: 7, src: 0, len: 1 }, GpuWrite { dst: 0, src: 1, len: 2 }]
    );
    assert_eq!(d.capacity(), 8);
    assert!(d.tail() > d.head());
    assert_eq!((d.tail(), d.head()), (3, 2));
    let ranges = d.bind().draw();
    assert_eq!(ranges, vec![(3, 5), (0, 2)]);
    assert_eq!(ranges.iter().map(|r| r.1).sum::<usize>(), 7);
    assert_eq!(drawn(&gpu, &d), vec![3, 4, 5, 6, 100, 101, 102]);
}

#[test]
fn growth_reuploads_everything() {
    let mut d: PointRenderDeque<u32> = PointRenderDeque::new();
    assert_eq!(d.capacity(), 0);
    for k in 0..1025u32 {
        d.push_back(k);
    }
    let plan = d.buffer();
    assert_eq!(plan.allocate, Some(2048));
    assert_eq!(d.capacity(), 2048);
    assert_eq!(written(&plan), 1025);
    assert!(matches!(plan.source, UploadSource::Ring));
    assert_eq!(plan.writes, vec![GpuWrite { dst: 0, src: 0, len: 1025 }]);
    assert_eq!((d.tail(), d.head()), (0, 1025));
}

#[test]
fn churn_before_sync_costs_nothing() {
    let mut d: PointRenderDeque<u32> = PointRenderDeque::new();
    let mut gpu = Vec::new();
    for k in 0..20u32 {
        d.push_back(k);
    }
    let plan = d.buffer();
    apply(&mut gpu, &plan, &d);
    let (tail, head) = (d.tail(), d.head());
    for k in 0..5u32 {
        d.push_back(100 + k);
    }
    for _ in 0..5 {
        d.pop_front();
    }
    // Twenty old elements remain ahead of the five new ones: only the pops
    // of old elements move the tail, and the new ones are uploaded.
    let plan = d.buffer();
    assert_eq!(written(&plan), 5);
    apply(&mut gpu, &plan, &d);
    assert_eq!((d.tail(), d.head()), (tail + 5, head + 5));

    let mut e: PointRenderDeque<u32> = PointRenderDeque::new();
    let plan = e.buffer();
    apply(&mut gpu, &plan, &e);
    let (tail, head) = (e.tail(), e.head());
    for k in 0..5u32 {
        e.push_back(k);
    }
    for k in 0..5u32 {
        assert_eq!(e.pop_front(), k);
    }
    let plan = e.buffer();
    assert!(plan.writes.is_empty());
    assert_eq!(plan.allocate, None);
    assert_eq!((e.tail(), e.head()), (tail, head));
}

#[test]
fn incremental_upload_wraps_at_buffer_end() {
    let mut d: PointRenderDeque<u32> = PointRenderDeque::with_capacity(8);
    let mut gpu = Vec::new();
    for k in 0..6u32 {
        d.push_back(k);
    }
    let plan = d.buffer();
    apply(&mut gpu, &plan, &d);
    for _ in 0..4 {
        d.pop_front();
    }
    for k in 10..14u32 {
        d.push_back(k);
    }
    let plan = d.buffer();
    assert!(matches!(&plan.source, UploadSource::Copied(v) if v == &vec![10, 11, 12, 13]));
    assert_eq!(
        plan.writes,
        vec![GpuWrite { dst: 6, src: 0, len: 2 }, GpuWrite { dst: 0, src: 2, len: 2 }]
    );
    apply(&mut gpu, &plan, &d);
    assert_eq!(drawn(&gpu, &d), vec![4, 5, 10, 11, 12, 13]);
}

#[test]
fn front_peeks_oldest() {
    let mut d: PointRenderDeque<u32> = PointRenderDeque::new();
    assert_eq!(d.front(), None);
    d.push_back(7);
    d.push_back(8);
    assert_eq!(d.front(), Some(&7));
    assert_eq!(d.pop_front(), 7);
    assert_eq!(d.front(), Some(&8));
}

#[test]
fn ring_doubles_when_one_slot_is_left() {
    let mut r: HostRing<u8> = HostRing::new();
    assert_eq!(r.slots(), STARTING_SLOTS);
    for k in 0..1023u32 {
        r.push_back((k % 256) as u8);
    }
    assert_eq!(r.slots(), 1024);
    r.push_back(1);
    assert_eq!(r.slots(), 2048);
    assert_eq!(r.len(), 1024);
    assert_eq!(r.front(), Some(&0));
}

#[test]
fn ring_slots_round_up() {
    let r: HostRing<u8> = HostRing::with_slots(5);
    assert_eq!(r.slots(), 8);
    let r: HostRing<u8> = HostRing::with_slots(0);
    assert_eq!(r.slots(), 1);
    let r: HostRing<u8> = HostRing::with_slots(usize::MAX);
    assert_eq!(r.slots(), 1 << 20);
}

#[test]
fn ring_of_one_slot_grows_on_first_push() {
    let mut r: HostRing<u8> = HostRing::with_slots(1);
    assert_eq!(r.slots(), 1);
    r.push_back(9);
    assert_eq!(r.slots(), 2);
    assert_eq!(r.pop_front(), 9);
    assert_eq!(r.len(), 0);
}

#[test]
fn ring_runs_split_at_wrap() {
    let mut r: HostRing<u8> = HostRing::with_slots(8);
    for k in 0..6u8 {
        r.push_back(k);
    }
    let (a, b) = r.as_slices();
    assert_eq!((a, b), (&[0u8, 1, 2, 3, 4, 5][..], &[][..]));
    for _ in 0..4 {
        r.pop_front();
    }
    for k in 6..10u8 {
        r.push_back(k);
    }
    let (a, b) = r.as_slices();
    assert_eq!(a, &[4u8, 5, 6, 7][..]);
    assert_eq!(b, &[8u8, 9][..]);
    assert_eq!(r.start(), 4);
}

#[test]
fn incremental_upload_reads_ring_in_place() {
    let mut d: PointRenderDeque<u32> = PointRenderDeque::with_capacity(16);
    let mut gpu = Vec::new();
    for k in 0..3u32 {
        d.push_back(k);
    }
    let plan = d.buffer();
    apply(&mut gpu, &plan, &d);
    d.push_back(3);
    d.push_back(4);
    d.pop_front();
    let plan = d.buffer();
    assert!(matches!(plan.source, UploadSource::Ring));
    assert_eq!(plan.writes, vec![GpuWrite { dst: 3, src: 3, len: 2 }]);
    apply(&mut gpu, &plan, &d);
    assert_eq!((d.tail(), d.head()), (1, 5));
    assert_eq!(drawn(&gpu, &d), vec![1, 2, 3, 4]);
}

#[test]
fn every_pop_is_counted_until_sync() {
    let mut d: PointRenderDeque<u32> = PointRenderDeque::new();
    d.push_back(1);
    assert_eq!(d.pop_front(), 1);
    assert_eq!((d.pending_pushed(), d.pending_popped()), (1, 1));
    let plan = d.buffer();
    assert_eq!((d.pending_pushed(), d.pending_popped()), (0, 0));
    assert_eq!(plan.allocate, Some(1024));
    assert!(plan.writes.is_empty());
    assert_eq!((d.tail(), d.head()), (0, 0));
}
