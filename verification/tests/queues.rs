use komora::mpmc::Mpmc;
use komora::priority_queue::PriorityQueue;
use komora::segmented_priority_queue::SegmentedPriorityQueue;

#[test]
fn priority_queue_serves_highest_first() {
    let mut pq = PriorityQueue::new();
    pq.push(2, 2);
    pq.push(1, 1);
    pq.push(4, 4);
    pq.push(1, 1);
    assert_eq!(pq.pop(), Some(4));
    assert_eq!(pq.pop(), Some(2));
    assert_eq!(pq.pop(), Some(1));
    assert_eq!(pq.pop(), Some(1));
    assert_eq!(pq.pop(), None);
}

#[test]
fn priority_queue_pops_in_non_increasing_priority() {
    let mut pq = PriorityQueue::new();
    let mut seed: u64 = 0x9e3779b97f4a7c15;
    for item in 0..500u64 {
        seed = seed.wrapping_mul(6364136223846793005).wrapping_add(1442695040888963407);
        pq.push(item, (seed >> 33) % 17);
    }
    assert_eq!(pq.len(), 500);
    let mut seen = vec![false; 500];
    let mut last = u64::MAX;
    let mut priorities = Vec::new();
    // replay the priorities to compare with what is served
    let mut seed: u64 = 0x9e3779b97f4a7c15;
    for _ in 0..500u64 {
        seed = seed.wrapping_mul(6364136223846793005).wrapping_add(1442695040888963407);
        priorities.push((seed >> 33) % 17);
    }
    for _ in 0..500 {
        let item = pq.pop().unwrap();
        let priority = priorities[item as usize];
        assert!(priority <= last);
        last = priority;
        assert!(!seen[item as usize]);
        seen[item as usize] = true;
    }
    assert!(pq.is_empty());
    assert_eq!(pq.pop(), None);
}

#[test]
fn priority_queue_equal_priorities_leave_in_arrival_order() {
    let mut pq = PriorityQueue::new();
    pq.push("first", 7);
    pq.push("second", 7);
    pq.push("third", 7);
    assert_eq!(pq.pop(), Some("first"));
    assert_eq!(pq.pop(), Some("second"));
    assert_eq!(pq.pop(), Some("third"));
}

#[test]
fn priority_queue_extreme_priorities() {
    let mut pq = PriorityQueue::new();
    pq.push('a', u64::MIN);
    pq.push('b', u64::MAX);
    pq.push('c', 1);
    assert_eq!(pq.pop(), Some('b'));
    assert_eq!(pq.pop(), Some('c'));
    assert_eq!(pq.pop(), Some('a'));
}

#[test]
fn segmented_queue_rotates_when_read_side_is_empty() {
    let mut pq = SegmentedPriorityQueue::new();
    pq.push(2, 2);
    pq.push(1, 1);

    // the buffers are exchanged by the pop that finds the read side empty
    assert_eq!(pq.pop(), Some(2));

    // new pushes enter the write side
    pq.push(4, 4);
    pq.push(3, 3);

    // the last item of the read side comes before them
    assert_eq!(pq.pop(), Some(1));

    assert_eq!(pq.pop(), Some(4));
    assert_eq!(pq.pop(), Some(3));
    assert_eq!(pq.pop(), None);
}

#[test]
fn segmented_queue_higher_priority_before_any_pop() {
    let mut pq = SegmentedPriorityQueue::new();
    pq.push(1, 1);
    pq.push(2, 2);
    assert_eq!(pq.pop(), Some(2));
}

#[test]
fn segmented_queue_epoch_is_served_before_later_pushes() {
    let mut pq = SegmentedPriorityQueue::new();
    for item in 0..10u64 {
        pq.push(item, item);
    }
    assert_eq!(pq.pop(), Some(9));
    for served in (0..9u64).rev() {
        pq.push(1000 + served, u64::MAX);
        assert_eq!(pq.pop(), Some(served));
    }
    for _ in 0..9 {
        let later = pq.pop().unwrap();
        assert!(later >= 1000);
    }
    assert!(pq.is_empty());
}

#[test]
fn segmented_queue_delivers_every_item_once() {
    const N_WRITES_PER_WRITER: u64 = 1_000;
    const N_WRITERS: u64 = 10;
    const N_WRITES: u64 = N_WRITERS * N_WRITES_PER_WRITER;

    let mut q = SegmentedPriorityQueue::new();
    let mut delivered = vec![0u32; N_WRITES as usize];
    let mut read: u64 = 0;

    for j in 0..N_WRITES_PER_WRITER {
        for i in 0..N_WRITERS {
            q.push(i * N_WRITES_PER_WRITER + j, i);
        }
        if j % 3 == 0 {
            for _ in 0..7 {
                if let Some(item) = q.pop() {
                    delivered[item as usize] += 1;
                    read += 1;
                }
            }
        }
    }
    while let Some(item) = q.pop() {
        delivered[item as usize] += 1;
        read += 1;
    }

    assert_eq!(read, N_WRITES);
    assert!(delivered.iter().all(|&n| n == 1));
    assert!(q.is_empty());
}

#[test]
fn fifo_queue_keeps_arrival_order() {
    let mut q = Mpmc::new();
    assert_eq!(q.recv(), None);
    q.send(3);
    q.send(1);
    q.send(2);
    assert_eq!(q.len(), 3);
    assert_eq!(q.recv(), Some(3));
    q.send(9);
    assert_eq!(q.recv(), Some(1));
    assert_eq!(q.recv(), Some(2));
    assert_eq!(q.recv(), Some(9));
    assert_eq!(q.recv(), None);
}

#[test]
fn default_queues_are_empty() {
    let mut fifo: Mpmc<u8> = Mpmc::default();
    assert_eq!(fifo.recv(), None);
    let mut segmented: SegmentedPriorityQueue<u8> = SegmentedPriorityQueue::default();
    assert!(segmented.is_empty());
    assert_eq!(segmented.pop(), None);
}
