use ddg_mesh::queue::MinQueue;

#[test]
fn queue_hands_out_smallest_key_first() {
    let mut q = MinQueue::new();
    assert!(q.is_empty());
    assert_eq!(q.pop(), None);
    q.push(5, 50);
    q.push(1, 10);
    q.push(3, 30);
    q.push(4, 40);
    q.push(2, 20);
    assert_eq!(q.len(), 5);
    assert!(!q.is_empty());
    assert_eq!(q.pop(), Some((1, 10)));
    assert_eq!(q.pop(), Some((2, 20)));
    assert_eq!(q.pop(), Some((3, 30)));
    q.push(0, 7);
    assert_eq!(q.pop(), Some((0, 7)));
    assert_eq!(q.pop(), Some((4, 40)));
    assert_eq!(q.pop(), Some((5, 50)));
    assert_eq!(q.pop(), None);
    assert_eq!(q.len(), 0);
}

#[test]
fn queue_keeps_entries_with_equal_keys() {
    let mut q = MinQueue::new();
    q.push(7, 1);
    q.push(7, 2);
    q.push(7, 1);
    let mut out = vec![q.pop().unwrap(), q.pop().unwrap(), q.pop().unwrap()];
    out.sort();
    assert_eq!(out, vec![(7, 1), (7, 1), (7, 2)]);
    assert_eq!(q.pop(), None);
}

#[test]
fn queue_sorts_many_keys() {
    let mut q = MinQueue::new();
    let mut x: u64 = 12345;
    let mut keys = Vec::new();
    for i in 0..200usize {
        x = x.wrapping_mul(6364136223846793005).wrapping_add(1442695040888963407);
        let k = x >> 40;
        keys.push(k);
        q.push(k, i);
    }
    keys.sort();
    for k in keys {
        assert_eq!(q.pop().unwrap().0, k);
    }
    assert!(q.is_empty());
}
