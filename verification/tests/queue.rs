use stream_db::PriorityQueue;

#[test]
fn new_queue_is_empty() {
    let mut queue: PriorityQueue<&str> = PriorityQueue::new();
    assert!(queue.is_empty());
    assert_eq!(queue.len(), 0);
    assert_eq!(queue.peek(), None);
    assert_eq!(queue.pop(), None);
}

#[test]
fn pop_takes_the_highest_priority_first() {
    let mut queue = PriorityQueue::new();
    queue.push(5, "five");
    queue.push(9, "nine");
    queue.push(1, "one");
    queue.push(7, "seven");
    assert_eq!(queue.len(), 4);
    assert_eq!(queue.peek(), Some((9, &"nine")));
    assert_eq!(queue.pop(), Some((9, "nine")));
    assert_eq!(queue.pop(), Some((7, "seven")));
    assert_eq!(queue.pop(), Some((5, "five")));
    assert_eq!(queue.pop(), Some((1, "one")));
    assert_eq!(queue.pop(), None);
    assert!(queue.is_empty());
}

#[test]
fn equal_priorities_leave_in_order_of_arrival() {
    let mut queue = PriorityQueue::new();
    queue.push(3, "first");
    queue.push(3, "second");
    queue.push(8, "top");
    queue.push(3, "third");
    assert_eq!(queue.pop(), Some((8, "top")));
    assert_eq!(queue.pop(), Some((3, "first")));
    assert_eq!(queue.pop(), Some((3, "second")));
    assert_eq!(queue.pop(), Some((3, "third")));
}

#[test]
fn peek_leaves_the_queue_alone() {
    let mut queue = PriorityQueue::new();
    queue.push(u64::MAX, 1u8);
    queue.push(0, 2u8);
    assert_eq!(queue.peek(), Some((u64::MAX, &1)));
    assert_eq!(queue.peek(), Some((u64::MAX, &1)));
    assert_eq!(queue.len(), 2);
}

#[test]
fn pushes_and_pops_can_alternate() {
    let mut queue = PriorityQueue::new();
    queue.push(2, 'b');
    queue.push(4, 'd');
    assert_eq!(queue.pop(), Some((4, 'd')));
    queue.push(3, 'c');
    queue.push(1, 'a');
    assert_eq!(queue.pop(), Some((3, 'c')));
    assert_eq!(queue.pop(), Some((2, 'b')));
    assert_eq!(queue.pop(), Some((1, 'a')));
    assert_eq!(queue.pop(), None);
}
