use inplace::{Queue, Stack};

#[test]
fn stack_push_pop_lifo() {
    let mut buf = [0u32; 4];
    let mut stack = Stack::new(&mut buf);
    assert!(stack.empty());
    assert_eq!(stack.push(1), Ok(()));
    assert_eq!(stack.push(2), Ok(()));
    assert_eq!(stack.push(3), Ok(()));
    assert_eq!(stack.push(4), Err("stack is full"));
    assert_eq!(stack.pop(), Some(3));
    assert_eq!(stack.pop(), Some(2));
    assert_eq!(stack.pop(), Some(1));
    assert_eq!(stack.pop(), None);
    assert!(stack.empty());
}

#[test]
fn stack_new_with_prefix() {
    let mut buf = [7u8, 8, 9];
    {
        let mut stack = Stack::new_with(&mut buf, 2).unwrap();
        assert!(!stack.empty());
        assert_eq!(stack.push(1), Err("stack is full"));
        assert_eq!(stack.pop(), Some(8));
        assert_eq!(stack.push(5), Ok(()));
        assert_eq!(stack.pop(), Some(5));
        assert_eq!(stack.pop(), Some(7));
    }
    let mut buf2 = [7u8, 8, 9];
    assert!(Stack::new_with(&mut buf2, 3).is_err());
}

#[test]
fn stack_on_empty_buffer() {
    let mut buf: [i32; 0] = [];
    let mut stack = Stack::new(&mut buf);
    assert_eq!(stack.push(1), Err("stack is full"));
    assert_eq!(stack.pop(), None);
}

#[test]
fn queue_fifo_and_wraparound() {
    let mut buf = [0i32; 3];
    let mut queue = Queue::new(&mut buf);
    assert_eq!(queue.dequeue(), Err("Queue underflow"));
    assert_eq!(queue.enqueue(1), Ok(()));
    assert_eq!(queue.enqueue(2), Ok(()));
    assert_eq!(queue.enqueue(3), Err("Queue overflow"));
    assert_eq!(queue.dequeue(), Ok(1));
    assert_eq!(queue.enqueue(3), Ok(()));
    assert_eq!(queue.dequeue(), Ok(2));
    assert_eq!(queue.enqueue(4), Ok(()));
    assert_eq!(queue.dequeue(), Ok(3));
    assert_eq!(queue.dequeue(), Ok(4));
    assert_eq!(queue.dequeue(), Err("Queue underflow"));
}

#[test]
fn queue_new_with_wrapped_range() {
    let mut buf = [10i32, 20, 30, 40];
    {
        let mut queue = Queue::new_with(&mut buf, 3, 1).unwrap();
        assert_eq!(queue.dequeue(), Ok(40));
        assert_eq!(queue.dequeue(), Ok(10));
        assert_eq!(queue.dequeue(), Err("Queue underflow"));
    }
    let mut buf2 = [10i32, 20, 30, 40];
    assert!(Queue::new_with(&mut buf2, 4, 0).is_err());
    let mut buf3 = [10i32, 20, 30, 40];
    assert!(Queue::new_with(&mut buf3, 0, 4).is_err());
}

#[test]
fn queue_on_empty_buffer() {
    let mut buf: [u64; 0] = [];
    let mut queue = Queue::new(&mut buf);
    assert_eq!(queue.enqueue(1), Err("Queue overflow"));
    assert_eq!(queue.dequeue(), Err("Queue underflow"));
}
