use apr::queue::{BoxedQueue, Queue, TypedQueue};
use apr::{Pool, Status};

#[test]
fn test_queue_basic() {
    let pool = Pool::new();
    let mut queue: Queue<i32> = Queue::new(10, &pool).unwrap();
    assert!(queue.is_empty());
    assert_eq!(queue.size(), 0);
    queue.push(42).unwrap();
    queue.push(84).unwrap();
    assert_eq!(queue.size(), 2);
    assert!(!queue.is_empty());
    let out1 = queue.pop().unwrap();
    let out2 = queue.pop().unwrap();
    assert_eq!(out1, 42);
    assert_eq!(out2, 84);
    assert!(queue.is_empty());
}

#[test]
fn test_typed_queue() {
    let pool = Pool::new();
    let mut queue = TypedQueue::<i32>::new(10, &pool).unwrap();
    let val1 = 42;
    let val2 = 84;
    queue.push_ref(&val1).unwrap();
    queue.push_ref(&val2).unwrap();
    assert_eq!(queue.size(), 2);
    let out1 = queue.pop_ref().unwrap();
    let out2 = queue.pop_ref().unwrap();
    assert_eq!(*out1, 42);
    assert_eq!(*out2, 84);
}

#[test]
fn test_boxed_queue() {
    let pool = Pool::new();
    let mut queue = BoxedQueue::new(10, &pool).unwrap();
    assert!(queue.is_empty());
    queue.push(String::from("hello")).unwrap();
    queue.push(String::from("world")).unwrap();
    assert_eq!(queue.size(), 2);
    let s1 = queue.pop().unwrap();
    let s2 = queue.pop().unwrap();
    assert_eq!(s1, "hello");
    assert_eq!(s2, "world");
    assert!(queue.is_empty());
}

#[test]
fn test_queue_try_operations() {
    let pool = Pool::new();
    let mut queue = BoxedQueue::<i32>::new(1, &pool).unwrap();
    assert!(queue.try_pop().is_err());
    queue.try_push(42).unwrap();
    assert!(queue.try_push(84).is_err());
    let val = queue.try_pop().unwrap();
    assert_eq!(val, 42);
}

#[test]
fn queue_terminate_answers_eof() {
    let pool = Pool::new();
    let mut queue = BoxedQueue::<i32>::new(4, &pool).unwrap();
    queue.push(1).unwrap();
    queue.terminate().unwrap();
    assert_eq!(queue.pop().unwrap_err().status(), Status::Eof);
    assert_eq!(queue.try_push(2).unwrap_err().status(), Status::Eof);
    assert_eq!(queue.size(), 1);
}

#[test]
fn queue_full_try_push_is_try_again() {
    let pool = Pool::new();
    let mut queue = BoxedQueue::<i32>::new(0, &pool).unwrap();
    assert_eq!(queue.try_push(1).unwrap_err().status(), Status::General);
    queue.interrupt_all().unwrap();
    assert!(queue.is_empty());
}

#[test]
fn test_boxed_queue_debug_string() {
    let pool = Pool::new();
    let mut q: BoxedQueue<i32> = BoxedQueue::new(4, &pool).unwrap();
    assert_eq!(q.to_debug_string(), "BoxedQueue { size: 0 }");
    q.push(7).unwrap();
    q.push(8).unwrap();
    assert_eq!(q.to_debug_string(), "BoxedQueue { size: 2 }");
}
