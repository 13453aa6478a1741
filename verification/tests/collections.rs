use xyio::collections::PipelineVec;
use xyio::queue::Queue;

#[test]
fn new() {
    let vec = PipelineVec::new(10);
    assert_eq!(0, vec.cur);
    assert_eq!(0, vec.end);

    assert_eq!(10, vec.len());
}

#[test]
fn push() {
    let mut vec = PipelineVec::new(10);
    vec.push(vec![]);

    assert_eq!(0, vec.cur);
    assert_eq!(1, vec.end);
}

#[test]
fn pipeline_keeps_the_order_of_pushes() {
    let mut vec = PipelineVec::new(3);
    vec.push(vec![1]);
    vec.push(vec![2, 2]);
    vec.push(vec![3]);
    assert_eq!(3, vec.end);
    assert_eq!(3, vec.len());
    assert_eq!(vec![vec![1u8], vec![2, 2], vec![3]], vec.buf[vec.cur..vec.end]);
}

#[test]
fn pipeline_of_no_slots() {
    assert_eq!(0, PipelineVec::new(0).len());
}

#[test]
fn queue_is_first_in_first_out() {
    let mut queue: Queue<u8> = Queue::new();
    assert_eq!(0, queue.len());
    assert_eq!(None, queue.pop_front());
    queue.push(7);
    queue.push(8);
    assert_eq!(2, queue.len());
    assert_eq!(Some(7), queue.pop_front());
    queue.push(9);
    assert_eq!(Some(8), queue.pop_front());
    assert_eq!(Some(9), queue.pop_front());
    assert_eq!(None, queue.pop_front());
}
