use speakturbo::buffer::LockFreeBuffer;

#[test]
fn new_buffer_is_empty_and_not_done() {
    let mut buf = LockFreeBuffer::new();
    assert_eq!(buf.len(), 0);
    assert!(!buf.is_done());
    assert_eq!(buf.pop(), None);
}

#[test]
fn fifo_order_then_empty_forever() {
    let mut buf = LockFreeBuffer::new();
    for s in [3i16, -1, 0, 17, -32768] {
        buf.push(s);
    }
    buf.set_done();
    assert_eq!(buf.pop(), Some(3));
    assert_eq!(buf.pop(), Some(-1));
    assert_eq!(buf.pop(), Some(0));
    assert_eq!(buf.pop(), Some(17));
    assert_eq!(buf.pop(), Some(-32768));
    assert_eq!(buf.pop(), None);
    assert_eq!(buf.pop(), None);
    assert_eq!(buf.pop(), None);
}

#[test]
fn len_tracks_pushes_and_pops() {
    let mut buf = LockFreeBuffer::new();
    buf.push(1);
    buf.push(2);
    assert_eq!(buf.len(), 2);
    buf.pop();
    assert_eq!(buf.len(), 1);
    buf.pop();
    assert_eq!(buf.len(), 0);
}

#[test]
fn done_flag_is_one_way() {
    let mut buf = LockFreeBuffer::new();
    assert!(!buf.is_done());
    buf.set_done();
    assert!(buf.is_done());
    buf.push(9);
    assert!(buf.is_done());
    buf.pop();
    assert!(buf.is_done());
    buf.set_done();
    assert!(buf.is_done());
}

#[test]
fn samples_pushed_before_done_still_delivered() {
    let mut buf = LockFreeBuffer::new();
    buf.push(11);
    buf.push(22);
    buf.set_done();
    assert_eq!(buf.pop(), Some(11));
    assert_eq!(buf.pop(), Some(22));
    assert_eq!(buf.pop(), None);
}
