use morpheus_serial::fanout::FeedbackFanout;
use morpheus_serial::queue::CommandQueue;

#[test]
fn both_early_subscribers_receive_the_frame() {
    let mut chan = FeedbackFanout::new(4);
    let mut a = chan.subscribe();
    let mut b = chan.subscribe();
    chan.publish(vec![0x01, 0x02]);
    assert_eq!(chan.recv(&mut a), Some(vec![0x01, 0x02]));
    assert_eq!(chan.recv(&mut b), Some(vec![0x01, 0x02]));
}

#[test]
fn late_subscriber_misses_earlier_frames() {
    let mut chan = FeedbackFanout::new(4);
    chan.publish(vec![0x01]);
    let mut late = chan.subscribe();
    assert_eq!(chan.recv(&mut late), None);
    chan.publish(vec![0x02]);
    assert_eq!(chan.recv(&mut late), Some(vec![0x02]));
    assert_eq!(chan.recv(&mut late), None);
}

#[test]
fn subscribers_have_independent_cursors() {
    let mut chan = FeedbackFanout::new(4);
    let mut a = chan.subscribe();
    let mut b = chan.subscribe();
    chan.publish(vec![0x01]);
    chan.publish(vec![0x02]);
    assert_eq!(chan.recv(&mut a), Some(vec![0x01]));
    assert_eq!(chan.recv(&mut a), Some(vec![0x02]));
    assert_eq!(chan.recv(&mut a), None);
    assert_eq!(chan.recv(&mut b), Some(vec![0x01]));
    assert_eq!(chan.recv(&mut b), Some(vec![0x02]));
}

#[test]
fn lagging_subscriber_skips_the_oldest_frames() {
    let mut chan = FeedbackFanout::new(2);
    let mut slow = chan.subscribe();
    chan.publish(vec![0x01]);
    chan.publish(vec![0x02]);
    chan.publish(vec![0x03]);
    // only the last two frames are still held, the oldest was skipped
    assert_eq!(chan.recv(&mut slow), Some(vec![0x02]));
    assert_eq!(chan.recv(&mut slow), Some(vec![0x03]));
    assert_eq!(chan.recv(&mut slow), None);
}

#[test]
fn queue_delivers_in_fifo_order() {
    let mut q = CommandQueue::new(10);
    assert!(q.try_enqueue(vec![0x01]).is_ok());
    assert!(q.try_enqueue(vec![0x02]).is_ok());
    assert!(q.try_enqueue(vec![0x03]).is_ok());
    assert_eq!(q.dequeue(), Some(vec![0x01]));
    assert_eq!(q.dequeue(), Some(vec![0x02]));
    assert_eq!(q.dequeue(), Some(vec![0x03]));
    assert_eq!(q.dequeue(), None);
}

#[test]
fn full_queue_hands_the_frame_back() {
    let mut q = CommandQueue::new(2);
    assert!(q.try_enqueue(vec![0x01]).is_ok());
    assert!(q.try_enqueue(vec![0x02]).is_ok());
    // the producer must wait: the frame comes back untouched, nothing is lost
    assert_eq!(q.try_enqueue(vec![0x03]), Err(vec![0x03]));
    assert_eq!(q.len(), 2);
    assert_eq!(q.dequeue(), Some(vec![0x01]));
    assert!(q.try_enqueue(vec![0x03]).is_ok());
    assert_eq!(q.dequeue(), Some(vec![0x02]));
    assert_eq!(q.dequeue(), Some(vec![0x03]));
}
