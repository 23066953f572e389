use gnet::buffer::{BufferResult, ReliableBuffer, RETRY_WINDOW_MS};
use gnet::protocol::AckId;

#[test]
fn retry_after_window_same_id_and_payload() {
    let mut b: ReliableBuffer<Vec<u8>> = ReliableBuffer::new();
    b.add(vec![1, 2, 3]);
    let batch = b.process(1_000);
    assert_eq!(batch.len(), 1);
    let (id, payload) = batch.into_iter().next().unwrap();
    assert_eq!(id, AckId::new(0));
    b.settle(id, payload, BufferResult::Attempted, 1_000);
    assert!(b.process(1_000 + RETRY_WINDOW_MS - 1).is_empty());
    let again = b.process(1_000 + RETRY_WINDOW_MS);
    assert_eq!(again, vec![(AckId::new(0), vec![1, 2, 3])]);
    assert_eq!(RETRY_WINDOW_MS, 300);
}

#[test]
fn ack_twice_same_as_once() {
    let mut b: ReliableBuffer<u32> = ReliableBuffer::new();
    b.add(10);
    b.add(11);
    for (id, v) in b.process(0) {
        b.settle(id, v, BufferResult::Attempted, 0);
    }
    assert_eq!(b.sent_len(), 2);
    b.ack(&AckId::new(0));
    assert_eq!(b.sent_len(), 1);
    b.ack(&AckId::new(0));
    assert_eq!(b.sent_len(), 1);
    b.ack(&AckId::new(42));
    assert_eq!(b.sent_len(), 1);
    assert_eq!(b.process(500), vec![(AckId::new(1), 11)]);
}

#[test]
fn sent_and_not_sent_outcomes() {
    let mut b: ReliableBuffer<u8> = ReliableBuffer::new();
    b.add(1);
    b.add(2);
    let batch = b.process(0);
    assert_eq!(batch, vec![(AckId::new(0), 1), (AckId::new(1), 2)]);
    b.settle(AckId::new(0), 1, BufferResult::Sent, 0);
    b.settle(AckId::new(1), 2, BufferResult::NotSent, 0);
    assert_eq!(b.pending_len(), 1);
    assert_eq!(b.sent_len(), 0);
    assert_eq!(b.process(1), vec![(AckId::new(1), 2)]);
}

#[test]
fn nothing_goes_out_before_process() {
    let mut b: ReliableBuffer<u8> = ReliableBuffer::new();
    b.add(5);
    assert_eq!(b.pending_len(), 1);
    assert_eq!(b.sent_len(), 0);
}

// Sends N payloads over a link that drops some transmissions; the receiver
// acknowledges what it gets. Every payload arrives, and once acknowledged it
// is not sent again.
#[test]
fn lossy_link_delivers_everything() {
    let n: u32 = 12;
    let mut b: ReliableBuffer<u32> = ReliableBuffer::new();
    for i in 0..n {
        b.add(i * 100);
    }
    let mut received: Vec<u32> = Vec::new();
    let mut acked: Vec<AckId> = Vec::new();
    let mut attempts: u64 = 0;
    let mut now: u64 = 0;
    for _round in 0..50 {
        for (id, v) in b.process(now) {
            assert!(!acked.contains(&id), "acknowledged message sent again");
            attempts += 1;
            let dropped = (attempts * 7919) % 3 == 0;
            b.settle(id, v, BufferResult::Attempted, now);
            if !dropped {
                received.push(v);
                acked.push(id);
                b.ack(&id);
            }
        }
        now += RETRY_WINDOW_MS;
    }
    for i in 0..n {
        assert!(received.contains(&(i * 100)));
    }
    assert_eq!(b.sent_len(), 0);
    assert_eq!(b.pending_len(), 0);
    assert!(attempts > n as u64);
}
