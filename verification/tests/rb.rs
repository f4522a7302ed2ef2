use gonk::rb::{AppendResult, Rb};

/// Samples travel through the queue as the bit patterns of 32-bit floats.
fn bits(x: f32) -> u32 {
    x.to_bits()
}

#[test]
fn slots_free() {
    let mut rb = Rb::new(2);

    assert!(matches!(rb.append(&[bits(1.0); 1]), AppendResult::Written));
    assert_eq!(rb.write(), 1);
    rb.pop().unwrap();
    assert_eq!(rb.read(), 1);
    assert!(matches!(rb.append(&[bits(1.0); 1]), AppendResult::Written));
    assert_eq!(rb.write(), 2);
    assert!(matches!(rb.append(&[bits(1.0); 1]), AppendResult::Written));
    assert_eq!(rb.write(), 0);

    assert!(rb.write() < rb.read());
    assert_eq!(rb.slots_free(), 1);
}

#[test]
fn heap_rb() {
    let mut rb = Rb::new(2);

    assert!(matches!(rb.append(&[bits(1.0); 2]), AppendResult::Written));
    assert_eq!(rb.buf, vec![bits(1.0), bits(1.0), bits(0.0)]);

    assert_eq!(rb.pop().unwrap(), bits(1.0));
    assert_eq!(rb.pop().unwrap(), bits(1.0));
    assert_eq!(rb.buf, vec![bits(1.0), bits(1.0), bits(0.0)]);

    assert!(matches!(rb.append(&[bits(2.0); 2]), AppendResult::Written));
    assert_eq!(rb.buf, vec![bits(2.0), bits(1.0), bits(2.0)]);

    assert_eq!(rb.pop().unwrap(), bits(2.0));
    assert_eq!(rb.pop().unwrap(), bits(2.0));
    assert_eq!(rb.buf, vec![bits(2.0), bits(1.0), bits(2.0)]);

    assert!(matches!(rb.append(&[bits(3.0); 2]), AppendResult::Written));

    assert_eq!(rb.pop().unwrap(), bits(3.0));
    assert_eq!(rb.pop().unwrap(), bits(3.0));
    assert_eq!(rb.buf, vec![bits(2.0), bits(3.0), bits(3.0)]);

    assert!(matches!(rb.append(&[bits(4.0); 2]), AppendResult::Written));
    assert_eq!(rb.buf, vec![bits(4.0), bits(4.0), bits(3.0)]);
}

/// Runs that straddle the end of the backing array come back in the order
/// they went in, across two wraparounds.
#[test]
fn wraparound_round_trip() {
    let mut rb = Rb::new(2);

    assert!(matches!(rb.append(&[bits(1.0), bits(2.0)]), AppendResult::Written));
    assert_eq!(f32::from_bits(rb.pop().unwrap()), 1.0);
    assert_eq!(f32::from_bits(rb.pop().unwrap()), 2.0);

    assert!(matches!(rb.append(&[bits(3.0), bits(4.0)]), AppendResult::Written));
    assert_eq!(f32::from_bits(rb.pop().unwrap()), 3.0);
    assert_eq!(f32::from_bits(rb.pop().unwrap()), 4.0);

    assert!(matches!(rb.append(&[bits(5.0), bits(6.0)]), AppendResult::Written));
    assert_eq!(f32::from_bits(rb.pop().unwrap()), 5.0);
    assert_eq!(f32::from_bits(rb.pop().unwrap()), 6.0);
}

/// A fresh queue, and a fully drained one, give nothing back and do not wait.
#[test]
fn empty_pop() {
    let mut rb = Rb::new(4);
    assert_eq!(rb.pop(), None);

    assert!(matches!(rb.append(&[bits(1.0)]), AppendResult::Written));
    assert!(rb.pop().is_some());
    assert_eq!(rb.pop(), None);
    assert_eq!(rb.pop(), None);
}

/// A run longer than the capacity can never fit, however much is drained: it
/// is refused outright and leaves the queue untouched, the recorded request
/// included.
#[test]
fn oversized_append() {
    let mut rb = Rb::new(2);
    assert!(matches!(rb.append(&[bits(1.0)]), AppendResult::Written));

    let before_write = rb.write();
    let before_read = rb.read();
    let before_requested = rb.slots_requested;
    let before_buf = rb.buf.clone();
    assert!(matches!(rb.append(&[bits(9.0); 3]), AppendResult::Oversize));
    assert!(matches!(rb.append(&[bits(9.0); 4]), AppendResult::Oversize));
    assert_eq!(rb.write(), before_write);
    assert_eq!(rb.read(), before_read);
    assert_eq!(rb.slots_requested, before_requested);
    assert_eq!(rb.buf, before_buf);

    assert_eq!(f32::from_bits(rb.pop().unwrap()), 1.0);
}

/// The queue holds at most `capacity` samples: filled to the brim it keeps
/// exactly the reserved slot, and a further sample has to wait.
#[test]
fn capacity_bound() {
    let mut rb = Rb::new(3);
    assert_eq!(rb.slots_free(), 4);

    assert!(matches!(rb.append(&[bits(1.0), bits(2.0), bits(3.0)]), AppendResult::Written));
    assert_eq!(rb.slots_free(), 1);
    for _ in 0..3 {
        rb.pop().unwrap();
    }
    // Refill across the end of the array, so that the write cursor sits
    // below the read cursor.
    assert!(matches!(rb.append(&[bits(4.0), bits(5.0), bits(6.0)]), AppendResult::Written));
    assert!(rb.write() < rb.read());
    assert_eq!(rb.slots_free(), 1);

    assert!(matches!(rb.append(&[bits(7.0)]), AppendResult::WouldBlock));
    assert_eq!(rb.slots_free(), 1);
}

/// A run that would land the write cursor exactly on the read cursor is not
/// admitted: the free-slot check never counts the reserved slot, so the run
/// waits instead and no unread sample is ever overwritten or stranded.
#[test]
fn boundary_append_waits() {
    let mut rb = Rb::new(2);
    assert!(matches!(rb.append(&[bits(1.0)]), AppendResult::Written));
    assert!(rb.write() >= rb.read());

    assert!(matches!(rb.append(&[bits(2.0), bits(3.0)]), AppendResult::WouldBlock));
    assert_eq!(rb.slots_requested, 2);
    assert_eq!(f32::from_bits(rb.pop().unwrap()), 1.0);
    assert_eq!(rb.pop(), None);

    assert!(matches!(rb.append(&[bits(2.0), bits(3.0)]), AppendResult::Written));
    assert_eq!(f32::from_bits(rb.pop().unwrap()), 2.0);
    assert_eq!(f32::from_bits(rb.pop().unwrap()), 3.0);
}

/// A producer whose run does not fit is told to wait with nothing written;
/// the consumer's signal condition turns true once draining has freed the
/// recorded request; and after the producer's own re-check passes, the run
/// lands at the then-current write position, after the pending samples.
#[test]
fn blocked_producer_wakes() {
    let mut rb = Rb::new(3);
    assert!(matches!(rb.append(&[bits(1.0), bits(2.0), bits(3.0)]), AppendResult::Written));
    assert_eq!(f32::from_bits(rb.pop().unwrap()), 1.0);
    assert_eq!(f32::from_bits(rb.pop().unwrap()), 2.0);
    // Refill across the end of the array: the queue is full again with the
    // write cursor below the read cursor.
    assert!(matches!(rb.append(&[bits(4.0), bits(5.0)]), AppendResult::Written));
    assert!(rb.write() < rb.read());

    assert!(matches!(rb.append(&[bits(6.0), bits(7.0)]), AppendResult::WouldBlock));
    assert_eq!(rb.slots_requested, 2);
    assert!(!rb.should_wake());

    assert_eq!(f32::from_bits(rb.pop().unwrap()), 3.0);
    assert!(rb.should_wake());

    // Woken; the producer re-reads the cursors as it would after any
    // (possibly spurious) wake, and waits on until the run really fits.
    assert!(matches!(rb.append(&[bits(6.0), bits(7.0)]), AppendResult::WouldBlock));
    assert_eq!(f32::from_bits(rb.pop().unwrap()), 4.0);
    assert!(rb.should_wake());

    assert!(matches!(rb.append(&[bits(6.0), bits(7.0)]), AppendResult::Written));
    assert_eq!(f32::from_bits(rb.pop().unwrap()), 5.0);
    assert_eq!(f32::from_bits(rb.pop().unwrap()), 6.0);
    assert_eq!(f32::from_bits(rb.pop().unwrap()), 7.0);
    assert_eq!(rb.pop(), None);
}
