//! Bounded single-producer/single-consumer sample queue.
//!
//! A fixed-capacity circular buffer decouples the decoding thread, which
//! appends runs of samples at its own pace, from the audio-output callback,
//! which pops one sample at a time on a hardware-fixed schedule. Samples are
//! carried as the raw bit patterns of 32-bit floats; none of the bookkeeping
//! depends on the sample values.
//!
//! The queue itself never blocks: [`Rb::append`] reports `WouldBlock` when the
//! run does not fit, after recording how many slots the producer is waiting
//! for, and [`Rb::should_wake`] tells the consumer's side when that request has
//! been satisfied. The caller owning the two threads pairs these decisions with
//! a condition variable: wait on `WouldBlock`, re-check after every wake, and
//! signal when `should_wake` says so. The consumer's [`Rb::pop`] returns at
//! once whether or not a sample is available.

use vstd::prelude::*;

verus! {

/// Outcome of one non-blocking attempt to enqueue a run of samples.
#[derive(Clone, Copy, Debug, PartialEq, Eq, Structural)]
pub enum AppendResult {
    /// The run was copied into the buffer (an empty run counts as written).
    Written,
    /// Not enough slots were free. The size of the run was recorded as the
    /// producer's outstanding request; nothing was written. The producer is
    /// expected to wait for the consumer's signal and then try again.
    WouldBlock,
    /// The run is longer than the queue's capacity and can never fit, no
    /// matter how much the consumer drains; growing the buffer at runtime is
    /// unsupported.
    Oversize,
}

/// New write cursor after advancing `cursor` by `n` steps around an array of
/// length `len`: `(cursor + n) % len`, for `cursor < len` and `n <= len`.
pub open spec fn wrapped(cursor: int, n: int, len: int) -> int {
    if cursor + n < len {
        cursor + n
    } else {
        cursor + n - len
    }
}

/// Whether slot `k` lies in the run of `n` slots starting at `cursor` and
/// wrapping around an array of length `len`: the slots an append writes.
pub open spec fn in_write_run(k: int, cursor: int, n: int, len: int) -> bool {
    exists|j: int| 0 <= j < n && k == wrapped(cursor, j, len)
}

/// A bounded single-producer/single-consumer circular buffer of samples.
///
/// The backing array holds one slot more than the capacity; that slot is kept
/// permanently free so that equal cursors always mean "empty" rather than
/// "full". The producer alone moves `write`, the consumer alone moves `read`.
pub struct Rb {
    /// Backing array of sample bit patterns, length `capacity + 1`.
    pub buf: Vec<u32>,
    /// Offset of the next slot to write; moved only by the producer.
    pub write: usize,
    /// Offset of the next slot to read; moved only by the consumer.
    pub read: usize,
    /// How many contiguous free slots a blocked producer is waiting for;
    /// meaningful only while the producer is between `WouldBlock` and the
    /// consumer's signal, stale otherwise.
    pub slots_requested: usize,
}

impl View for Rb {
    type V = Seq<u32>;

    /// The pending samples, oldest first.
    open spec fn view(&self) -> Seq<u32> {
        if self.read <= self.write {
            self.buf@.subrange(self.read as int, self.write as int)
        } else {
            self.buf@.subrange(self.read as int, self.buf@.len() as int) + self.buf@.subrange(
                0,
                self.write as int,
            )
        }
    }
}

impl Rb {
    /// Both cursors stay inside the backing array, which is never empty.
    pub open spec fn wf(self) -> bool {
        &&& 1 <= self.buf@.len()
        &&& self.write < self.buf@.len()
        &&& self.read < self.buf@.len()
    }

    /// Samples the queue can hold at once: one slot less than the backing
    /// array, so a full queue never brings the cursors back together.
    pub open spec fn capacity(self) -> int {
        self.buf@.len() - 1
    }

    /// Free slots as the producer counts them before writing: the slots that
    /// can be filled without overwriting unread samples and without closing
    /// the gap between the cursors — the reserved slot is never counted, so
    /// this is always `capacity` minus the pending count.
    pub open spec fn producer_slots_free(self) -> int {
        if self.write < self.read {
            self.read - self.write - 1
        } else {
            self.buf@.len() - self.write + self.read - 1
        }
    }

    /// Free slots as the consumer counts them and as `slots_free` reports
    /// them: every slot not holding a pending sample, the reserved one
    /// included.
    pub open spec fn diagnostic_slots_free(self) -> int {
        self.buf@.len() - self@.len()
    }

    /// The two queues hold the same array contents and the same cursors.
    pub open spec fn same_state(self, other: Rb) -> bool {
        &&& self.buf@ == other.buf@
        &&& self.write == other.write
        &&& self.read == other.read
        &&& self.slots_requested == other.slots_requested
    }

    /// A queue of the given capacity, zero-filled and empty, with no
    /// outstanding producer request.
    pub fn new(size: usize) -> (rb: Rb)
        requires
            size < usize::MAX,
        ensures
            rb.wf(),
            rb@ == Seq::<u32>::empty(),
            rb.capacity() == size,
            rb.buf@.len() == size + 1,
            forall|i: int| 0 <= i < rb.buf@.len() ==> rb.buf@[i] == 0u32,
            rb.write == 0,
            rb.read == 0,
            rb.slots_requested == 0,
    {
        let rb = Rb { buf: vec![0u32; size + 1], write: 0, read: 0, slots_requested: 0 };
        proof {
            assert(rb@ =~= Seq::<u32>::empty());
        }
        rb
    }

    /// One non-blocking producer step.
    ///
    /// An empty run is a no-op; a run longer than the capacity can never be
    /// satisfied, so it is `Oversize` and changes nothing — refused before
    /// any state is touched, since truncating or overwriting unread samples
    /// is not an option and growing the buffer is unsupported. When the
    /// free-slot check fails, the run's length is recorded as the
    /// outstanding request and `WouldBlock` comes back with the buffer
    /// untouched. Otherwise the run is copied in starting at the current
    /// write cursor, split in two when it straddles the end of the array,
    /// and the cursor advances by the run's length; the check never counts
    /// the reserved slot, so a written run extends the pending samples and
    /// nothing else: the cursors cannot collapse onto each other.
    pub fn append(&mut self, slice: &[u32]) -> (r: AppendResult)
        requires
            old(self).wf(),
        ensures
            final(self).wf(),
            final(self).buf@.len() == old(self).buf@.len(),
            final(self).read == old(self).read,
            slice@.len() == 0 ==> r == AppendResult::Written && final(self).same_state(*old(self)),
            slice@.len() > old(self).capacity() ==> r == AppendResult::Oversize
                && final(self).same_state(*old(self)),
            0 < slice@.len() <= old(self).capacity()
                && slice@.len() > old(self).producer_slots_free() ==> {
                &&& r == AppendResult::WouldBlock
                &&& final(self).buf@ == old(self).buf@
                &&& final(self).write == old(self).write
                &&& final(self).slots_requested == slice@.len()
            },
            0 < slice@.len() && slice@.len() <= old(self).producer_slots_free() ==> {
                &&& r == AppendResult::Written
                &&& final(self).slots_requested == old(self).slots_requested
                &&& final(self).write == wrapped(
                    old(self).write as int,
                    slice@.len() as int,
                    old(self).buf@.len() as int,
                )
                &&& final(self)@ == old(self)@ + slice@
                &&& forall|j: int|
                    0 <= j < slice@.len() ==> final(self).buf@[wrapped(
                        old(self).write as int,
                        j,
                        old(self).buf@.len() as int,
                    )] == slice@[j]
                &&& forall|k: int|
                    0 <= k < old(self).buf@.len() && !in_write_run(
                        k,
                        old(self).write as int,
                        slice@.len() as int,
                        old(self).buf@.len() as int,
                    ) ==> final(self).buf@[k] == old(self).buf@[k]
            },
    {
        if slice.len() == 0 {
            return AppendResult::Written;
        }
        let buf_len = self.buf.len();
        if slice.len() > buf_len - 1 {
            return AppendResult::Oversize;
        }
        let write = self.write;
        let read = self.read;

        let slots_free = if write < read {
            read - write - 1
        } else {
            buf_len - write + read - 1
        };

        // Not enough space free: record the request; the caller waits for the
        // consumer's signal and calls again.
        if slice.len() > slots_free {
            self.slots_requested = slice.len();
            return AppendResult::WouldBlock;
        }

        let count = slice.len();

        if count < buf_len - write {
            let mut i: usize = 0;
            #[verifier::loop_isolation(false)]
            while i < count
                invariant
                    i <= count,
                    self.buf@.len() == buf_len,
                    self.write == write,
                    self.read == read,
                    self.slots_requested == old(self).slots_requested,
                    forall|k: int| 0 <= k < i ==> self.buf@[write + k] == slice@[k],
                    forall|k: int|
                        0 <= k < buf_len && !(write <= k < write + i) ==> self.buf@[k] == old(
                            self,
                        ).buf@[k],
                decreases count - i,
            {
                self.buf[write + i] = slice[i];
                i += 1;
            }
            proof {
                assert forall|j: int|
                    0 <= j < count implies self.buf@[wrapped(
                    write as int,
                    j,
                    buf_len as int,
                )] == slice@[j] by {
                    assert(wrapped(write as int, j, buf_len as int) == write + j);
                }
                assert forall|k: int|
                    0 <= k < buf_len && !in_write_run(
                    k,
                    write as int,
                    count as int,
                    buf_len as int,
                ) implies self.buf@[k] == old(self).buf@[k] by {
                    if write <= k < write + count {
                        assert(wrapped(write as int, (k - write) as int, buf_len as int) == k);
                        assert(in_write_run(k, write as int, count as int, buf_len as int));
                    }
                }
            }
            self.write = write + count;
        } else {
            let diff = buf_len - write;
            let mut i: usize = 0;
            #[verifier::loop_isolation(false)]
            while i < diff
                invariant
                    i <= diff,
                    self.buf@.len() == buf_len,
                    self.write == write,
                    self.read == read,
                    self.slots_requested == old(self).slots_requested,
                    forall|k: int| 0 <= k < i ==> self.buf@[write + k] == slice@[k],
                    forall|k: int|
                        0 <= k < buf_len && !(write <= k < write + i) ==> self.buf@[k] == old(
                            self,
                        ).buf@[k],
                decreases diff - i,
            {
                self.buf[write + i] = slice[i];
                i += 1;
            }
            let rem = count - diff;
            let mut j: usize = 0;
            #[verifier::loop_isolation(false)]
            while j < rem
                invariant
                    j <= rem,
                    self.buf@.len() == buf_len,
                    self.write == write,
                    self.read == read,
                    self.slots_requested == old(self).slots_requested,
                    forall|k: int| 0 <= k < diff ==> self.buf@[write + k] == slice@[k],
                    forall|k: int| 0 <= k < j ==> self.buf@[k] == slice@[diff + k],
                    forall|k: int|
                        j <= k < write ==> self.buf@[k] == old(self).buf@[k],
                decreases rem - j,
            {
                self.buf[j] = slice[diff + j];
                j += 1;
            }
            proof {
                // With a wrapping write the cursors cannot be in the
                // `write < read` arrangement: the free-slot check would have
                // kept the run short of the end of the array.
                assert(read <= write);
                assert forall|j: int|
                    0 <= j < count implies self.buf@[wrapped(
                    write as int,
                    j,
                    buf_len as int,
                )] == slice@[j] by {
                    if j < diff {
                        assert(wrapped(write as int, j, buf_len as int) == write + j);
                    } else {
                        assert(wrapped(write as int, j, buf_len as int) == j - diff);
                    }
                }
                assert forall|k: int|
                    0 <= k < buf_len && !in_write_run(
                    k,
                    write as int,
                    count as int,
                    buf_len as int,
                ) implies self.buf@[k] == old(self).buf@[k] by {
                    if write <= k < buf_len {
                        assert(wrapped(write as int, (k - write) as int, buf_len as int) == k);
                        assert(in_write_run(k, write as int, count as int, buf_len as int));
                    }
                    if 0 <= k < rem {
                        assert(wrapped(write as int, (diff + k) as int, buf_len as int) == k);
                        assert(in_write_run(k, write as int, count as int, buf_len as int));
                    }
                }
            }
            self.write = rem;
        }
        proof {
            assert(self@ =~= old(self)@ + slice@);
        }
        AppendResult::Written
    }

    /// One consumer step: the oldest pending sample, or nothing when the
    /// queue is empty. Never waits; an empty answer is the audio layer's cue
    /// to play silence. After popping, the caller checks [`Self::should_wake`]
    /// and signals a waiting producer accordingly.
    pub fn pop(&mut self) -> (r: Option<u32>)
        requires
            old(self).wf(),
        ensures
            final(self).wf(),
            final(self).buf@ == old(self).buf@,
            final(self).write == old(self).write,
            final(self).slots_requested == old(self).slots_requested,
            old(self)@.len() == 0 ==> r is None && final(self).same_state(*old(self)),
            old(self)@.len() > 0 ==> {
                &&& r == Some(old(self)@[0])
                &&& final(self)@ == old(self)@.skip(1)
                &&& final(self).read == wrapped(old(self).read as int, 1, old(self).buf@.len() as int)
            },
    {
        let write = self.write;
        let read = self.read;
        if read == write {
            return None;
        }
        let item = self.buf[read];
        let buf_len = self.buf.len();
        self.read = if read + 1 < buf_len {
            read + 1
        } else {
            0
        };
        proof {
            assert(self@ =~= old(self)@.skip(1));
        }
        Some(item)
    }

    /// Advisory count of free slots, the consumer's formula: every slot not
    /// holding a pending sample, the reserved one included, so it reads one
    /// above what the producer can actually fill. Under concurrency the
    /// answer may be stale the instant it is returned; it is meant for
    /// logging and tuning, not for correctness decisions.
    pub fn slots_free(&self) -> (r: usize)
        requires
            self.wf(),
        ensures
            r == self.diagnostic_slots_free(),
    {
        let write = self.write;
        let read = self.read;
        if write < read {
            read - write
        } else {
            self.buf.len() - write + read
        }
    }

    /// Whether the consumer should signal the condition variable: the free
    /// slots have reached the producer's recorded request. Checked after every
    /// pop; waking a producer that is not waiting is harmless, since the
    /// producer re-checks space after every wake.
    pub fn should_wake(&self) -> (r: bool)
        requires
            self.wf(),
        ensures
            r == (self.diagnostic_slots_free() >= self.slots_requested),
    {
        self.slots_free() >= self.slots_requested
    }

    /// Capacity invariant: a well-formed queue never holds more than
    /// `capacity` pending samples, whatever sequence of appends and pops
    /// produced it — the reserved slot keeps the cursors apart.
    pub proof fn lemma_occupancy_bounded(self)
        requires
            self.wf(),
        ensures
            self@.len() <= self.capacity(),
    {
    }

    /// FIFO order: an append puts its run behind the samples already
    /// pending, so position by position the queue's contents are the old
    /// samples first and the run's samples after them, each in their own
    /// order; and each pop takes position 0 and shifts the rest down. The
    /// Nth sample popped is therefore the Nth sample appended, across any
    /// wraparound.
    pub proof fn lemma_fifo_order(pending: Seq<u32>, run: Seq<u32>, i: int)
        requires
            0 <= i < pending.len() + run.len(),
        ensures
            i < pending.len() ==> (pending + run)[i] == pending[i],
            i >= pending.len() ==> (pending + run)[i] == run[i - pending.len()],
    {
    }

    /// The producer's free-slot check admits a run exactly when it fits
    /// within the capacity alongside the pending samples: a conforming
    /// producer is only ever blocked for lack of real space, and a run is
    /// never admitted at the expense of unread samples — `append` then
    /// extends the pending samples in order.
    pub proof fn lemma_fitting_run_passes_check(self, n: int)
        requires
            self.wf(),
            0 <= n,
        ensures
            n <= self.producer_slots_free() <==> self@.len() + n <= self.capacity(),
    {
    }

    /// Wake correctness: each pop of a pending sample frees exactly one slot,
    /// so a blocked producer's request is reached after finitely many pops;
    /// and once draining has left at least the recorded request free, the
    /// signal condition that `should_wake` reports is true. `pre` and `post`
    /// are the queue around one pop, as `pop`'s contract describes it.
    pub proof fn lemma_pop_frees_one_slot(pre: Rb, post: Rb)
        requires
            pre.wf(),
            post.wf(),
            pre@.len() > 0,
            post.buf@.len() == pre.buf@.len(),
            post@ == pre@.skip(1),
            post.slots_requested == pre.slots_requested,
        ensures
            post.diagnostic_slots_free() == pre.diagnostic_slots_free() + 1,
    {
    }

    /// Wake correctness, accumulated: however many pops it took, once the
    /// queue has been drained far enough that the recorded request `n` fits in
    /// the free slots, the consumer's signal condition holds.
    pub proof fn lemma_wake_after_drain(pre: Rb, post: Rb, n: usize)
        requires
            pre.wf(),
            post.wf(),
            post.buf@.len() == pre.buf@.len(),
            pre.slots_requested == n,
            post.slots_requested == n,
            pre@.len() - post@.len() >= n - pre.diagnostic_slots_free(),
        ensures
            post.diagnostic_slots_free() >= n,
    {
    }

    /// Current read cursor.
    pub fn read(&self) -> (r: usize)
        ensures
            r == self.read,
    {
        self.read
    }

    /// Current write cursor.
    pub fn write(&self) -> (r: usize)
        ensures
            r == self.write,
    {
        self.write
    }
}

} // verus!

