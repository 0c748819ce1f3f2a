//! The batcher's flush policy, as a state machine: a batch is handed out when
//! it reaches the size limit, or at a timer tick when it is not empty.
use vstd::prelude::*;

verus! {

/// A fingerprint submitted for logging: a 32-byte leaf hash and a UTF-8 JSON
/// metadata blob, which does not take part in the leaf's identity.
pub struct HashSubmission {
    pub hash: Vec<u8>,
    pub metadata: Vec<u8>,
}

/// The number of submissions at which a batch is flushed at once.
pub const BATCH_LIMIT: usize = 100;

/// The period of the flush timer, in milliseconds.
pub const FLUSH_INTERVAL_MS: u64 = 100;

/// Submissions waiting for the next flush, in order of arrival, and the time
/// of the last flush.
pub struct Batcher {
    pending: Vec<HashSubmission>,
    last_flush_ms: u64,
}

impl Batcher {
    /// The waiting submissions.
    pub closed spec fn pending(&self) -> Seq<HashSubmission> {
        self.pending@
    }

    /// When the last flush happened, in milliseconds.
    pub closed spec fn last_flush(&self) -> u64 {
        self.last_flush_ms
    }

    /// Whether the flush interval has passed since the last flush at `now_ms`.
    pub open spec fn interval_elapsed(&self, now_ms: u64) -> bool {
        now_ms >= self.last_flush() + FLUSH_INTERVAL_MS
    }

    /// A batch that has not been flushed is below the size limit.
    pub open spec fn wf(&self) -> bool {
        self.pending().len() < BATCH_LIMIT
    }

    /// An empty batcher started at `now_ms`.
    pub fn new(now_ms: u64) -> (r: Batcher)
        ensures
            r.wf(),
            r.pending() == Seq::<HashSubmission>::empty(),
            r.last_flush() == now_ms,
    {
        Batcher { pending: Vec::new(), last_flush_ms: now_ms }
    }

    /// The number of waiting submissions.
    pub fn len(&self) -> (r: usize)
        ensures
            r == self.pending().len(),
    {
        self.pending.len()
    }

    fn take_pending(&mut self, now_ms: u64) -> (r: Vec<HashSubmission>)
        ensures
            r@ == old(self).pending(),
            final(self).pending() == Seq::<HashSubmission>::empty(),
            final(self).last_flush() == now_ms,
    {
        let mut batch: Vec<HashSubmission> = Vec::new();
        std::mem::swap(&mut batch, &mut self.pending);
        self.last_flush_ms = now_ms;
        batch
    }

    /// Adds a submission, arriving at `now_ms`, at the end of the batch; hands
    /// the batch out, in order of arrival, when this submission brings it to
    /// the size limit.
    pub fn on_submission(&mut self, submission: HashSubmission, now_ms: u64) -> (r: Option<
        Vec<HashSubmission>,
    >)
        requires
            old(self).wf(),
        ensures
            final(self).wf(),
            old(self).pending().len() + 1 == BATCH_LIMIT ==> {
                &&& r is Some
                &&& r->Some_0@ == old(self).pending().push(submission)
                &&& final(self).pending().len() == 0
                &&& final(self).last_flush() == now_ms
            },
            old(self).pending().len() + 1 < BATCH_LIMIT ==> {
                &&& r is None
                &&& final(self).pending() == old(self).pending().push(submission)
                &&& final(self).last_flush() == old(self).last_flush()
            },
    {
        self.pending.push(submission);
        if self.pending.len() >= BATCH_LIMIT {
            Some(self.take_pending(now_ms))
        } else {
            None
        }
    }

    /// At a timer tick at `now_ms`, hands out the waiting submissions when
    /// there are any and the flush interval has passed since the last flush.
    /// An empty batch is never handed out.
    pub fn on_tick(&mut self, now_ms: u64) -> (r: Option<Vec<HashSubmission>>)
        requires
            old(self).wf(),
        ensures
            final(self).wf(),
            old(self).pending().len() > 0 && old(self).interval_elapsed(now_ms) ==> {
                &&& r is Some
                &&& r->Some_0@ == old(self).pending()
                &&& final(self).pending().len() == 0
                &&& final(self).last_flush() == now_ms
            },
            !(old(self).pending().len() > 0 && old(self).interval_elapsed(now_ms)) ==> {
                &&& r is None
                &&& final(self).pending() == old(self).pending()
                &&& final(self).last_flush() == old(self).last_flush()
            },
    {
        if self.pending.len() > 0 && now_ms >= self.last_flush_ms && now_ms - self.last_flush_ms
            >= FLUSH_INTERVAL_MS {
            Some(self.take_pending(now_ms))
        } else {
            None
        }
    }
}

/// A waiting submission is due at every tick from one flush interval after
/// its arrival on: with a timer that ticks at least every 10 ms, it is handed
/// out at most 110 ms after it arrived.
pub proof fn lemma_flush_deadline(b: Batcher, arrival_ms: u64, now_ms: u64)
    requires
        b.pending().len() > 0,
        b.last_flush() <= arrival_ms,
        now_ms >= arrival_ms + FLUSH_INTERVAL_MS,
    ensures
        b.interval_elapsed(now_ms),
{
}

} // verus!
