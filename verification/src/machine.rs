//! The download engine's state machine: bounded-concurrency admission of
//! part fetches, acceptance of out-of-order completions into a bounded
//! buffer, and strictly ordered emission of byte chunks.
//!
//! The machine holds every decision the engine makes; the surrounding
//! driver only performs the fetches and feeds their outcomes back. One
//! step is one of:
//! - [`DownloadMachine::admit`]: hand out the next part request, when fewer
//!   than `max_concurrency` fetches are in flight;
//! - [`DownloadMachine::accept_completion`]: take a finished fetch into the
//!   reassembly buffer, when a slot is free, checking its length;
//! - [`DownloadMachine::next_chunk`]: emit the chunk for the next part
//!   index, when it has arrived;
//! - [`DownloadMachine::on_fetch_error`]: record a failed fetch and cancel
//!   all in-flight ones;
//! - [`DownloadMachine::cancel`]: the consumer went away; cancel all
//!   in-flight fetches and stop admitting.

use vstd::prelude::*;

use crate::config::Config;
use crate::download_range::{ClosedRange, DownloadRange, InclusiveRange};
use crate::errors::CondowError;
use crate::range_stream::{lemma_parts_partition, num_parts_spec, part_end, part_start, RangeRequest};

verus! {

/// A completed fetch: the bytes of one part.
#[derive(Debug, Clone, PartialEq, Eq)]
pub struct PartPayload {
    /// Index of the part the bytes belong to.
    pub part: usize,
    /// The part's bytes.
    pub bytes: Vec<u8>,
}

/// Whether resolving the given range must query the blob's size first: open
/// ranges always need it, closed ranges only when the engine is configured
/// to clamp them to the end of the blob.
pub fn needs_size_request(range: &DownloadRange, always_get_size: bool) -> (r: bool)
    ensures
        r == (range is Open || always_get_size),
{
    match range {
        DownloadRange::Open(_) => true,
        DownloadRange::Closed(_) => always_get_size,
    }
}

/// The state of one download: which parts have been admitted, which are in
/// flight, which completions sit in the reassembly buffer, and how far
/// ordered emission has advanced.
pub struct DownloadMachine {
    /// The canonical interval being downloaded; never empty.
    pub range: InclusiveRange,
    /// Size of each part except possibly the last; at least 1.
    pub part_size: u64,
    /// Total number of parts.
    pub num_parts: usize,
    /// Cap on concurrently in-flight fetches; at least 1.
    pub max_concurrency: usize,
    /// Cap on completed-but-not-yet-emitted parts held; at least 1.
    pub buffer_size: usize,
    /// Index of the next part to hand out.
    pub next_to_admit: usize,
    /// Index of the next part to emit; all smaller indices are emitted.
    pub next_to_emit: usize,
    /// Part indices currently being fetched.
    pub in_flight: Vec<usize>,
    /// Completed parts waiting for their turn to be emitted.
    pub buffer: Vec<PartPayload>,
    /// The error that ended the download, if one did.
    pub failed: Option<CondowError>,
    /// Whether the consumer went away.
    pub cancelled: bool,
    /// History: the bytes of every completion accepted so far, by part.
    pub received: Ghost<Map<int, Seq<u8>>>,
    /// History: every chunk emitted so far, in emission order.
    pub emitted: Ghost<Seq<Seq<u8>>>,
}

impl DownloadMachine {
    /// Where part `k` of this download starts.
    pub open spec fn spec_part_start(self, k: int) -> int {
        part_start(self.range.0 as int, self.part_size as int, k)
    }

    /// Where part `k` of this download ends, inclusive.
    pub open spec fn spec_part_end(self, k: int) -> int {
        part_end(self.range.0 as int, self.range.1 as int, self.part_size as int, k)
    }

    /// How many bytes part `k` spans.
    pub open spec fn spec_part_len(self, k: int) -> int {
        self.spec_part_end(k) - self.spec_part_start(k) + 1
    }

    /// Whether part `p` is currently in flight.
    pub open spec fn spec_in_flight_has(self, p: int) -> bool {
        exists|i: int| 0 <= i < self.in_flight@.len() && self.in_flight@[i] == p
    }

    /// Whether part `p` currently sits in the reassembly buffer.
    pub open spec fn spec_buffer_has(self, p: int) -> bool {
        exists|i: int| 0 <= i < self.buffer@.len() && self.buffer@[i].part == p
    }

    /// Whether the download has neither failed nor been cancelled.
    pub open spec fn spec_healthy(self) -> bool {
        self.failed is None && !self.cancelled
    }

    /// Well-formedness: everything the machine guarantees between steps.
    pub open spec fn wf(self) -> bool {
        // the plan
        &&& self.part_size >= 1
        &&& self.range.0 <= self.range.1
        &&& self.range.spec_len() <= u64::MAX
        &&& self.num_parts == num_parts_spec(self.range.spec_len(), self.part_size as int)
        &&& self.max_concurrency >= 1
        &&& self.buffer_size >= 1
        // cursors
        &&& self.next_to_emit <= self.next_to_admit <= self.num_parts
        // resource bounds: the cap on buffered parts counts only those that
        // cannot be emitted yet; the next part to emit may always come in
        &&& self.in_flight@.len() <= self.max_concurrency
        &&& self.buffer@.len() <= self.buffer_size + 1
        &&& !self.spec_buffer_has(self.next_to_emit as int) ==> self.buffer@.len()
            <= self.buffer_size
        // in-flight parts were admitted and not yet emitted
        &&& forall|i: int|
            0 <= i < self.in_flight@.len() ==> self.next_to_emit <= #[trigger] self.in_flight@[i]
                < self.next_to_admit
        // buffered parts were admitted, not yet emitted, and carry the bytes
        // that were accepted for them
        &&& forall|i: int|
            0 <= i < self.buffer@.len() ==> {
                &&& self.next_to_emit <= (#[trigger] self.buffer@[i]).part < self.next_to_admit
                &&& self.received@.dom().contains(self.buffer@[i].part as int)
                &&& self.buffer@[i].bytes@ == self.received@[self.buffer@[i].part as int]
            }
        // no part appears twice
        &&& forall|i: int, j: int|
            0 <= i < j < self.in_flight@.len() ==> self.in_flight@[i] != self.in_flight@[j]
        &&& forall|i: int, j: int|
            0 <= i < j < self.buffer@.len() ==> self.buffer@[i].part != self.buffer@[j].part
        &&& forall|i: int, j: int|
            0 <= i < self.in_flight@.len() && 0 <= j < self.buffer@.len()
                ==> #[trigger] self.in_flight@[i] != #[trigger] self.buffer@[j].part
        // while healthy, every admitted, unemitted part is accounted for
        &&& self.spec_healthy() ==> forall|p: int|
            self.next_to_emit <= p < self.next_to_admit ==> (#[trigger] self.spec_in_flight_has(
                p,
            )) || self.spec_buffer_has(p)
        // what was accepted: parts of this download, with exactly the bytes
        // their ranges span
        &&& forall|p: int| #[trigger]
            self.received@.dom().contains(p) ==> 0 <= p < self.num_parts && self.received@[p].len()
                == self.spec_part_len(p)
        // every emitted part was accepted first
        &&& forall|p: int| 0 <= p < self.next_to_emit ==> self.received@.dom().contains(p)
        // emission history: chunk `k` is the accepted payload of part `k`
        &&& self.emitted@.len() == self.next_to_emit
        &&& forall|k: int|
            0 <= k < self.next_to_emit ==> #[trigger] self.emitted@[k] == self.received@[k]
    }

    /// Sets up the machine for a download of the given non-empty interval.
    pub fn new(
        range: InclusiveRange,
        part_size: u64,
        max_concurrency: usize,
        buffer_size: usize,
    ) -> (r: Self)
        requires
            part_size >= 1,
            range.0 <= range.1,
            range.spec_len() <= u64::MAX,
            num_parts_spec(range.spec_len(), part_size as int) <= usize::MAX,
            max_concurrency >= 1,
            buffer_size >= 1,
        ensures
            r.wf(),
            r.range == range,
            r.part_size == part_size,
            r.max_concurrency == max_concurrency,
            r.buffer_size == buffer_size,
            r.num_parts == num_parts_spec(range.spec_len(), part_size as int),
            r.next_to_admit == 0,
            r.next_to_emit == 0,
            r.in_flight@.len() == 0,
            r.buffer@.len() == 0,
            r.spec_healthy(),
            r.emitted@.len() == 0,
            r.received@.dom() =~= Set::<int>::empty(),
    {
        let num_parts = crate::range_stream::calc_num_parts(range, part_size);
        DownloadMachine {
            range,
            part_size,
            num_parts,
            max_concurrency,
            buffer_size,
            next_to_admit: 0,
            next_to_emit: 0,
            in_flight: Vec::new(),
            buffer: Vec::new(),
            failed: None,
            cancelled: false,
            received: Ghost(Map::empty()),
            emitted: Ghost(Seq::empty()),
        }
    }

    /// The plan never changes underneath a running download.
    pub open spec fn spec_same_plan(self, other: Self) -> bool {
        &&& self.range == other.range
        &&& self.part_size == other.part_size
        &&& self.num_parts == other.num_parts
        &&& self.max_concurrency == other.max_concurrency
        &&& self.buffer_size == other.buffer_size
    }

    /// Whether another part may be handed out for fetching: the download is
    /// healthy, parts remain, and fewer than `max_concurrency` fetches are
    /// in flight.
    pub open spec fn spec_can_admit(self) -> bool {
        &&& self.spec_healthy()
        &&& self.next_to_admit < self.num_parts
        &&& self.in_flight@.len() < self.max_concurrency
    }

    /// Whether another part may be handed out for fetching.
    pub fn can_admit(&self) -> (r: bool)
        ensures
            r == self.spec_can_admit(),
    {
        self.failed.is_none() && !self.cancelled && self.next_to_admit < self.num_parts
            && self.in_flight.len() < self.max_concurrency
    }

    /// Hands out the request for the next part and records it as in flight.
    ///
    /// Admission order follows the planner's emission order; the request
    /// returned is exactly the planned one for the next unadmitted index.
    pub fn admit_part(&mut self) -> (r: RangeRequest)
        requires
            old(self).wf(),
            old(self).spec_can_admit(),
        ensures
            final(self).wf(),
            r.part == old(self).next_to_admit,
            r.start == old(self).spec_part_start(r.part as int),
            r.end_incl == old(self).spec_part_end(r.part as int),
            final(self).spec_same_plan(*old(self)),
            final(self).next_to_admit == old(self).next_to_admit + 1,
            final(self).next_to_emit == old(self).next_to_emit,
            final(self).in_flight@ == old(self).in_flight@.push(r.part),
            final(self).buffer == old(self).buffer,
            final(self).failed == old(self).failed,
            final(self).cancelled == old(self).cancelled,
            final(self).received == old(self).received,
            final(self).emitted == old(self).emitted,
    {
        proof {
            assert(self.range.1 >= self.range.0);
        }
        let request = crate::range_stream::request_for(
            self.range,
            self.part_size,
            self.next_to_admit,
        );
        self.in_flight.push(request.part);
        self.next_to_admit += 1;
        proof {
            let new = *self;
            let prev = *old(self);
            assert forall|p: int|
                new.next_to_emit <= p < new.next_to_admit && new.spec_healthy() implies
                new.spec_in_flight_has(p) || new.spec_buffer_has(p) by {
                if p < prev.next_to_admit {
                    assert(prev.spec_in_flight_has(p) || prev.spec_buffer_has(p));
                    if prev.spec_in_flight_has(p) {
                        let i = choose|i: int|
                            0 <= i < prev.in_flight@.len() && prev.in_flight@[i] == p;
                        assert(0 <= i < new.in_flight@.len() && new.in_flight@[i] == p);
                        assert(new.spec_in_flight_has(p));
                    } else {
                        let i = choose|i: int|
                            0 <= i < prev.buffer@.len() && prev.buffer@[i].part == p;
                        assert(0 <= i < new.buffer@.len() && new.buffer@[i].part == p);
                        assert(new.spec_buffer_has(p));
                    }
                } else {
                    assert(p == prev.next_to_admit);
                    assert(new.in_flight@[prev.in_flight@.len() as int] == p);
                    assert(new.spec_in_flight_has(p));
                }
            }
        }
        request
    }

    /// Whether a completion of the given part may be pulled in right now:
    /// either a buffer slot is free, or the part is the next to emit and
    /// will leave the buffer at once.
    ///
    /// While this is false, the driver must not pull the completion; the
    /// fetch behind it stays pending, which transitively backpressures
    /// admissions through the concurrency cap.
    pub fn can_accept(&self, part: usize) -> (r: bool)
        ensures
            r == (self.buffer@.len() < self.buffer_size || part == self.next_to_emit),
    {
        self.buffer.len() < self.buffer_size || part == self.next_to_emit
    }

    /// Takes a finished fetch into the reassembly buffer.
    ///
    /// The payload must belong to an in-flight part, and be acceptable as
    /// [`DownloadMachine::can_accept`] says. Its length is checked against
    /// the part's range: too few bytes fail the download with a short read,
    /// too many with an over read; in either case all in-flight fetches are
    /// cancelled.
    pub fn accept_completion(&mut self, payload: PartPayload) -> (r: Result<(), CondowError>)
        requires
            old(self).wf(),
            old(self).spec_in_flight_has(payload.part as int),
            old(self).buffer@.len() < old(self).buffer_size || payload.part == old(
                self,
            ).next_to_emit,
        ensures
            final(self).wf(),
            final(self).spec_same_plan(*old(self)),
            final(self).next_to_admit == old(self).next_to_admit,
            final(self).next_to_emit == old(self).next_to_emit,
            final(self).emitted == old(self).emitted,
            r is Ok <==> payload.bytes@.len() == old(self).spec_part_len(payload.part as int),
            r is Ok ==> {
                &&& final(self).buffer@ == old(self).buffer@.push(payload)
                &&& final(self).received@ == old(self).received@.insert(
                    payload.part as int,
                    payload.bytes@,
                )
                &&& final(self).in_flight@.len() == old(self).in_flight@.len() - 1
                &&& !final(self).spec_in_flight_has(payload.part as int)
                &&& forall|q: int|
                    q != payload.part ==> (final(self).spec_in_flight_has(q) <==> old(
                        self,
                    ).spec_in_flight_has(q))
                &&& final(self).failed == old(self).failed
                &&& final(self).cancelled == old(self).cancelled
            },
            r matches Err(e) ==> {
                &&& e == (if payload.bytes@.len() < old(self).spec_part_len(payload.part as int) {
                    CondowError::ShortRead
                } else {
                    CondowError::OverRead
                })
                &&& final(self).failed == Some(e)
                &&& final(self).in_flight@.len() == 0
                &&& final(self).buffer == old(self).buffer
                &&& final(self).received == old(self).received
            },
    {
        proof {
            let i = choose|i: int|
                0 <= i < self.in_flight@.len() && self.in_flight@[i] == payload.part as int;
            assert(payload.part < self.num_parts);
        }
        let expected = crate::range_stream::request_for(
            self.range,
            self.part_size,
            payload.part,
        ).len();
        let actual_usize = payload.bytes.len();
        let actual = actual_usize as u64;
        if actual < expected {
            self.failed = Some(CondowError::ShortRead);
            self.in_flight.clear();
            return Err(CondowError::ShortRead);
        }
        if actual > expected {
            self.failed = Some(CondowError::OverRead);
            self.in_flight.clear();
            return Err(CondowError::OverRead);
        }
        let ghost part = payload.part as int;
        let ghost bytes = payload.bytes@;
        let ghost prev = *self;
        let n = self.in_flight.len();
        let mut i: usize = 0;
        while self.in_flight[i] != payload.part
            invariant
                *self == prev,
                payload.part < prev.num_parts,
                n == self.in_flight@.len(),
                0 <= i < n,
                exists|j: int|
                    i <= j < self.in_flight@.len() && self.in_flight@[j] == payload.part as int,
            decreases self.in_flight@.len() - i,
        {
            proof {
                let j = choose|j: int|
                    i <= j < self.in_flight@.len() && self.in_flight@[j] == payload.part as int;
                assert(j != i);
            }
            i += 1;
        }
        let _ = self.in_flight.remove(i);
        self.buffer.push(payload);
        self.received = Ghost(self.received@.insert(part, bytes));
        proof {
            let new = *self;
            assert(new.in_flight@ == prev.in_flight@.remove(i as int));
            // the pulled part was in flight, hence not buffered before
            assert forall|b: int| 0 <= b < prev.buffer@.len() implies prev.buffer@[b].part
                != payload.part by {
                assert(prev.in_flight@[i as int] != prev.buffer@[b].part);
            }
            assert(!prev.spec_buffer_has(part));
            // the buffer cap: a free slot was required unless the payload is
            // the next part to emit, which may always pass through
            if payload.part == prev.next_to_emit {
                assert(prev.buffer@.len() <= prev.buffer_size);
                assert(new.buffer@[new.buffer@.len() - 1].part == new.next_to_emit);
                assert(new.spec_buffer_has(new.next_to_emit as int));
            } else {
                if new.spec_buffer_has(new.next_to_emit as int) {
                    let b = choose|b: int|
                        0 <= b < new.buffer@.len() && new.buffer@[b].part == new.next_to_emit;
                    if b < new.buffer@.len() - 1 {
                        assert(prev.buffer@[b].part == new.next_to_emit);
                        assert(prev.spec_buffer_has(prev.next_to_emit as int));
                    }
                }
            }
            // the removed slot held the only occurrence of the part
            assert forall|a: int| 0 <= a < new.in_flight@.len() implies new.in_flight@[a]
                != part by {
                if a < i {
                    assert(new.in_flight@[a] == prev.in_flight@[a]);
                } else {
                    assert(new.in_flight@[a] == prev.in_flight@[a + 1]);
                }
            }
            assert(!new.spec_in_flight_has(part));
            // parts other than this one keep their in-flight status
            assert forall|q: int| q != part implies (new.spec_in_flight_has(q)
                <==> prev.spec_in_flight_has(q)) by {
                if new.spec_in_flight_has(q) {
                    let a = choose|a: int|
                        0 <= a < new.in_flight@.len() && new.in_flight@[a] == q;
                    if a < i {
                        assert(prev.in_flight@[a] == q);
                    } else {
                        assert(prev.in_flight@[a + 1] == q);
                    }
                    assert(prev.spec_in_flight_has(q));
                }
                if prev.spec_in_flight_has(q) {
                    let a = choose|a: int|
                        0 <= a < prev.in_flight@.len() && prev.in_flight@[a] == q;
                    assert(a != i);
                    if a < i {
                        assert(new.in_flight@[a] == q);
                    } else {
                        assert(new.in_flight@[a - 1] == q);
                    }
                    assert(new.spec_in_flight_has(q));
                }
            }
            // every admitted, unemitted part is still accounted for
            assert forall|p: int|
                new.next_to_emit <= p < new.next_to_admit && new.spec_healthy() implies
                new.spec_in_flight_has(p) || new.spec_buffer_has(p) by {
                if p == part {
                    assert(new.buffer@[new.buffer@.len() - 1].part == p);
                    assert(new.spec_buffer_has(p));
                } else {
                    assert(prev.spec_in_flight_has(p) || prev.spec_buffer_has(p));
                    if prev.spec_in_flight_has(p) {
                        assert(new.spec_in_flight_has(p));
                    } else {
                        let b = choose|b: int|
                            0 <= b < prev.buffer@.len() && prev.buffer@[b].part == p;
                        assert(new.buffer@[b].part == p);
                        assert(new.spec_buffer_has(p));
                    }
                }
            }
        }
        Ok(())
    }

    /// Emits the chunk for the next part index, when its completion has
    /// arrived.
    ///
    /// Chunks come out strictly in part order: the `k`-th chunk emitted over
    /// the download's lifetime is part `k`'s payload. When the next part has
    /// not arrived yet, nothing is emitted.
    pub fn next_chunk(&mut self) -> (r: Option<Vec<u8>>)
        requires
            old(self).wf(),
        ensures
            final(self).wf(),
            final(self).spec_same_plan(*old(self)),
            r is Some <==> old(self).spec_buffer_has(old(self).next_to_emit as int),
            r matches Some(bytes) ==> {
                &&& old(self).received@.dom().contains(old(self).next_to_emit as int)
                &&& bytes@ == old(self).received@[old(self).next_to_emit as int]
                &&& bytes@.len() == old(self).spec_part_len(old(self).next_to_emit as int)
                &&& final(self).next_to_emit == old(self).next_to_emit + 1
                &&& final(self).emitted@ == old(self).emitted@.push(bytes@)
                &&& final(self).buffer@.len() == old(self).buffer@.len() - 1
                &&& final(self).next_to_admit == old(self).next_to_admit
                &&& final(self).in_flight == old(self).in_flight
                &&& final(self).failed == old(self).failed
                &&& final(self).cancelled == old(self).cancelled
                &&& final(self).received == old(self).received
            },
            r is None ==> *final(self) == *old(self),
    {
        let ghost prev = *self;
        let mut i: usize = 0;
        let mut found_idx: Option<usize> = None;
        while i < self.buffer.len()
            invariant
                *self == prev,
                0 <= i <= self.buffer@.len(),
                found_idx matches Some(j) ==> 0 <= j < self.buffer@.len() && self.buffer@[
                    j as int
                ].part == self.next_to_emit,
                found_idx is None ==> forall|j: int|
                    0 <= j < i ==> (#[trigger] self.buffer@[j]).part != self.next_to_emit,
            decreases self.buffer@.len() - i,
        {
            if self.buffer[i].part == self.next_to_emit {
                found_idx = Some(i);
            }
            i += 1;
        }
        match found_idx {
            None => {
                proof {
                    assert(!prev.spec_buffer_has(prev.next_to_emit as int));
                }
                None
            },
            Some(j) => {
                let payload = self.buffer.remove(j);
                let ghost part = prev.next_to_emit as int;
                proof {
                    assert(prev.spec_buffer_has(part));
                }
                self.next_to_emit += 1;
                self.emitted = Ghost(self.emitted@.push(payload.bytes@));
                proof {
                    let new = *self;
                    assert(new.buffer@ == prev.buffer@.remove(j as int));
                    // the emitted part sat nowhere else
                    assert forall|a: int| 0 <= a < new.buffer@.len() implies new.buffer@[a].part
                        != part by {
                        if a < j {
                            assert(new.buffer@[a] == prev.buffer@[a]);
                        } else {
                            assert(new.buffer@[a] == prev.buffer@[a + 1]);
                        }
                    }
                    // remaining buffered and in-flight parts lie past the cursor
                    assert forall|a: int| 0 <= a < new.buffer@.len() implies new.next_to_emit
                        <= (#[trigger] new.buffer@[a]).part < new.next_to_admit by {
                        if a < j {
                            assert(new.buffer@[a] == prev.buffer@[a]);
                        } else {
                            assert(new.buffer@[a] == prev.buffer@[a + 1]);
                        }
                    }
                    assert forall|a: int| 0 <= a < new.in_flight@.len() implies new.next_to_emit
                        <= #[trigger] new.in_flight@[a] < new.next_to_admit by {
                        assert(new.in_flight@[a] != part);
                    }
                    // every admitted, unemitted part is still accounted for
                    assert forall|p: int|
                        new.next_to_emit <= p < new.next_to_admit && new.spec_healthy() implies
                        new.spec_in_flight_has(p) || new.spec_buffer_has(p) by {
                        assert(prev.spec_in_flight_has(p) || prev.spec_buffer_has(p));
                        if prev.spec_buffer_has(p) {
                            let b = choose|b: int|
                                0 <= b < prev.buffer@.len() && prev.buffer@[b].part == p;
                            assert(b != j);
                            if b < j {
                                assert(new.buffer@[b].part == p);
                            } else {
                                assert(new.buffer@[b - 1].part == p);
                            }
                            assert(new.spec_buffer_has(p));
                        }
                    }
                }
                Some(payload.bytes)
            },
        }
    }

    /// Records a failed fetch: the download is over, no further parts are
    /// admitted, and every in-flight fetch is cancelled. Chunks already in
    /// the buffer may still be emitted, in order, up to the first gap.
    pub fn on_fetch_error(&mut self)
        requires
            old(self).wf(),
        ensures
            final(self).wf(),
            final(self).spec_same_plan(*old(self)),
            final(self).failed == Some(CondowError::ClientFetch),
            final(self).in_flight@.len() == 0,
            !final(self).spec_can_admit(),
            final(self).next_to_admit == old(self).next_to_admit,
            final(self).next_to_emit == old(self).next_to_emit,
            final(self).buffer == old(self).buffer,
            final(self).cancelled == old(self).cancelled,
            final(self).received == old(self).received,
            final(self).emitted == old(self).emitted,
    {
        self.failed = Some(CondowError::ClientFetch);
        self.in_flight.clear();
    }

    /// The consumer went away: stop admitting, cancel every in-flight fetch
    /// and release the buffered bytes.
    pub fn cancel(&mut self)
        requires
            old(self).wf(),
        ensures
            final(self).wf(),
            final(self).spec_same_plan(*old(self)),
            final(self).cancelled,
            !final(self).spec_can_admit(),
            final(self).in_flight@.len() == 0,
            final(self).buffer@.len() == 0,
            final(self).next_to_admit == old(self).next_to_admit,
            final(self).next_to_emit == old(self).next_to_emit,
            final(self).failed == old(self).failed,
            final(self).received == old(self).received,
            final(self).emitted == old(self).emitted,
    {
        self.cancelled = true;
        self.in_flight.clear();
        self.buffer.clear();
    }

    /// How many fetches are in flight right now.
    pub fn in_flight_count(&self) -> (r: usize)
        ensures
            r == self.in_flight@.len(),
    {
        self.in_flight.len()
    }

    /// How many completed parts wait in the reassembly buffer.
    pub fn buffered_count(&self) -> (r: usize)
        ensures
            r == self.buffer@.len(),
    {
        self.buffer.len()
    }

    /// The error that ended the download, if one did.
    pub fn failure(&self) -> (r: Option<CondowError>)
        ensures
            r == self.failed,
    {
        self.failed
    }

    /// Whether every part has been emitted and the stream ends normally.
    pub fn is_finished(&self) -> (r: bool)
        ensures
            r == (self.next_to_emit == self.num_parts),
    {
        self.next_to_emit == self.num_parts
    }
}

/// At all times, the number of in-flight fetches stays at or below the
/// concurrency cap.
pub proof fn lemma_concurrency_bounded(m: DownloadMachine)
    requires
        m.wf(),
    ensures
        m.in_flight@.len() <= m.max_concurrency,
{
}

/// At all times, at most `buffer_size` completed parts that cannot be
/// emitted yet are held; one more completion may pass through the buffer
/// only when it is the next to emit.
pub proof fn lemma_buffer_bounded(m: DownloadMachine)
    requires
        m.wf(),
    ensures
        m.buffer@.len() <= m.buffer_size + 1,
        !m.spec_buffer_has(m.next_to_emit as int) ==> m.buffer@.len() <= m.buffer_size,
        m.spec_buffer_has(m.next_to_emit as int) ==> m.buffer@.len() - 1 <= m.buffer_size,
{
}

/// Emission order is strictly by part index: the `k`-th chunk ever emitted
/// is the accepted payload of part `k`, so part `k` is emitted before part
/// `k + 1`.
pub proof fn lemma_emission_ordered(m: DownloadMachine)
    requires
        m.wf(),
    ensures
        m.emitted@.len() == m.next_to_emit,
        forall|k: int|
            0 <= k < m.emitted@.len() ==> m.received@.dom().contains(k) && #[trigger] m.emitted@[k]
                == m.received@[k],
{
}

/// All chunks of a stream, in emission order, as one byte sequence.
pub open spec fn concat_chunks(chunks: Seq<Seq<u8>>) -> Seq<u8>
    decreases chunks.len(),
{
    if chunks.len() == 0 {
        Seq::empty()
    } else {
        concat_chunks(chunks.drop_last()) + chunks.last()
    }
}

/// One past the last content position covered by the first `j` parts.
spec fn emitted_upper(m: DownloadMachine, j: int) -> int {
    if j == 0 {
        m.range.0 as int
    } else {
        m.spec_part_end(j - 1) + 1
    }
}

/// The first `j` emitted chunks together are exactly the content from the
/// interval's first byte up to the end of part `j - 1`.
proof fn lemma_emitted_prefix_matches(m: DownloadMachine, content: Seq<u8>, j: int)
    requires
        m.wf(),
        content.len() > m.range.1,
        forall|p: int| #[trigger]
            m.received@.dom().contains(p) ==> m.received@[p] == content.subrange(
                m.spec_part_start(p),
                m.spec_part_end(p) + 1,
            ),
        0 <= j <= m.next_to_emit,
    ensures
        concat_chunks(m.emitted@.take(j)) == content.subrange(m.range.0 as int, emitted_upper(m, j)),
    decreases j,
{
    lemma_parts_partition(m.range.0 as int, m.range.1 as int, m.part_size as int);
    if j == 0 {
        assert(m.emitted@.take(0) =~= Seq::<Seq<u8>>::empty());
        assert(content.subrange(m.range.0 as int, m.range.0 as int) =~= Seq::<u8>::empty());
    } else {
        lemma_emitted_prefix_matches(m, content, j - 1);
        let prefix = m.emitted@.take(j);
        assert(prefix.drop_last() =~= m.emitted@.take(j - 1));
        assert(prefix.last() == m.emitted@[j - 1]);
        assert(m.received@.dom().contains(j - 1));
        assert(m.emitted@[j - 1] == m.received@[j - 1]);
        assert(emitted_upper(m, j - 1) == m.spec_part_start(j - 1));
        assert(content.subrange(m.range.0 as int, m.spec_part_start(j - 1)) + content.subrange(
            m.spec_part_start(j - 1),
            m.spec_part_end(j - 1) + 1,
        ) =~= content.subrange(m.range.0 as int, m.spec_part_end(j - 1) + 1));
    }
}

/// For every finished download whose accepted payloads carry the client's
/// true bytes, the concatenation of the emitted chunks equals the client's
/// content over the downloaded interval, byte for byte.
pub proof fn lemma_stream_matches_content(m: DownloadMachine, content: Seq<u8>)
    requires
        m.wf(),
        m.next_to_emit == m.num_parts,
        content.len() > m.range.1,
        forall|p: int| #[trigger]
            m.received@.dom().contains(p) ==> m.received@[p] == content.subrange(
                m.spec_part_start(p),
                m.spec_part_end(p) + 1,
            ),
    ensures
        concat_chunks(m.emitted@) == content.subrange(m.range.0 as int, m.range.1 + 1),
{
    lemma_parts_partition(m.range.0 as int, m.range.1 as int, m.part_size as int);
    lemma_emitted_prefix_matches(m, content, m.num_parts as int);
    assert(m.emitted@.take(m.num_parts as int) =~= m.emitted@);
    assert(emitted_upper(m, m.num_parts as int) == m.range.1 + 1);
}

/// What a download of the given range must resolve to: against the blob's
/// size when one is supplied, unclamped for a closed range without one. An
/// open range without a size resolves to nothing (the engine fails instead).
pub open spec fn spec_resolved_interval(range: DownloadRange, size: Option<u64>) -> Option<
    InclusiveRange,
> {
    match size {
        Some(s) => range.spec_resolved(s as int),
        None => match range {
            DownloadRange::Open(_) => None,
            DownloadRange::Closed(c) => c.spec_resolved_unbounded(),
        },
    }
}

/// Validates the configuration and the range, resolves the range, and sets
/// up the state machine for the download.
///
/// Synchronous failures surface here: an invalid configuration, an invalid
/// range, and a missing size for an open range. `Ok(None)` means there is
/// nothing to download, which is not an error.
pub fn start_download(range: DownloadRange, size: Option<u64>, config: Config) -> (r: Result<
    Option<DownloadMachine>,
    CondowError,
>)
    requires
        config.buffer_size.0 >= 1,
        config.spec_is_valid() ==> (spec_resolved_interval(range, size) matches Some(ir) ==> {
            &&& ir.spec_len() <= u64::MAX
            &&& num_parts_spec(ir.spec_len(), config.part_size_bytes.0 as int) <= usize::MAX
        }),
    ensures
        !config.spec_is_valid() ==> r == Err::<Option<DownloadMachine>, CondowError>(
            CondowError::InvalidConfig,
        ),
        config.spec_is_valid() && !range.spec_is_valid() ==> r == Err::<
            Option<DownloadMachine>,
            CondowError,
        >(CondowError::InvalidRange),
        config.spec_is_valid() && range.spec_is_valid() && range is Open && size is None ==> r
            == Err::<Option<DownloadMachine>, CondowError>(CondowError::SizeUnavailable),
        config.spec_is_valid() && range.spec_is_valid() && !(range is Open && size is None) ==> {
            match spec_resolved_interval(range, size) {
                None => r == Ok::<Option<DownloadMachine>, CondowError>(None),
                Some(ir) => {
                    &&& r matches Ok(Some(m))
                    &&& (r matches Ok(Some(m)) ==> {
                        &&& m.wf()
                        &&& m.range == ir
                        &&& m.part_size == config.part_size_bytes.0
                        &&& m.max_concurrency == config.max_concurrency.0
                        &&& m.buffer_size == config.buffer_size.0
                        &&& m.next_to_admit == 0
                        &&& m.next_to_emit == 0
                        &&& m.in_flight@.len() == 0
                        &&& m.buffer@.len() == 0
                        &&& m.spec_healthy()
                        &&& m.emitted@.len() == 0
                        &&& m.received@.dom() =~= Set::<int>::empty()
                    })
                },
            }
        },
{
    let config = match config.validated() {
        Ok(c) => c,
        Err(e) => {
            return Err(e);
        },
    };
    match range.validate() {
        Ok(()) => {},
        Err(e) => {
            return Err(e);
        },
    }
    let range = match range.sanitized() {
        Some(r2) => r2,
        None => {
            return Ok(None);
        },
    };
    let resolved = match size {
        Some(s) => range.incl_range_from_size(s),
        None => match range {
            DownloadRange::Open(_) => {
                return Err(CondowError::SizeUnavailable);
            },
            DownloadRange::Closed(c) => c.incl_range(),
        },
    };
    let interval = match resolved {
        Some(ir) => ir,
        None => {
            return Ok(None);
        },
    };
    Ok(
        Some(
            DownloadMachine::new(
                interval,
                config.part_size_bytes.0,
                config.max_concurrency.0,
                config.buffer_size.0,
            ),
        ),
    )
}

} // verus!
