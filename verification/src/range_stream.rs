//! The part planner: deterministic splitting of a canonical inclusive
//! interval into fixed-size part requests.
//!
//! Starting at the interval's first byte, each part spans `part_size` bytes
//! except the last, which ends at the interval's last byte. Part indices are
//! dense, starting at 0, in emission order.

use vstd::prelude::*;

use crate::download_range::{min_int, InclusiveRange};

verus! {

/// One unit of work: fetch the bytes `[start, end_incl]` as part `part`.
#[derive(Debug, Clone, Copy, PartialEq, Eq, Structural)]
pub struct RangeRequest {
    /// Index of the part, dense from 0 in emission order.
    pub part: usize,
    /// First byte of the part.
    pub start: u64,
    /// Last byte of the part, inclusive.
    pub end_incl: u64,
}

impl RangeRequest {
    /// Length of the request; requests are never empty.
    pub open spec fn spec_len(&self) -> int {
        self.end_incl - self.start + 1
    }

    /// Number of bytes the request asks for.
    pub fn len(&self) -> (r: u64)
        requires
            self.start <= self.end_incl,
            self.end_incl - self.start < u64::MAX,
        ensures
            r == self.spec_len(),
    {
        self.end_incl - self.start + 1
    }
}

/// How many parts a download of `len` bytes splits into: `len / part_size`,
/// rounded up.
pub open spec fn num_parts_spec(len: int, part_size: int) -> int {
    if len % part_size == 0 {
        len / part_size
    } else {
        len / part_size + 1
    }
}

/// Where part `k` starts.
pub open spec fn part_start(lo: int, part_size: int, k: int) -> int {
    lo + k * part_size
}

/// Where part `k` ends (inclusive): `part_size` bytes after its start,
/// clamped to the interval's last byte.
pub open spec fn part_end(lo: int, hi: int, part_size: int, k: int) -> int {
    min_int(lo + (k + 1) * part_size - 1, hi)
}

/// The ceiling division `num_parts_spec` is the unique `k` with
/// `(k-1) * part_size < len <= k * part_size`.
proof fn lemma_ceil_unique(len: int, part_size: int, k: int)
    requires
        part_size >= 1,
        len >= 1,
        (k - 1) * part_size < len,
        len <= k * part_size,
    ensures
        k == num_parts_spec(len, part_size),
{
    let q = len / part_size;
    let r = len % part_size;
    vstd::arithmetic::div_mod::lemma_fundamental_div_mod(len, part_size);
    vstd::arithmetic::div_mod::lemma_mod_bound(len, part_size);
    if r == 0 {
        assert(q <= k) by (nonlinear_arith)
            requires
                len == part_size * q,
                len <= k * part_size,
                part_size >= 1,
        ;
        assert(k <= q) by (nonlinear_arith)
            requires
                len == part_size * q,
                (k - 1) * part_size < len,
                part_size >= 1,
        ;
    } else {
        assert(q + 1 <= k) by (nonlinear_arith)
            requires
                len == part_size * q + r,
                0 < r < part_size,
                len <= k * part_size,
                part_size >= 1,
        ;
        assert(k <= q + 1) by (nonlinear_arith)
            requires
                len == part_size * q + r,
                0 < r < part_size,
                (k - 1) * part_size < len,
                part_size >= 1,
        ;
    }
}

/// Every part except possibly the last starts strictly inside the interval:
/// `k * part_size < len` for every part index `k`.
pub(crate) proof fn lemma_part_starts_inside(len: int, part_size: int, k: int)
    requires
        part_size >= 1,
        0 <= k < num_parts_spec(len, part_size),
    ensures
        k * part_size < len,
{
    let q = len / part_size;
    let r = len % part_size;
    vstd::arithmetic::div_mod::lemma_fundamental_div_mod(len, part_size);
    vstd::arithmetic::div_mod::lemma_mod_bound(len, part_size);
    if r == 0 {
        assert(k * part_size < len) by (nonlinear_arith)
            requires
                len == part_size * q,
                0 <= k < q,
                part_size >= 1,
        ;
    } else {
        assert(k * part_size < len) by (nonlinear_arith)
            requires
                len == part_size * q + r,
                0 < r < part_size,
                0 <= k <= q,
                part_size >= 1,
        ;
    }
}

/// How many parts the given interval splits into.
pub fn calc_num_parts(range: InclusiveRange, part_size: u64) -> (r: usize)
    requires
        part_size >= 1,
        range.spec_len() <= u64::MAX,
        num_parts_spec(range.spec_len(), part_size as int) <= usize::MAX,
    ensures
        r == num_parts_spec(range.spec_len(), part_size as int),
{
    let len = range.len();
    let mut n_parts = len / part_size;
    if len % part_size != 0 {
        n_parts += 1;
    }
    n_parts as usize
}

/// The request for part `k` of the interval: it starts `k` part sizes after
/// the interval's first byte and ends a part size later or at the
/// interval's last byte, whichever comes first.
pub fn request_for(range: InclusiveRange, part_size: u64, k: usize) -> (r: RangeRequest)
    requires
        part_size >= 1,
        range.0 <= range.1,
        range.spec_len() <= u64::MAX,
        k < num_parts_spec(range.spec_len(), part_size as int),
    ensures
        r.part == k,
        r.start == part_start(range.0 as int, part_size as int, k as int),
        r.end_incl == part_end(range.0 as int, range.1 as int, part_size as int, k as int),
        range.0 <= r.start <= r.end_incl <= range.1,
        r.spec_len() <= part_size,
{
    proof {
        lemma_part_starts_inside(range.spec_len(), part_size as int, k as int);
        assert((k as int + 1) * (part_size as int) == k as int * (part_size as int)
            + part_size as int) by (nonlinear_arith);
        assert(k as int * (part_size as int) >= 0) by (nonlinear_arith);
    }
    let offset = (k as u64) * part_size;
    let start = range.0 + offset;
    let end_incl = if part_size - 1 <= range.1 - start {
        start + (part_size - 1)
    } else {
        range.1
    };
    RangeRequest { part: k, start, end_incl }
}

/// Plans the whole download: the ordered sequence of part requests covering
/// the interval.
///
/// The requests partition the interval: part `k` starts at
/// `lo + k * part_size` and ends `part_size` bytes later or at the
/// interval's last byte, whichever comes first.
pub fn plan_requests(range: InclusiveRange, part_size: u64) -> (r: Vec<RangeRequest>)
    requires
        part_size >= 1,
        range.spec_len() <= u64::MAX,
        num_parts_spec(range.spec_len(), part_size as int) <= usize::MAX,
    ensures
        r@.len() == num_parts_spec(range.spec_len(), part_size as int),
        forall|k: int|
            0 <= k < r@.len() ==> {
                &&& (#[trigger] r@[k]).part == k
                &&& r@[k].start == part_start(range.0 as int, part_size as int, k)
                &&& r@[k].end_incl == part_end(
                    range.0 as int,
                    range.1 as int,
                    part_size as int,
                    k,
                )
            },
{
    let n = calc_num_parts(range, part_size);
    let mut requests: Vec<RangeRequest> = Vec::new();
    let mut k: usize = 0;
    while k < n
        invariant
            part_size >= 1,
            range.spec_len() <= u64::MAX,
            n == num_parts_spec(range.spec_len(), part_size as int),
            n <= usize::MAX,
            0 <= k <= n,
            requests@.len() == k,
            forall|j: int|
                0 <= j < k ==> {
                    &&& (#[trigger] requests@[j]).part == j
                    &&& requests@[j].start == part_start(range.0 as int, part_size as int, j)
                    &&& requests@[j].end_incl == part_end(
                        range.0 as int,
                        range.1 as int,
                        part_size as int,
                        j,
                    )
                },
        decreases n - k,
    {
        proof {
            assert(range.1 >= range.0);
        }
        let request = request_for(range, part_size, k);
        requests.push(request);
        k += 1;
    }
    requests
}

/// The planned parts cover the interval exactly: the first part starts at
/// `lo`, the last ends at `hi`, consecutive parts are adjacent with no gap
/// and no overlap, every part is non-empty and at most `part_size` long, and
/// every part but the last is exactly `part_size` long.
pub proof fn lemma_parts_partition(lo: int, hi: int, part_size: int)
    requires
        part_size >= 1,
        0 <= lo <= hi,
    ensures
        num_parts_spec(hi - lo + 1, part_size) >= 1,
        part_start(lo, part_size, 0) == lo,
        part_end(lo, hi, part_size, num_parts_spec(hi - lo + 1, part_size) - 1) == hi,
        forall|k: int|
            0 <= k < num_parts_spec(hi - lo + 1, part_size) - 1 ==> #[trigger] part_end(
                lo,
                hi,
                part_size,
                k,
            ) + 1 == part_start(lo, part_size, k + 1),
        forall|k: int|
            0 <= k < num_parts_spec(hi - lo + 1, part_size) ==> #[trigger] part_start(
                lo,
                part_size,
                k,
            ) <= part_end(lo, hi, part_size, k) < part_start(lo, part_size, k) + part_size,
        forall|k: int|
            0 <= k < num_parts_spec(hi - lo + 1, part_size) - 1 ==> #[trigger] part_end(
                lo,
                hi,
                part_size,
                k,
            ) == part_start(lo, part_size, k) + part_size - 1,
{
    let len = hi - lo + 1;
    let n = num_parts_spec(len, part_size);
    assert(n >= 1) by {
        vstd::arithmetic::div_mod::lemma_fundamental_div_mod(len, part_size);
        vstd::arithmetic::div_mod::lemma_mod_bound(len, part_size);
        if len % part_size == 0 {
            assert(len / part_size >= 1) by (nonlinear_arith)
                requires
                    len == part_size * (len / part_size) + len % part_size,
                    len % part_size == 0,
                    len >= 1,
                    part_size >= 1,
            ;
        }
    }
    assert(part_end(lo, hi, part_size, n - 1) == hi) by {
        lemma_part_starts_inside(len, part_size, n - 1);
        lemma_len_covered(len, part_size);
    }
    assert forall|k: int| 0 <= k < n implies #[trigger] part_start(lo, part_size, k) <= part_end(
        lo,
        hi,
        part_size,
        k,
    ) < part_start(lo, part_size, k) + part_size by {
        lemma_part_starts_inside(len, part_size, k);
        assert((k + 1) * part_size == k * part_size + part_size) by (nonlinear_arith);
    }
    assert forall|k: int| 0 <= k < n - 1 implies #[trigger] part_end(lo, hi, part_size, k)
        == part_start(lo, part_size, k) + part_size - 1 by {
        lemma_part_starts_inside(len, part_size, k + 1);
        assert((k + 1) * part_size == k * part_size + part_size) by (nonlinear_arith);
    }
    assert forall|k: int| 0 <= k < n - 1 implies #[trigger] part_end(lo, hi, part_size, k) + 1
        == part_start(lo, part_size, k + 1) by {
        lemma_part_starts_inside(len, part_size, k + 1);
        assert((k + 1) * part_size == k * part_size + part_size) by (nonlinear_arith);
    }
}

/// The interval's whole length is covered: `len <= n * part_size` for
/// `n = num_parts_spec(len, part_size)`.
proof fn lemma_len_covered(len: int, part_size: int)
    requires
        part_size >= 1,
        len >= 1,
    ensures
        len <= num_parts_spec(len, part_size) * part_size,
{
    let q = len / part_size;
    let r = len % part_size;
    vstd::arithmetic::div_mod::lemma_fundamental_div_mod(len, part_size);
    vstd::arithmetic::div_mod::lemma_mod_bound(len, part_size);
    if r == 0 {
        assert(len <= q * part_size) by (nonlinear_arith)
            requires
                len == part_size * q,
        ;
    } else {
        assert(len <= (q + 1) * part_size) by (nonlinear_arith)
            requires
                len == part_size * q + r,
                0 < r < part_size,
        ;
    }
}

/// The total length of the first `m` planned parts.
pub open spec fn parts_total_len(lo: int, hi: int, part_size: int, m: int) -> int
    decreases m,
{
    if m <= 0 {
        0
    } else {
        parts_total_len(lo, hi, part_size, m - 1) + (part_end(lo, hi, part_size, m - 1)
            - part_start(lo, part_size, m - 1) + 1)
    }
}

/// The first `m` parts together span `m` part sizes, clamped to the
/// interval's length.
proof fn lemma_parts_len_prefix(lo: int, hi: int, part_size: int, m: int)
    requires
        part_size >= 1,
        0 <= lo <= hi,
        0 <= m <= num_parts_spec(hi - lo + 1, part_size),
    ensures
        parts_total_len(lo, hi, part_size, m) == min_int(m * part_size, hi - lo + 1),
    decreases m,
{
    if m == 0 {
        assert(0 * part_size == 0) by (nonlinear_arith);
    } else {
        lemma_parts_len_prefix(lo, hi, part_size, m - 1);
        lemma_part_starts_inside(hi - lo + 1, part_size, m - 1);
        assert(m * part_size == (m - 1) * part_size + part_size) by (nonlinear_arith);
        assert((m - 1) * part_size >= 0) by (nonlinear_arith)
            requires
                m >= 1,
                part_size >= 1,
        ;
    }
}

/// The lengths of the planned parts add up to exactly the interval's
/// length: the plan covers every byte once.
pub proof fn lemma_parts_len_sum(lo: int, hi: int, part_size: int)
    requires
        part_size >= 1,
        0 <= lo <= hi,
    ensures
        parts_total_len(lo, hi, part_size, num_parts_spec(hi - lo + 1, part_size)) == hi - lo + 1,
{
    let len = hi - lo + 1;
    let n = num_parts_spec(len, part_size);
    lemma_parts_partition(lo, hi, part_size);
    lemma_parts_len_prefix(lo, hi, part_size, n);
    lemma_len_covered(len, part_size);
}

/// A part size at least as large as the interval yields exactly one part,
/// equal to the full interval.
pub proof fn lemma_single_part(lo: int, hi: int, part_size: int)
    requires
        0 <= lo <= hi,
        part_size >= hi - lo + 1,
    ensures
        num_parts_spec(hi - lo + 1, part_size) == 1,
        part_start(lo, part_size, 0) == lo,
        part_end(lo, hi, part_size, 0) == hi,
{
    let len = hi - lo + 1;
    lemma_ceil_unique(len, part_size, 1);
}

} // verus!
