//! Tunables controlling the planner, the dispatcher and the reassembly
//! stream, each with a distinct wrapper type, validated once at engine
//! construction and immutable thereafter.

use vstd::prelude::*;
use vstd::string::StringSliceAdditionalSpecFns;

use crate::errors::CondowError;
use crate::text::{
    all_digit_bytes, digit_prefix_len, digits_val, is_digit, lemma_digit_prefix, parse_decimal,
};

verus! {

/// The multiplier a size-literal suffix stands for: decimal `k`, `M`, `G`
/// and binary `Ki`, `Mi`, `Gi`; no suffix means plain bytes.
pub open spec fn unit_factor(s: Seq<u8>) -> Option<int> {
    if s == Seq::<u8>::empty() {
        Some(1)
    } else if s == seq![107u8] {  // k
        Some(1000)
    } else if s == seq![77u8] {  // M
        Some(1000000)
    } else if s == seq![71u8] {  // G
        Some(1000000000)
    } else if s == seq![75u8, 105u8] {  // Ki
        Some(1024)
    } else if s == seq![77u8, 105u8] {  // Mi
        Some(1048576)
    } else if s == seq![71u8, 105u8] {  // Gi
        Some(1073741824)
    } else {
        None
    }
}

/// The value of a size literal: one or more decimal digits followed by an
/// optional unit suffix; `None` when the text has another shape.
pub open spec fn size_literal_value(s: Seq<u8>) -> Option<int> {
    let i = digit_prefix_len(s);
    if i == 0 {
        None
    } else {
        match unit_factor(s.subrange(i, s.len() as int)) {
            None => None,
            Some(f) => Some(digits_val(s.subrange(0, i)) * f),
        }
    }
}

/// Size of each fetched part, in bytes; must be at least 1.
#[derive(Debug, Copy, Clone, PartialEq, Eq, Structural)]
pub struct PartSizeBytes(pub u64);

impl PartSizeBytes {
    /// Wraps a part size given in bytes.
    pub fn new(part_size_bytes: u64) -> (r: Self)
        ensures
            r.0 == part_size_bytes,
    {
        Self(part_size_bytes)
    }

    /// Reads a size literal: decimal digits followed by an optional unit
    /// suffix (`k`, `M`, `G`, `Ki`, `Mi`, `Gi`). Anything else, or a value
    /// over `u64::MAX` bytes, is rejected.
    pub fn parse(s: &str) -> (r: Result<Self, CondowError>)
        ensures
            r is Ok <==> (size_literal_value(s.spec_bytes()) matches Some(v) && v <= u64::MAX),
            r matches Ok(p) ==> Some(p.0 as int) == size_literal_value(s.spec_bytes()),
            r is Err ==> r == Err::<PartSizeBytes, CondowError>(CondowError::InvalidConfig),
    {
        let bytes = s.as_bytes();
        let n = bytes.len();
        let mut i: usize = 0;
        while i < n && is_digit(bytes[i])
            invariant
                0 <= i <= n,
                n == bytes@.len(),
                forall|j: int| 0 <= j < i ==> crate::text::is_digit_byte(#[trigger] bytes@[j]),
            decreases n - i,
        {
            i += 1;
        }
        proof {
            lemma_digit_prefix(bytes@, i as int);
        }
        if i == 0 {
            return Err(CondowError::InvalidConfig);
        }
        let ghost rest = bytes@.subrange(i as int, n as int);
        let ghost prefix = bytes@.subrange(0, i as int);
        proof {
            assert forall|a: int| 0 <= a < prefix.len() implies crate::text::is_digit_byte(
                #[trigger] prefix[a],
            ) by {
                assert(prefix[a] == bytes@[a]);
            }
        }
        let val = match parse_decimal(bytes, 0, i) {
            Some(v) => v,
            None => {
                proof {
                    match unit_factor(rest) {
                        Some(f) => {
                            assert(f >= 1);
                            assert(digits_val(prefix) * f > u64::MAX) by (nonlinear_arith)
                                requires
                                    digits_val(prefix) > u64::MAX,
                                    f >= 1,
                            ;
                        },
                        None => {},
                    }
                }
                return Err(CondowError::InvalidConfig);
            },
        };
        let factor: u64 = if i == n {
            proof {
                assert(rest =~= Seq::<u8>::empty());
            }
            1
        } else if n - i == 1 {
            let c = bytes[i];
            proof {
                assert(rest.len() == 1 && rest[0] == c);
            }
            if c == 107 {
                proof {
                    assert(rest =~= seq![107u8]);
                }
                1000
            } else if c == 77 {
                proof {
                    assert(rest =~= seq![77u8]);
                }
                1000000
            } else if c == 71 {
                proof {
                    assert(rest =~= seq![71u8]);
                }
                1000000000
            } else {
                proof {
                    assert(unit_factor(rest) is None);
                }
                return Err(CondowError::InvalidConfig);
            }
        } else if n - i == 2 {
            let c0 = bytes[i];
            let c1 = bytes[i + 1];
            proof {
                assert(rest.len() == 2 && rest[0] == c0 && rest[1] == c1);
            }
            if c1 == 105 && c0 == 75 {
                proof {
                    assert(rest =~= seq![75u8, 105u8]);
                }
                1024
            } else if c1 == 105 && c0 == 77 {
                proof {
                    assert(rest =~= seq![77u8, 105u8]);
                }
                1048576
            } else if c1 == 105 && c0 == 71 {
                proof {
                    assert(rest =~= seq![71u8, 105u8]);
                }
                1073741824
            } else {
                proof {
                    assert(unit_factor(rest) is None);
                }
                return Err(CondowError::InvalidConfig);
            }
        } else {
            proof {
                assert(rest.len() >= 3);
                assert(unit_factor(rest) is None);
            }
            return Err(CondowError::InvalidConfig);
        };
        match val.checked_mul(factor) {
            Some(total) => {
                proof {
                    assert(total == digits_val(prefix) * factor as int);
                }
                Ok(PartSizeBytes(total))
            },
            None => {
                proof {
                    assert(digits_val(prefix) * factor as int > u64::MAX);
                }
                Err(CondowError::InvalidConfig)
            },
        }
    }
}

impl Default for PartSizeBytes {
    /// 2 MiB.
    fn default() -> (r: Self)
        ensures
            r.0 == 2097152,
    {
        PartSizeBytes(2097152)
    }
}

impl vstd::std_specs::convert::FromSpecImpl<u64> for PartSizeBytes {
    open spec fn obeys_from_spec() -> bool {
        true
    }

    open spec fn from_spec(v: u64) -> Self {
        PartSizeBytes(v)
    }
}

impl From<u64> for PartSizeBytes {
    fn from(v: u64) -> (r: Self) {
        PartSizeBytes(v)
    }
}

impl vstd::std_specs::convert::FromSpecImpl<PartSizeBytes> for u64 {
    open spec fn obeys_from_spec() -> bool {
        true
    }

    open spec fn from_spec(v: PartSizeBytes) -> Self {
        v.0
    }
}

impl From<PartSizeBytes> for u64 {
    fn from(v: PartSizeBytes) -> (r: Self) {
        v.0
    }
}

/// Maximum number of in-flight fetches; must be at least 1.
#[derive(Debug, Copy, Clone, PartialEq, Eq, Structural)]
pub struct MaxConcurrency(pub usize);

impl MaxConcurrency {
    /// Wraps a concurrency cap.
    pub fn new(max_concurrency: usize) -> (r: Self)
        ensures
            r.0 == max_concurrency,
    {
        Self(max_concurrency)
    }
}

impl Default for MaxConcurrency {
    /// 64 concurrent fetches.
    fn default() -> (r: Self)
        ensures
            r.0 == 64,
    {
        MaxConcurrency(64)
    }
}

/// Number of completed-but-not-yet-emitted parts held before backpressure
/// sets in; must be at least 1.
#[derive(Debug, Copy, Clone, PartialEq, Eq, Structural)]
pub struct BufferSize(pub usize);

impl BufferSize {
    /// Wraps a buffer size, counted in parts.
    pub fn new(buffer_size: usize) -> (r: Self)
        ensures
            r.0 == buffer_size,
    {
        Self(buffer_size)
    }
}

impl Default for BufferSize {
    /// 2 part slots.
    fn default() -> (r: Self)
        ensures
            r.0 == 2,
    {
        BufferSize(2)
    }
}

/// Whether to query the blob's size for closed ranges, so that the range can
/// be clamped to the end of the blob.
#[derive(Debug, Copy, Clone, PartialEq, Eq, Structural)]
pub struct AlwaysGetSize(pub bool);

impl AlwaysGetSize {
    /// Wraps the flag.
    pub fn new(always_get_size: bool) -> (r: Self)
        ensures
            r.0 == always_get_size,
    {
        Self(always_get_size)
    }
}

impl Default for AlwaysGetSize {
    /// Sizes are queried by default.
    fn default() -> (r: Self)
        ensures
            r.0 == true,
    {
        AlwaysGetSize(true)
    }
}

/// How long to pause, in milliseconds, when the pipeline is stalled waiting
/// for the consumer or for a specific part. A stall-polling cadence, not a
/// timeout.
#[derive(Debug, Copy, Clone, PartialEq, Eq, Structural)]
pub struct BuffersFullDelay(pub u64);

impl BuffersFullDelay {
    /// The delay in milliseconds.
    pub fn into_inner(self) -> (r: u64)
        ensures
            r == self.0,
    {
        self.0
    }
}

impl BuffersFullDelay {
    /// Reads a delay literal: decimal digits, in milliseconds. Anything
    /// else, or a value over `u64::MAX`, is rejected.
    pub fn parse(s: &str) -> (r: Result<Self, CondowError>)
        ensures
            r is Ok <==> (s.spec_bytes().len() > 0 && all_digit_bytes(s.spec_bytes())
                && digits_val(s.spec_bytes()) <= u64::MAX),
            r matches Ok(d) ==> d.0 == digits_val(s.spec_bytes()),
            r is Err ==> r == Err::<BuffersFullDelay, CondowError>(CondowError::InvalidConfig),
    {
        let bytes = s.as_bytes();
        let n = bytes.len();
        if n == 0 {
            return Err(CondowError::InvalidConfig);
        }
        let mut i: usize = 0;
        while i < n
            invariant
                0 <= i <= n,
                n == bytes@.len(),
                bytes@ == s.spec_bytes(),
                forall|j: int| 0 <= j < i ==> crate::text::is_digit_byte(#[trigger] bytes@[j]),
            decreases n - i,
        {
            if !is_digit(bytes[i]) {
                return Err(CondowError::InvalidConfig);
            }
            i += 1;
        }
        proof {
            assert(bytes@.subrange(0, n as int) =~= bytes@);
        }
        match parse_decimal(bytes, 0, n) {
            Some(v) => Ok(BuffersFullDelay(v)),
            None => Err(CondowError::InvalidConfig),
        }
    }
}

impl Default for BuffersFullDelay {
    /// 10 milliseconds.
    fn default() -> (r: Self)
        ensures
            r.0 == 10,
    {
        BuffersFullDelay(10)
    }
}

/// A duration given in milliseconds.
#[derive(Debug, Copy, Clone, PartialEq, Eq, Structural)]
pub struct Millis(pub u64);

impl vstd::std_specs::convert::FromSpecImpl<Millis> for BuffersFullDelay {
    open spec fn obeys_from_spec() -> bool {
        true
    }

    open spec fn from_spec(v: Millis) -> Self {
        BuffersFullDelay(v.0)
    }
}

impl From<Millis> for BuffersFullDelay {
    fn from(v: Millis) -> (r: Self) {
        BuffersFullDelay(v.0)
    }
}

/// A size given in units of 1000 bytes.
#[derive(Debug, Copy, Clone, PartialEq, Eq, Structural)]
pub struct Kilo(pub u64);

impl Kilo {
    /// The size in bytes.
    pub fn value(self) -> (r: u64)
        requires
            self.0 * 1000 <= u64::MAX,
        ensures
            r == self.0 * 1000,
    {
        self.0 * 1000
    }
}

/// A size given in units of 1,000,000 bytes.
#[derive(Debug, Copy, Clone, PartialEq, Eq, Structural)]
pub struct Mega(pub u64);

impl Mega {
    /// The size in bytes.
    pub fn value(self) -> (r: u64)
        requires
            self.0 * 1000000 <= u64::MAX,
        ensures
            r == self.0 * 1000000,
    {
        self.0 * 1000000
    }
}

/// A size given in units of 1,000,000,000 bytes.
#[derive(Debug, Copy, Clone, PartialEq, Eq, Structural)]
pub struct Giga(pub u64);

impl Giga {
    /// The size in bytes.
    pub fn value(self) -> (r: u64)
        requires
            self.0 * 1000000000 <= u64::MAX,
        ensures
            r == self.0 * 1000000000,
    {
        self.0 * 1000000000
    }
}

/// A size given in units of 1024 bytes.
#[derive(Debug, Copy, Clone, PartialEq, Eq, Structural)]
pub struct Kibi(pub u64);

impl Kibi {
    /// The size in bytes.
    pub fn value(self) -> (r: u64)
        requires
            self.0 * 1024 <= u64::MAX,
        ensures
            r == self.0 * 1024,
    {
        self.0 * 1024
    }
}

/// A size given in units of 1024 * 1024 bytes.
#[derive(Debug, Copy, Clone, PartialEq, Eq, Structural)]
pub struct Mebi(pub u64);

impl Mebi {
    /// The size in bytes.
    pub fn value(self) -> (r: u64)
        requires
            self.0 * 1048576 <= u64::MAX,
        ensures
            r == self.0 * 1048576,
    {
        self.0 * 1048576
    }
}

/// A size given in units of 1024 * 1024 * 1024 bytes.
#[derive(Debug, Copy, Clone, PartialEq, Eq, Structural)]
pub struct Gibi(pub u64);

impl Gibi {
    /// The size in bytes.
    pub fn value(self) -> (r: u64)
        requires
            self.0 * 1073741824 <= u64::MAX,
        ensures
            r == self.0 * 1073741824,
    {
        self.0 * 1073741824
    }
}

/// The tunables of one download engine.
#[derive(Debug, Copy, Clone, PartialEq, Eq, Structural)]
pub struct Config {
    pub part_size_bytes: PartSizeBytes,
    pub max_concurrency: MaxConcurrency,
    pub buffer_size: BufferSize,
    pub buffers_full_delay: BuffersFullDelay,
    pub always_get_size: AlwaysGetSize,
}

impl Default for Config {
    /// All fields at their defaults.
    fn default() -> (r: Self)
        ensures
            r.part_size_bytes.0 == 2097152,
            r.max_concurrency.0 == 64,
            r.buffer_size.0 == 2,
            r.buffers_full_delay.0 == 10,
            r.always_get_size.0 == true,
    {
        Config {
            part_size_bytes: PartSizeBytes(2097152),
            max_concurrency: MaxConcurrency(64),
            buffer_size: BufferSize(2),
            buffers_full_delay: BuffersFullDelay(10),
            always_get_size: AlwaysGetSize(true),
        }
    }
}

impl Config {
    /// A configuration is usable when the part size and the concurrency cap
    /// are both non-zero.
    pub open spec fn spec_is_valid(self) -> bool {
        self.part_size_bytes.0 >= 1 && self.max_concurrency.0 >= 1
    }

    /// Replaces the part size.
    pub fn part_size_bytes(self, v: PartSizeBytes) -> (r: Self)
        ensures
            r == (Config { part_size_bytes: v, ..self }),
    {
        Config { part_size_bytes: v, ..self }
    }

    /// Replaces the concurrency cap.
    pub fn max_concurrency(self, v: MaxConcurrency) -> (r: Self)
        ensures
            r == (Config { max_concurrency: v, ..self }),
    {
        Config { max_concurrency: v, ..self }
    }

    /// Replaces the buffer size.
    pub fn buffer_size(self, v: BufferSize) -> (r: Self)
        ensures
            r == (Config { buffer_size: v, ..self }),
    {
        Config { buffer_size: v, ..self }
    }

    /// Replaces the stall-polling delay.
    pub fn buffers_full_delay(self, v: BuffersFullDelay) -> (r: Self)
        ensures
            r == (Config { buffers_full_delay: v, ..self }),
    {
        Config { buffers_full_delay: v, ..self }
    }

    /// Replaces the size-query flag.
    pub fn always_get_size(self, v: AlwaysGetSize) -> (r: Self)
        ensures
            r == (Config { always_get_size: v, ..self }),
    {
        Config { always_get_size: v, ..self }
    }

    /// Rejects a configuration with a zero part size or a zero concurrency
    /// cap.
    pub fn validated(self) -> (r: Result<Self, CondowError>)
        ensures
            r is Ok <==> self.spec_is_valid(),
            r matches Ok(c) ==> c == self,
            !self.spec_is_valid() ==> r == Err::<Config, CondowError>(CondowError::InvalidConfig),
    {
        if self.max_concurrency.0 == 0 {
            return Err(CondowError::InvalidConfig);
        }
        if self.part_size_bytes.0 == 0 {
            return Err(CondowError::InvalidConfig);
        }
        Ok(self)
    }
}

} // verus!
