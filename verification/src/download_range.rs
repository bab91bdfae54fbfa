//! Ranges for specifying downloads.
//!
//! User-facing range shapes are validated and resolved into the canonical
//! [`InclusiveRange`], the only form downstream components consume.
//!
//! Each shape denotes a half-open interval of byte indices; resolution
//! against a blob size intersects that interval with `[0, size)` and returns
//! the result as an inclusive range, or `None` when the intersection is
//! empty.

use vstd::prelude::*;
use vstd::string::StringExecFns;

use crate::errors::CondowError;
use crate::text::{append_decimal, dec_chars};

verus! {

/// The smaller of two mathematical integers.
pub open spec fn min_int(a: int, b: int) -> int {
    if a <= b {
        a
    } else {
        b
    }
}

/// An inclusive byte range `[lo, hi]`; canonical when `lo <= hi`.
///
/// All internal components consume this form exclusively. A value with
/// `hi < lo` denotes the empty range and has length 0.
#[derive(Debug, Copy, Clone, PartialEq, Eq, Structural)]
pub struct InclusiveRange(pub u64, pub u64);

impl InclusiveRange {
    /// Length of the range, 0 when `hi < lo`.
    pub open spec fn spec_len(&self) -> int {
        if self.1 < self.0 {
            0
        } else {
            self.1 - self.0 + 1
        }
    }

    /// First byte of the range.
    pub fn start(&self) -> (r: u64)
        ensures
            r == self.0,
    {
        self.0
    }

    /// Last byte of the range, inclusive.
    pub fn end_incl(&self) -> (r: u64)
        ensures
            r == self.1,
    {
        self.1
    }

    /// Number of bytes covered by the range.
    pub fn len(&self) -> (r: u64)
        requires
            self.spec_len() <= u64::MAX,
        ensures
            r == self.spec_len(),
    {
        if self.1 < self.0 {
            return 0;
        }
        self.1 - self.0 + 1
    }

    /// The same interval as a standard inclusive range.
    pub fn to_std_range(self) -> (r: core::ops::RangeInclusive<u64>)
        ensures
            r@.start == self.0,
            r@.end == self.1,
    {
        core::ops::RangeInclusive::new(self.0, self.1)
    }

    /// The same interval as a standard inclusive range over `usize`.
    pub fn to_std_range_usize(self) -> (r: core::ops::RangeInclusive<usize>)
        requires
            self.0 <= usize::MAX,
            self.1 <= usize::MAX,
        ensures
            r@.start == self.0,
            r@.end == self.1,
    {
        core::ops::RangeInclusive::new(self.0 as usize, self.1 as usize)
    }

    /// The range rendered as `[lo,hi]`.
    pub open spec fn spec_display(self) -> Seq<char> {
        "["@ + dec_chars(self.0 as int) + ","@ + dec_chars(self.1 as int) + "]"@
    }

    /// Renders the range for diagnostics, as `[lo,hi]`.
    pub fn display_string(&self) -> (r: String)
        ensures
            r@ == self.spec_display(),
    {
        let mut out = String::from_str("[");
        append_decimal(&mut out, self.0);
        out.append(",");
        append_decimal(&mut out, self.1);
        out.append("]");
        proof {
            assert(out@ =~= self.spec_display());
        }
        out
    }

    /// The value for an `HTTP-Range` header with bytes as the unit:
    /// `bytes=<lo>-<hi>`.
    pub fn http_range_value(&self) -> (r: String)
        ensures
            r@ == "bytes="@ + dec_chars(self.0 as int) + "-"@ + dec_chars(self.1 as int),
    {
        let mut out = String::from_str("bytes=");
        append_decimal(&mut out, self.0);
        out.append("-");
        append_decimal(&mut out, self.1);
        proof {
            assert(out@ =~= "bytes="@ + dec_chars(self.0 as int) + "-"@ + dec_chars(
                self.1 as int,
            ));
        }
        out
    }

    /// The same interval as a standard half-open range.
    pub fn to_std_range_excl(self) -> (r: core::ops::Range<u64>)
        requires
            self.1 < u64::MAX,
        ensures
            r.start == self.0,
            r.end == self.1 + 1,
    {
        self.0..self.1 + 1
    }
}

/// A range defined by an offset and a length, with half-open semantics:
/// it covers the bytes `[offset, offset + len)`.
#[derive(Debug, Copy, Clone, PartialEq, Eq, Structural)]
pub struct OffsetRange(pub u64, pub u64);

impl OffsetRange {
    /// Builds the range covering `[offset, offset + len)`.
    pub fn new(offset: u64, len: u64) -> (r: Self)
        ensures
            r.0 == offset,
            r.1 == len,
    {
        Self(offset, len)
    }

    /// First byte of the range.
    pub fn start(&self) -> (r: u64)
        ensures
            r == self.0,
    {
        self.0
    }

    /// One past the last byte of the range.
    pub fn end_excl(&self) -> (r: u64)
        requires
            self.0 + self.1 <= u64::MAX,
        ensures
            r == self.0 + self.1,
    {
        self.0 + self.1
    }

    /// Number of bytes covered by the range.
    pub fn len(&self) -> (r: u64)
        ensures
            r == self.1,
    {
        self.1
    }

    /// The range rendered as `offset(len)`.
    pub open spec fn spec_display(self) -> Seq<char> {
        dec_chars(self.0 as int) + "("@ + dec_chars(self.1 as int) + ")"@
    }

    /// Renders the range for diagnostics, as `offset(len)`.
    pub fn display_string(&self) -> (r: String)
        ensures
            r@ == self.spec_display(),
    {
        let mut out = String::new();
        append_decimal(&mut out, self.0);
        out.append("(");
        append_decimal(&mut out, self.1);
        out.append(")");
        proof {
            assert(out@ =~= self.spec_display());
        }
        out
    }

    /// The equivalent download range, a closed half-open shape.
    pub fn to_download_range(self) -> (r: DownloadRange)
        requires
            self.0 + self.1 <= u64::MAX,
        ensures
            r == DownloadRange::Closed(ClosedRange::FromTo(self.0, (self.0 + self.1) as u64)),
    {
        DownloadRange::Closed(ClosedRange::FromTo(self.0, self.0 + self.1))
    }
}

/// A closed range: one with a caller-supplied upper bound.
///
/// Resolving a closed range does not require the blob's size. When a size is
/// supplied anyway, the upper bound is clamped to the end of the blob; when
/// it is not, the caller is responsible for staying within bounds.
#[derive(Debug, Clone, Copy, PartialEq, Eq, Structural)]
pub enum ClosedRange {
    /// Bytes `[a, b)`.
    FromTo(u64, u64),
    /// Bytes `[a, b]`.
    FromToInclusive(u64, u64),
    /// Bytes `[0, b)`.
    To(u64),
    /// Bytes `[0, b]`.
    ToInclusive(u64),
}

impl ClosedRange {
    /// First byte the shape asks for.
    pub open spec fn spec_first(self) -> int {
        match self {
            ClosedRange::FromTo(a, _) => a as int,
            ClosedRange::FromToInclusive(a, _) => a as int,
            ClosedRange::To(_) => 0,
            ClosedRange::ToInclusive(_) => 0,
        }
    }

    /// One past the last byte the shape asks for, before any clamping.
    pub open spec fn spec_end_excl(self) -> int {
        match self {
            ClosedRange::FromTo(_, b) => b as int,
            ClosedRange::FromToInclusive(_, b) => b + 1,
            ClosedRange::To(b) => b as int,
            ClosedRange::ToInclusive(b) => b + 1,
        }
    }

    /// A shape is valid unless its end lies before its start.
    pub open spec fn spec_is_valid(self) -> bool {
        match self {
            ClosedRange::FromTo(a, b) => a <= b,
            ClosedRange::FromToInclusive(a, b) => a <= b,
            ClosedRange::To(_) => true,
            ClosedRange::ToInclusive(_) => true,
        }
    }

    /// A shape is empty when it asks for no bytes at all.
    pub open spec fn spec_is_empty(self) -> bool {
        self.spec_end_excl() <= self.spec_first()
    }

    /// What resolving against a blob of `size` bytes yields: the bytes the
    /// shape asks for, intersected with `[0, size)`; `None` when that
    /// intersection is empty.
    pub open spec fn spec_resolved(self, size: int) -> Option<InclusiveRange> {
        let end_excl = min_int(self.spec_end_excl(), size);
        if self.spec_first() < end_excl {
            Some(InclusiveRange(self.spec_first() as u64, (end_excl - 1) as u64))
        } else {
            None
        }
    }

    /// What resolving without a size yields: the bytes the shape asks for,
    /// unclamped; `None` when the shape is empty.
    pub open spec fn spec_resolved_unbounded(self) -> Option<InclusiveRange> {
        if self.spec_first() < self.spec_end_excl() {
            Some(InclusiveRange(self.spec_first() as u64, (self.spec_end_excl() - 1) as u64))
        } else {
            None
        }
    }

    /// The shape rendered in interval notation, an open bracket marking an
    /// exclusive end.
    pub open spec fn spec_display(self) -> Seq<char> {
        match self {
            ClosedRange::To(b) => "[0.."@ + dec_chars(b as int) + "["@,
            ClosedRange::ToInclusive(b) => "[0.."@ + dec_chars(b as int) + "]"@,
            ClosedRange::FromTo(a, b) => "["@ + dec_chars(a as int) + ".."@ + dec_chars(b as int)
                + "["@,
            ClosedRange::FromToInclusive(a, b) => "["@ + dec_chars(a as int) + ".."@ + dec_chars(
                b as int,
            ) + "]"@,
        }
    }

    /// Renders the shape for diagnostics, in interval notation.
    pub fn display_string(&self) -> (r: String)
        ensures
            r@ == self.spec_display(),
    {
        let out = match self {
            ClosedRange::To(b) => {
                let mut o = String::from_str("[0..");
                append_decimal(&mut o, *b);
                o.append("[");
                o
            },
            ClosedRange::ToInclusive(b) => {
                let mut o = String::from_str("[0..");
                append_decimal(&mut o, *b);
                o.append("]");
                o
            },
            ClosedRange::FromTo(a, b) => {
                let mut o = String::from_str("[");
                append_decimal(&mut o, *a);
                o.append("..");
                append_decimal(&mut o, *b);
                o.append("[");
                o
            },
            ClosedRange::FromToInclusive(a, b) => {
                let mut o = String::from_str("[");
                append_decimal(&mut o, *a);
                o.append("..");
                append_decimal(&mut o, *b);
                o.append("]");
                o
            },
        };
        proof {
            assert(out@ =~= self.spec_display());
        }
        out
    }

    /// Rejects shapes whose end lies before their start.
    pub fn validate(&self) -> (r: Result<(), CondowError>)
        ensures
            r is Ok <==> self.spec_is_valid(),
            !self.spec_is_valid() ==> r == Err::<(), CondowError>(CondowError::InvalidRange),
    {
        match self {
            Self::FromTo(a, b) => {
                if b < a {
                    Err(CondowError::InvalidRange)
                } else {
                    Ok(())
                }
            },
            Self::FromToInclusive(a, b) => {
                if b < a {
                    Err(CondowError::InvalidRange)
                } else {
                    Ok(())
                }
            },
            _ => Ok(()),
        }
    }

    /// Collapses empty shapes to `None`; a surviving shape asks for at least
    /// one byte (though a blob may still be too short to supply it).
    pub fn sanitized(self) -> (r: Option<Self>)
        ensures
            r == if self.spec_is_empty() {
                Option::<ClosedRange>::None
            } else {
                Some(self)
            },
    {
        match self {
            Self::FromTo(a, b) => {
                if b <= a {
                    return None;
                }
            },
            Self::FromToInclusive(a, b) => {
                if b < a {
                    return None;
                }
            },
            Self::To(0) => {
                return None;
            },
            Self::To(_) => {},
            Self::ToInclusive(_) => {},
        }
        Some(self)
    }

    /// Resolves against a blob of `size` bytes, clamping the upper bound to
    /// the end of the blob.
    pub fn incl_range_from_size(self, size: u64) -> (r: Option<InclusiveRange>)
        ensures
            r == self.spec_resolved(size as int),
            r matches Some(ir) ==> ir.0 <= ir.1 < size,
    {
        if size == 0 {
            return None;
        }
        let max_inclusive = size - 1;
        let inclusive = match self {
            Self::FromTo(a, b) => {
                if b == 0 {
                    return None;
                }
                let end = if max_inclusive <= b - 1 {
                    max_inclusive
                } else {
                    b - 1
                };
                InclusiveRange(a, end)
            },
            Self::FromToInclusive(a, b) => {
                let end = if max_inclusive <= b {
                    max_inclusive
                } else {
                    b
                };
                InclusiveRange(a, end)
            },
            Self::To(b) => {
                if b == 0 {
                    return None;
                }
                let end = if max_inclusive <= b - 1 {
                    max_inclusive
                } else {
                    b - 1
                };
                InclusiveRange(0, end)
            },
            Self::ToInclusive(b) => {
                let end = if max_inclusive <= b {
                    max_inclusive
                } else {
                    b
                };
                InclusiveRange(0, end)
            },
        };
        if inclusive.1 < inclusive.0 {
            return None;
        }
        Some(inclusive)
    }

    /// Resolves without consulting the blob's size; the caller must keep the
    /// result within bounds.
    pub fn incl_range(self) -> (r: Option<InclusiveRange>)
        ensures
            r == self.spec_resolved_unbounded(),
            r matches Some(ir) ==> ir.0 <= ir.1,
    {
        let inclusive = match self {
            Self::FromTo(a, b) => {
                if b == 0 {
                    return None;
                }
                InclusiveRange(a, b - 1)
            },
            Self::FromToInclusive(a, b) => InclusiveRange(a, b),
            Self::To(b) => {
                if b == 0 {
                    return None;
                }
                InclusiveRange(0, b - 1)
            },
            Self::ToInclusive(b) => InclusiveRange(0, b),
        };
        if inclusive.1 < inclusive.0 {
            return None;
        }
        Some(inclusive)
    }
}

/// An open range: one with no caller-supplied end. Resolving it always
/// requires the blob's size.
#[derive(Debug, Clone, Copy, PartialEq, Eq, Structural)]
pub enum OpenRange {
    /// Bytes from the given position to the end of the blob.
    From(u64),
    /// The whole blob.
    Full,
}

impl OpenRange {
    /// First byte the shape asks for.
    pub open spec fn spec_first(self) -> int {
        match self {
            OpenRange::From(a) => a as int,
            OpenRange::Full => 0,
        }
    }

    /// What resolving against a blob of `size` bytes yields: the bytes from
    /// the start position to the end of the blob, `None` when there are
    /// none.
    pub open spec fn spec_resolved(self, size: int) -> Option<InclusiveRange> {
        if self.spec_first() < size {
            Some(InclusiveRange(self.spec_first() as u64, (size - 1) as u64))
        } else {
            None
        }
    }

    /// Resolves against a blob of `size` bytes.
    pub fn incl_range_from_size(self, size: u64) -> (r: Option<InclusiveRange>)
        ensures
            r == self.spec_resolved(size as int),
            r matches Some(ir) ==> ir.0 <= ir.1 < size,
    {
        if size == 0 {
            return None;
        }
        let max_inclusive = size - 1;
        let inclusive = match self {
            Self::From(a) => InclusiveRange(a, max_inclusive),
            Self::Full => InclusiveRange(0, max_inclusive),
        };
        if inclusive.1 < inclusive.0 {
            return None;
        }
        Some(inclusive)
    }

    /// The shape rendered in interval notation, its end left open.
    pub open spec fn spec_display(self) -> Seq<char> {
        match self {
            OpenRange::From(a) => "["@ + dec_chars(a as int) + "..]"@,
            OpenRange::Full => "[0..]"@,
        }
    }

    /// Renders the shape for diagnostics, in interval notation.
    pub fn display_string(&self) -> (r: String)
        ensures
            r@ == self.spec_display(),
    {
        let out = match self {
            OpenRange::From(a) => {
                let mut o = String::from_str("[");
                append_decimal(&mut o, *a);
                o.append("..]");
                o
            },
            OpenRange::Full => String::from_str("[0..]"),
        };
        proof {
            assert(out@ =~= self.spec_display());
        }
        out
    }
}

/// A range which specifies a download: either open (needs the blob's size)
/// or closed (carries its own upper bound).
#[derive(Debug, Clone, Copy, PartialEq, Eq, Structural)]
pub enum DownloadRange {
    Open(OpenRange),
    Closed(ClosedRange),
}

impl DownloadRange {
    /// A download range is valid unless a closed shape's end lies before its
    /// start.
    pub open spec fn spec_is_valid(self) -> bool {
        match self {
            DownloadRange::Open(_) => true,
            DownloadRange::Closed(c) => c.spec_is_valid(),
        }
    }

    /// A download range is empty when it is a closed shape asking for no
    /// bytes; open shapes are never empty a priori.
    pub open spec fn spec_is_empty(self) -> bool {
        match self {
            DownloadRange::Open(_) => false,
            DownloadRange::Closed(c) => c.spec_is_empty(),
        }
    }

    /// What resolving against a blob of `size` bytes yields.
    pub open spec fn spec_resolved(self, size: int) -> Option<InclusiveRange> {
        match self {
            DownloadRange::Open(o) => o.spec_resolved(size),
            DownloadRange::Closed(c) => c.spec_resolved(size),
        }
    }

    /// Rejects ranges whose end lies before their start.
    pub fn validate(&self) -> (r: Result<(), CondowError>)
        ensures
            r is Ok <==> self.spec_is_valid(),
            !self.spec_is_valid() ==> r == Err::<(), CondowError>(CondowError::InvalidRange),
    {
        match self {
            DownloadRange::Open(_) => Ok(()),
            DownloadRange::Closed(r) => r.validate(),
        }
    }

    /// Collapses empty ranges to `None`, which means "no bytes to download"
    /// and is not an error.
    pub fn sanitized(self) -> (r: Option<Self>)
        ensures
            r == if self.spec_is_empty() {
                Option::<DownloadRange>::None
            } else {
                Some(self)
            },
    {
        match self {
            DownloadRange::Open(_) => Some(self),
            DownloadRange::Closed(r) => match r.sanitized() {
                Some(c) => Some(DownloadRange::Closed(c)),
                None => None,
            },
        }
    }

    /// Resolves against a blob of `size` bytes into the canonical inclusive
    /// interval, clamped to the end of the blob.
    pub fn incl_range_from_size(self, size: u64) -> (r: Option<InclusiveRange>)
        ensures
            r == self.spec_resolved(size as int),
            r matches Some(ir) ==> ir.0 <= ir.1 < size,
    {
        match self {
            DownloadRange::Open(r) => r.incl_range_from_size(size),
            DownloadRange::Closed(r) => r.incl_range_from_size(size),
        }
    }

    /// The range rendered in interval notation.
    pub open spec fn spec_display(self) -> Seq<char> {
        match self {
            DownloadRange::Open(o) => o.spec_display(),
            DownloadRange::Closed(c) => c.spec_display(),
        }
    }

    /// Renders the range for diagnostics, in interval notation.
    pub fn display_string(&self) -> (r: String)
        ensures
            r@ == self.spec_display(),
    {
        match self {
            DownloadRange::Open(o) => o.display_string(),
            DownloadRange::Closed(c) => c.display_string(),
        }
    }
}

/// Declares `core::ops::RangeFull` (`..`), a unit struct, for use in
/// signatures.
#[verifier::external_type_specification]
pub struct ExRangeFull(core::ops::RangeFull);

/// Declares `core::ops::RangeFrom` (`a..`); its public `start` field is
/// read directly.
#[verifier::external_type_specification]
#[verifier::reject_recursive_types(Idx)]
pub struct ExRangeFrom<Idx>(core::ops::RangeFrom<Idx>);

/// Declares `core::ops::RangeTo` (`..b`); its public `end` field is read
/// directly.
#[verifier::external_type_specification]
#[verifier::reject_recursive_types(Idx)]
pub struct ExRangeTo<Idx>(core::ops::RangeTo<Idx>);

/// Declares `core::ops::RangeToInclusive` (`..=b`); its public `end` field
/// is read directly.
#[verifier::external_type_specification]
#[verifier::reject_recursive_types(Idx)]
pub struct ExRangeToInclusive<Idx>(core::ops::RangeToInclusive<Idx>);

/// Relies on RangeInclusive::start: returns the range's lower bound.
pub assume_specification<Idx>[ core::ops::RangeInclusive::<Idx>::start ](
    r: &core::ops::RangeInclusive<Idx>,
) -> (ret: &Idx)
    ensures
        *ret == r@.start,
;

/// Relies on RangeInclusive::end: returns the range's upper bound.
pub assume_specification<Idx>[ core::ops::RangeInclusive::<Idx>::end ](
    r: &core::ops::RangeInclusive<Idx>,
) -> (ret: &Idx)
    ensures
        *ret == r@.end,
;

impl vstd::std_specs::convert::FromSpecImpl<core::ops::RangeInclusive<u64>> for InclusiveRange {
    open spec fn obeys_from_spec() -> bool {
        true
    }

    open spec fn from_spec(v: core::ops::RangeInclusive<u64>) -> Self {
        InclusiveRange(v@.start, v@.end)
    }
}

impl From<core::ops::RangeInclusive<u64>> for InclusiveRange {
    /// `a..=b` as the canonical inclusive range.
    fn from(v: core::ops::RangeInclusive<u64>) -> (r: Self) {
        InclusiveRange(*v.start(), *v.end())
    }
}

impl vstd::std_specs::convert::FromSpecImpl<core::ops::RangeFull> for DownloadRange {
    open spec fn obeys_from_spec() -> bool {
        true
    }

    open spec fn from_spec(v: core::ops::RangeFull) -> Self {
        DownloadRange::Open(OpenRange::Full)
    }
}

impl From<core::ops::RangeFull> for DownloadRange {
    /// `..` asks for the whole blob.
    fn from(_v: core::ops::RangeFull) -> (r: Self) {
        DownloadRange::Open(OpenRange::Full)
    }
}

impl vstd::std_specs::convert::FromSpecImpl<core::ops::Range<u64>> for DownloadRange {
    open spec fn obeys_from_spec() -> bool {
        true
    }

    open spec fn from_spec(v: core::ops::Range<u64>) -> Self {
        DownloadRange::Closed(ClosedRange::FromTo(v.start, v.end))
    }
}

impl From<core::ops::Range<u64>> for DownloadRange {
    /// `a..b` asks for the bytes `[a, b)`.
    fn from(v: core::ops::Range<u64>) -> (r: Self) {
        DownloadRange::Closed(ClosedRange::FromTo(v.start, v.end))
    }
}

impl vstd::std_specs::convert::FromSpecImpl<core::ops::RangeInclusive<u64>> for DownloadRange {
    open spec fn obeys_from_spec() -> bool {
        true
    }

    open spec fn from_spec(v: core::ops::RangeInclusive<u64>) -> Self {
        DownloadRange::Closed(ClosedRange::FromToInclusive(v@.start, v@.end))
    }
}

impl From<core::ops::RangeInclusive<u64>> for DownloadRange {
    /// `a..=b` asks for the bytes `[a, b]`.
    fn from(v: core::ops::RangeInclusive<u64>) -> (r: Self) {
        DownloadRange::Closed(ClosedRange::FromToInclusive(*v.start(), *v.end()))
    }
}

impl vstd::std_specs::convert::FromSpecImpl<core::ops::RangeFrom<u64>> for DownloadRange {
    open spec fn obeys_from_spec() -> bool {
        true
    }

    open spec fn from_spec(v: core::ops::RangeFrom<u64>) -> Self {
        DownloadRange::Open(OpenRange::From(v.start))
    }
}

impl From<core::ops::RangeFrom<u64>> for DownloadRange {
    /// `a..` asks for the bytes from `a` to the end of the blob.
    fn from(v: core::ops::RangeFrom<u64>) -> (r: Self) {
        DownloadRange::Open(OpenRange::From(v.start))
    }
}

impl vstd::std_specs::convert::FromSpecImpl<core::ops::RangeTo<u64>> for DownloadRange {
    open spec fn obeys_from_spec() -> bool {
        true
    }

    open spec fn from_spec(v: core::ops::RangeTo<u64>) -> Self {
        DownloadRange::Closed(ClosedRange::To(v.end))
    }
}

impl From<core::ops::RangeTo<u64>> for DownloadRange {
    /// `..b` asks for the bytes `[0, b)`.
    fn from(v: core::ops::RangeTo<u64>) -> (r: Self) {
        DownloadRange::Closed(ClosedRange::To(v.end))
    }
}

impl vstd::std_specs::convert::FromSpecImpl<core::ops::RangeToInclusive<u64>> for DownloadRange {
    open spec fn obeys_from_spec() -> bool {
        true
    }

    open spec fn from_spec(v: core::ops::RangeToInclusive<u64>) -> Self {
        DownloadRange::Closed(ClosedRange::ToInclusive(v.end))
    }
}

impl From<core::ops::RangeToInclusive<u64>> for DownloadRange {
    /// `..=b` asks for the bytes `[0, b]`.
    fn from(v: core::ops::RangeToInclusive<u64>) -> (r: Self) {
        DownloadRange::Closed(ClosedRange::ToInclusive(v.end))
    }
}

impl vstd::std_specs::convert::FromSpecImpl<InclusiveRange> for DownloadRange {
    open spec fn obeys_from_spec() -> bool {
        true
    }

    open spec fn from_spec(v: InclusiveRange) -> Self {
        DownloadRange::Closed(ClosedRange::FromToInclusive(v.0, v.1))
    }
}

impl From<InclusiveRange> for DownloadRange {
    /// An inclusive range asks for exactly its own bytes.
    fn from(v: InclusiveRange) -> (r: Self) {
        DownloadRange::Closed(ClosedRange::FromToInclusive(v.0, v.1))
    }
}

/// Resolution stays within the blob: a resolved interval lies inside
/// `[0, size - 1]`, and an empty shape or an empty blob resolves to `None`.
pub proof fn lemma_resolve_in_bounds(r: DownloadRange, size: u64)
    ensures
        r.spec_resolved(size as int) matches Some(ir) ==> 0 <= ir.0 <= ir.1 < size,
        r.spec_is_empty() || size == 0 ==> r.spec_resolved(size as int) is None,
{
}

/// Resolution is idempotent under re-conversion: feeding a resolved
/// interval back through its equivalent download-range forms — the
/// inclusive form (`From<InclusiveRange>`, `a..=b`) or the half-open form
/// (`a..b`, as `to_std_range_excl` writes it) — and resolving against the
/// same size yields the interval unchanged.
pub proof fn lemma_resolve_idempotent(r: DownloadRange, size: u64)
    ensures
        r.spec_resolved(size as int) matches Some(ir) ==> DownloadRange::Closed(
            ClosedRange::FromToInclusive(ir.0, ir.1),
        ).spec_resolved(size as int) == Some(ir),
        r.spec_resolved(size as int) matches Some(ir) ==> DownloadRange::Closed(
            ClosedRange::FromTo(ir.0, (ir.1 + 1) as u64),
        ).spec_resolved(size as int) == Some(ir),
{
    lemma_resolve_in_bounds(r, size);
}

} // verus!
