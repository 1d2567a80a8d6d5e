//! One-indexed inclusive line spans, stored zero-indexed and half-open.
use vstd::prelude::*;

use crate::text::{dec, push_decimal, push_str};

verus! {

/// `Range::clone` (derived by std); nothing is claimed of the copy it makes.
pub assume_specification<Idx: Clone>[ <core::ops::Range<Idx> as Clone>::clone ](
    r: &core::ops::Range<Idx>,
) -> core::ops::Range<Idx>;

/// A line span, stored in the canonical 0-indexed half-open form.
#[derive(Debug, Clone, PartialEq, Eq)]
pub struct LineRange(pub core::ops::Range<usize>);

/// Why a 1-indexed inclusive span was rejected.
#[derive(Debug, Clone, PartialEq, Eq)]
pub enum LineRangeError {
    /// The start line was 0.
    InvalidStart,
    /// The end line came before the start line.
    InvalidOrder { start: u32, end: u32 },
}

impl LineRangeError {
    /// The error's message.
    pub fn message(&self) -> (s: String)
        ensures
            s@ == match self {
                LineRangeError::InvalidStart => "line range start must be >= 1"@,
                LineRangeError::InvalidOrder { start, end } => "line range end "@ + dec(
                    *end as nat,
                ) + " must be >= start "@ + dec(*start as nat),
            },
    {
        let mut s = String::new();
        match self {
            LineRangeError::InvalidStart => {
                push_str(&mut s, "line range start must be >= 1");
            },
            LineRangeError::InvalidOrder { start, end } => {
                push_str(&mut s, "line range end ");
                push_decimal(&mut s, *end as u64);
                push_str(&mut s, " must be >= start ");
                push_decimal(&mut s, *start as u64);
            },
        }
        s
    }
}

impl LineRange {
    /// Builds the span from its 1-indexed inclusive form `value.start..value.end`:
    /// lines `value.start` through `value.end`, both included.
    pub fn try_from(value: core::ops::Range<u32>) -> (r: Result<LineRange, LineRangeError>)
        ensures
            value.start == 0 ==> r == Err::<LineRange, LineRangeError>(
                LineRangeError::InvalidStart,
            ),
            value.start != 0 && value.end < value.start ==> r == Err::<LineRange, LineRangeError>(
                LineRangeError::InvalidOrder { start: value.start, end: value.end },
            ),
            value.start != 0 && value.end >= value.start ==> (r matches Ok(lr) && lr.0.start
                == value.start - 1 && lr.0.end == value.end),
    {
        let start = value.start;
        let end = value.end;
        if start == 0 {
            return Err(LineRangeError::InvalidStart);
        }
        if end < start {
            return Err(LineRangeError::InvalidOrder { start, end });
        }
        Ok(LineRange((start - 1) as usize..end as usize))
    }

    /// The first line, 1-indexed.
    pub fn start_one_indexed(&self) -> (n: usize)
        requires
            self.0.start < usize::MAX,
        ensures
            n == self.0.start + 1,
    {
        self.0.start + 1
    }

    /// The last line, 1-indexed and inclusive.
    pub fn end_one_indexed(&self) -> (n: usize)
        ensures
            n == self.0.end,
    {
        self.0.end
    }
}

} // verus!
