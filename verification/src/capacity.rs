//! Policies that decide how far a vector's capacity grows or shrinks.
//!
//! The policies count in elements. What a vector then allocates is the
//! whole words that the chosen number of elements needs, so that the
//! capacity it ends with can be a little more than the policy asked for.

use vstd::prelude::*;

verus! {

/// How far to grow when the capacity does not suffice.
#[derive(Clone, Copy, Debug)]
pub enum Grow {
    /// To the number of elements requested.
    Exact,
    /// To the number of elements requested and this many more.
    ExactPlus(usize),
    /// To one and a half times the current capacity, or to the number of
    /// elements requested if that is more.
    OnePointFive,
    /// To twice the current capacity, or to the number of elements
    /// requested if that is more.
    Double,
}

/// How far to shrink.
///
/// The policies that end in `OrMinimum` never go below the current
/// length. Those that end in `Truncate` may: the elements that no longer
/// fit are then dropped from the end of the vector.
#[derive(Clone, Copy, Debug)]
pub enum Shrink {
    /// To the current length.
    Minimum,
    /// By this many elements, but not below the current length.
    SubtractOrMinimum(usize),
    /// By this many elements, at most down to nothing.
    SubtractTruncate(usize),
    /// To three quarters of the capacity, but not below the current length.
    ThreeQuartersOrMinimum,
    /// To three quarters of the capacity.
    ThreeQuartersTruncate,
    /// To half of the capacity, but not below the current length.
    HalfOrMinimum,
    /// To half of the capacity.
    HalfTruncate,
}

/// A number of elements, given in all or as an addition to the current
/// length.
#[derive(Clone, Copy, Debug)]
pub enum ElementCount {
    /// This many elements in all.
    Total(usize),
    /// This many elements more than there are.
    Additional(usize),
}

/// The larger of two numbers.
pub open spec fn larger(a: int, b: int) -> int {
    if a >= b {
        a
    } else {
        b
    }
}

/// The smaller of two numbers.
pub open spec fn smaller(a: int, b: int) -> int {
    if a <= b {
        a
    } else {
        b
    }
}

impl Default for Grow {
    fn default() -> (policy: Self)
        ensures
            policy == Grow::OnePointFive,
    {
        Grow::OnePointFive
    }
}

impl Default for Shrink {
    fn default() -> (policy: Self)
        ensures
            policy == Shrink::ThreeQuartersOrMinimum,
    {
        Shrink::ThreeQuartersOrMinimum
    }
}

impl Grow {
    /// The capacity to grow to from `current` so that `requested` elements
    /// fit, never more than `max`.
    pub open spec fn target(self, current: int, requested: int, max: int) -> int {
        let wish = match self {
            Grow::Exact => requested,
            Grow::ExactPlus(slack) => requested + slack,
            Grow::OnePointFive => larger(requested, current + current / 2),
            Grow::Double => larger(requested, 2 * current),
        };
        smaller(wish, max)
    }

    /// Computes [`Grow::target`], saturating where the sum would leave the
    /// range of `usize`.
    pub fn grow_target(self, current: usize, requested: usize, max: usize) -> (target: usize)
        requires
            requested <= max,
        ensures
            target == self.target(current as int, requested as int, max as int),
            requested <= target <= max,
    {
        let wish = match self {
            Grow::Exact => requested,
            Grow::ExactPlus(slack) => if slack <= max - requested {
                requested + slack
            } else {
                max
            },
            Grow::OnePointFive => {
                let half = current / 2;
                let grown = if half <= usize::MAX - current {
                    current + half
                } else {
                    usize::MAX
                };
                if grown > requested {
                    grown
                } else {
                    requested
                }
            },
            Grow::Double => {
                let grown = if current <= usize::MAX - current {
                    current + current
                } else {
                    usize::MAX
                };
                if grown > requested {
                    grown
                } else {
                    requested
                }
            },
        };
        if wish > max {
            max
        } else {
            wish
        }
    }
}

impl Shrink {
    /// The capacity to shrink to from `current` with `len` elements held.
    pub open spec fn target(self, len: int, current: int) -> int {
        match self {
            Shrink::Minimum => len,
            Shrink::SubtractOrMinimum(count) => larger(len, current - count),
            Shrink::SubtractTruncate(count) => larger(0, current - count),
            Shrink::ThreeQuartersOrMinimum => larger(len, current / 2 + current / 4),
            Shrink::ThreeQuartersTruncate => current / 2 + current / 4,
            Shrink::HalfOrMinimum => larger(len, current / 2),
            Shrink::HalfTruncate => current / 2,
        }
    }

    /// Whether the policy may drop elements.
    pub open spec fn truncates(self) -> bool {
        match self {
            Shrink::SubtractTruncate(_) => true,
            Shrink::ThreeQuartersTruncate => true,
            Shrink::HalfTruncate => true,
            _ => false,
        }
    }

    /// Computes [`Shrink::target`].
    pub fn shrink_target(self, len: usize, current: usize) -> (target: usize)
        requires
            len <= current,
        ensures
            target == self.target(len as int, current as int),
            target <= current,
            !self.truncates() ==> len <= target,
    {
        match self {
            Shrink::Minimum => len,
            Shrink::SubtractOrMinimum(count) => {
                let lowered = if count <= current {
                    current - count
                } else {
                    0
                };
                if lowered > len {
                    lowered
                } else {
                    len
                }
            },
            Shrink::SubtractTruncate(count) => if count <= current {
                current - count
            } else {
                0
            },
            Shrink::ThreeQuartersOrMinimum => {
                let lowered = current / 2 + current / 4;
                if lowered > len {
                    lowered
                } else {
                    len
                }
            },
            Shrink::ThreeQuartersTruncate => current / 2 + current / 4,
            Shrink::HalfOrMinimum => {
                let lowered = current / 2;
                if lowered > len {
                    lowered
                } else {
                    len
                }
            },
            Shrink::HalfTruncate => current / 2,
        }
    }
}

impl ElementCount {
    /// The number of elements in all that is meant, for a vector that
    /// holds `len`.
    pub open spec fn total(self, len: int) -> int {
        match self {
            ElementCount::Total(count) => count as int,
            ElementCount::Additional(count) => len + count,
        }
    }

    /// Computes [`ElementCount::total`]; `None` if it is more than `max`.
    pub fn total_within(self, len: usize, max: usize) -> (total: Option<usize>)
        requires
            len <= max,
        ensures
            self.total(len as int) <= max ==> total == Some(self.total(len as int) as usize),
            self.total(len as int) > max ==> total.is_none(),
    {
        match self {
            ElementCount::Total(count) => if count <= max {
                Some(count)
            } else {
                None
            },
            ElementCount::Additional(count) => if count <= max - len {
                Some(len + count)
            } else {
                None
            },
        }
    }
}

} // verus!
