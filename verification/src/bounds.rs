//! Resource ceilings for one election-input snapshot: an optional byte-size
//! bound and an optional element-count bound.

use vstd::prelude::*;

verus! {

/// The limits imposed on a snapshot, either voters or targets.
#[derive(Clone, Copy, PartialEq, Eq, Structural, Debug)]
pub struct SnapshotBounds {
    /// The bound on size, in bytes. `None` means unbounded.
    size: Option<u32>,
    /// The bound on count. `None` means unbounded.
    count: Option<u32>,
}

/// Utility builder for [`SnapshotBounds`].
///
/// The main purpose of this is to prevent mixing the order of similarly typed
/// arguments (a size and a count are both `u32`).
pub struct SnapshotBoundsBuilder {
    size: Option<u32>,
    count: Option<u32>,
}

impl SnapshotBoundsBuilder {
    /// A builder with neither bound set.
    pub fn new() -> (r: Self)
        ensures
            r.size_set() == Option::<u32>::None,
            r.count_set() == Option::<u32>::None,
    {
        SnapshotBoundsBuilder { size: None, count: None }
    }

    /// The size bound currently set.
    pub closed spec fn size_set(&self) -> Option<u32> {
        self.size
    }

    /// The count bound currently set.
    pub closed spec fn count_set(&self) -> Option<u32> {
        self.count
    }

    /// Set the given size.
    pub fn size(self, size: u32) -> (r: Self)
        ensures
            r.size_set() == Some(size),
            r.count_set() == self.count_set(),
    {
        SnapshotBoundsBuilder { size: Some(size), ..self }
    }

    /// Set the given count.
    pub fn count(self, count: u32) -> (r: Self)
        ensures
            r.count_set() == Some(count),
            r.size_set() == self.size_set(),
    {
        SnapshotBoundsBuilder { count: Some(count), ..self }
    }

    /// Build the [`SnapshotBounds`] instance.
    pub fn build(self) -> (r: SnapshotBounds)
        ensures
            r.spec_size_bound() == self.size_set(),
            r.spec_count_bound() == self.count_set(),
    {
        SnapshotBounds { size: self.size, count: self.count }
    }
}

impl SnapshotBounds {
    /// The size bound, in bytes, if one is set.
    pub closed spec fn spec_size_bound(&self) -> Option<u32> {
        self.size
    }

    /// The count bound, if one is set.
    pub closed spec fn spec_count_bound(&self) -> Option<u32> {
        self.count
    }

    /// Create a new instance of self, with size limit.
    pub fn new_size(size: u32) -> (r: Self)
        ensures
            r.spec_size_bound() == Some(size),
            r.spec_count_bound() == Option::<u32>::None,
    {
        SnapshotBounds { size: Some(size), count: None }
    }

    /// Create a new instance of self, with count limit.
    pub fn new_count(count: u32) -> (r: Self)
        ensures
            r.spec_size_bound() == Option::<u32>::None,
            r.spec_count_bound() == Some(count),
    {
        SnapshotBounds { count: Some(count), size: None }
    }

    /// Create a new unbounded instance of self.
    pub fn new_unbounded() -> (r: Self)
        ensures
            r.spec_size_bound() == Option::<u32>::None,
            r.spec_count_bound() == Option::<u32>::None,
    {
        SnapshotBounds { size: None, count: None }
    }

    /// Whether `given_size` exhausts the size bound.
    pub open spec fn spec_size_exhausted(&self, given_size: u32) -> bool {
        match self.spec_size_bound() {
            Some(size) => given_size > size,
            None => false,
        }
    }

    /// Whether `given_count` exhausts the count bound.
    pub open spec fn spec_count_exhausted(&self, given_count: u32) -> bool {
        match self.spec_count_bound() {
            Some(count) => given_count > count,
            None => false,
        }
    }

    /// Returns true if `given_size` exhausts `self.size`.
    pub fn size_exhausted(&self, given_size: u32) -> (r: bool)
        ensures
            r == self.spec_size_exhausted(given_size),
    {
        match self.size {
            Some(size) => given_size > size,
            None => false,
        }
    }

    /// Returns true if `given_count` exhausts `self.count`.
    pub fn count_exhausted(&self, given_count: u32) -> (r: bool)
        ensures
            r == self.spec_count_exhausted(given_count),
    {
        match self.count {
            Some(count) => given_count > count,
            None => false,
        }
    }

    /// Returns true if `self` is exhausted by either of `given_size` and
    /// `given_count`.
    ///
    /// An empty collection (size one byte of length prefix, count zero) never
    /// exhausts anything; checking the size alone cannot handle this edge
    /// case, since no information about the count would be available.
    ///
    /// # Warning
    ///
    /// The function name is hinting at the correct order of `given_size` and
    /// `given_count`. Be aware that they have the same type, and mixing them
    /// can be catastrophic.
    pub fn exhausts_size_count_non_zero(&self, given_size: u32, given_count: u32) -> (r: bool)
        ensures
            r == if given_size == 1 || given_count == 0 {
                false
            } else {
                self.spec_size_exhausted(given_size) || self.spec_count_exhausted(given_count)
            },
    {
        if given_size == 1 || given_count == 0 {
            return false;
        }
        self.size_exhausted(given_size) || self.count_exhausted(given_count)
    }

    /// Return the size bound, if one exists.
    pub fn size_bound(&self) -> (r: Option<usize>)
        ensures
            r == match self.spec_size_bound() {
                Some(b) => Some(b as usize),
                None => Option::<usize>::None,
            },
    {
        match self.size {
            Some(b) => Some(b as usize),
            None => None,
        }
    }

    /// Return the count bound, if one exists.
    pub fn count_bound(&self) -> (r: Option<usize>)
        ensures
            r == match self.spec_count_bound() {
                Some(b) => Some(b as usize),
                None => Option::<usize>::None,
            },
    {
        match self.count {
            Some(b) => Some(b as usize),
            None => None,
        }
    }

    /// Return `true` if self is fully unbounded.
    pub fn is_unbounded(&self) -> (r: bool)
        ensures
            r == (self.spec_size_bound() is None && self.spec_count_bound() is None),
    {
        self.size.is_none() && self.count.is_none()
    }

    /// Return `true` if either of the bounds exists.
    pub fn is_bounded(&self) -> (r: bool)
        ensures
            r == (self.spec_size_bound() is Some || self.spec_count_bound() is Some),
    {
        !self.is_unbounded()
    }

    /// What [`Self::predict_capacity`] returns.
    pub open spec fn spec_predict_capacity(&self, item_size: usize) -> Option<usize> {
        let divisor = if item_size == 0 { 1 } else { item_size as int };
        match (self.spec_size_bound(), self.spec_count_bound()) {
            (Some(max_size), Some(max_count)) => Some(
                vstd::math::min(max_count as int, max_size as int / divisor) as usize,
            ),
            (Some(max_size), None) => Some((max_size as int / divisor) as usize),
            (None, Some(max_count)) => Some(max_count as usize),
            (None, None) => None,
        }
    }

    /// Predict the pre-allocation capacity of a collection that has `self` as
    /// bounds (size and count), when each item is `item_size` bytes on
    /// average.
    ///
    /// Returns `None` if no capacity could be made (if `self` is unbounded).
    pub fn predict_capacity(&self, item_size: usize) -> (r: Option<usize>)
        ensures
            r == self.spec_predict_capacity(item_size),
    {
        let divisor: usize = if item_size == 0 { 1 } else { item_size };
        match (self.size_bound(), self.count_bound()) {
            (Some(max_size), Some(max_count)) => {
                let by_size = max_size / divisor;
                Some(if max_count < by_size { max_count } else { by_size })
            },
            (Some(max_size), None) => Some(max_size / divisor),
            (None, Some(max_count)) => Some(max_count),
            (None, None) => None,
        }
    }
}

} // verus!
