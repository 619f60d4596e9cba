//! The entity store view: a buffer and a count, checked before any access.
//!
//! The host names a buffer and says how many records of it are in play.
//! Neither is believed. A view exists only for a buffer that is there and a
//! count that is positive and within the buffer, and it shows exactly the
//! first `count` records.

use crate::enemy::Enemy;
use vstd::prelude::*;

verus! {

/// Why a buffer and a count give no view.
#[derive(Clone, Copy, Debug, PartialEq, Eq, Structural)]
pub enum ViewError {
    /// There is no buffer: the host passed a null address.
    NullBuffer,
    /// The count is zero or negative.
    NonPositiveCount,
    /// The count is larger than the buffer.
    CountExceedsBuffer,
}

/// The reason for which a buffer of `buffer_len` records (`None`: no buffer)
/// and a count give no view, if there is one. The absent buffer is reported
/// before the count.
pub open spec fn view_error(buffer_len: Option<int>, count: int) -> Option<ViewError> {
    match buffer_len {
        None => Some(ViewError::NullBuffer),
        Some(n) => if count <= 0 {
            Some(ViewError::NonPositiveCount)
        } else if count > n {
            Some(ViewError::CountExceedsBuffer)
        } else {
            None
        },
    }
}

/// The length of a buffer that may be absent.
pub open spec fn len_of(buffer: Option<Seq<Enemy>>) -> Option<int> {
    match buffer {
        None => None,
        Some(s) => Some(s.len() as int),
    }
}

/// The records of a buffer that may be absent.
pub open spec fn records_of(buffer: Option<&[Enemy]>) -> Option<Seq<Enemy>> {
    match buffer {
        None => None,
        Some(b) => Some(b@),
    }
}

/// A buffer length that may be absent, as an integer.
pub open spec fn as_len(buffer_len: Option<usize>) -> Option<int> {
    match buffer_len {
        None => None,
        Some(n) => Some(n as int),
    }
}

/// The number of records in view of a buffer of `buffer_len` records under
/// a count, or the reason for which there is no view.
pub open spec fn checked_len(buffer_len: Option<usize>, count: i32) -> Result<usize, ViewError> {
    match view_error(as_len(buffer_len), count as int) {
        Some(e) => Err(e),
        None => Ok(count as usize),
    }
}

/// Checks a buffer length (`None`: there is no buffer) and a count, and
/// gives the number of records in view.
pub fn view_len(buffer_len: Option<usize>, count: i32) -> (r: Result<usize, ViewError>)
    ensures
        r == checked_len(buffer_len, count),
{
    match buffer_len {
        None => Err(ViewError::NullBuffer),
        Some(n) => {
            if count <= 0 {
                Err(ViewError::NonPositiveCount)
            } else if count as usize > n {
                Err(ViewError::CountExceedsBuffer)
            } else {
                Ok(count as usize)
            }
        },
    }
}

/// A checked, read-only view of the first records of a host buffer. It
/// borrows the buffer and cannot outlive the call that made it.
pub struct EnemyView<'a> {
    records: &'a [Enemy],
}

impl<'a> View for EnemyView<'a> {
    type V = Seq<Enemy>;

    /// The records in view, in buffer order.
    closed spec fn view(&self) -> Seq<Enemy> {
        self.records@
    }
}

impl<'a> EnemyView<'a> {
    /// A view is never empty, and its length is a count the host can state.
    #[verifier::type_invariant]
    spec fn counted(self) -> bool {
        0 < self.records@.len() <= i32::MAX
    }

    /// Checks `buffer` and `count` and gives the view of the first `count`
    /// records, or the reason for which there is none.
    pub fn new(buffer: Option<&'a [Enemy]>, count: i32) -> (r: Result<EnemyView<'a>, ViewError>)
        ensures
            match view_error(len_of(records_of(buffer)), count as int) {
                Some(e) => r matches Err(refused) && refused == e,
                None => r matches Ok(v) && v@ == buffer.unwrap()@.take(count as int),
            },
    {
        match buffer {
            None => Err(ViewError::NullBuffer),
            Some(b) => {
                match view_len(Some(b.len()), count) {
                    Err(e) => Err(e),
                    Ok(n) => {
                        let records = &b[0..n];
                        Ok(EnemyView { records })
                    },
                }
            },
        }
    }

    /// The number of records in view.
    pub fn len(&self) -> (n: usize)
        ensures
            n == self@.len(),
            0 < n <= i32::MAX,
    {
        proof {
            use_type_invariant(self);
        }
        self.records.len()
    }

    /// The record at `index`, or `None` past the end of the view.
    pub fn get(&self, index: usize) -> (r: Option<Enemy>)
        ensures
            r == if index < self@.len() {
                Some(self@[index as int])
            } else {
                None
            },
    {
        if index < self.records.len() {
            Some(self.records[index])
        } else {
            None
        }
    }
}

} // verus!
