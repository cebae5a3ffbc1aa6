//! Progress of a long operation.
use vstd::prelude::*;

verus! {

/// How far an operation has come.
#[derive(Debug)]
pub struct Progress {
    pub label: String,
    pub total: u64,
    pub current: u64,
}

impl Progress {
    /// An operation of `total` steps that has not begun.
    pub fn new(label: &str, total: u64) -> (p: Self)
        ensures
            p.label@ == label@,
            p.total == total,
            p.current == 0,
    {
        Progress { label: label.to_owned(), total, current: 0 }
    }

    /// Counts `n` more steps.
    pub fn inc(&mut self, n: u64)
        requires
            old(self).current + n <= u64::MAX,
        ensures
            final(self).current == old(self).current + n,
            final(self).total == old(self).total,
            final(self).label == old(self).label,
    {
        self.current = self.current + n;
    }
}

} // verus!
