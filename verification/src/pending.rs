use vstd::prelude::*;

verus! {

/// The number of background loads started and not yet received, which is never
/// negative.
pub(crate) struct PendingCount {
    count: i32,
}

impl PendingCount {
    #[verifier::type_invariant]
    pub(crate) open spec fn never_negative(self) -> bool {
        self.value() >= 0
    }

    pub(crate) closed spec fn value(self) -> int {
        self.count as int
    }

    pub(crate) fn zero() -> (r: PendingCount)
        ensures
            r.value() == 0,
    {
        PendingCount { count: 0 }
    }

    pub(crate) fn get(&self) -> (r: i32)
        ensures
            r == self.value(),
            r >= 0,
    {
        proof {
            use_type_invariant(self);
        }
        self.count
    }

    pub(crate) fn increment(&mut self)
        requires
            old(self).value() < i32::MAX,
        ensures
            final(self).value() == old(self).value() + 1,
    {
        proof {
            use_type_invariant(&*self);
        }
        self.count = self.count + 1;
    }

    pub(crate) fn decrement(&mut self)
        requires
            old(self).value() > 0,
        ensures
            final(self).value() == old(self).value() - 1,
    {
        self.count = self.count - 1;
    }
}

} // verus!
