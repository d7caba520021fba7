//! A change-tracked cell: a value plus a dirty flag, used to coordinate
//! data written by one path and consumed by another without redundant
//! downstream work.
//!
//! The flag is cleared only by the consumer that observed the change, and
//! no consumer may assume ordering relative to other consumers.

use vstd::prelude::*;

verus! {

/// Wrapper type for change tracking.
#[derive(Debug)]
pub struct AtomicChanged<T> {
    value: T,
    changed: bool,
}

impl<T> AtomicChanged<T> {
    /// The wrapped value.
    pub closed spec fn spec_value(&self) -> T {
        self.value
    }

    /// Whether the value has changed since it was last observed.
    pub closed spec fn spec_changed(&self) -> bool {
        self.changed
    }

    /// Wrap a value. A fresh cell counts as changed, so the first
    /// consumer always observes the initial value.
    pub fn new(value: T) -> (r: Self)
        ensures
            r.spec_value() == value,
            r.spec_changed(),
    {
        AtomicChanged { value, changed: true }
    }

    /// Read access to the wrapped value, without touching the flag.
    pub fn value(&self) -> (r: &T)
        ensures
            r == self.spec_value(),
    {
        &self.value
    }

    /// Run the consumer against the value only if it has changed, and
    /// clear the flag; a cell that has not changed yields nothing and the
    /// consumer does not run.
    pub fn if_changed<R, F: FnOnce(&T) -> R>(&mut self, f: F) -> (r: Option<R>)
        requires
            old(self).spec_changed() ==> call_requires(f, (&old(self).spec_value(),)),
        ensures
            final(self).spec_value() == old(self).spec_value(),
            !final(self).spec_changed(),
            old(self).spec_changed() ==> (r matches Some(out) && call_ensures(
                f,
                (&old(self).spec_value(),),
                out,
            )),
            !old(self).spec_changed() ==> r is None,
    {
        if self.changed {
            let out = f(&self.value);
            self.changed = false;
            Some(out)
        } else {
            None
        }
    }

    /// Let the mutator observe the value and report whether it counts as
    /// a real change; the flag is set only if it does.
    pub fn change<F: FnOnce(&T) -> bool>(&mut self, f: F)
        requires
            call_requires(f, (&old(self).spec_value(),)),
        ensures
            final(self).spec_value() == old(self).spec_value(),
            exists|b: bool|
                call_ensures(f, (&old(self).spec_value(),), b) && final(self).spec_changed() == (
                old(self).spec_changed() || b),
    {
        let changed = f(&self.value);
        if changed {
            self.changed = true;
        }
    }

    /// Replace the value through the mutator and mark the cell changed
    /// unconditionally.
    pub fn change_mut<R, F: FnOnce(&T) -> (T, R)>(&mut self, f: F) -> (r: R)
        requires
            call_requires(f, (&old(self).spec_value(),)),
        ensures
            call_ensures(f, (&old(self).spec_value(),), (final(self).spec_value(), r)),
            final(self).spec_changed(),
    {
        let (value, out) = f(&self.value);
        self.value = value;
        self.changed = true;
        out
    }
}

} // verus!
