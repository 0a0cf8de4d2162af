use vstd::prelude::*;

verus! {

/// Pointer types whose target stays where it is for as long as the pointer lives:
/// shared references, `Arc` and `Box`.
pub trait SafeDeref: std::ops::Deref {}

impl<'a, T: ?Sized> SafeDeref for &'a T {}

impl<T: ?Sized> SafeDeref for std::sync::Arc<T> {}

impl<T: ?Sized> SafeDeref for Box<T> {}

/// A value that is either held here or borrowed for the whole run of the program.
pub enum OwnedOrRef<T: 'static> {
    Owned(T),
    Ref(&'static T),
}

/// The value that an `OwnedOrRef` gives access to.
pub open spec fn target_of<T>(o: OwnedOrRef<T>) -> T {
    match o {
        OwnedOrRef::Owned(v) => v,
        OwnedOrRef::Ref(v) => *v,
    }
}

impl<T> std::ops::Deref for OwnedOrRef<T> {
    type Target = T;

    /// The held value, or the borrowed one.
    fn deref(&self) -> (r: &T)
        ensures
            *r == target_of(*self),
    {
        match self {
            OwnedOrRef::Owned(v) => v,
            OwnedOrRef::Ref(v) => v,
        }
    }
}

} // verus!
