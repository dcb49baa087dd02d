use vstd::prelude::*;

verus! {

/// A value that is either borrowed from the caller or owned: what an
/// operation holds when it may have had to build a replacement for an input
/// that was already fit for use.
pub enum Holder<'a, B> {
    Borrowed(&'a B),
    Owned(B),
}

impl<'a, B> Holder<'a, B> {
    /// The value held, whichever way.
    pub open spec fn spec_value(&self) -> B {
        match *self {
            Holder::Borrowed(value) => *value,
            Holder::Owned(value) => value,
        }
    }

    /// A reference to the value held.
    pub fn as_ref(&self) -> (value: &B)
        ensures
            *value == self.spec_value(),
    {
        match self {
            Holder::Borrowed(x) => x,
            Holder::Owned(x) => x,
        }
    }
}

} // verus!
