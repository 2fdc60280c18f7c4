use vstd::prelude::*;

verus! {

/// The outcome of one decode attempt that met no invalid data.
///
/// `Complete` holds the decoded value. `Partial` says that the buffer ended
/// before the value did, and how many more bytes are needed before another
/// attempt can make progress.
#[derive(Copy, PartialEq, Eq, Debug)]
pub enum Status<T> {
    /// The completed result.
    Complete(T),
    /// Not enough bytes yet, and how many more are needed to continue.
    Partial(usize),
}

impl<T: Clone> Clone for Status<T> {
    /// A copy of the status: the clone of the value it holds, or the same
    /// number of bytes.
    fn clone(&self) -> (r: Self)
        ensures
            match (*self, r) {
                (Status::Complete(a), Status::Complete(b)) => cloned::<T>(a, b),
                (Status::Partial(n), Status::Partial(m)) => n == m,
                _ => false,
            },
    {
        match self {
            Status::Complete(t) => Status::Complete(t.clone()),
            Status::Partial(n) => Status::Partial(*n),
        }
    }
}

impl<T> Status<T> {
    /// Whether the status is `Complete`.
    #[inline]
    pub fn is_complete(&self) -> (r: bool)
        ensures
            r == (*self is Complete),
    {
        match *self {
            Status::Complete(..) => true,
            Status::Partial(..) => false,
        }
    }

    /// Whether the status is `Partial`.
    #[inline]
    pub fn is_partial(&self) -> (r: bool)
        ensures
            r == (*self is Partial),
    {
        match *self {
            Status::Complete(..) => false,
            Status::Partial(..) => true,
        }
    }

    /// Takes the value out of a `Complete` status.
    #[inline]
    pub fn unwrap(self) -> (r: T)
        requires
            self is Complete,
        ensures
            r == self->Complete_0,
    {
        match self {
            Status::Complete(t) => t,
            Status::Partial(..) => unreached(),
        }
    }
}

} // verus!
