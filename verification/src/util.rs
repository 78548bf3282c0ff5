use vstd::prelude::*;

verus! {

/// An owned file descriptor, carried as a plain value. The OS calls that
/// create and close descriptors are I/O and live with the embedding
/// application; this type only moves the raw descriptor through verified
/// code without duplicating it.
pub struct Fd {
    fd: i32,
}

impl View for Fd {
    type V = int;

    /// A descriptor is abstractly its raw value.
    closed spec fn view(&self) -> int {
        self.fd as int
    }
}

impl Fd {
    /// Takes ownership of a raw descriptor.
    pub fn from_raw(fd: i32) -> (r: Fd)
        ensures
            r@ == fd as int,
    {
        Fd { fd }
    }

    /// The raw descriptor value.
    pub fn raw(&self) -> (r: i32)
        ensures
            r as int == self@,
    {
        self.fd
    }
}

} // verus!
