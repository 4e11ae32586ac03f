//! The POSIX time structures, as plain values.

use vstd::prelude::*;

verus! {

/// A POSIX `timespec`: whole seconds and nanoseconds.
#[derive(PartialEq, Eq, Structural, Clone, Copy, Debug)]
pub struct Timespec {
    pub tv_sec: i64,
    pub tv_nsec: i64,
}

/// A POSIX `timeval`: whole seconds and microseconds.
#[derive(PartialEq, Eq, Structural, Clone, Copy, Debug)]
pub struct Timeval {
    pub tv_sec: i64,
    pub tv_usec: i64,
}

} // verus!
