//! The operating systems whose conventions the library follows.
use vstd::prelude::*;

verus! {

/// The operating system whose conventions a computation follows.
#[derive(Debug, Clone, Copy, PartialEq, Eq, Structural)]
pub enum Os {
    Windows,
    MacOs,
    Other,
}

} // verus!
