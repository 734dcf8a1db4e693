//! The lot-selection strategies.
use vstd::prelude::*;

verus! {

/// Which lot a sale consumes first.
#[derive(Copy, Clone, Debug, PartialEq, Eq, Structural)]
pub enum Method {
    /// First in, first out: the first lot in insertion order.
    FIFO,
    /// Last in, first out: the last lot in insertion order.
    LIFO,
    /// Highest cost first out.
    HCFO,
    /// Lowest cost first out.
    LCFO,
    /// Lowest tax first out.
    LTFO,
    /// Highest tax first out.
    HTFO,
}

} // verus!
