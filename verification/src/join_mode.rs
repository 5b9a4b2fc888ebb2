//! The cardinality assumption under which a join is proved.
use vstd::prelude::*;

verus! {

/// How many partners a row may have on either side of a join.
#[allow(non_camel_case_types)]
#[derive(Debug, Clone, Copy, PartialEq, Eq, Structural)]
pub enum JoinMode {
    ONE_TO_MANY,
    MANY_TO_ONE,
    ONE_TO_ONE,
    MANY_TO_MANY,
}

} // verus!
