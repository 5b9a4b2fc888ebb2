//! The labels of the tables that the check of an aggregate function works
//! on.
use crate::text::{decimal, decimal_text, join_text3, lemma_decimal_injective};
use vstd::prelude::*;
use vstd::string::*;

verus! {

/// The table of the aggregated values.
pub const OUTPUT_LABEL: &'static str = "__output__";

/// The folded table of the inputs.
pub const INPUT_RLC_LABEL: &'static str = "__input-rlc__";

/// The folded table of the output.
pub const OUTPUT_RLC_LABEL: &'static str = "__output-rlc__";

/// The label of the table of an argument.
pub open spec fn argument_label(i: nat) -> Seq<char> {
    "__input_"@ + decimal(i) + "__"@
}

/// The label of the table of an argument.
pub fn input_label(i: usize) -> (r: String)
    ensures
        r@ == argument_label(i as nat),
{
    join_text3("__input_", decimal_text(i).as_str(), "__")
}

/// Different arguments have different labels.
pub proof fn argument_labels_differ(i: nat, j: nat)
    requires
        argument_label(i) == argument_label(j),
    ensures
        i == j,
{
    let head = "__input_"@;
    let tail = "__"@;
    let a = argument_label(i);
    assert(a.len() == head.len() + decimal(i).len() + tail.len());
    assert(decimal(i) =~= a.subrange(head.len() as int, a.len() - tail.len()));
    assert(decimal(j) =~= a.subrange(head.len() as int, a.len() - tail.len()));
    lemma_decimal_injective(i, j);
}

} // verus!
