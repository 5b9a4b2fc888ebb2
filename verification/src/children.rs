//! The children of nodes, in order.
use crate::aggregate::Aggregate;
use crate::sort::{sort_error, validate_sort, Sort};
use vstd::prelude::*;

verus! {

/// The rows that an expression is evaluated on.
#[derive(Debug, Clone, Copy, PartialEq, Eq, Structural)]
pub enum ExprScope {
    /// Those of the operator's input.
    Input,
}

/// A child of a relational operator or of an expression.
#[derive(Debug, Clone, Copy, PartialEq, Eq, Structural)]
pub enum NodeChild {
    /// The operator that gives the rows, or the expression that gives the
    /// values.
    Input,
    /// The check of the node.
    Gadget,
    /// An expression of the operator, by its position among those of its
    /// role.
    Expr { role: ExprRole, index: usize, scope: ExprScope },
}

/// What an expression is for.
#[derive(Debug, Clone, Copy, PartialEq, Eq, Structural)]
pub enum ExprRole {
    SortKey,
    Group,
    Aggregate,
}

/// The expressions of a role, in order.
pub open spec fn expr_children(role: ExprRole, count: nat) -> Seq<NodeChild> {
    Seq::new(
        count,
        |i: int| NodeChild::Expr { role, index: i as usize, scope: ExprScope::Input },
    )
}

fn push_exprs(out: &mut Vec<NodeChild>, role: ExprRole, count: usize)
    ensures
        final(out)@ == old(out)@ + expr_children(role, count as nat),
{
    let ghost before = out@;
    let mut i: usize = 0;
    assert(out@ =~= before + expr_children(role, 0));
    while i < count
        invariant
            i <= count,
            out@ == before + expr_children(role, i as nat),
        decreases count - i,
    {
        out.push(NodeChild::Expr { role, index: i, scope: ExprScope::Input });
        i = i + 1;
        assert(out@ =~= before + expr_children(role, i as nat));
    }
}

/// The children of a sort: its input, its keys and its check. A sort that
/// cannot be proved has no keys to evaluate.
pub fn sort_children(sort: &Sort) -> (r: Vec<NodeChild>)
    ensures
        r@ == seq![NodeChild::Input] + (if sort_error(sort@) is None {
            expr_children(ExprRole::SortKey, sort.expr@.len())
        } else {
            Seq::empty()
        }) + seq![NodeChild::Gadget],
{
    let mut out: Vec<NodeChild> = Vec::new();
    out.push(NodeChild::Input);
    assert(out@ =~= seq![NodeChild::Input]);
    if validate_sort(sort).is_ok() {
        push_exprs(&mut out, ExprRole::SortKey, sort.expr.len());
    } else {
        assert(out@ =~= seq![NodeChild::Input] + Seq::<NodeChild>::empty());
    }
    let ghost before = out@;
    out.push(NodeChild::Gadget);
    assert(out@ =~= before + seq![NodeChild::Gadget]);
    out
}

/// The children of an aggregate: its input, its check, its groups and its
/// functions.
pub fn aggregate_children(aggregate: &Aggregate) -> (r: Vec<NodeChild>)
    ensures
        r@ == seq![NodeChild::Input, NodeChild::Gadget] + expr_children(
            ExprRole::Group,
            aggregate.group_expr@.len(),
        ) + expr_children(ExprRole::Aggregate, aggregate.aggr_expr@.len()),
{
    let mut out: Vec<NodeChild> = Vec::new();
    out.push(NodeChild::Input);
    out.push(NodeChild::Gadget);
    assert(out@ =~= seq![NodeChild::Input, NodeChild::Gadget]);
    push_exprs(&mut out, ExprRole::Group, aggregate.group_expr.len());
    push_exprs(&mut out, ExprRole::Aggregate, aggregate.aggr_expr.len());
    out
}

/// The children of a limit or of a rematerialization: the input and the
/// check.
pub fn row_children() -> (r: Vec<NodeChild>)
    ensures
        r@ == seq![NodeChild::Input, NodeChild::Gadget],
{
    let mut out: Vec<NodeChild> = Vec::new();
    out.push(NodeChild::Input);
    out.push(NodeChild::Gadget);
    assert(out@ =~= seq![NodeChild::Input, NodeChild::Gadget]);
    out
}

/// The children of a `LIKE` whose pattern has this many literal factors: the
/// input, and the check of the pattern where there is one to make.
pub fn like_children(factors: usize) -> (r: Vec<NodeChild>)
    ensures
        r@ == if factors == 0 {
            seq![NodeChild::Input]
        } else {
            seq![NodeChild::Input, NodeChild::Gadget]
        },
{
    let mut out: Vec<NodeChild> = Vec::new();
    out.push(NodeChild::Input);
    if factors > 0 {
        out.push(NodeChild::Gadget);
    }
    assert(out@ =~= if factors == 0 {
        seq![NodeChild::Input]
    } else {
        seq![NodeChild::Input, NodeChild::Gadget]
    });
    out
}

} // verus!
