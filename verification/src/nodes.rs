//! The tree of nodes that a plan is proved by.
//!
//! A node is a relational operator, an expression or a check. Nodes have an
//! identifier that lasts as long as the process; what has to last longer
//! names a node by the path that leads to it from the root.
use crate::codec::{
    answers, follows, plan_decoded, plan_encodable, plan_encodes, plan_round_trip, plan_stable,
    EngineFn, LogicalPlanRepr,
};
use crate::codec_types::{join_mode_of, join_mode_repr, CodecError, FunctionRegistry, JoinModeRepr};
use crate::join_mode::JoinMode;
use crate::plan::{Expr, ExprView, LogicalPlan, PlanView};
use crate::seqs::{
    first_index, join_all, joined, lemma_first_index, lemma_is_first, lemma_no_first, texts_view,
};
use crate::text::{join_text3, same_text};
use vstd::prelude::*;
use vstd::string::*;

verus! {

// ---------------------------------------------------------------------------
// Kinds of nodes
// ---------------------------------------------------------------------------

/// The relational operators that can be proved.
#[derive(Debug, Clone, Copy, PartialEq, Eq, Structural)]
pub enum PlanKind {
    Projection,
    TableScan,
    Filter,
    Aggregate,
    Sort,
    Join,
    SubqueryAlias,
    Limit,
    Rematerialize,
    ResultCheck,
}

/// The expressions that can be proved.
#[derive(Debug, Clone, Copy, PartialEq, Eq, Structural)]
pub enum ExprKind {
    Column,
    Literal,
    BinaryExpr,
    Cast,
    Alias,
    AggregateFunction,
    Between,
    InList,
    ScalarFunction,
    InSubquery,
    Case,
    Like,
}

/// What a node is.
#[derive(Debug, Clone, Copy, PartialEq, Eq, Structural)]
pub enum NodeKind {
    Plan(PlanKind),
    Expr(ExprKind),
    /// The check of a join, in the mode that it is in.
    JoinGadget(JoinMode),
    Gadget,
}

/// The kind of node of a relational operator; none where it cannot be proved.
pub open spec fn kind_of_plan(plan: PlanView) -> Option<PlanKind> {
    match plan {
        PlanView::Projection { .. } => Some(PlanKind::Projection),
        PlanView::TableScan { .. } => Some(PlanKind::TableScan),
        PlanView::Filter { .. } => Some(PlanKind::Filter),
        PlanView::Aggregate { .. } => Some(PlanKind::Aggregate),
        PlanView::Sort { .. } => Some(PlanKind::Sort),
        PlanView::Join { .. } => Some(PlanKind::Join),
        PlanView::SubqueryAlias { .. } => Some(PlanKind::SubqueryAlias),
        PlanView::Limit { .. } => Some(PlanKind::Limit),
        PlanView::Rematerialize { .. } => Some(PlanKind::Rematerialize),
        PlanView::ResultCheck { .. } => Some(PlanKind::ResultCheck),
        PlanView::Other { .. } => None,
    }
}

/// The kind of node of a relational operator.
pub fn from_lp(plan: &LogicalPlan) -> (r: Option<PlanKind>)
    ensures
        r == kind_of_plan(plan@),
        r == Some(PlanKind::Filter) <==> *plan is Filter,
        r == Some(PlanKind::Projection) <==> *plan is Projection,
        r == Some(PlanKind::Aggregate) <==> *plan is Aggregate,
        r == Some(PlanKind::Join) <==> *plan is Join,
        r is None <==> *plan is Other,
{
    match plan {
        LogicalPlan::Projection { .. } => Some(PlanKind::Projection),
        LogicalPlan::TableScan { .. } => Some(PlanKind::TableScan),
        LogicalPlan::Filter { .. } => Some(PlanKind::Filter),
        LogicalPlan::Aggregate { .. } => Some(PlanKind::Aggregate),
        LogicalPlan::Sort { .. } => Some(PlanKind::Sort),
        LogicalPlan::Join { .. } => Some(PlanKind::Join),
        LogicalPlan::SubqueryAlias { .. } => Some(PlanKind::SubqueryAlias),
        LogicalPlan::Limit { .. } => Some(PlanKind::Limit),
        LogicalPlan::Rematerialize { .. } => Some(PlanKind::Rematerialize),
        LogicalPlan::ResultCheck { .. } => Some(PlanKind::ResultCheck),
        LogicalPlan::Other { .. } => None,
    }
}

/// The kind of node of an expression; none where it cannot be proved.
pub open spec fn kind_of_expr(expr: ExprView) -> Option<ExprKind> {
    match expr {
        ExprView::Column(_) => Some(ExprKind::Column),
        ExprView::Literal(_) => Some(ExprKind::Literal),
        ExprView::BinaryExpr { .. } => Some(ExprKind::BinaryExpr),
        ExprView::Cast { .. } => Some(ExprKind::Cast),
        ExprView::Alias { .. } => Some(ExprKind::Alias),
        ExprView::AggregateFunction { .. } => Some(ExprKind::AggregateFunction),
        ExprView::Between { .. } => Some(ExprKind::Between),
        ExprView::InList { .. } => Some(ExprKind::InList),
        ExprView::ScalarFunction { .. } => Some(ExprKind::ScalarFunction),
        ExprView::InSubquery { .. } => Some(ExprKind::InSubquery),
        ExprView::Case { .. } => Some(ExprKind::Case),
        ExprView::Like { .. } => Some(ExprKind::Like),
        ExprView::Other { .. } => None,
    }
}

/// The kind of node of an expression.
pub fn from_expr(expr: &Expr) -> (r: Option<ExprKind>)
    ensures
        r == kind_of_expr(expr@),
{
    match expr {
        Expr::Column(_) => Some(ExprKind::Column),
        Expr::Literal(_) => Some(ExprKind::Literal),
        Expr::BinaryExpr { .. } => Some(ExprKind::BinaryExpr),
        Expr::Cast { .. } => Some(ExprKind::Cast),
        Expr::Alias { .. } => Some(ExprKind::Alias),
        Expr::AggregateFunction { .. } => Some(ExprKind::AggregateFunction),
        Expr::Between { .. } => Some(ExprKind::Between),
        Expr::InList { .. } => Some(ExprKind::InList),
        Expr::ScalarFunction { .. } => Some(ExprKind::ScalarFunction),
        Expr::InSubquery { .. } => Some(ExprKind::InSubquery),
        Expr::Case { .. } => Some(ExprKind::Case),
        Expr::Like { .. } => Some(ExprKind::Like),
        Expr::Other { .. } => None,
    }
}

/// A node of the tree with everything below it.
#[derive(Debug)]
pub struct Node {
    pub id: u64,
    pub name: String,
    pub kind: NodeKind,
    pub children: Vec<Node>,
}

// ---------------------------------------------------------------------------
// Text of a node
// ---------------------------------------------------------------------------

/// The text of a node that lists its inputs.
pub open spec fn text_with_inputs(name: Seq<char>, inputs: Seq<Seq<char>>) -> Seq<char> {
    if inputs.len() == 0 {
        name
    } else {
        name + "\nInputs: "@ + joined(inputs, ", "@)
    }
}

/// The text of a node that lists its inputs, from their names.
pub fn display_with_inputs(name: &str, inputs: &Vec<String>) -> (r: String)
    ensures
        r@ == text_with_inputs(name@, texts_view(inputs@)),
{
    assert(texts_view(inputs@).len() == inputs@.len());
    if inputs.len() == 0 {
        return name.to_owned();
    }
    join_text3(name, "\nInputs: ", join_all(inputs, ", ").as_str())
}

// ---------------------------------------------------------------------------
// Parents
// ---------------------------------------------------------------------------

/// A node in the list of all nodes: its identifier and those of its
/// children.
#[derive(Debug)]
pub struct ArenaEntry {
    pub id: u64,
    pub children: Vec<u64>,
}

/// Mathematical counterpart of [`ArenaEntry`].
#[verifier::ext_equal]
pub struct ArenaView {
    pub id: u64,
    pub children: Seq<u64>,
}

/// The list of nodes as mathematical values.
pub open spec fn arena_view(s: Seq<ArenaEntry>) -> Seq<ArenaView> {
    Seq::new(s.len(), |i: int| ArenaView { id: s[i].id, children: s[i].children@ })
}

/// Satisfied by the nodes with the given child.
pub open spec fn has_child(id: u64) -> spec_fn(ArenaView) -> bool {
    |e: ArenaView| e.children.contains(id)
}

/// The first node that has the given one as a child.
pub open spec fn parent_of(arena: Seq<ArenaView>, id: u64) -> Option<u64> {
    match first_index(arena, has_child(id)) {
        Some(i) => Some(arena[i].id),
        None => None,
    }
}

/// The child at the given place of the parent of a node.
pub open spec fn sibling(arena: Seq<ArenaView>, id: u64, child: nat) -> Option<u64> {
    match first_index(arena, has_child(id)) {
        Some(i) => if child < arena[i].children.len() {
            Some(arena[i].children[child as int])
        } else {
            None
        },
        None => None,
    }
}

fn holds_id(list: &Vec<u64>, id: u64) -> (r: bool)
    ensures
        r == list@.contains(id),
{
    let mut i: usize = 0;
    while i < list.len()
        invariant
            i <= list@.len(),
            forall|j: int| 0 <= j < i ==> list@[j] != id,
        decreases list@.len() - i,
    {
        if list[i] == id {
            assert(list@[i as int] == id);
            return true;
        }
        i = i + 1;
    }
    false
}

fn find_parent(arena: &Vec<ArenaEntry>, id: u64) -> (r: Option<usize>)
    ensures
        match r {
            Some(i) => i < arena@.len() && first_index(arena_view(arena@), has_child(id)) == Some(
                i as int,
            ),
            None => first_index(arena_view(arena@), has_child(id)) is None,
        },
{
    let ghost views = arena_view(arena@);
    let ghost p = has_child(id);
    let mut i: usize = 0;
    while i < arena.len()
        invariant
            i <= arena@.len(),
            views == arena_view(arena@),
            p == has_child(id),
            forall|j: int| 0 <= j < i ==> !p(#[trigger] views[j]),
        decreases arena@.len() - i,
    {
        assert(views[i as int].children == arena@[i as int].children@);
        if holds_id(&arena[i].children, id) {
            proof {
                lemma_is_first(views, p, i as int);
            }
            return Some(i);
        }
        i = i + 1;
    }
    proof {
        lemma_no_first(views, p);
    }
    None
}

/// The first node that has the given one as a child.
pub fn find_parent_id(arena: &Vec<ArenaEntry>, id: u64) -> (r: Option<u64>)
    ensures
        r == parent_of(arena_view(arena@), id),
{
    match find_parent(arena, id) {
        Some(i) => {
            assert(arena_view(arena@)[i as int].id == arena@[i as int].id);
            Some(arena[i].id)
        },
        None => None,
    }
}

/// The child at the given place of the parent of a node.
pub fn parent_child_id(arena: &Vec<ArenaEntry>, id: u64, child: usize) -> (r: Option<u64>)
    ensures
        r == sibling(arena_view(arena@), id, child as nat),
{
    match find_parent(arena, id) {
        Some(i) => {
            assert(arena_view(arena@)[i as int].children == arena@[i as int].children@);
            if child < arena[i].children.len() {
                Some(arena[i].children[child])
            } else {
                None
            }
        },
        None => None,
    }
}

// ---------------------------------------------------------------------------
// Children by name
// ---------------------------------------------------------------------------

/// Satisfied by the nodes of the given name.
pub open spec fn is_named(name: Seq<char>) -> spec_fn(Node) -> bool {
    |c: Node| c.name@ == name
}

/// The check of a grouped aggregate whose payload holds how often every group
/// occurs.
pub open spec fn multiplicities_node(gadget: Node) -> Option<u64> {
    match first_index(gadget.children@, is_named("Support"@)) {
        Some(i) => match first_index(gadget.children@[i].children@, is_named("Lookup"@)) {
            Some(j) => Some(gadget.children@[i].children@[j].id),
            None => None,
        },
        None => None,
    }
}

fn find_child(node: &Node, name: &str) -> (r: Option<usize>)
    ensures
        match r {
            Some(i) => i < node.children@.len() && first_index(node.children@, is_named(name@))
                == Some(i as int),
            None => first_index(node.children@, is_named(name@)) is None,
        },
{
    let ghost p = is_named(name@);
    let mut i: usize = 0;
    while i < node.children.len()
        invariant
            i <= node.children@.len(),
            p == is_named(name@),
            forall|j: int| 0 <= j < i ==> !p(#[trigger] node.children@[j]),
        decreases node.children@.len() - i,
    {
        if same_text(node.children[i].name.as_str(), name) {
            proof {
                lemma_is_first(node.children@, p, i as int);
            }
            return Some(i);
        }
        i = i + 1;
    }
    proof {
        lemma_no_first(node.children@, p);
    }
    None
}

/// The check of a grouped aggregate whose payload holds how often every group
/// occurs.
pub fn lookup_super_multiplicities_node(gadget: &Node) -> (r: Option<u64>)
    ensures
        r == multiplicities_node(*gadget),
{
    match find_child(gadget, "Support") {
        Some(i) => {
            let support: &Node = &gadget.children[i];
            match find_child(support, "Lookup") {
                Some(j) => Some(support.children[j].id),
                None => None,
            }
        },
        None => None,
    }
}

// ---------------------------------------------------------------------------
// Paths
// ---------------------------------------------------------------------------

/// The path to the first node with the given identifier, the node itself
/// first and then what is below its children, in order.
pub open spec fn path_to(n: Node, target: u64) -> Option<Seq<int>>
    decreases n, 0nat,
{
    if n.id == target {
        Some(Seq::empty())
    } else {
        path_below(n.children@, target, n.children@.len())
    }
}

/// The path through the first of the first `k` nodes that leads to the
/// identifier.
pub open spec fn path_below(list: Seq<Node>, target: u64, k: nat) -> Option<Seq<int>>
    decreases list, k,
{
    if k == 0 || k > list.len() {
        None
    } else {
        match path_below(list, target, (k - 1) as nat) {
            Some(p) => Some(p),
            None => match path_to(list[k - 1], target) {
                Some(p) => Some(seq![k - 1] + p),
                None => None,
            },
        }
    }
}

/// The node that a path leads to.
pub open spec fn node_at(n: Node, path: Seq<int>) -> Option<Node>
    decreases path.len(),
{
    if path.len() == 0 {
        Some(n)
    } else if 0 <= path[0] < n.children@.len() {
        node_at(n.children@[path[0]], path.skip(1))
    } else {
        None
    }
}

/// The steps of a path as mathematical values.
pub open spec fn steps(path: Seq<usize>) -> Seq<int> {
    Seq::new(path.len(), |i: int| path[i] as int)
}

proof fn lemma_path_stays(list: Seq<Node>, target: u64, n: nat, m: nat)
    requires
        n <= m <= list.len(),
        path_below(list, target, n) is Some,
    ensures
        path_below(list, target, m) == path_below(list, target, n),
    decreases m,
{
    if n < m {
        lemma_path_stays(list, target, n, (m - 1) as nat);
    }
}

fn visit(node: &Node, target: u64, path: &mut Vec<usize>) -> (r: bool)
    ensures
        match path_to(*node, target) {
            Some(p) => r && steps(final(path)@) == steps(old(path)@) + p,
            None => !r && final(path)@ == old(path)@,
        },
    decreases node,
{
    if node.id == target {
        assert(steps(path@) =~= steps(path@) + Seq::<int>::empty());
        return true;
    }
    let ghost list = node.children@;
    let ghost before = path@;
    let mut i: usize = 0;
    while i < node.children.len()
        invariant
            i <= node.children@.len(),
            list == node.children@,
            before == old(path)@,
            path@ == before,
            node.id != target,
            path_below(list, target, i as nat) is None,
        decreases node.children@.len() - i,
    {
        path.push(i);
        let ghost with = path@;
        assert(steps(with) =~= steps(before).push(i as int));
        assert(decreases_to!(list => list[i as int]));
        if visit(&node.children[i], target, path) {
            proof {
                let p = path_to(list[i as int], target)->0;
                assert(steps(with) + p =~= steps(before) + (seq![i as int] + p));
                lemma_path_stays(list, target, (i + 1) as nat, list.len());
            }
            return true;
        }
        let _ = path.pop();
        assert(path@ =~= before);
        i = i + 1;
    }
    false
}

/// The path from the root to the first node with the given identifier.
pub fn structural_path_to_node(root: &Node, target: u64) -> (r: Option<Vec<usize>>)
    ensures
        match r {
            Some(p) => path_to(*root, target) == Some(steps(p@)),
            None => path_to(*root, target) is None,
        },
{
    let mut path: Vec<usize> = Vec::new();
    if visit(root, target, &mut path) {
        assert(steps(Seq::<usize>::empty()) + path_to(*root, target)->0 =~= path_to(
            *root,
            target,
        )->0);
        Some(path)
    } else {
        None
    }
}

proof fn lemma_path_below_first(list: Seq<Node>, target: u64, k: nat)
    requires
        k <= list.len(),
        path_below(list, target, k) is Some,
    ensures
        ({
            let p = path_below(list, target, k)->0;
            &&& p.len() > 0
            &&& 0 <= p[0] < k
            &&& path_to(list[p[0]], target) == Some(p.skip(1))
        }),
    decreases k,
{
    if k > 0 {
        if path_below(list, target, (k - 1) as nat) is Some {
            lemma_path_below_first(list, target, (k - 1) as nat);
        } else {
            let q = path_to(list[k - 1], target)->0;
            assert((seq![k - 1] + q).skip(1) =~= q);
        }
    }
}

/// The path to a node leads to a node with its identifier.
pub proof fn paths_lead_to_their_node(root: Node, target: u64)
    requires
        path_to(root, target) is Some,
    ensures
        node_at(root, path_to(root, target)->0) is Some,
        node_at(root, path_to(root, target)->0)->0.id == target,
    decreases path_to(root, target)->0.len(),
{
    let p = path_to(root, target)->0;
    if root.id != target {
        lemma_path_below_first(root.children@, target, root.children@.len());
        paths_lead_to_their_node(root.children@[p[0]], target);
    }
}

/// Paths of different nodes differ.
pub proof fn paths_tell_nodes_apart(root: Node, a: u64, b: u64)
    requires
        path_to(root, a) is Some,
        path_to(root, a) == path_to(root, b),
    ensures
        a == b,
{
    paths_lead_to_their_node(root, a);
    paths_lead_to_their_node(root, b);
}

// ---------------------------------------------------------------------------
// The modes of the joins of a tree
// ---------------------------------------------------------------------------

/// The mode of the first join check among the first `k` nodes.
pub open spec fn first_mode(list: Seq<Node>, k: nat) -> Option<JoinMode>
    decreases k,
{
    if k == 0 {
        None
    } else {
        match first_mode(list, (k - 1) as nat) {
            Some(m) => Some(m),
            None => match list[k - 1].kind {
                NodeKind::JoinGadget(m) => Some(m),
                _ => None,
            },
        }
    }
}

/// The mode of a join: that of its check, where it has one.
pub open spec fn mode_of(n: Node) -> JoinMode {
    match first_mode(n.children@, n.children@.len()) {
        Some(m) => m,
        None => JoinMode::MANY_TO_MANY,
    }
}

/// The modes of all the joins of a tree, the node itself first and then what
/// is below its children, in order.
pub open spec fn join_modes(n: Node) -> Seq<JoinMode>
    decreases n, 0nat,
{
    let below = join_modes_below(n.children@, n.children@.len());
    if n.kind == NodeKind::Plan(PlanKind::Join) {
        seq![mode_of(n)] + below
    } else {
        below
    }
}

/// The modes of the joins at and below the first `k` nodes.
pub open spec fn join_modes_below(list: Seq<Node>, k: nat) -> Seq<JoinMode>
    decreases list, k,
{
    if k == 0 || k > list.len() {
        Seq::empty()
    } else {
        join_modes_below(list, (k - 1) as nat) + join_modes(list[k - 1])
    }
}

fn find_mode(node: &Node) -> (r: JoinMode)
    ensures
        r == mode_of(*node),
{
    let ghost list = node.children@;
    let mut found: Option<JoinMode> = None;
    let mut i: usize = 0;
    while i < node.children.len()
        invariant
            i <= node.children@.len(),
            list == node.children@,
            found == first_mode(list, i as nat),
        decreases node.children@.len() - i,
    {
        match node.children[i].kind {
            NodeKind::JoinGadget(m) => {
                if found.is_none() {
                    found = Some(m);
                }
            },
            _ => {},
        }
        i = i + 1;
    }
    match found {
        Some(m) => m,
        None => JoinMode::MANY_TO_MANY,
    }
}

/// Appends the modes of all the joins of a tree.
pub fn collect_join_modes(node: &Node, out: &mut Vec<JoinMode>)
    ensures
        final(out)@ == old(out)@ + join_modes(*node),
    decreases node,
{
    let ghost before = out@;
    let ghost list = node.children@;
    if matches!(node.kind, NodeKind::Plan(PlanKind::Join)) {
        let m: JoinMode = find_mode(node);
        out.push(m);
    }
    let ghost head = if node.kind == NodeKind::Plan(PlanKind::Join) {
        seq![mode_of(*node)]
    } else {
        Seq::empty()
    };
    assert(out@ =~= before + head);
    let mut i: usize = 0;
    assert(out@ =~= before + head + join_modes_below(list, 0));
    while i < node.children.len()
        invariant
            i <= node.children@.len(),
            list == node.children@,
            out@ == before + head + join_modes_below(list, i as nat),
        decreases node.children@.len() - i,
    {
        assert(decreases_to!(list => list[i as int]));
        collect_join_modes(&node.children[i], out);
        assert(out@ =~= before + head + join_modes_below(list, (i + 1) as nat));
        i = i + 1;
    }
    assert(out@ =~= before + (head + join_modes_below(list, list.len())));
    assert(head + join_modes_below(list, list.len()) =~= join_modes(*node));
}

/// The join checks among the first `k` nodes, each with the given mode.
pub open spec fn gadget_requests(list: Seq<Node>, k: nat, m: JoinMode) -> Seq<(u64, JoinMode)>
    decreases k,
{
    if k == 0 {
        Seq::empty()
    } else {
        let before = gadget_requests(list, (k - 1) as nat, m);
        match list[k - 1].kind {
            NodeKind::JoinGadget(_) => before.push((list[k - 1].id, m)),
            _ => before,
        }
    }
}

/// The modes that are asked of the join checks of a tree when the listed
/// modes from `idx` on are given to its joins in order. A join beyond the
/// list is asked nothing.
pub open spec fn mode_requests(n: Node, modes: Seq<JoinMode>, idx: nat) -> Seq<(u64, JoinMode)>
    decreases n, 0nat,
{
    if n.kind == NodeKind::Plan(PlanKind::Join) {
        (if idx < modes.len() {
            gadget_requests(n.children@, n.children@.len(), modes[idx as int])
        } else {
            Seq::empty()
        }) + mode_requests_below(n.children@, modes, idx + 1, n.children@.len())
    } else {
        mode_requests_below(n.children@, modes, idx, n.children@.len())
    }
}

/// `mode_requests` for the first `k` nodes.
pub open spec fn mode_requests_below(
    list: Seq<Node>,
    modes: Seq<JoinMode>,
    idx: nat,
    k: nat,
) -> Seq<(u64, JoinMode)>
    decreases list, k,
{
    if k == 0 || k > list.len() {
        Seq::empty()
    } else {
        mode_requests_below(list, modes, idx, (k - 1) as nat) + mode_requests(
            list[k - 1],
            modes,
            idx + join_modes_below(list, (k - 1) as nat).len(),
        )
    }
}

fn push_requests(node: &Node, mode: JoinMode, out: &mut Vec<(u64, JoinMode)>)
    ensures
        final(out)@ == old(out)@ + gadget_requests(node.children@, node.children@.len(), mode),
{
    let ghost before = out@;
    let ghost list = node.children@;
    let mut i: usize = 0;
    assert(out@ =~= before + gadget_requests(list, 0, mode));
    while i < node.children.len()
        invariant
            i <= node.children@.len(),
            list == node.children@,
            out@ == before + gadget_requests(list, i as nat, mode),
        decreases node.children@.len() - i,
    {
        match node.children[i].kind {
            NodeKind::JoinGadget(_) => {
                out.push((node.children[i].id, mode));
            },
            _ => {},
        }
        assert(out@ =~= before + gadget_requests(list, (i + 1) as nat, mode));
        i = i + 1;
    }
}

/// Appends the modes that are asked of the join checks of a tree, and
/// returns how many joins have had their turn. The count stops at the number
/// of listed modes: from there on nothing is asked.
pub fn apply_join_modes(
    node: &Node,
    modes: &Vec<JoinMode>,
    idx: usize,
    out: &mut Vec<(u64, JoinMode)>,
) -> (r: usize)
    requires
        idx <= modes@.len(),
    ensures
        final(out)@ == old(out)@ + mode_requests(*node, modes@, idx as nat),
        r == if idx + join_modes(*node).len() < modes@.len() {
            (idx + join_modes(*node).len()) as int
        } else {
            modes@.len() as int
        },
    decreases node,
{
    let ghost before = out@;
    let ghost list = node.children@;
    let mut at: usize = idx;
    let ghost is_join = node.kind == NodeKind::Plan(PlanKind::Join);
    let ghost start: nat = if is_join {
        (idx + 1) as nat
    } else {
        idx as nat
    };
    let ghost head = if is_join && idx < modes@.len() {
        gadget_requests(list, list.len(), modes@[idx as int])
    } else {
        Seq::empty()
    };
    if matches!(node.kind, NodeKind::Plan(PlanKind::Join)) {
        if idx < modes.len() {
            push_requests(node, modes[idx], out);
            at = idx + 1;
        }
    }
    assert(out@ =~= before + head);
    let mut i: usize = 0;
    assert(out@ =~= before + head + mode_requests_below(list, modes@, start, 0));
    while i < node.children.len()
        invariant
            i <= node.children@.len(),
            list == node.children@,
            at <= modes@.len(),
            at == if start + join_modes_below(list, i as nat).len() < modes@.len() {
                (start + join_modes_below(list, i as nat).len()) as int
            } else {
                modes@.len() as int
            },
            out@ == before + head + mode_requests_below(list, modes@, start, i as nat),
        decreases node.children@.len() - i,
    {
        assert(decreases_to!(list => list[i as int]));
        proof {
            let next = start + join_modes_below(list, i as nat).len();
            if next >= modes@.len() {
                lemma_no_requests(list[i as int], modes@, next, at as nat);
            }
        }
        at = apply_join_modes(&node.children[i], modes, at, out);
        assert(out@ =~= before + head + mode_requests_below(list, modes@, start, (i + 1) as nat));
        i = i + 1;
    }
    assert(out@ =~= before + (head + mode_requests_below(list, modes@, start, list.len())));
    assert(head + mode_requests_below(list, modes@, start, list.len()) =~= mode_requests(
        *node,
        modes@,
        idx as nat,
    ));
    at
}

/// Beyond the listed modes nothing is asked.
proof fn lemma_no_requests(n: Node, modes: Seq<JoinMode>, a: nat, b: nat)
    requires
        a >= modes.len(),
        b >= modes.len(),
    ensures
        mode_requests(n, modes, a) == mode_requests(n, modes, b),
        mode_requests(n, modes, a) == Seq::<(u64, JoinMode)>::empty(),
    decreases n, 0nat,
{
    let list = n.children@;
    lemma_no_requests_below(list, modes, a, list.len());
    lemma_no_requests_below(list, modes, b, list.len());
    lemma_no_requests_below(list, modes, a + 1, list.len());
    lemma_no_requests_below(list, modes, b + 1, list.len());
    assert(mode_requests(n, modes, a) =~= Seq::<(u64, JoinMode)>::empty());
    assert(mode_requests(n, modes, b) =~= Seq::<(u64, JoinMode)>::empty());
}

proof fn lemma_no_requests_below(list: Seq<Node>, modes: Seq<JoinMode>, a: nat, k: nat)
    requires
        a >= modes.len(),
        k <= list.len(),
    ensures
        mode_requests_below(list, modes, a, k) == Seq::<(u64, JoinMode)>::empty(),
    decreases list, k,
{
    if k > 0 {
        lemma_no_requests_below(list, modes, a, (k - 1) as nat);
        let idx = a + join_modes_below(list, (k - 1) as nat).len();
        lemma_no_requests(list[k - 1], modes, idx, idx);
        assert(mode_requests_below(list, modes, a, k) =~= Seq::<(u64, JoinMode)>::empty());
    }
}

/// Every join check of a tree with the mode of its join.
pub open spec fn kept_modes(n: Node) -> Seq<(u64, JoinMode)>
    decreases n, 0nat,
{
    let below = kept_modes_below(n.children@, n.children@.len());
    if n.kind == NodeKind::Plan(PlanKind::Join) {
        gadget_requests(n.children@, n.children@.len(), mode_of(n)) + below
    } else {
        below
    }
}

/// `kept_modes` for the first `k` nodes.
pub open spec fn kept_modes_below(list: Seq<Node>, k: nat) -> Seq<(u64, JoinMode)>
    decreases list, k,
{
    if k == 0 || k > list.len() {
        Seq::empty()
    } else {
        kept_modes_below(list, (k - 1) as nat) + kept_modes(list[k - 1])
    }
}

proof fn lemma_own_modes(n: Node, modes: Seq<JoinMode>, idx: nat)
    requires
        idx + join_modes(n).len() <= modes.len(),
        modes.subrange(idx as int, (idx + join_modes(n).len()) as int) == join_modes(n),
    ensures
        mode_requests(n, modes, idx) == kept_modes(n),
    decreases n, 0nat,
{
    let list = n.children@;
    let all = join_modes(n);
    let below = join_modes_below(list, list.len());
    let part = modes.subrange(idx as int, (idx + all.len()) as int);
    if n.kind == NodeKind::Plan(PlanKind::Join) {
        assert(all == seq![mode_of(n)] + below);
        assert(part[0] == modes[idx as int]);
        assert(all[0] == mode_of(n));
        assert(modes.subrange((idx + 1) as int, (idx + 1 + below.len()) as int) =~= below) by {
            assert forall|i: int| 0 <= i < below.len() implies modes[(idx + 1 + i) as int] == below[i] by {
                assert(part[i + 1] == all[i + 1]);
            }
        }
        lemma_own_modes_below(list, modes, idx + 1, list.len());
    } else {
        lemma_own_modes_below(list, modes, idx, list.len());
    }
}

proof fn lemma_own_modes_below(list: Seq<Node>, modes: Seq<JoinMode>, idx: nat, k: nat)
    requires
        k <= list.len(),
        idx + join_modes_below(list, k).len() <= modes.len(),
        modes.subrange(idx as int, (idx + join_modes_below(list, k).len()) as int)
            == join_modes_below(list, k),
    ensures
        mode_requests_below(list, modes, idx, k) == kept_modes_below(list, k),
    decreases list, k,
{
    if k > 0 {
        let a = join_modes_below(list, (k - 1) as nat);
        let b = join_modes(list[k - 1]);
        let part = modes.subrange(idx as int, (idx + a.len() + b.len()) as int);
        assert(join_modes_below(list, k) == a + b);
        assert(part == a + b);
        assert(modes.subrange(idx as int, (idx + a.len()) as int) =~= a) by {
            assert forall|i: int| 0 <= i < a.len() implies modes[idx + i] == a[i] by {
                assert(part[i] == (a + b)[i]);
            }
        }
        assert(modes.subrange(
            (idx + a.len()) as int,
            (idx + a.len() + b.len()) as int,
        ) =~= b) by {
            assert forall|i: int| 0 <= i < b.len() implies modes[(idx + a.len() + i) as int] == b[i] by {
                assert(part[a.len() + i] == (a + b)[a.len() + i]);
            }
        }
        lemma_own_modes_below(list, modes, idx, (k - 1) as nat);
        lemma_own_modes(list[k - 1], modes, idx + a.len());
    }
}

/// A tree whose own modes are given back to it is asked for nothing new:
/// every join check gets the mode of its join.
pub proof fn collected_modes_change_nothing(root: Node)
    ensures
        mode_requests(root, join_modes(root), 0) == kept_modes(root),
{
    let modes = join_modes(root);
    assert(modes.subrange(0, modes.len() as int) =~= modes);
    lemma_own_modes(root, modes, 0);
}

// ---------------------------------------------------------------------------
// Trees as data
// ---------------------------------------------------------------------------

/// A tree as it is stored: its plan and the modes of its joins.
#[derive(Debug)]
pub struct TreeRepr {
    pub plan: LogicalPlanRepr,
    pub join_modes: Vec<JoinModeRepr>,
}

/// A stored tree that was read back. The modes are in the order of the joins.
#[derive(Debug)]
pub struct DecodedTree {
    pub plan: LogicalPlan,
    pub modes: Vec<JoinMode>,
}

/// The stored form of modes.
pub open spec fn stored_modes(modes: Seq<JoinMode>) -> Seq<JoinModeRepr> {
    Seq::new(modes.len(), |i: int| join_mode_repr(modes[i]))
}

/// The modes of stored ones.
pub open spec fn read_modes(modes: Seq<JoinModeRepr>) -> Seq<JoinMode> {
    Seq::new(modes.len(), |i: int| join_mode_of(modes[i]))
}

/// A tree as it is stored. Only a tree under a relational operator with a
/// plan that can be stored has such a form.
pub fn serialize_tree(root: &Node, plan: &LogicalPlan) -> (r: Result<TreeRepr, CodecError>)
    ensures
        match r {
            Ok(t) => root.kind is Plan && plan_encodable(plan@) && plan_encodes(t.plan, plan@)
                && t.join_modes@ == stored_modes(join_modes(*root)),
            Err(e) => e == CodecError::InvalidData && (!(root.kind is Plan) || !plan_encodable(
                plan@,
            )),
        },
{
    let is_plan: bool = match root.kind {
        NodeKind::Plan(_) => true,
        _ => false,
    };
    if !is_plan {
        return Err(CodecError::InvalidData);
    }
    let repr: LogicalPlanRepr = match LogicalPlanRepr::from_plan(plan) {
        Ok(p) => p,
        Err(e) => return Err(e),
    };
    let mut modes: Vec<JoinMode> = Vec::new();
    collect_join_modes(root, &mut modes);
    let mut stored: Vec<JoinModeRepr> = Vec::new();
    let mut i: usize = 0;
    while i < modes.len()
        invariant
            i <= modes@.len(),
            stored@.len() == i,
            forall|j: int| 0 <= j < i ==> #[trigger] stored@[j] == join_mode_repr(modes@[j]),
        decreases modes@.len() - i,
    {
        stored.push(JoinModeRepr::from_join_mode(modes[i]));
        i = i + 1;
    }
    assert(modes@ =~= join_modes(*root));
    assert(stored@ =~= stored_modes(join_modes(*root)));
    Ok(TreeRepr { plan: repr, join_modes: stored })
}

/// A stored tree read back, against the functions that it may refer to. The
/// query engine is asked about the operators of its plan.
pub fn deserialize_tree<F: Fn(&LogicalPlan) -> Option<LogicalPlan>>(
    repr: &TreeRepr,
    reg: &FunctionRegistry,
    engine: &F,
) -> (r: Result<DecodedTree, CodecError>)
    requires
        answers(*engine),
    ensures
        forall|built: EngineFn|
            #[trigger] follows(*engine, built) ==> match r {
                Ok(t) => plan_decoded(repr.plan, *reg, built) == Ok::<PlanView, CodecError>(t.plan@)
                    && t.modes@ == read_modes(repr.join_modes@),
                Err(e) => plan_decoded(repr.plan, *reg, built) == Err::<PlanView, CodecError>(e),
            },
{
    let plan: LogicalPlan = match repr.plan.to_plan(reg, engine) {
        Ok(p) => p,
        Err(e) => return Err(e),
    };
    let mut modes: Vec<JoinMode> = Vec::new();
    let mut i: usize = 0;
    while i < repr.join_modes.len()
        invariant
            i <= repr.join_modes@.len(),
            modes@.len() == i,
            forall|j: int| 0 <= j < i ==> #[trigger] modes@[j] == join_mode_of(repr.join_modes@[j]),
        decreases repr.join_modes@.len() - i,
    {
        modes.push(repr.join_modes[i].to_join_mode());
        i = i + 1;
    }
    assert(modes@ =~= read_modes(repr.join_modes@));
    Ok(DecodedTree { plan, modes })
}

/// What stored bytes hold, from what they are in the binary form and in the
/// older text form: the binary form counts first, and bytes in neither form are
/// refused.
pub open spec fn stored_tree(binary: Option<TreeRepr>, text: Option<TreeRepr>) -> Result<
    TreeRepr,
    CodecError,
> {
    match (binary, text) {
        (Some(t), _) => Ok(t),
        (None, Some(t)) => Ok(t),
        (None, None) => Err(CodecError::InvalidData),
    }
}

/// What a stored tree is read as: its plan and the modes of its joins.
pub open spec fn tree_read(
    binary: Option<TreeRepr>,
    text: Option<TreeRepr>,
    reg: FunctionRegistry,
    built: EngineFn,
) -> Result<(PlanView, Seq<JoinMode>), CodecError> {
    match stored_tree(binary, text) {
        Err(e) => Err(e),
        Ok(t) => match plan_decoded(t.plan, reg, built) {
            Ok(p) => Ok((p, read_modes(t.join_modes@))),
            Err(e) => Err(e),
        },
    }
}

/// Reads a tree from stored bytes, given what the bytes are in each of their
/// two forms.
pub fn read_stored_tree<F: Fn(&LogicalPlan) -> Option<LogicalPlan>>(
    binary: Option<TreeRepr>,
    text: Option<TreeRepr>,
    reg: &FunctionRegistry,
    engine: &F,
) -> (r: Result<DecodedTree, CodecError>)
    requires
        answers(*engine),
    ensures
        forall|built: EngineFn|
            #[trigger] follows(*engine, built) ==> match r {
                Ok(t) => tree_read(binary, text, *reg, built) == Ok::<
                    (PlanView, Seq<JoinMode>),
                    CodecError,
                >((t.plan@, t.modes@)),
                Err(e) => tree_read(binary, text, *reg, built) == Err::<
                    (PlanView, Seq<JoinMode>),
                    CodecError,
                >(e),
            },
{
    let repr: TreeRepr = match binary {
        Some(t) => t,
        None => match text {
            Some(t) => t,
            None => return Err(CodecError::InvalidData),
        },
    };
    deserialize_tree(&repr, reg, engine)
}

/// A tree is read alike from both of its stored forms.
pub proof fn stored_forms_read_alike(
    t: TreeRepr,
    other: Option<TreeRepr>,
    reg: FunctionRegistry,
    built: EngineFn,
)
    ensures
        tree_read(Some(t), other, reg, built) == tree_read(None, Some(t), reg, built),
        tree_read(None, None, reg, built) == Err::<(PlanView, Seq<JoinMode>), CodecError>(
            CodecError::InvalidData,
        ),
{
}

/// A stored tree without modes asks nothing of the join checks.
pub proof fn no_stored_modes_ask_nothing(root: Node)
    ensures
        mode_requests(root, read_modes(Seq::empty()), 0) == Seq::<(u64, JoinMode)>::empty(),
{
    assert(read_modes(Seq::empty()) =~= Seq::<JoinMode>::empty());
    lemma_no_requests(root, read_modes(Seq::empty()), 0, 0);
}

/// Modes are read back as they were stored.
pub proof fn stored_modes_round_trip(modes: Seq<JoinMode>)
    ensures
        read_modes(stored_modes(modes)) == modes,
{
    assert(read_modes(stored_modes(modes)) =~= modes);
}

/// A tree is read back as it was stored: the same plan, and its joins are
/// asked for the modes that they were in. The engine has to keep the operators
/// of the plan.
pub proof fn tree_round_trip(
    root: Node,
    plan: PlanView,
    repr: LogicalPlanRepr,
    modes: Seq<JoinModeRepr>,
    reg: FunctionRegistry,
    built: EngineFn,
)
    requires
        plan_encodes(repr, plan),
        plan_stable(plan, reg, built),
        modes == stored_modes(join_modes(root)),
    ensures
        plan_decoded(repr, reg, built) == Ok::<PlanView, CodecError>(plan),
        mode_requests(root, read_modes(modes), 0) == kept_modes(root),
{
    plan_round_trip(repr, plan, reg, built);
    stored_modes_round_trip(join_modes(root));
    collected_modes_change_nothing(root);
}

// ---------------------------------------------------------------------------
// What the nodes of a tree are for
// ---------------------------------------------------------------------------

/// Every operator gets the kind of node of its own name, and no other operator
/// gets that kind: a filter is proved as a filter and nothing else is.
pub proof fn operators_keep_their_kind(plan: PlanView)
    ensures
        kind_of_plan(plan) == Some(PlanKind::Projection) <==> plan is Projection,
        kind_of_plan(plan) == Some(PlanKind::TableScan) <==> plan is TableScan,
        kind_of_plan(plan) == Some(PlanKind::Filter) <==> plan is Filter,
        kind_of_plan(plan) == Some(PlanKind::Aggregate) <==> plan is Aggregate,
        kind_of_plan(plan) == Some(PlanKind::Sort) <==> plan is Sort,
        kind_of_plan(plan) == Some(PlanKind::Join) <==> plan is Join,
        kind_of_plan(plan) == Some(PlanKind::SubqueryAlias) <==> plan is SubqueryAlias,
        kind_of_plan(plan) == Some(PlanKind::Limit) <==> plan is Limit,
        kind_of_plan(plan) == Some(PlanKind::Rematerialize) <==> plan is Rematerialize,
        kind_of_plan(plan) == Some(PlanKind::ResultCheck) <==> plan is ResultCheck,
        kind_of_plan(plan) is None <==> plan is Other,
{
}

/// Every expression gets the kind of node of its own name, and no other
/// expression gets that kind.
pub proof fn expressions_keep_their_kind(expr: ExprView)
    ensures
        kind_of_expr(expr) == Some(ExprKind::Column) <==> expr is Column,
        kind_of_expr(expr) == Some(ExprKind::Literal) <==> expr is Literal,
        kind_of_expr(expr) == Some(ExprKind::BinaryExpr) <==> expr is BinaryExpr,
        kind_of_expr(expr) == Some(ExprKind::Cast) <==> expr is Cast,
        kind_of_expr(expr) == Some(ExprKind::Alias) <==> expr is Alias,
        kind_of_expr(expr) == Some(ExprKind::AggregateFunction) <==> expr is AggregateFunction,
        kind_of_expr(expr) == Some(ExprKind::Between) <==> expr is Between,
        kind_of_expr(expr) == Some(ExprKind::InList) <==> expr is InList,
        kind_of_expr(expr) == Some(ExprKind::ScalarFunction) <==> expr is ScalarFunction,
        kind_of_expr(expr) == Some(ExprKind::InSubquery) <==> expr is InSubquery,
        kind_of_expr(expr) == Some(ExprKind::Case) <==> expr is Case,
        kind_of_expr(expr) == Some(ExprKind::Like) <==> expr is Like,
        kind_of_expr(expr) is None <==> expr is Other,
{
}

/// A parent has the node among its children, and no node listed before it has;
/// only a node that is nobody's child has no parent. The sibling at a place is
/// the parent's child at that place.
pub proof fn parents_have_their_children(arena: Seq<ArenaView>, id: u64, child: nat)
    ensures
        match parent_of(arena, id) {
            Some(p) => exists|i: int|
                0 <= i < arena.len() && (#[trigger] arena[i]).id == p && arena[i].children.contains(
                    id,
                ) && (forall|j: int|
                    0 <= j < i ==> !(#[trigger] arena[j]).children.contains(id)) && match sibling(
                    arena,
                    id,
                    child,
                ) {
                    Some(c) => child < arena[i].children.len() && arena[i].children[child as int]
                        == c,
                    None => child >= arena[i].children.len(),
                },
            None => sibling(arena, id, child) is None && forall|j: int|
                0 <= j < arena.len() ==> !(#[trigger] arena[j]).children.contains(id),
        },
{
    let p = has_child(id);
    lemma_first_index(arena, p);
    match first_index(arena, p) {
        Some(i) => {
            assert(p(arena[i]));
            assert forall|j: int| 0 <= j < i implies !(#[trigger] arena[j]).children.contains(
                id,
            ) by {
                assert(!p(arena[j]));
            }
        },
        None => {
            assert forall|j: int| 0 <= j < arena.len() implies !(
            #[trigger] arena[j]).children.contains(id) by {
                assert(!p(arena[j]));
            }
        },
    }
}

/// The node that counts the groups is a lookup under a support check of the
/// gadget, and it is found wherever the first support check has one.
pub proof fn multiplicities_are_below_the_support_check(gadget: Node)
    ensures
        match multiplicities_node(gadget) {
            Some(id) => exists|i: int, j: int|
                0 <= i < gadget.children@.len() && (#[trigger] gadget.children@[i]).name@
                    == "Support"@ && 0 <= j < gadget.children@[i].children@.len() && (
                #[trigger] gadget.children@[i].children@[j]).name@ == "Lookup"@
                    && gadget.children@[i].children@[j].id == id && (forall|k: int|
                    0 <= k < i ==> (#[trigger] gadget.children@[k]).name@ != "Support"@) && (
                forall|k: int|
                    0 <= k < j ==> (#[trigger] gadget.children@[i].children@[k]).name@
                        != "Lookup"@),
            None => forall|i: int|
                0 <= i < gadget.children@.len() && (#[trigger] gadget.children@[i]).name@
                    == "Support"@ && (forall|k: int|
                    0 <= k < i ==> (#[trigger] gadget.children@[k]).name@ != "Support"@)
                    ==> forall|j: int|
                    0 <= j < gadget.children@[i].children@.len() ==> (
                    #[trigger] gadget.children@[i].children@[j]).name@ != "Lookup"@,
        },
{
    let s = is_named("Support"@);
    let l = is_named("Lookup"@);
    let list = gadget.children@;
    lemma_first_index(list, s);
    match first_index(list, s) {
        Some(i) => {
            assert(s(list[i]));
            assert forall|k: int| 0 <= k < i implies (#[trigger] list[k]).name@ != "Support"@ by {
                assert(!s(list[k]));
            }
            let below = list[i].children@;
            lemma_first_index(below, l);
            match first_index(below, l) {
                Some(j) => {
                    assert(l(below[j]));
                    assert forall|k: int| 0 <= k < j implies (#[trigger] below[k]).name@
                        != "Lookup"@ by {
                        assert(!l(below[k]));
                    }
                },
                None => {
                    assert forall|k: int| 0 <= k < below.len() implies (#[trigger] below[k]).name@
                        != "Lookup"@ by {
                        assert(!l(below[k]));
                    }
                    assert forall|x: int|
                        0 <= x < list.len() && (#[trigger] list[x]).name@ == "Support"@ && (forall|
                            k: int,
                        |
                            0 <= k < x ==> (#[trigger] list[k]).name@
                                != "Support"@) implies x == i by {
                        if i < x {
                            assert(list[i].name@ != "Support"@);
                        }
                    }
                },
            }
        },
        None => {
            assert forall|x: int| 0 <= x < list.len() implies (#[trigger] list[x]).name@
                != "Support"@ by {
                assert(!s(list[x]));
            }
        },
    }
}

/// Whether a node with the given identifier is in a tree.
pub open spec fn occurs(n: Node, id: u64) -> bool {
    exists|path: Seq<int>| #[trigger] node_at(n, path) is Some && node_at(n, path)->0.id == id
}

/// A node that is in a tree has a path, and only such a node.
pub proof fn nodes_of_a_tree_have_paths(root: Node, target: u64)
    ensures
        path_to(root, target) is Some <==> occurs(root, target),
{
    if path_to(root, target) is Some {
        paths_lead_to_their_node(root, target);
    }
    if occurs(root, target) {
        let path = choose|path: Seq<int>| #[trigger]
            node_at(root, path) is Some && node_at(root, path)->0.id == target;
        lemma_reached_nodes_have_paths(root, target, path);
    }
}

proof fn lemma_reached_nodes_have_paths(n: Node, target: u64, path: Seq<int>)
    requires
        node_at(n, path) is Some,
        node_at(n, path)->0.id == target,
    ensures
        path_to(n, target) is Some,
    decreases path.len(),
{
    if path.len() > 0 && n.id != target {
        let k = path[0];
        lemma_reached_nodes_have_paths(n.children@[k], target, path.skip(1));
        lemma_path_found(n.children@, target, k, n.children@.len());
    }
}

proof fn lemma_path_found(list: Seq<Node>, target: u64, k: int, m: nat)
    requires
        0 <= k < m <= list.len(),
        path_to(list[k], target) is Some,
    ensures
        path_below(list, target, m) is Some,
    decreases m,
{
    if k < m - 1 {
        lemma_path_found(list, target, k, (m - 1) as nat);
    }
}

/// A join is in the mode of the first of its checks; without a check it is in
/// the mode that supports everything.
pub proof fn joins_are_in_the_mode_of_their_check(n: Node)
    ensures
        forall|i: int|
            0 <= i < n.children@.len() && (#[trigger] n.children@[i]).kind is JoinGadget && (forall|
                j: int,
            |
                0 <= j < i ==> !((#[trigger] n.children@[j]).kind is JoinGadget)) ==> mode_of(n)
                == n.children@[i].kind->JoinGadget_0,
        (forall|i: int|
            0 <= i < n.children@.len() ==> !((#[trigger] n.children@[i]).kind is JoinGadget))
            ==> mode_of(n) == JoinMode::MANY_TO_MANY,
{
    let list = n.children@;
    assert forall|i: int|
        0 <= i < list.len() && (#[trigger] list[i]).kind is JoinGadget && (forall|j: int|
            0 <= j < i ==> !((#[trigger] list[j]).kind is JoinGadget)) implies mode_of(n)
        == list[i].kind->JoinGadget_0 by {
        lemma_first_mode(list, list.len(), i);
    }
    if forall|i: int| 0 <= i < list.len() ==> !((#[trigger] list[i]).kind is JoinGadget) {
        lemma_no_mode(list, list.len());
    }
}

proof fn lemma_first_mode(list: Seq<Node>, k: nat, i: int)
    requires
        k <= list.len(),
        0 <= i < list.len(),
        list[i].kind is JoinGadget,
        forall|j: int| 0 <= j < i ==> !((#[trigger] list[j]).kind is JoinGadget),
    ensures
        i < k ==> first_mode(list, k) == Some(list[i].kind->JoinGadget_0),
        i >= k ==> first_mode(list, k) is None,
    decreases k,
{
    if k > 0 {
        lemma_first_mode(list, (k - 1) as nat, i);
    }
}

proof fn lemma_no_mode(list: Seq<Node>, k: nat)
    requires
        k <= list.len(),
        forall|j: int| 0 <= j < list.len() ==> !((#[trigger] list[j]).kind is JoinGadget),
    ensures
        first_mode(list, k) is None,
    decreases k,
{
    if k > 0 {
        lemma_no_mode(list, (k - 1) as nat);
    }
}

/// Number of joins of a tree.
pub open spec fn join_count(n: Node) -> nat
    decreases n, 0nat,
{
    (if n.kind == NodeKind::Plan(PlanKind::Join) {
        1nat
    } else {
        0nat
    }) + join_count_below(n.children@, n.children@.len())
}

/// Number of joins at and below the first `k` nodes.
pub open spec fn join_count_below(list: Seq<Node>, k: nat) -> nat
    decreases list, k,
{
    if k == 0 || k > list.len() {
        0
    } else {
        join_count_below(list, (k - 1) as nat) + join_count(list[k - 1])
    }
}

/// Every join of a tree has exactly one mode in the list; the mode of a join
/// stands before those of the joins below it.
pub proof fn every_join_has_one_mode(n: Node)
    ensures
        join_modes(n).len() == join_count(n),
        n.kind == NodeKind::Plan(PlanKind::Join) ==> join_modes(n).len() > 0 && join_modes(n)[0]
            == mode_of(n),
    decreases n, 0nat,
{
    lemma_modes_below(n.children@, n.children@.len());
}

proof fn lemma_modes_below(list: Seq<Node>, k: nat)
    requires
        k <= list.len(),
    ensures
        join_modes_below(list, k).len() == join_count_below(list, k),
    decreases list, k,
{
    if k > 0 {
        lemma_modes_below(list, (k - 1) as nat);
        every_join_has_one_mode(list[k - 1]);
    }
}

/// The joins of a tree are listed from the top: a join stands before all joins
/// below it, and what is below an earlier child before what is below a later
/// one.
pub proof fn joins_are_listed_from_the_top(n: Node, k: nat)
    requires
        k < n.children@.len(),
    ensures
        n.kind == NodeKind::Plan(PlanKind::Join) ==> join_modes(n).len() > 0 && join_modes(n)[0]
            == mode_of(n) && join_modes(n).skip(1) == join_modes_below(
            n.children@,
            n.children@.len(),
        ),
        n.kind != NodeKind::Plan(PlanKind::Join) ==> join_modes(n) == join_modes_below(
            n.children@,
            n.children@.len(),
        ),
        join_modes_below(n.children@, k).is_prefix_of(join_modes_below(n.children@, k + 1)),
        join_modes_below(n.children@, k + 1).skip(
            join_modes_below(n.children@, k).len() as int,
        ) == join_modes(n.children@[k as int]),
{
    let list = n.children@;
    let below = join_modes_below(list, list.len());
    if n.kind == NodeKind::Plan(PlanKind::Join) {
        assert((seq![mode_of(n)] + below).skip(1) =~= below);
    }
    let a = join_modes_below(list, k);
    let b = join_modes(list[k as int]);
    assert(join_modes_below(list, k + 1) == a + b);
    assert((a + b).skip(a.len() as int) =~= b);
    assert((a + b).take(a.len() as int) =~= a);
}

proof fn lemma_gadgets_are_asked(list: Seq<Node>, k: nat, m: JoinMode, i: int)
    requires
        0 <= i < k <= list.len(),
        list[i].kind is JoinGadget,
    ensures
        gadget_requests(list, k, m).contains((list[i].id, m)),
    decreases k,
{
    let before = gadget_requests(list, (k - 1) as nat, m);
    let now = gadget_requests(list, k, m);
    if i < k - 1 {
        lemma_gadgets_are_asked(list, (k - 1) as nat, m, i);
        let x = choose|x: int| 0 <= x < before.len() && before[x] == (list[i].id, m);
        assert(now[x] == (list[i].id, m));
    } else {
        assert(now[before.len() as int] == (list[i].id, m));
    }
}

/// A join is given the mode that stands at its own place in the list: its
/// checks are asked for that one.
pub proof fn joins_are_given_the_mode_at_their_place(
    n: Node,
    modes: Seq<JoinMode>,
    idx: nat,
    i: int,
)
    requires
        n.kind == NodeKind::Plan(PlanKind::Join),
        idx < modes.len(),
        0 <= i < n.children@.len(),
        n.children@[i].kind is JoinGadget,
    ensures
        mode_requests(n, modes, idx).contains((n.children@[i].id, modes[idx as int])),
{
    let list = n.children@;
    let m = modes[idx as int];
    lemma_gadgets_are_asked(list, list.len(), m, i);
    let own = gadget_requests(list, list.len(), m);
    let x = choose|x: int| 0 <= x < own.len() && own[x] == (list[i].id, m);
    assert(mode_requests(n, modes, idx)[x] == (list[i].id, m));
}

/// The binary form of stored bytes counts before the text form, and bytes that
/// are in neither are refused.
pub proof fn the_binary_form_counts_first(binary: Option<TreeRepr>, text: Option<TreeRepr>)
    ensures
        binary matches Some(t) ==> stored_tree(binary, text) == Ok::<TreeRepr, CodecError>(t),
        binary is None ==> (text matches Some(t) ==> stored_tree(binary, text) == Ok::<
            TreeRepr,
            CodecError,
        >(t)),
        stored_tree(binary, text) is Err <==> binary is None && text is None,
{
}

} // verus!
