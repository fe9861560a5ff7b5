//! What stands inside what in a syntax tree.

use crate::ast::{Expr, ExprV, Function, FunctionV, MatchCaseV, Stmt, StmtV};
use crate::text::Text;
use crate::types::Spanned;
use vstd::prelude::*;

verus! {

/// A part of a syntax tree.
pub enum NodeV {
    Expr(ExprV),
    Stmt(Spanned<StmtV>),
    Case(MatchCaseV),
    Function(FunctionV),
}

/// Statements as parts of a tree.
pub open spec fn stmt_nodes(xs: Seq<Spanned<StmtV>>) -> Seq<NodeV> {
    xs.map_values(|s: Spanned<StmtV>| NodeV::Stmt(s))
}

/// Expressions as parts of a tree.
pub open spec fn expr_nodes(xs: Seq<Spanned<ExprV>>) -> Seq<NodeV> {
    xs.map_values(|e: Spanned<ExprV>| NodeV::Expr(e.node))
}

/// Labelled expressions as parts of a tree.
pub open spec fn labelled_nodes(xs: Seq<(Text, Spanned<ExprV>)>) -> Seq<NodeV> {
    xs.map_values(|e: (Text, Spanned<ExprV>)| NodeV::Expr(e.1.node))
}

/// Arguments of a constructor as parts of a tree.
pub open spec fn ctor_arg_nodes(xs: Seq<(Option<Text>, Spanned<ExprV>)>) -> Seq<NodeV> {
    xs.map_values(|e: (Option<Text>, Spanned<ExprV>)| NodeV::Expr(e.1.node))
}

/// Cases as parts of a tree.
pub open spec fn case_nodes(xs: Seq<MatchCaseV>) -> Seq<NodeV> {
    xs.map_values(|c: MatchCaseV| NodeV::Case(c))
}

/// Functions as parts of a tree.
pub open spec fn function_nodes(xs: Seq<FunctionV>) -> Seq<NodeV> {
    xs.map_values(|f: FunctionV| NodeV::Function(f))
}

/// The parts that stand directly inside an expression, in the order of the text.
pub open spec fn expr_parts(e: ExprV) -> Seq<NodeV> {
    match e {
        ExprV::Literal(_) => Seq::empty(),
        ExprV::Variable(_, _) => Seq::empty(),
        ExprV::Borrow(_, _) => Seq::empty(),
        ExprV::External(_, _, _) => Seq::empty(),
        ExprV::BinaryOp(l, _, r) => seq![NodeV::Expr(l.node)] + seq![NodeV::Expr(r.node)],
        ExprV::Index(l, r) => seq![NodeV::Expr(l.node)] + seq![NodeV::Expr(r.node)],
        ExprV::Call { func: _, args } => labelled_nodes(args),
        ExprV::Constructor(_, args) => ctor_arg_nodes(args),
        ExprV::Record(fs) => labelled_nodes(fs),
        ExprV::Array(es) => expr_nodes(es),
        ExprV::List(es) => expr_nodes(es),
        ExprV::FieldAccess(x, _) => seq![NodeV::Expr(x.node)],
        ExprV::Raise(x) => seq![NodeV::Expr(x.node)],
        ExprV::If { cond, then_branch, else_branch } => seq![NodeV::Expr(cond.node)] + (stmt_nodes(
            then_branch,
        ) + match else_branch {
            Some(b) => stmt_nodes(b),
            None => Seq::empty(),
        }),
        ExprV::Match { target, cases } => seq![NodeV::Expr(target.node)] + case_nodes(cases),
        ExprV::While { cond, body } => seq![NodeV::Expr(cond.node)] + stmt_nodes(body),
        ExprV::For { var: _, start, end_expr, body } => seq![NodeV::Expr(start.node)] + (seq![
            NodeV::Expr(end_expr.node),
        ] + stmt_nodes(body)),
        ExprV::Lambda { type_params: _, params: _, ret_type: _, requires: _, throws: _, body } => {
            stmt_nodes(body)
        },
        ExprV::Handler { coeffect_name: _, requires: _, functions } => function_nodes(functions),
    }
}

/// The parts that stand directly inside a statement, in the order of the text.
pub open spec fn stmt_parts(s: StmtV) -> Seq<NodeV> {
    match s {
        StmtV::Let { name: _, sigil: _, typ: _, value } => seq![NodeV::Expr(value.node)],
        StmtV::LetPattern { pattern: _, value } => seq![NodeV::Expr(value.node)],
        StmtV::Expr(value) => seq![NodeV::Expr(value.node)],
        StmtV::Return(value) => seq![NodeV::Expr(value.node)],
        StmtV::Assign { target, value } => seq![NodeV::Expr(target.node)] + seq![
            NodeV::Expr(value.node),
        ],
        StmtV::Conc(tasks) => function_nodes(tasks),
        StmtV::Try { body, catch_param: _, catch_body } => stmt_nodes(body) + stmt_nodes(catch_body),
        StmtV::Inject { handlers: _, body } => stmt_nodes(body),
    }
}

/// The parts that stand directly inside a part of a tree. Unless `closures` is set, closures and
/// handlers are not entered.
pub open spec fn parts_of(n: NodeV, closures: bool) -> Seq<NodeV> {
    match n {
        NodeV::Expr(e) => if !closures && (e is Lambda || e is Handler) {
            Seq::empty()
        } else {
            expr_parts(e)
        },
        NodeV::Stmt(s) => stmt_parts(s.node),
        NodeV::Case(c) => stmt_nodes(c.body),
        NodeV::Function(f) => stmt_nodes(f.body),
    }
}

/// Whether a part of which something holds stands `d` levels inside a part of a tree.
pub open spec fn holds_below(n: NodeV, q: spec_fn(NodeV) -> bool, closures: bool, d: nat) -> bool
    decreases d,
{
    if d == 0 {
        q(n)
    } else {
        exists|i: int|
            0 <= i < parts_of(n, closures).len() && holds_below(
                #[trigger] parts_of(n, closures)[i],
                q,
                closures,
                (d - 1) as nat,
            )
    }
}

/// Whether something holds of a part of a tree or of a part anywhere inside it.
#[verifier::opaque]
pub open spec fn holds_inside(n: NodeV, q: spec_fn(NodeV) -> bool, closures: bool) -> bool {
    exists|d: nat| holds_below(n, q, closures, d)
}

/// Whether something holds of one of the parts from index `i` on, or anywhere inside one.
pub open spec fn some_holds(
    ps: Seq<NodeV>,
    i: nat,
    q: spec_fn(NodeV) -> bool,
    closures: bool,
) -> bool {
    exists|j: int| i <= j < ps.len() && holds_inside(#[trigger] ps[j], q, closures)
}

/// What holds inside a part holds of it, or inside one of the parts that stand directly in it.
pub proof fn law_inside_is_here_or_deeper(n: NodeV, q: spec_fn(NodeV) -> bool, closures: bool)
    ensures
        holds_inside(n, q, closures) <==> q(n) || some_holds(
            parts_of(n, closures),
            0,
            q,
            closures,
        ),
{
    reveal(holds_inside);
    let ps = parts_of(n, closures);
    if q(n) {
        assert(holds_below(n, q, closures, 0));
    }
    if some_holds(ps, 0, q, closures) {
        let j = choose|j: int| 0 <= j < ps.len() && holds_inside(#[trigger] ps[j], q, closures);
        let d = choose|d: nat| holds_below(ps[j], q, closures, d);
        assert(holds_below(n, q, closures, d + 1));
    }
    if holds_inside(n, q, closures) {
        let d = choose|d: nat| holds_below(n, q, closures, d);
        if d > 0 {
            let j = choose|j: int|
                0 <= j < ps.len() && holds_below(#[trigger] ps[j], q, closures, (d - 1) as nat);
            assert(holds_inside(ps[j], q, closures));
        }
    }
}

/// What holds in one of two lists of parts.
pub proof fn lemma_some_of_both(
    a: Seq<NodeV>,
    b: Seq<NodeV>,
    q: spec_fn(NodeV) -> bool,
    closures: bool,
)
    ensures
        some_holds(a + b, 0, q, closures) <==> some_holds(a, 0, q, closures) || some_holds(
            b,
            0,
            q,
            closures,
        ),
{
    let all = a + b;
    if some_holds(a, 0, q, closures) {
        let j = choose|j: int| 0 <= j < a.len() && holds_inside(#[trigger] a[j], q, closures);
        assert(all[j] == a[j]);
    }
    if some_holds(b, 0, q, closures) {
        let j = choose|j: int| 0 <= j < b.len() && holds_inside(#[trigger] b[j], q, closures);
        assert(all[a.len() + j] == b[j]);
    }
    if some_holds(all, 0, q, closures) {
        let j = choose|j: int| 0 <= j < all.len() && holds_inside(#[trigger] all[j], q, closures);
        if j < a.len() {
            assert(a[j] == all[j]);
        } else {
            assert(b[j - a.len()] == all[j]);
        }
    }
}

/// What holds in a list of one part.
pub proof fn lemma_some_of_one(n: NodeV, q: spec_fn(NodeV) -> bool, closures: bool)
    ensures
        some_holds(seq![n], 0, q, closures) <==> holds_inside(n, q, closures),
{
    assert(seq![n][0] == n);
}

/// What holds in a list of parts holds in its first part or in the others.
pub proof fn lemma_some_from(ps: Seq<NodeV>, i: nat, q: spec_fn(NodeV) -> bool, closures: bool)
    requires
        i < ps.len(),
    ensures
        some_holds(ps, i, q, closures) <==> holds_inside(ps[i as int], q, closures) || some_holds(
            ps,
            i + 1,
            q,
            closures,
        ),
{
    if some_holds(ps, i, q, closures) {
        let j = choose|j: int| i <= j < ps.len() && holds_inside(#[trigger] ps[j], q, closures);
    }
}

} // verus!
