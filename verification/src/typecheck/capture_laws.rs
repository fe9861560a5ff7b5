//! What a closure captures, by what occurs where in its body.

use crate::ast::{ExprV, Function, FunctionV, MatchCaseV, ParamV, PatternV, StmtV};
use crate::text;
use crate::text::Text;
use crate::tree;
use crate::tree::NodeV;
use crate::typecheck::capture;
use crate::typecheck::capture::BoundV;
use crate::typecheck::lint_laws;
use crate::types::{Sigil, Spanned};
use vstd::prelude::*;

verus! {

/// Whether a pattern binds a key.
pub open spec fn pattern_binds(p: PatternV, k: Text) -> bool
    decreases p,
{
    match p {
        PatternV::Variable(name, sigil) => sigil.key(name) == k,
        PatternV::Constructor(_, args) => exists|i: int|
            0 <= i < args.len() && pattern_binds((#[trigger] args[i]).1.node, k),
        PatternV::Record(fs, _) => exists|i: int|
            0 <= i < fs.len() && pattern_binds((#[trigger] fs[i]).1.node, k),
        _ => false,
    }
}

/// Whether parameters bind a key.
pub open spec fn params_bind(params: Seq<ParamV>, k: Text) -> bool {
    exists|i: int| 0 <= i < params.len() && (#[trigger] params[i]).sigil.key(params[i].name) == k
}

/// Whether a part of a tree binds a key: a `let`, a `catch`, a loop over a range, a case, a
/// closure or a function.
pub open spec fn binds_key(n: NodeV, k: Text) -> bool {
    match n {
        NodeV::Stmt(s) => match s.node {
            StmtV::Let { name, sigil, typ: _, value: _ } => sigil.key(name) == k,
            StmtV::LetPattern { pattern, value: _ } => pattern_binds(pattern.node, k),
            StmtV::Try { body: _, catch_param, catch_body: _ } => catch_param == k,
            _ => false,
        },
        NodeV::Expr(ExprV::For { var, start: _, end_expr: _, body: _ }) => var == k,
        NodeV::Expr(
            ExprV::Lambda {
                type_params: _,
                params,
                ret_type: _,
                requires: _,
                throws: _,
                body: _,
            },
        ) => params_bind(params, k),
        NodeV::Case(c) => pattern_binds(c.pattern.node, k),
        NodeV::Function(f) => params_bind(f.params, k),
        _ => false,
    }
}

/// That a part of a tree binds a key.
pub open spec fn key_binder(k: Text) -> spec_fn(NodeV) -> bool {
    |n: NodeV| binds_key(n, k)
}

/// Whether a part of a tree uses a key itself: a variable or a borrow of that key, or a call of a
/// plain name.
pub open spec fn uses_key(n: NodeV, k: Text) -> bool {
    match n {
        NodeV::Expr(ExprV::Variable(name, sigil)) => sigil.key(name) == k,
        NodeV::Expr(ExprV::Borrow(name, sigil)) => sigil.key(name) == k,
        NodeV::Expr(ExprV::Call { func, args: _ }) => func == k && !func.contains('.'),
        _ => false,
    }
}

/// That a part of a tree uses a key itself.
pub open spec fn key_user(k: Text) -> spec_fn(NodeV) -> bool {
    |n: NodeV| uses_key(n, k)
}

/// Whether a key is not among the names bound so far.
pub open spec fn unbound_key(b: BoundV, k: Text) -> bool {
    !text::has_text(b.keys, k) && !text::has_text(b.calls, k)
}

/// Whether a key is among the names bound so far, for variables and for calls.
pub open spec fn hidden_key(b: BoundV, k: Text) -> bool {
    text::has_text(b.keys, k) && text::has_text(b.calls, k)
}

/// That a part of a tree is a function of its own, in which nothing from outside is bound.
pub open spec fn opens_function() -> spec_fn(NodeV) -> bool {
    |n: NodeV| n is Function
}

proof fn lemma_name_hides(b: BoundV, name: Text, sigil: Sigil, k: Text)
    ensures
        hidden_key(b, k) ==> hidden_key(capture::bound_name(b, name, sigil), k),
        sigil is Immutable ==> hidden_key(capture::bound_name(b, name, sigil), name),
{
    lint_laws::lemma_after_with_text(b.keys, sigil.key(name), k);
    lint_laws::lemma_after_with_text(b.calls, name, k);
    lint_laws::lemma_after_with_text(b.keys, sigil.key(name), name);
    lint_laws::lemma_after_with_text(b.calls, name, name);
}

proof fn lemma_params_hide(b: BoundV, params: Seq<ParamV>, i: nat, k: Text)
    ensures
        hidden_key(b, k) || (exists|j: int|
            i <= j < params.len() && (#[trigger] params[j]).sigil is Immutable && params[j].name
                == k) ==> hidden_key(capture::bound_param_names(b, params, i), k),
    decreases params.len() - i,
{
    if i < params.len() {
        let p = params[i as int];
        lemma_name_hides(b, p.name, p.sigil, k);
        lemma_params_hide(capture::bound_name(b, p.name, p.sigil), params, i + 1, k);
    }
}

proof fn lemma_pattern_hides(b: BoundV, p: PatternV, k: Text)
    requires
        hidden_key(b, k),
    ensures
        hidden_key(capture::bound_pattern(b, p), k),
    decreases p, 0nat,
{
    match p {
        PatternV::Variable(name, sigil) => lemma_name_hides(b, name, sigil, k),
        PatternV::Constructor(_, args) => lemma_args_hide(b, args, 0, k),
        PatternV::Record(fs, _) => lemma_fields_hide(b, fs, 0, k),
        _ => {},
    }
}

proof fn lemma_args_hide(
    b: BoundV,
    args: Seq<(Option<Text>, Spanned<PatternV>)>,
    i: nat,
    k: Text,
)
    requires
        hidden_key(b, k),
    ensures
        hidden_key(capture::bound_ctor_args(b, args, i), k),
    decreases args, args.len() - i,
{
    if i < args.len() {
        lemma_pattern_hides(b, args[i as int].1.node, k);
        lemma_args_hide(capture::bound_pattern(b, args[i as int].1.node), args, i + 1, k);
    }
}

proof fn lemma_fields_hide(b: BoundV, fs: Seq<(Text, Spanned<PatternV>)>, i: nat, k: Text)
    requires
        hidden_key(b, k),
    ensures
        hidden_key(capture::bound_record_fields(b, fs, i), k),
    decreases fs, fs.len() - i,
{
    if i < fs.len() {
        lemma_pattern_hides(b, fs[i as int].1.node, k);
        lemma_fields_hide(capture::bound_pattern(b, fs[i as int].1.node), fs, i + 1, k);
    }
}

proof fn lemma_name_bound(b: BoundV, name: Text, sigil: Sigil, k: Text)
    requires
        unbound_key(b, k),
        sigil.key(name) != k,
    ensures
        unbound_key(capture::bound_name(b, name, sigil), k),
{
    lint_laws::lemma_after_with_text(b.keys, sigil.key(name), k);
    lint_laws::lemma_after_with_text(b.calls, name, k);
}

proof fn lemma_params_bound(b: BoundV, params: Seq<ParamV>, i: nat, k: Text)
    requires
        unbound_key(b, k),
        !params_bind(params, k),
    ensures
        unbound_key(capture::bound_param_names(b, params, i), k),
    decreases params.len() - i,
{
    if i < params.len() {
        let p = params[i as int];
        lemma_name_bound(b, p.name, p.sigil, k);
        lemma_params_bound(capture::bound_name(b, p.name, p.sigil), params, i + 1, k);
    }
}

proof fn lemma_pattern_bound(b: BoundV, p: PatternV, k: Text)
    requires
        unbound_key(b, k),
        !pattern_binds(p, k),
    ensures
        unbound_key(capture::bound_pattern(b, p), k),
    decreases p, 0nat,
{
    match p {
        PatternV::Variable(name, sigil) => lemma_name_bound(b, name, sigil, k),
        PatternV::Constructor(_, args) => lemma_args_bound(b, args, 0, k),
        PatternV::Record(fs, _) => lemma_fields_bound(b, fs, 0, k),
        _ => {},
    }
}

proof fn lemma_args_bound(
    b: BoundV,
    args: Seq<(Option<Text>, Spanned<PatternV>)>,
    i: nat,
    k: Text,
)
    requires
        unbound_key(b, k),
        forall|j: int| 0 <= j < args.len() ==> !pattern_binds((#[trigger] args[j]).1.node, k),
    ensures
        unbound_key(capture::bound_ctor_args(b, args, i), k),
    decreases args, args.len() - i,
{
    if i < args.len() {
        lemma_pattern_bound(b, args[i as int].1.node, k);
        lemma_args_bound(capture::bound_pattern(b, args[i as int].1.node), args, i + 1, k);
    }
}

proof fn lemma_fields_bound(b: BoundV, fs: Seq<(Text, Spanned<PatternV>)>, i: nat, k: Text)
    requires
        unbound_key(b, k),
        forall|j: int| 0 <= j < fs.len() ==> !pattern_binds((#[trigger] fs[j]).1.node, k),
    ensures
        unbound_key(capture::bound_record_fields(b, fs, i), k),
    decreases fs, fs.len() - i,
{
    if i < fs.len() {
        lemma_pattern_bound(b, fs[i as int].1.node, k);
        lemma_fields_bound(capture::bound_pattern(b, fs[i as int].1.node), fs, i + 1, k);
    }
}

proof fn lemma_key_captured(caps: Seq<Text>, outer: Seq<Text>, bound: Seq<Text>, key: Text, k: Text)
    ensures
        text::has_text(capture::captured_key(caps, outer, bound, key), k) <==> text::has_text(caps, k) || (key == k
            && text::has_text(outer, k) && !text::has_text(bound, k)),
{
    lint_laws::lemma_after_with_text(caps, key, k);
}

/// What an expression captures.
#[verifier::spinoff_prover]
#[verifier::rlimit(60)]
proof fn lemma_expr_captures(e: ExprV, outer: Seq<Text>, b: BoundV, caps: Seq<Text>, k: Text)
    ensures
        text::has_text(capture::expr_captures(e, outer, b, caps), k) ==> text::has_text(caps, k) || (text::has_text(outer, k) && tree::holds_inside(NodeV::Expr(e), key_user(k), true)),
        text::has_text(caps, k) ==> text::has_text(capture::expr_captures(e, outer, b, caps), k),
        unbound_key(b, k) && !tree::holds_inside(NodeV::Expr(e), key_binder(k), true) && text::has_text(outer, k) && tree::holds_inside(NodeV::Expr(e), key_user(k), true) ==> text::has_text(capture::expr_captures(e, outer, b, caps), k),
        hidden_key(b, k) && !tree::holds_inside(NodeV::Expr(e), opens_function(), true) && text::has_text(capture::expr_captures(e, outer, b, caps), k) ==> text::has_text(caps, k),
    decreases e, 0nat,
{
    let u = key_user(k);
    let d = key_binder(k);
    let f = opens_function();
    tree::law_inside_is_here_or_deeper(NodeV::Expr(e), u, true);
    tree::law_inside_is_here_or_deeper(NodeV::Expr(e), d, true);
    tree::law_inside_is_here_or_deeper(NodeV::Expr(e), f, true);
    match e {
        ExprV::Literal(_) => {
        },
        ExprV::Variable(name, sigil) => {
            lemma_key_captured(caps, outer, b.keys, sigil.key(name), k);
        },
        ExprV::Borrow(name, sigil) => {
            lemma_key_captured(caps, outer, b.keys, sigil.key(name), k);
        },
        ExprV::BinaryOp(l, _, r) => {
            tree::lemma_some_of_one(NodeV::Expr(l.node), u, true);
            tree::lemma_some_of_one(NodeV::Expr(l.node), d, true);
            tree::lemma_some_of_one(NodeV::Expr(l.node), f, true);
            tree::lemma_some_of_one(NodeV::Expr(r.node), u, true);
            tree::lemma_some_of_one(NodeV::Expr(r.node), d, true);
            tree::lemma_some_of_one(NodeV::Expr(r.node), f, true);
            tree::lemma_some_of_both(seq![NodeV::Expr(l.node)], seq![NodeV::Expr(r.node)], u, true);
            tree::lemma_some_of_both(seq![NodeV::Expr(l.node)], seq![NodeV::Expr(r.node)], d, true);
            tree::lemma_some_of_both(seq![NodeV::Expr(l.node)], seq![NodeV::Expr(r.node)], f, true);
            lemma_expr_captures(l.node, outer, b, caps, k);
            lemma_expr_captures(r.node, outer, b, capture::expr_captures(l.node, outer, b, caps), k);
        },
        ExprV::Index(l, r) => {
            tree::lemma_some_of_one(NodeV::Expr(l.node), u, true);
            tree::lemma_some_of_one(NodeV::Expr(l.node), d, true);
            tree::lemma_some_of_one(NodeV::Expr(l.node), f, true);
            tree::lemma_some_of_one(NodeV::Expr(r.node), u, true);
            tree::lemma_some_of_one(NodeV::Expr(r.node), d, true);
            tree::lemma_some_of_one(NodeV::Expr(r.node), f, true);
            tree::lemma_some_of_both(seq![NodeV::Expr(l.node)], seq![NodeV::Expr(r.node)], u, true);
            tree::lemma_some_of_both(seq![NodeV::Expr(l.node)], seq![NodeV::Expr(r.node)], d, true);
            tree::lemma_some_of_both(seq![NodeV::Expr(l.node)], seq![NodeV::Expr(r.node)], f, true);
            lemma_expr_captures(l.node, outer, b, caps, k);
            lemma_expr_captures(r.node, outer, b, capture::expr_captures(l.node, outer, b, caps), k);
        },
        ExprV::Call { func, args } => {
            lemma_key_captured(caps, outer, b.calls, func, k);
            let next = if !func.contains('.') {
                capture::captured_key(caps, outer, b.calls, func)
            } else {
                caps
            };
            lemma_labelled_captures(args, 0, outer, b, next, k);
        },
        ExprV::Constructor(_, args) => {
            lemma_ctor_args_captures(args, 0, outer, b, caps, k);
        },
        ExprV::Record(fs) => {
            lemma_labelled_captures(fs, 0, outer, b, caps, k);
        },
        ExprV::Array(es) => {
            lemma_exprs_captures(es, 0, outer, b, caps, k);
        },
        ExprV::List(es) => {
            lemma_exprs_captures(es, 0, outer, b, caps, k);
        },
        ExprV::FieldAccess(x, _) => {
            tree::lemma_some_of_one(NodeV::Expr(x.node), u, true);
            tree::lemma_some_of_one(NodeV::Expr(x.node), d, true);
            tree::lemma_some_of_one(NodeV::Expr(x.node), f, true);
            lemma_expr_captures(x.node, outer, b, caps, k);
        },
        ExprV::Raise(x) => {
            tree::lemma_some_of_one(NodeV::Expr(x.node), u, true);
            tree::lemma_some_of_one(NodeV::Expr(x.node), d, true);
            tree::lemma_some_of_one(NodeV::Expr(x.node), f, true);
            lemma_expr_captures(x.node, outer, b, caps, k);
        },
        ExprV::If { cond, then_branch, else_branch } => {
            let rest = match else_branch {
                Some(other) => tree::stmt_nodes(other),
                None => Seq::empty(),
            };
            tree::lemma_some_of_one(NodeV::Expr(cond.node), u, true);
            tree::lemma_some_of_one(NodeV::Expr(cond.node), d, true);
            tree::lemma_some_of_one(NodeV::Expr(cond.node), f, true);
            tree::lemma_some_of_both(seq![NodeV::Expr(cond.node)], tree::stmt_nodes(then_branch) + rest, u, true);
            tree::lemma_some_of_both(seq![NodeV::Expr(cond.node)], tree::stmt_nodes(then_branch) + rest, d, true);
            tree::lemma_some_of_both(seq![NodeV::Expr(cond.node)], tree::stmt_nodes(then_branch) + rest, f, true);
            tree::lemma_some_of_both(tree::stmt_nodes(then_branch), rest, u, true);
            tree::lemma_some_of_both(tree::stmt_nodes(then_branch), rest, d, true);
            tree::lemma_some_of_both(tree::stmt_nodes(then_branch), rest, f, true);
            lemma_expr_captures(cond.node, outer, b, caps, k);
            lemma_stmts_captures(then_branch, 0, outer, b, capture::expr_captures(cond.node, outer, b, caps), k);
            match else_branch {
                Some(other) => lemma_stmts_captures(other, 0, outer, b, capture::stmts_captures(then_branch, 0, outer, b, capture::expr_captures(cond.node, outer, b, caps)), k),
                None => {},
            }
        },
        ExprV::Match { target, cases } => {
            tree::lemma_some_of_one(NodeV::Expr(target.node), u, true);
            tree::lemma_some_of_one(NodeV::Expr(target.node), d, true);
            tree::lemma_some_of_one(NodeV::Expr(target.node), f, true);
            tree::lemma_some_of_both(seq![NodeV::Expr(target.node)], tree::case_nodes(cases), u, true);
            tree::lemma_some_of_both(seq![NodeV::Expr(target.node)], tree::case_nodes(cases), d, true);
            tree::lemma_some_of_both(seq![NodeV::Expr(target.node)], tree::case_nodes(cases), f, true);
            lemma_expr_captures(target.node, outer, b, caps, k);
            lemma_cases_captures(cases, 0, outer, b, capture::expr_captures(target.node, outer, b, caps), k);
        },
        ExprV::While { cond, body } => {
            tree::lemma_some_of_one(NodeV::Expr(cond.node), u, true);
            tree::lemma_some_of_one(NodeV::Expr(cond.node), d, true);
            tree::lemma_some_of_one(NodeV::Expr(cond.node), f, true);
            tree::lemma_some_of_both(seq![NodeV::Expr(cond.node)], tree::stmt_nodes(body), u, true);
            tree::lemma_some_of_both(seq![NodeV::Expr(cond.node)], tree::stmt_nodes(body), d, true);
            tree::lemma_some_of_both(seq![NodeV::Expr(cond.node)], tree::stmt_nodes(body), f, true);
            lemma_expr_captures(cond.node, outer, b, caps, k);
            lemma_stmts_captures(body, 0, outer, b, capture::expr_captures(cond.node, outer, b, caps), k);
        },
        ExprV::For { var, start, end_expr, body } => {
            tree::lemma_some_of_one(NodeV::Expr(start.node), u, true);
            tree::lemma_some_of_one(NodeV::Expr(start.node), d, true);
            tree::lemma_some_of_one(NodeV::Expr(start.node), f, true);
            tree::lemma_some_of_one(NodeV::Expr(end_expr.node), u, true);
            tree::lemma_some_of_one(NodeV::Expr(end_expr.node), d, true);
            tree::lemma_some_of_one(NodeV::Expr(end_expr.node), f, true);
            tree::lemma_some_of_both(seq![NodeV::Expr(start.node)], seq![NodeV::Expr(end_expr.node)] + tree::stmt_nodes(body), u, true);
            tree::lemma_some_of_both(seq![NodeV::Expr(start.node)], seq![NodeV::Expr(end_expr.node)] + tree::stmt_nodes(body), d, true);
            tree::lemma_some_of_both(seq![NodeV::Expr(start.node)], seq![NodeV::Expr(end_expr.node)] + tree::stmt_nodes(body), f, true);
            tree::lemma_some_of_both(seq![NodeV::Expr(end_expr.node)], tree::stmt_nodes(body), u, true);
            tree::lemma_some_of_both(seq![NodeV::Expr(end_expr.node)], tree::stmt_nodes(body), d, true);
            tree::lemma_some_of_both(seq![NodeV::Expr(end_expr.node)], tree::stmt_nodes(body), f, true);
            lemma_expr_captures(start.node, outer, b, caps, k);
            lemma_expr_captures(end_expr.node, outer, b, capture::expr_captures(start.node, outer, b, caps), k);
            let inner = BoundV { keys: text::with_text(b.keys, var), calls: b.calls };
            lint_laws::lemma_after_with_text(b.keys, var, k);
            lemma_stmts_captures(body, 0, outer, inner, capture::expr_captures(end_expr.node, outer, b, capture::expr_captures(start.node, outer, b, caps)), k);
        },
        ExprV::Lambda { type_params: _, params, ret_type: _, requires: _, throws: _, body } => {
            lemma_params_hide(b, params, 0, k);
            if unbound_key(b, k) && !params_bind(params, k) {
                lemma_params_bound(b, params, 0, k);
            }
            lemma_stmts_captures(body, 0, outer, capture::bound_param_names(b, params, 0), caps, k);
        },
        ExprV::External(_, _, _) => {
        },
        ExprV::Handler { coeffect_name: _, requires: _, functions } => {
            lemma_functions_captures(functions, 0, outer, caps, k);
        },
    }
}

/// What a statement captures.
#[verifier::spinoff_prover]
#[verifier::rlimit(60)]
proof fn lemma_stmt_captures(
    s: Spanned<StmtV>,
    outer: Seq<Text>,
    b: BoundV,
    caps: Seq<Text>,
    k: Text,
)
    ensures
        text::has_text(capture::stmt_captures(s.node, outer, b, caps), k) ==> text::has_text(caps, k) || (text::has_text(outer, k) && tree::holds_inside(NodeV::Stmt(s), key_user(k), true)),
        text::has_text(caps, k) ==> text::has_text(capture::stmt_captures(s.node, outer, b, caps), k),
        unbound_key(b, k) && !tree::holds_inside(NodeV::Stmt(s), key_binder(k), true) && text::has_text(outer, k) && tree::holds_inside(NodeV::Stmt(s), key_user(k), true) ==> text::has_text(capture::stmt_captures(s.node, outer, b, caps), k),
        hidden_key(b, k) && !tree::holds_inside(NodeV::Stmt(s), opens_function(), true) && text::has_text(capture::stmt_captures(s.node, outer, b, caps), k) ==> text::has_text(caps, k),
    decreases s, 1nat,
{
    let u = key_user(k);
    let d = key_binder(k);
    let f = opens_function();
    tree::law_inside_is_here_or_deeper(NodeV::Stmt(s), u, true);
    tree::law_inside_is_here_or_deeper(NodeV::Stmt(s), d, true);
    tree::law_inside_is_here_or_deeper(NodeV::Stmt(s), f, true);
    match s.node {
        StmtV::Let { name: _, sigil: _, typ: _, value } => {
            tree::lemma_some_of_one(NodeV::Expr(value.node), u, true);
            tree::lemma_some_of_one(NodeV::Expr(value.node), d, true);
            tree::lemma_some_of_one(NodeV::Expr(value.node), f, true);
            lemma_expr_captures(value.node, outer, b, caps, k);
        },
        StmtV::LetPattern { pattern: _, value } => {
            tree::lemma_some_of_one(NodeV::Expr(value.node), u, true);
            tree::lemma_some_of_one(NodeV::Expr(value.node), d, true);
            tree::lemma_some_of_one(NodeV::Expr(value.node), f, true);
            lemma_expr_captures(value.node, outer, b, caps, k);
        },
        StmtV::Expr(value) => {
            tree::lemma_some_of_one(NodeV::Expr(value.node), u, true);
            tree::lemma_some_of_one(NodeV::Expr(value.node), d, true);
            tree::lemma_some_of_one(NodeV::Expr(value.node), f, true);
            lemma_expr_captures(value.node, outer, b, caps, k);
        },
        StmtV::Return(value) => {
            tree::lemma_some_of_one(NodeV::Expr(value.node), u, true);
            tree::lemma_some_of_one(NodeV::Expr(value.node), d, true);
            tree::lemma_some_of_one(NodeV::Expr(value.node), f, true);
            lemma_expr_captures(value.node, outer, b, caps, k);
        },
        StmtV::Assign { target, value } => {
            tree::lemma_some_of_one(NodeV::Expr(target.node), u, true);
            tree::lemma_some_of_one(NodeV::Expr(target.node), d, true);
            tree::lemma_some_of_one(NodeV::Expr(target.node), f, true);
            tree::lemma_some_of_one(NodeV::Expr(value.node), u, true);
            tree::lemma_some_of_one(NodeV::Expr(value.node), d, true);
            tree::lemma_some_of_one(NodeV::Expr(value.node), f, true);
            tree::lemma_some_of_both(seq![NodeV::Expr(target.node)], seq![NodeV::Expr(value.node)], u, true);
            tree::lemma_some_of_both(seq![NodeV::Expr(target.node)], seq![NodeV::Expr(value.node)], d, true);
            tree::lemma_some_of_both(seq![NodeV::Expr(target.node)], seq![NodeV::Expr(value.node)], f, true);
            lemma_expr_captures(target.node, outer, b, caps, k);
            lemma_expr_captures(value.node, outer, b, capture::expr_captures(target.node, outer, b, caps), k);
        },
        StmtV::Conc(tasks) => {
            lemma_functions_captures(tasks, 0, outer, caps, k);
        },
        StmtV::Try { body, catch_param, catch_body } => {
            tree::lemma_some_of_both(tree::stmt_nodes(body), tree::stmt_nodes(catch_body), u, true);
            tree::lemma_some_of_both(tree::stmt_nodes(body), tree::stmt_nodes(catch_body), d, true);
            tree::lemma_some_of_both(tree::stmt_nodes(body), tree::stmt_nodes(catch_body), f, true);
            let inner = capture::bound_name(b, catch_param, Sigil::Immutable);
            lemma_name_hides(b, catch_param, Sigil::Immutable, k);
            if unbound_key(b, k) && catch_param != k {
                lemma_name_bound(b, catch_param, Sigil::Immutable, k);
            }
            lemma_stmts_captures(body, 0, outer, b, caps, k);
            lemma_stmts_captures(catch_body, 0, outer, inner, capture::stmts_captures(body, 0, outer, b, caps), k);
        },
        StmtV::Inject { handlers: _, body } => {
            lemma_stmts_captures(body, 0, outer, b, caps, k);
        },
    }
}

/// What the items of a list from index `i` on capture.
#[verifier::spinoff_prover]
#[verifier::rlimit(60)]
proof fn lemma_stmts_captures(xs: Seq<Spanned<StmtV>>, i: nat, outer: Seq<Text>, b: BoundV, caps: Seq<Text>, k: Text)
    ensures
        text::has_text(capture::stmts_captures(xs, i, outer, b, caps), k) ==> text::has_text(caps, k) || (text::has_text(outer, k) && tree::some_holds(tree::stmt_nodes(xs), i, key_user(k), true)),
        text::has_text(caps, k) ==> text::has_text(capture::stmts_captures(xs, i, outer, b, caps), k),
        unbound_key(b, k) && !tree::some_holds(tree::stmt_nodes(xs), i, key_binder(k), true) && text::has_text(outer, k) && tree::some_holds(tree::stmt_nodes(xs), i, key_user(k), true) ==> text::has_text(capture::stmts_captures(xs, i, outer, b, caps), k),
        hidden_key(b, k) && !tree::some_holds(tree::stmt_nodes(xs), i, opens_function(), true) && text::has_text(capture::stmts_captures(xs, i, outer, b, caps), k) ==> text::has_text(caps, k),
    decreases xs, xs.len() - i,
{
    if i < xs.len() {
        let u = key_user(k);
        let d = key_binder(k);
        let f = opens_function();
        let x = xs[i as int];
        let n = NodeV::Stmt(x);
        assert(tree::stmt_nodes(xs)[i as int] == n);
        tree::lemma_some_from(tree::stmt_nodes(xs), i, u, true);
        tree::lemma_some_from(tree::stmt_nodes(xs), i, d, true);
        tree::lemma_some_from(tree::stmt_nodes(xs), i, f, true);
        tree::law_inside_is_here_or_deeper(n, u, true);
        tree::law_inside_is_here_or_deeper(n, d, true);
        tree::law_inside_is_here_or_deeper(n, f, true);
        if hidden_key(b, k) {
            match x.node {
                StmtV::Let { name, sigil, typ: _, value: _ } => lemma_name_hides(b, name, sigil, k),
                StmtV::LetPattern { pattern, value: _ } => lemma_pattern_hides(b, pattern.node, k),
                _ => {},
            }
        }
        if unbound_key(b, k) && !binds_key(n, k) {
            match x.node {
                StmtV::Let { name, sigil, typ: _, value: _ } => lemma_name_bound(b, name, sigil, k),
                StmtV::LetPattern { pattern, value: _ } => lemma_pattern_bound(b, pattern.node, k),
                _ => {},
            }
        }
        lemma_stmt_captures(x, outer, b, caps, k);
        lemma_stmts_captures(xs, i + 1, outer, capture::bound_by_stmt(b, x.node), capture::stmt_captures(x.node, outer, b, caps), k);
    }
}

/// What the items of a list from index `i` on capture.
#[verifier::spinoff_prover]
#[verifier::rlimit(60)]
proof fn lemma_exprs_captures(xs: Seq<Spanned<ExprV>>, i: nat, outer: Seq<Text>, b: BoundV, caps: Seq<Text>, k: Text)
    ensures
        text::has_text(capture::exprs_captures(xs, i, outer, b, caps), k) ==> text::has_text(caps, k) || (text::has_text(outer, k) && tree::some_holds(tree::expr_nodes(xs), i, key_user(k), true)),
        text::has_text(caps, k) ==> text::has_text(capture::exprs_captures(xs, i, outer, b, caps), k),
        unbound_key(b, k) && !tree::some_holds(tree::expr_nodes(xs), i, key_binder(k), true) && text::has_text(outer, k) && tree::some_holds(tree::expr_nodes(xs), i, key_user(k), true) ==> text::has_text(capture::exprs_captures(xs, i, outer, b, caps), k),
        hidden_key(b, k) && !tree::some_holds(tree::expr_nodes(xs), i, opens_function(), true) && text::has_text(capture::exprs_captures(xs, i, outer, b, caps), k) ==> text::has_text(caps, k),
    decreases xs, xs.len() - i,
{
    if i < xs.len() {
        let u = key_user(k);
        let d = key_binder(k);
        let f = opens_function();
        let x = xs[i as int];
        let n = NodeV::Expr(x.node);
        assert(tree::expr_nodes(xs)[i as int] == n);
        tree::lemma_some_from(tree::expr_nodes(xs), i, u, true);
        tree::lemma_some_from(tree::expr_nodes(xs), i, d, true);
        tree::lemma_some_from(tree::expr_nodes(xs), i, f, true);
        tree::law_inside_is_here_or_deeper(n, u, true);
        tree::law_inside_is_here_or_deeper(n, d, true);
        tree::law_inside_is_here_or_deeper(n, f, true);
        lemma_expr_captures(x.node, outer, b, caps, k);
        lemma_exprs_captures(xs, i + 1, outer, b, capture::expr_captures(x.node, outer, b, caps), k);
    }
}

/// What the items of a list from index `i` on capture.
#[verifier::spinoff_prover]
#[verifier::rlimit(60)]
proof fn lemma_labelled_captures(xs: Seq<(Text, Spanned<ExprV>)>, i: nat, outer: Seq<Text>, b: BoundV, caps: Seq<Text>, k: Text)
    ensures
        text::has_text(capture::labelled_captures(xs, i, outer, b, caps), k) ==> text::has_text(caps, k) || (text::has_text(outer, k) && tree::some_holds(tree::labelled_nodes(xs), i, key_user(k), true)),
        text::has_text(caps, k) ==> text::has_text(capture::labelled_captures(xs, i, outer, b, caps), k),
        unbound_key(b, k) && !tree::some_holds(tree::labelled_nodes(xs), i, key_binder(k), true) && text::has_text(outer, k) && tree::some_holds(tree::labelled_nodes(xs), i, key_user(k), true) ==> text::has_text(capture::labelled_captures(xs, i, outer, b, caps), k),
        hidden_key(b, k) && !tree::some_holds(tree::labelled_nodes(xs), i, opens_function(), true) && text::has_text(capture::labelled_captures(xs, i, outer, b, caps), k) ==> text::has_text(caps, k),
    decreases xs, xs.len() - i,
{
    if i < xs.len() {
        let u = key_user(k);
        let d = key_binder(k);
        let f = opens_function();
        let x = xs[i as int];
        let n = NodeV::Expr(x.1.node);
        assert(tree::labelled_nodes(xs)[i as int] == n);
        tree::lemma_some_from(tree::labelled_nodes(xs), i, u, true);
        tree::lemma_some_from(tree::labelled_nodes(xs), i, d, true);
        tree::lemma_some_from(tree::labelled_nodes(xs), i, f, true);
        tree::law_inside_is_here_or_deeper(n, u, true);
        tree::law_inside_is_here_or_deeper(n, d, true);
        tree::law_inside_is_here_or_deeper(n, f, true);
        lemma_expr_captures(x.1.node, outer, b, caps, k);
        lemma_labelled_captures(xs, i + 1, outer, b, capture::expr_captures(x.1.node, outer, b, caps), k);
    }
}

/// What the items of a list from index `i` on capture.
#[verifier::spinoff_prover]
#[verifier::rlimit(60)]
proof fn lemma_ctor_args_captures(xs: Seq<(Option<Text>, Spanned<ExprV>)>, i: nat, outer: Seq<Text>, b: BoundV, caps: Seq<Text>, k: Text)
    ensures
        text::has_text(capture::ctor_args_captures(xs, i, outer, b, caps), k) ==> text::has_text(caps, k) || (text::has_text(outer, k) && tree::some_holds(tree::ctor_arg_nodes(xs), i, key_user(k), true)),
        text::has_text(caps, k) ==> text::has_text(capture::ctor_args_captures(xs, i, outer, b, caps), k),
        unbound_key(b, k) && !tree::some_holds(tree::ctor_arg_nodes(xs), i, key_binder(k), true) && text::has_text(outer, k) && tree::some_holds(tree::ctor_arg_nodes(xs), i, key_user(k), true) ==> text::has_text(capture::ctor_args_captures(xs, i, outer, b, caps), k),
        hidden_key(b, k) && !tree::some_holds(tree::ctor_arg_nodes(xs), i, opens_function(), true) && text::has_text(capture::ctor_args_captures(xs, i, outer, b, caps), k) ==> text::has_text(caps, k),
    decreases xs, xs.len() - i,
{
    if i < xs.len() {
        let u = key_user(k);
        let d = key_binder(k);
        let f = opens_function();
        let x = xs[i as int];
        let n = NodeV::Expr(x.1.node);
        assert(tree::ctor_arg_nodes(xs)[i as int] == n);
        tree::lemma_some_from(tree::ctor_arg_nodes(xs), i, u, true);
        tree::lemma_some_from(tree::ctor_arg_nodes(xs), i, d, true);
        tree::lemma_some_from(tree::ctor_arg_nodes(xs), i, f, true);
        tree::law_inside_is_here_or_deeper(n, u, true);
        tree::law_inside_is_here_or_deeper(n, d, true);
        tree::law_inside_is_here_or_deeper(n, f, true);
        lemma_expr_captures(x.1.node, outer, b, caps, k);
        lemma_ctor_args_captures(xs, i + 1, outer, b, capture::expr_captures(x.1.node, outer, b, caps), k);
    }
}

/// What the items of a list from index `i` on capture.
#[verifier::spinoff_prover]
#[verifier::rlimit(60)]
proof fn lemma_cases_captures(xs: Seq<MatchCaseV>, i: nat, outer: Seq<Text>, b: BoundV, caps: Seq<Text>, k: Text)
    ensures
        text::has_text(capture::cases_captures(xs, i, outer, b, caps), k) ==> text::has_text(caps, k) || (text::has_text(outer, k) && tree::some_holds(tree::case_nodes(xs), i, key_user(k), true)),
        text::has_text(caps, k) ==> text::has_text(capture::cases_captures(xs, i, outer, b, caps), k),
        unbound_key(b, k) && !tree::some_holds(tree::case_nodes(xs), i, key_binder(k), true) && text::has_text(outer, k) && tree::some_holds(tree::case_nodes(xs), i, key_user(k), true) ==> text::has_text(capture::cases_captures(xs, i, outer, b, caps), k),
        hidden_key(b, k) && !tree::some_holds(tree::case_nodes(xs), i, opens_function(), true) && text::has_text(capture::cases_captures(xs, i, outer, b, caps), k) ==> text::has_text(caps, k),
    decreases xs, xs.len() - i,
{
    if i < xs.len() {
        let u = key_user(k);
        let d = key_binder(k);
        let f = opens_function();
        let x = xs[i as int];
        let n = NodeV::Case(x);
        assert(tree::case_nodes(xs)[i as int] == n);
        tree::lemma_some_from(tree::case_nodes(xs), i, u, true);
        tree::lemma_some_from(tree::case_nodes(xs), i, d, true);
        tree::lemma_some_from(tree::case_nodes(xs), i, f, true);
        tree::law_inside_is_here_or_deeper(n, u, true);
        tree::law_inside_is_here_or_deeper(n, d, true);
        tree::law_inside_is_here_or_deeper(n, f, true);
        let inner = capture::bound_pattern(b, x.pattern.node);
        if hidden_key(b, k) {
            lemma_pattern_hides(b, x.pattern.node, k);
        }
        if unbound_key(b, k) && !binds_key(n, k) {
            lemma_pattern_bound(b, x.pattern.node, k);
        }
        lemma_stmts_captures(x.body, 0, outer, inner, caps, k);
        lemma_cases_captures(xs, i + 1, outer, b, capture::stmts_captures(x.body, 0, outer, inner, caps), k);
    }
}

/// What the items of a list from index `i` on capture.
#[verifier::spinoff_prover]
#[verifier::rlimit(60)]
proof fn lemma_functions_captures(xs: Seq<FunctionV>, i: nat, outer: Seq<Text>, caps: Seq<Text>, k: Text)
    ensures
        text::has_text(capture::functions_captures(xs, i, outer, caps), k) ==> text::has_text(caps, k) || (text::has_text(outer, k) && tree::some_holds(tree::function_nodes(xs), i, key_user(k), true)),
        text::has_text(caps, k) ==> text::has_text(capture::functions_captures(xs, i, outer, caps), k),
        !tree::some_holds(tree::function_nodes(xs), i, key_binder(k), true) && text::has_text(outer, k) && tree::some_holds(tree::function_nodes(xs), i, key_user(k), true) ==> text::has_text(capture::functions_captures(xs, i, outer, caps), k),
        !tree::some_holds(tree::function_nodes(xs), i, opens_function(), true) && text::has_text(capture::functions_captures(xs, i, outer, caps), k) ==> text::has_text(caps, k),
    decreases xs, xs.len() - i,
{
    if i < xs.len() {
        let u = key_user(k);
        let d = key_binder(k);
        let f = opens_function();
        let x = xs[i as int];
        let n = NodeV::Function(x);
        assert(tree::function_nodes(xs)[i as int] == n);
        tree::lemma_some_from(tree::function_nodes(xs), i, u, true);
        tree::lemma_some_from(tree::function_nodes(xs), i, d, true);
        tree::lemma_some_from(tree::function_nodes(xs), i, f, true);
        tree::law_inside_is_here_or_deeper(n, u, true);
        tree::law_inside_is_here_or_deeper(n, d, true);
        tree::law_inside_is_here_or_deeper(n, f, true);
        let inner = capture::bound_param_names(capture::nothing_bound(), x.params, 0);
        assert(unbound_key(capture::nothing_bound(), k));
        if !binds_key(n, k) {
            lemma_params_bound(capture::nothing_bound(), x.params, 0, k);
        }
        lemma_stmts_captures(x.body, 0, outer, inner, caps, k);
        lemma_functions_captures(xs, i + 1, outer, capture::stmts_captures(x.body, 0, outer, inner, caps), k);
    }
}

/// What a closure captures is bound outside and used somewhere in its body. And what is bound
/// outside and used somewhere in the body is captured, where neither a parameter nor anything in
/// the body binds it.
pub proof fn law_closure_captures_what_it_uses(
    body: Seq<Spanned<StmtV>>,
    params: Seq<ParamV>,
    outer: Seq<Text>,
    k: Text,
)
    ensures
        text::has_text(capture::lambda_captures(body, params, outer), k) ==> text::has_text(outer, k) && tree::some_holds(
            tree::stmt_nodes(body),
            0,
            key_user(k),
            true,
        ),
        text::has_text(outer, k) && tree::some_holds(tree::stmt_nodes(body), 0, key_user(k), true) && !params_bind(
            params,
            k,
        ) && !tree::some_holds(tree::stmt_nodes(body), 0, key_binder(k), true) ==> text::has_text(
            capture::lambda_captures(body, params, outer),
            k,
        ),
{
    let b = capture::bound_param_names(capture::nothing_bound(), params, 0);
    assert(unbound_key(capture::nothing_bound(), k));
    if !params_bind(params, k) {
        lemma_params_bound(capture::nothing_bound(), params, 0, k);
    }
    lemma_stmts_captures(body, 0, outer, b, Seq::empty(), k);
}

/// A parameter without a sigil hides what is bound outside under its name, in a body without
/// handlers and tasks, whose functions see nothing of it.
pub proof fn law_parameters_hide_outer_names(
    body: Seq<Spanned<StmtV>>,
    params: Seq<ParamV>,
    outer: Seq<Text>,
    i: int,
)
    requires
        0 <= i < params.len(),
        params[i].sigil is Immutable,
        !tree::some_holds(tree::stmt_nodes(body), 0, opens_function(), true),
    ensures
        !text::has_text(capture::lambda_captures(body, params, outer), params[i].name),
{
    let k = params[i].name;
    let b = capture::bound_param_names(capture::nothing_bound(), params, 0);
    lemma_params_hide(capture::nothing_bound(), params, 0, k);
    lemma_stmts_captures(body, 0, outer, b, Seq::empty(), k);
}

} // verus!
