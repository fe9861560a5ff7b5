//! What the lint warnings say of a program, by what occurs where in its syntax tree.

use crate::ast::{ExprV, FunctionV, GlobalLetV, MatchCaseV, StmtV, TopLevelV};
use crate::table;
use crate::text;
use crate::text::Text;
use crate::tree;
use crate::tree::NodeV;
use crate::typecheck::env::{EnvV, TypeWarningV};
use crate::typecheck::lint;
use crate::typecheck::lint::LocalBindingV;
use crate::types::{Sigil, Span, Spanned, TypeV};
use vstd::prelude::*;

verus! {

/// Whether a list of texts holds a text, by its elements.
pub proof fn lemma_has_text(s: Seq<Text>, x: Text)
    ensures
        text::has_text(s, x) <==> s.contains(x),
{
    table::lemma_index_of_text(s, x, 0);
    if s.contains(x) {
        let j = choose|j: int| 0 <= j < s.len() && s[j] == x;
        if text::index_of_text(s, x, 0) >= s.len() {
            assert(s[j] != x);
        }
    }
}

/// What a list holds once a text was put into it.
pub proof fn lemma_after_with_text(s: Seq<Text>, x: Text, k: Text)
    ensures
        text::has_text(text::with_text(s, x), k) <==> text::has_text(s, k) || k == x,
{
    lemma_has_text(s, k);
    lemma_has_text(s, x);
    lemma_has_text(text::with_text(s, x), k);
    if !text::has_text(s, x) {
        let t = s.push(x);
        assert(t[s.len() as int] == x);
        assert forall|j: int| 0 <= j < s.len() implies t[j] == s[j] by {}
        if t.contains(k) {
            let j = choose|j: int| 0 <= j < t.len() && t[j] == k;
            if j < s.len() {
                assert(s[j] == k);
            }
        }
    }
}

/// What a list holds once an item was put at its end.
pub proof fn lemma_after_push<A>(s: Seq<A>, x: A, k: A)
    ensures
        s.push(x).contains(k) <==> s.contains(k) || k == x,
{
    let t = s.push(x);
    assert(t[s.len() as int] == x);
    assert forall|j: int| 0 <= j < s.len() implies t[j] == s[j] by {}
    if t.contains(k) {
        let j = choose|j: int| 0 <= j < t.len() && t[j] == k;
        if j < s.len() {
            assert(s[j] == k);
        }
    }
    if s.contains(k) {
        let j = choose|j: int| 0 <= j < s.len() && s[j] == k;
        assert(t[j] == k);
    }
}

// ---------------------------------------------------------------------------
// Occurrences of a key
// ---------------------------------------------------------------------------

/// Whether a dotted name is `k` or an item of it, where `k` is one segment.
pub open spec fn is_under(h: Text, k: Text) -> bool {
    !k.contains('.') && (h == k || exists|rest: Text| h == #[trigger] (k + seq!['.'] + rest))
}

/// Where a character first stands in a text.
proof fn lemma_char_place(s: Text, c: char, i: nat)
    requires
        i <= s.len(),
    ensures
        i <= text::index_of_char(s, c, i) <= s.len(),
        text::index_of_char(s, c, i) < s.len() ==> s[text::index_of_char(s, c, i) as int] == c,
        forall|j: int| i <= j < text::index_of_char(s, c, i) ==> s[j] != c,
    decreases s.len() - i,
{
    if i < s.len() && s[i as int] != c {
        lemma_char_place(s, c, i + 1);
    }
}

/// The first segment of a dotted name is the one segment under which it stands.
proof fn lemma_first_segment(h: Text, k: Text)
    ensures
        lint::first_segment(h) == k <==> is_under(h, k),
{
    let n = text::index_of_char(h, '.', 0);
    lemma_char_place(h, '.', 0);
    if lint::first_segment(h) == k {
        if n < h.len() {
            assert(h =~= k + seq!['.'] + h.skip(n as int + 1));
            if k.contains('.') {
                let j = choose|j: int| 0 <= j < k.len() && k[j] == '.';
                assert(h[j] == '.');
            }
        }
    }
    if is_under(h, k) {
        if h == k {
            if n < h.len() {
                assert(h.contains('.'));
            }
        } else {
            let rest = choose|rest: Text| h == #[trigger] (k + seq!['.'] + rest);
            assert(h[k.len() as int] == '.');
            if n < k.len() {
                assert(k[n as int] == h[n as int]);
                assert(k.contains('.'));
            }
            assert(n == k.len());
            assert(h.take(n as int) =~= k);
        }
    }

}

/// Whether a part of a tree names a key itself: a variable or a borrow of that key, a call of a
/// plain name, or the injection of a handler that stands under it.
pub open spec fn names_key(n: NodeV, k: Text) -> bool {
    match n {
        NodeV::Expr(ExprV::Variable(name, sigil)) => sigil.key(name) == k,
        NodeV::Expr(ExprV::Borrow(name, sigil)) => sigil.key(name) == k,
        NodeV::Expr(ExprV::Call { func, args: _ }) => func == k && !func.contains('.'),
        NodeV::Stmt(s) => match s.node {
            StmtV::Inject { handlers, body: _ } => exists|i: int|
                0 <= i < handlers.len() && is_under(#[trigger] handlers[i], k),
            _ => false,
        },
        _ => false,
    }
}

/// That a part of a tree names a key itself.
pub open spec fn naming(k: Text) -> spec_fn(NodeV) -> bool {
    |n: NodeV| names_key(n, k)
}

/// Whether a key is named anywhere in a body, closures and handlers included.
pub open spec fn named_in(body: Seq<Spanned<StmtV>>, k: Text) -> bool {
    tree::some_holds(tree::stmt_nodes(body), 0, naming(k), true)
}

/// The keys of handlers are the segments under which they stand.
proof fn lemma_handler_keys(acc: Seq<Text>, handlers: Seq<Text>, i: nat, k: Text)
    ensures
        text::has_text(lint::handler_keys(acc, handlers, i), k) <==> text::has_text(acc, k) || exists|j: int|
            i <= j < handlers.len() && is_under(#[trigger] handlers[j], k),
    decreases handlers.len() - i,
{
    if i < handlers.len() {
        let h = handlers[i as int];
        lemma_first_segment(h, k);
        lemma_after_with_text(acc, lint::first_segment(h), k);
        lemma_handler_keys(text::with_text(acc, lint::first_segment(h)), handlers, i + 1, k);
    }
}

#[verifier::spinoff_prover]
#[verifier::rlimit(40)]
proof fn lemma_used_expr(e: ExprV, acc: Seq<Text>, k: Text)
    ensures
        text::has_text(lint::used_expr(e, acc), k) <==> text::has_text(acc, k) || tree::holds_inside(NodeV::Expr(e), naming(k), true),
    decreases e, 0nat,
{
    let q = naming(k);
    tree::law_inside_is_here_or_deeper(NodeV::Expr(e), q, true);
    match e {
        ExprV::Literal(_) => {
        },
        ExprV::Variable(name, sigil) => {
            lemma_after_with_text(acc, sigil.key(name), k);
        },
        ExprV::Borrow(name, sigil) => {
            lemma_after_with_text(acc, sigil.key(name), k);
        },
        ExprV::BinaryOp(l, _, r) => {
            tree::lemma_some_of_one(NodeV::Expr(l.node), q, true);
            tree::lemma_some_of_one(NodeV::Expr(r.node), q, true);
            tree::lemma_some_of_both(seq![NodeV::Expr(l.node)], seq![NodeV::Expr(r.node)], q, true);
            lemma_used_expr(l.node, acc, k);
            lemma_used_expr(r.node, lint::used_expr(l.node, acc), k);
        },
        ExprV::Index(l, r) => {
            tree::lemma_some_of_one(NodeV::Expr(l.node), q, true);
            tree::lemma_some_of_one(NodeV::Expr(r.node), q, true);
            tree::lemma_some_of_both(seq![NodeV::Expr(l.node)], seq![NodeV::Expr(r.node)], q, true);
            lemma_used_expr(l.node, acc, k);
            lemma_used_expr(r.node, lint::used_expr(l.node, acc), k);
        },
        ExprV::Call { func, args } => {
            lemma_after_with_text(acc, func, k);
            lemma_used_labelled(args, 0, if func.contains('.') { acc } else { text::with_text(acc, func) }, k);
        },
        ExprV::Constructor(_, args) => {
            lemma_used_ctor_args(args, 0, acc, k);
        },
        ExprV::Record(fs) => {
            lemma_used_labelled(fs, 0, acc, k);
        },
        ExprV::Array(es) => {
            lemma_used_exprs(es, 0, acc, k);
        },
        ExprV::List(es) => {
            lemma_used_exprs(es, 0, acc, k);
        },
        ExprV::FieldAccess(x, _) => {
            tree::lemma_some_of_one(NodeV::Expr(x.node), q, true);
            lemma_used_expr(x.node, acc, k);
        },
        ExprV::Raise(x) => {
            tree::lemma_some_of_one(NodeV::Expr(x.node), q, true);
            lemma_used_expr(x.node, acc, k);
        },
        ExprV::If { cond, then_branch, else_branch } => {
            let rest = match else_branch {
                Some(other) => tree::stmt_nodes(other),
                None => Seq::empty(),
            };
            tree::lemma_some_of_one(NodeV::Expr(cond.node), q, true);
            tree::lemma_some_of_both(seq![NodeV::Expr(cond.node)], tree::stmt_nodes(then_branch) + rest, q, true);
            tree::lemma_some_of_both(tree::stmt_nodes(then_branch), rest, q, true);
            lemma_used_expr(cond.node, acc, k);
            lemma_used_stmts(then_branch, 0, lint::used_expr(cond.node, acc), k);
            match else_branch {
                Some(other) => lemma_used_stmts(other, 0, lint::used_stmts(then_branch, 0, lint::used_expr(cond.node, acc)), k),
                None => {},
            }
        },
        ExprV::Match { target: on, cases } => {
            tree::lemma_some_of_one(NodeV::Expr(on.node), q, true);
            tree::lemma_some_of_both(seq![NodeV::Expr(on.node)], tree::case_nodes(cases), q, true);
            lemma_used_expr(on.node, acc, k);
            lemma_used_cases(cases, 0, lint::used_expr(on.node, acc), k);
        },
        ExprV::While { cond, body } => {
            tree::lemma_some_of_one(NodeV::Expr(cond.node), q, true);
            tree::lemma_some_of_both(seq![NodeV::Expr(cond.node)], tree::stmt_nodes(body), q, true);
            lemma_used_expr(cond.node, acc, k);
            lemma_used_stmts(body, 0, lint::used_expr(cond.node, acc), k);
        },
        ExprV::For { var: _, start, end_expr, body } => {
            tree::lemma_some_of_one(NodeV::Expr(start.node), q, true);
            tree::lemma_some_of_one(NodeV::Expr(end_expr.node), q, true);
            tree::lemma_some_of_both(seq![NodeV::Expr(start.node)], seq![NodeV::Expr(end_expr.node)] + tree::stmt_nodes(body), q, true);
            tree::lemma_some_of_both(seq![NodeV::Expr(end_expr.node)], tree::stmt_nodes(body), q, true);
            lemma_used_expr(start.node, acc, k);
            lemma_used_expr(end_expr.node, lint::used_expr(start.node, acc), k);
            lemma_used_stmts(body, 0, lint::used_expr(end_expr.node, lint::used_expr(start.node, acc)), k);
        },
        ExprV::Lambda { type_params: _, params: _, ret_type: _, requires: _, throws: _, body } => {
            lemma_used_stmts(body, 0, acc, k);
        },
        ExprV::External(_, _, _) => {
        },
        ExprV::Handler { coeffect_name, requires: _, functions } => {
            lemma_used_functions(functions, 0, acc, k);
        },
    }
}

#[verifier::spinoff_prover]
#[verifier::rlimit(40)]
proof fn lemma_used_stmt(s: Spanned<StmtV>, acc: Seq<Text>, k: Text)
    ensures
        text::has_text(lint::used_stmt(s, acc), k) <==> text::has_text(acc, k) || tree::holds_inside(NodeV::Stmt(s), naming(k), true),
    decreases s, 0nat,
{
    let q = naming(k);
    tree::law_inside_is_here_or_deeper(NodeV::Stmt(s), q, true);
    match s.node {
        StmtV::Let { name, sigil, typ: _, value } => {
            tree::lemma_some_of_one(NodeV::Expr(value.node), q, true);
            lemma_used_expr(value.node, acc, k);
        },
        StmtV::LetPattern { pattern: _, value } => {
            tree::lemma_some_of_one(NodeV::Expr(value.node), q, true);
            lemma_used_expr(value.node, acc, k);
        },
        StmtV::Expr(value) => {
            tree::lemma_some_of_one(NodeV::Expr(value.node), q, true);
            lemma_used_expr(value.node, acc, k);
        },
        StmtV::Return(value) => {
            tree::lemma_some_of_one(NodeV::Expr(value.node), q, true);
            lemma_used_expr(value.node, acc, k);
        },
        StmtV::Assign { target: to, value } => {
            tree::lemma_some_of_one(NodeV::Expr(to.node), q, true);
            tree::lemma_some_of_one(NodeV::Expr(value.node), q, true);
            tree::lemma_some_of_both(seq![NodeV::Expr(to.node)], seq![NodeV::Expr(value.node)], q, true);
            lemma_used_expr(to.node, acc, k);
            lemma_used_expr(value.node, lint::used_expr(to.node, acc), k);
        },
        StmtV::Conc(tasks) => {
            lemma_used_functions(tasks, 0, acc, k);
        },
        StmtV::Try { body, catch_param: _, catch_body } => {
            tree::lemma_some_of_both(tree::stmt_nodes(body), tree::stmt_nodes(catch_body), q, true);
            lemma_used_stmts(body, 0, acc, k);
            lemma_used_stmts(catch_body, 0, lint::used_stmts(body, 0, acc), k);
        },
        StmtV::Inject { handlers, body } => {
            lemma_handler_keys(acc, handlers, 0, k);
            lemma_used_stmts(body, 0, lint::handler_keys(acc, handlers, 0), k);
        },
    }
}

proof fn lemma_used_stmts(xs: Seq<Spanned<StmtV>>, i: nat, acc: Seq<Text>, k: Text)
    ensures
        text::has_text(lint::used_stmts(xs, i, acc), k) <==> text::has_text(acc, k) || tree::some_holds(tree::stmt_nodes(xs), i, naming(k), true),
    decreases xs, xs.len() - i,
{
    if i < xs.len() {
        let x = xs[i as int];
        assert(tree::stmt_nodes(xs)[i as int] == NodeV::Stmt(x));
        tree::lemma_some_from(tree::stmt_nodes(xs), i, naming(k), true);
        lemma_used_stmt(x, acc, k);
        lemma_used_stmts(xs, i + 1, lint::used_stmt(x, acc), k);
    }
}

proof fn lemma_used_exprs(xs: Seq<Spanned<ExprV>>, i: nat, acc: Seq<Text>, k: Text)
    ensures
        text::has_text(lint::used_exprs(xs, i, acc), k) <==> text::has_text(acc, k) || tree::some_holds(tree::expr_nodes(xs), i, naming(k), true),
    decreases xs, xs.len() - i,
{
    if i < xs.len() {
        let x = xs[i as int];
        assert(tree::expr_nodes(xs)[i as int] == NodeV::Expr(x.node));
        tree::lemma_some_from(tree::expr_nodes(xs), i, naming(k), true);
        lemma_used_expr(x.node, acc, k);
        lemma_used_exprs(xs, i + 1, lint::used_expr(x.node, acc), k);
    }
}

proof fn lemma_used_labelled(xs: Seq<(Text, Spanned<ExprV>)>, i: nat, acc: Seq<Text>, k: Text)
    ensures
        text::has_text(lint::used_labelled(xs, i, acc), k) <==> text::has_text(acc, k) || tree::some_holds(tree::labelled_nodes(xs), i, naming(k), true),
    decreases xs, xs.len() - i,
{
    if i < xs.len() {
        let x = xs[i as int];
        assert(tree::labelled_nodes(xs)[i as int] == NodeV::Expr(x.1.node));
        tree::lemma_some_from(tree::labelled_nodes(xs), i, naming(k), true);
        lemma_used_expr(x.1.node, acc, k);
        lemma_used_labelled(xs, i + 1, lint::used_expr(x.1.node, acc), k);
    }
}

proof fn lemma_used_ctor_args(xs: Seq<(Option<Text>, Spanned<ExprV>)>, i: nat, acc: Seq<Text>, k: Text)
    ensures
        text::has_text(lint::used_ctor_args(xs, i, acc), k) <==> text::has_text(acc, k) || tree::some_holds(tree::ctor_arg_nodes(xs), i, naming(k), true),
    decreases xs, xs.len() - i,
{
    if i < xs.len() {
        let x = xs[i as int];
        assert(tree::ctor_arg_nodes(xs)[i as int] == NodeV::Expr(x.1.node));
        tree::lemma_some_from(tree::ctor_arg_nodes(xs), i, naming(k), true);
        lemma_used_expr(x.1.node, acc, k);
        lemma_used_ctor_args(xs, i + 1, lint::used_expr(x.1.node, acc), k);
    }
}

proof fn lemma_used_cases(xs: Seq<MatchCaseV>, i: nat, acc: Seq<Text>, k: Text)
    ensures
        text::has_text(lint::used_cases(xs, i, acc), k) <==> text::has_text(acc, k) || tree::some_holds(tree::case_nodes(xs), i, naming(k), true),
    decreases xs, xs.len() - i,
{
    if i < xs.len() {
        let x = xs[i as int];
        assert(tree::case_nodes(xs)[i as int] == NodeV::Case(x));
        tree::lemma_some_from(tree::case_nodes(xs), i, naming(k), true);
        tree::law_inside_is_here_or_deeper(NodeV::Case(x), naming(k), true);
        lemma_used_stmts(x.body, 0, acc, k);
        lemma_used_cases(xs, i + 1, lint::used_stmts(x.body, 0, acc), k);
    }
}

proof fn lemma_used_functions(xs: Seq<FunctionV>, i: nat, acc: Seq<Text>, k: Text)
    ensures
        text::has_text(lint::used_functions(xs, i, acc), k) <==> text::has_text(acc, k) || tree::some_holds(tree::function_nodes(xs), i, naming(k), true),
    decreases xs, xs.len() - i,
{
    if i < xs.len() {
        let x = xs[i as int];
        assert(tree::function_nodes(xs)[i as int] == NodeV::Function(x));
        tree::lemma_some_from(tree::function_nodes(xs), i, naming(k), true);
        tree::law_inside_is_here_or_deeper(NodeV::Function(x), naming(k), true);
        lemma_used_stmts(x.body, 0, acc, k);
        lemma_used_functions(xs, i + 1, lint::used_stmts(x.body, 0, acc), k);
    }
}


// ---------------------------------------------------------------------------
// Local bindings
// ---------------------------------------------------------------------------

/// Whether a part of a tree is the `let` statement of a local binding.
pub open spec fn binds(n: NodeV, b: LocalBindingV) -> bool {
    match n {
        NodeV::Stmt(s) => match s.node {
            StmtV::Let { name, sigil, typ: _, value: _ } => name == b.name && sigil == b.sigil
                && s.span == b.span,
            _ => false,
        },
        _ => false,
    }
}

/// That a part of a tree is the `let` statement of a local binding.
pub open spec fn binding(b: LocalBindingV) -> spec_fn(NodeV) -> bool {
    |n: NodeV| binds(n, b)
}

/// Whether a body itself binds a local variable: its `let` stands in the body, and in no closure
/// and no handler inside it.
pub open spec fn bound_in(body: Seq<Spanned<StmtV>>, b: LocalBindingV) -> bool {
    tree::some_holds(tree::stmt_nodes(body), 0, binding(b), false)
}

#[verifier::spinoff_prover]
#[verifier::rlimit(40)]
proof fn lemma_lets_expr(e: ExprV, acc: Seq<LocalBindingV>, b: LocalBindingV)
    ensures
        lint::lets_expr(e, acc).contains(b) <==> acc.contains(b) || tree::holds_inside(NodeV::Expr(e), binding(b), false),
    decreases e, 0nat,
{
    let q = binding(b);
    tree::law_inside_is_here_or_deeper(NodeV::Expr(e), q, false);
    match e {
        ExprV::Literal(_) => {
        },
        ExprV::Variable(name, sigil) => {
        },
        ExprV::Borrow(name, sigil) => {
        },
        ExprV::BinaryOp(l, _, r) => {
            tree::lemma_some_of_one(NodeV::Expr(l.node), q, false);
            tree::lemma_some_of_one(NodeV::Expr(r.node), q, false);
            tree::lemma_some_of_both(seq![NodeV::Expr(l.node)], seq![NodeV::Expr(r.node)], q, false);
            lemma_lets_expr(l.node, acc, b);
            lemma_lets_expr(r.node, lint::lets_expr(l.node, acc), b);
        },
        ExprV::Index(l, r) => {
            tree::lemma_some_of_one(NodeV::Expr(l.node), q, false);
            tree::lemma_some_of_one(NodeV::Expr(r.node), q, false);
            tree::lemma_some_of_both(seq![NodeV::Expr(l.node)], seq![NodeV::Expr(r.node)], q, false);
            lemma_lets_expr(l.node, acc, b);
            lemma_lets_expr(r.node, lint::lets_expr(l.node, acc), b);
        },
        ExprV::Call { func, args } => {
            lemma_lets_labelled(args, 0, acc, b);
        },
        ExprV::Constructor(_, args) => {
            lemma_lets_ctor_args(args, 0, acc, b);
        },
        ExprV::Record(fs) => {
            lemma_lets_labelled(fs, 0, acc, b);
        },
        ExprV::Array(es) => {
            lemma_lets_exprs(es, 0, acc, b);
        },
        ExprV::List(es) => {
            lemma_lets_exprs(es, 0, acc, b);
        },
        ExprV::FieldAccess(x, _) => {
            tree::lemma_some_of_one(NodeV::Expr(x.node), q, false);
            lemma_lets_expr(x.node, acc, b);
        },
        ExprV::Raise(x) => {
            tree::lemma_some_of_one(NodeV::Expr(x.node), q, false);
            lemma_lets_expr(x.node, acc, b);
        },
        ExprV::If { cond, then_branch, else_branch } => {
            let rest = match else_branch {
                Some(other) => tree::stmt_nodes(other),
                None => Seq::empty(),
            };
            tree::lemma_some_of_one(NodeV::Expr(cond.node), q, false);
            tree::lemma_some_of_both(seq![NodeV::Expr(cond.node)], tree::stmt_nodes(then_branch) + rest, q, false);
            tree::lemma_some_of_both(tree::stmt_nodes(then_branch), rest, q, false);
            lemma_lets_expr(cond.node, acc, b);
            lemma_lets_stmts(then_branch, 0, lint::lets_expr(cond.node, acc), b);
            match else_branch {
                Some(other) => lemma_lets_stmts(other, 0, lint::lets_stmts(then_branch, 0, lint::lets_expr(cond.node, acc)), b),
                None => {},
            }
        },
        ExprV::Match { target: on, cases } => {
            tree::lemma_some_of_one(NodeV::Expr(on.node), q, false);
            tree::lemma_some_of_both(seq![NodeV::Expr(on.node)], tree::case_nodes(cases), q, false);
            lemma_lets_expr(on.node, acc, b);
            lemma_lets_cases(cases, 0, lint::lets_expr(on.node, acc), b);
        },
        ExprV::While { cond, body } => {
            tree::lemma_some_of_one(NodeV::Expr(cond.node), q, false);
            tree::lemma_some_of_both(seq![NodeV::Expr(cond.node)], tree::stmt_nodes(body), q, false);
            lemma_lets_expr(cond.node, acc, b);
            lemma_lets_stmts(body, 0, lint::lets_expr(cond.node, acc), b);
        },
        ExprV::For { var: _, start, end_expr, body } => {
            tree::lemma_some_of_one(NodeV::Expr(start.node), q, false);
            tree::lemma_some_of_one(NodeV::Expr(end_expr.node), q, false);
            tree::lemma_some_of_both(seq![NodeV::Expr(start.node)], seq![NodeV::Expr(end_expr.node)] + tree::stmt_nodes(body), q, false);
            tree::lemma_some_of_both(seq![NodeV::Expr(end_expr.node)], tree::stmt_nodes(body), q, false);
            lemma_lets_expr(start.node, acc, b);
            lemma_lets_expr(end_expr.node, lint::lets_expr(start.node, acc), b);
            lemma_lets_stmts(body, 0, lint::lets_expr(end_expr.node, lint::lets_expr(start.node, acc)), b);
        },
        ExprV::Lambda { type_params: _, params: _, ret_type: _, requires: _, throws: _, body } => {
        },
        ExprV::External(_, _, _) => {
        },
        ExprV::Handler { coeffect_name, requires: _, functions } => {
        },
    }
}

#[verifier::spinoff_prover]
#[verifier::rlimit(40)]
proof fn lemma_lets_stmt(s: Spanned<StmtV>, acc: Seq<LocalBindingV>, b: LocalBindingV)
    ensures
        lint::lets_stmt(s, acc).contains(b) <==> acc.contains(b) || tree::holds_inside(NodeV::Stmt(s), binding(b), false),
    decreases s, 0nat,
{
    let q = binding(b);
    tree::law_inside_is_here_or_deeper(NodeV::Stmt(s), q, false);
    match s.node {
        StmtV::Let { name, sigil, typ: _, value } => {
            lemma_after_push(acc, LocalBindingV { name, sigil, span: s.span }, b);
            tree::lemma_some_of_one(NodeV::Expr(value.node), q, false);
            lemma_lets_expr(value.node, acc.push(LocalBindingV { name, sigil, span: s.span }), b);
        },
        StmtV::LetPattern { pattern: _, value } => {
            tree::lemma_some_of_one(NodeV::Expr(value.node), q, false);
            lemma_lets_expr(value.node, acc, b);
        },
        StmtV::Expr(value) => {
            tree::lemma_some_of_one(NodeV::Expr(value.node), q, false);
            lemma_lets_expr(value.node, acc, b);
        },
        StmtV::Return(value) => {
            tree::lemma_some_of_one(NodeV::Expr(value.node), q, false);
            lemma_lets_expr(value.node, acc, b);
        },
        StmtV::Assign { target: to, value } => {
            tree::lemma_some_of_one(NodeV::Expr(to.node), q, false);
            tree::lemma_some_of_one(NodeV::Expr(value.node), q, false);
            tree::lemma_some_of_both(seq![NodeV::Expr(to.node)], seq![NodeV::Expr(value.node)], q, false);
            lemma_lets_expr(to.node, acc, b);
            lemma_lets_expr(value.node, lint::lets_expr(to.node, acc), b);
        },
        StmtV::Conc(tasks) => {
            lemma_lets_functions(tasks, 0, acc, b);
        },
        StmtV::Try { body, catch_param: _, catch_body } => {
            tree::lemma_some_of_both(tree::stmt_nodes(body), tree::stmt_nodes(catch_body), q, false);
            lemma_lets_stmts(body, 0, acc, b);
            lemma_lets_stmts(catch_body, 0, lint::lets_stmts(body, 0, acc), b);
        },
        StmtV::Inject { handlers, body } => {
            lemma_lets_stmts(body, 0, acc, b);
        },
    }
}

proof fn lemma_lets_stmts(xs: Seq<Spanned<StmtV>>, i: nat, acc: Seq<LocalBindingV>, b: LocalBindingV)
    ensures
        lint::lets_stmts(xs, i, acc).contains(b) <==> acc.contains(b) || tree::some_holds(tree::stmt_nodes(xs), i, binding(b), false),
    decreases xs, xs.len() - i,
{
    if i < xs.len() {
        let x = xs[i as int];
        assert(tree::stmt_nodes(xs)[i as int] == NodeV::Stmt(x));
        tree::lemma_some_from(tree::stmt_nodes(xs), i, binding(b), false);
        lemma_lets_stmt(x, acc, b);
        lemma_lets_stmts(xs, i + 1, lint::lets_stmt(x, acc), b);
    }
}

proof fn lemma_lets_exprs(xs: Seq<Spanned<ExprV>>, i: nat, acc: Seq<LocalBindingV>, b: LocalBindingV)
    ensures
        lint::lets_exprs(xs, i, acc).contains(b) <==> acc.contains(b) || tree::some_holds(tree::expr_nodes(xs), i, binding(b), false),
    decreases xs, xs.len() - i,
{
    if i < xs.len() {
        let x = xs[i as int];
        assert(tree::expr_nodes(xs)[i as int] == NodeV::Expr(x.node));
        tree::lemma_some_from(tree::expr_nodes(xs), i, binding(b), false);
        lemma_lets_expr(x.node, acc, b);
        lemma_lets_exprs(xs, i + 1, lint::lets_expr(x.node, acc), b);
    }
}

proof fn lemma_lets_labelled(xs: Seq<(Text, Spanned<ExprV>)>, i: nat, acc: Seq<LocalBindingV>, b: LocalBindingV)
    ensures
        lint::lets_labelled(xs, i, acc).contains(b) <==> acc.contains(b) || tree::some_holds(tree::labelled_nodes(xs), i, binding(b), false),
    decreases xs, xs.len() - i,
{
    if i < xs.len() {
        let x = xs[i as int];
        assert(tree::labelled_nodes(xs)[i as int] == NodeV::Expr(x.1.node));
        tree::lemma_some_from(tree::labelled_nodes(xs), i, binding(b), false);
        lemma_lets_expr(x.1.node, acc, b);
        lemma_lets_labelled(xs, i + 1, lint::lets_expr(x.1.node, acc), b);
    }
}

proof fn lemma_lets_ctor_args(xs: Seq<(Option<Text>, Spanned<ExprV>)>, i: nat, acc: Seq<LocalBindingV>, b: LocalBindingV)
    ensures
        lint::lets_ctor_args(xs, i, acc).contains(b) <==> acc.contains(b) || tree::some_holds(tree::ctor_arg_nodes(xs), i, binding(b), false),
    decreases xs, xs.len() - i,
{
    if i < xs.len() {
        let x = xs[i as int];
        assert(tree::ctor_arg_nodes(xs)[i as int] == NodeV::Expr(x.1.node));
        tree::lemma_some_from(tree::ctor_arg_nodes(xs), i, binding(b), false);
        lemma_lets_expr(x.1.node, acc, b);
        lemma_lets_ctor_args(xs, i + 1, lint::lets_expr(x.1.node, acc), b);
    }
}

proof fn lemma_lets_cases(xs: Seq<MatchCaseV>, i: nat, acc: Seq<LocalBindingV>, b: LocalBindingV)
    ensures
        lint::lets_cases(xs, i, acc).contains(b) <==> acc.contains(b) || tree::some_holds(tree::case_nodes(xs), i, binding(b), false),
    decreases xs, xs.len() - i,
{
    if i < xs.len() {
        let x = xs[i as int];
        assert(tree::case_nodes(xs)[i as int] == NodeV::Case(x));
        tree::lemma_some_from(tree::case_nodes(xs), i, binding(b), false);
        tree::law_inside_is_here_or_deeper(NodeV::Case(x), binding(b), false);
        lemma_lets_stmts(x.body, 0, acc, b);
        lemma_lets_cases(xs, i + 1, lint::lets_stmts(x.body, 0, acc), b);
    }
}

proof fn lemma_lets_functions(xs: Seq<FunctionV>, i: nat, acc: Seq<LocalBindingV>, b: LocalBindingV)
    ensures
        lint::lets_functions(xs, i, acc).contains(b) <==> acc.contains(b) || tree::some_holds(tree::function_nodes(xs), i, binding(b), false),
    decreases xs, xs.len() - i,
{
    if i < xs.len() {
        let x = xs[i as int];
        assert(tree::function_nodes(xs)[i as int] == NodeV::Function(x));
        tree::lemma_some_from(tree::function_nodes(xs), i, binding(b), false);
        tree::law_inside_is_here_or_deeper(NodeV::Function(x), binding(b), false);
        lemma_lets_stmts(x.body, 0, acc, b);
        lemma_lets_functions(xs, i + 1, lint::lets_stmts(x.body, 0, acc), b);
    }
}


// ---------------------------------------------------------------------------
// Unused local variables
// ---------------------------------------------------------------------------

/// The text of the warning for an unused local variable.
pub open spec fn unused_text(name: Text, function_name: Text) -> Text {
    "Unused local variable '"@ + name + "' in function '"@ + function_name + "'"@
}

/// Whether a warning is owed for a binding of one function body itself: a body binds it by a name
/// that begins with no underscore, it is not linear, and nothing in the body names its key.
pub open spec fn own_warning(
    function_name: Text,
    body: Seq<Spanned<StmtV>>,
    w: TypeWarningV,
) -> bool {
    exists|b: LocalBindingV| #[trigger]
        bound_in(body, b) && !text::begins_with_char(b.name, '_') && b.sigil != Sigil::Linear
            && !named_in(body, b.sigil.key(b.name)) && w.span == b.span && w.message
            == unused_text(b.name, function_name)
}

/// Whether a warning is owed for a binding of one of the functions from index `i` on.
pub open spec fn warned_in_functions(
    xs: Seq<FunctionV>,
    i: nat,
    prefix: Text,
    w: TypeWarningV,
) -> bool {
    exists|j: int|
        i <= j < xs.len() && own_warning(prefix + (#[trigger] xs[j]).name, xs[j].body, w)
}

/// Whether a warning is owed for a binding of a function body that a part of a tree opens: the
/// body of a closure, of a function of a handler, or of a task.
pub open spec fn warned_at(n: NodeV, w: TypeWarningV) -> bool {
    match n {
        NodeV::Expr(e) => match e {
            ExprV::Lambda {
                type_params: _,
                params: _,
                ret_type: _,
                requires: _,
                throws: _,
                body,
            } => own_warning("<lambda>"@, body, w),
            ExprV::Handler { coeffect_name, requires: _, functions } => warned_in_functions(
                functions,
                0,
                "handler "@ + coeffect_name + "."@,
                w,
            ),
            _ => false,
        },
        NodeV::Stmt(s) => match s.node {
            StmtV::Conc(tasks) => warned_in_functions(tasks, 0, "task "@, w),
            _ => false,
        },
        _ => false,
    }
}

/// That a part of a tree opens a function body with a binding for which a warning is owed.
pub open spec fn warning(w: TypeWarningV) -> spec_fn(NodeV) -> bool {
    |n: NodeV| warned_at(n, w)
}

/// The warnings for a list of bindings.
proof fn lemma_unused_bindings(
    acc: Seq<TypeWarningV>,
    function_name: Text,
    used: Seq<Text>,
    bs: Seq<LocalBindingV>,
    i: nat,
    w: TypeWarningV,
)
    ensures
        lint::unused_bindings(acc, function_name, used, bs, i).contains(w) <==> acc.contains(w)
            || exists|j: int|
            i <= j < bs.len() && lint::reported(#[trigger] bs[j], used) && w.span == bs[j].span
                && w.message == unused_text(bs[j].name, function_name),
    decreases bs.len() - i,
{
    if i < bs.len() {
        let b = bs[i as int];
        let added = TypeWarningV { message: unused_text(b.name, function_name), span: b.span };
        if lint::reported(b, used) {
            lemma_after_push(acc, added, w);
            lemma_unused_bindings(acc.push(added), function_name, used, bs, i + 1, w);
        } else {
            lemma_unused_bindings(acc, function_name, used, bs, i + 1, w);
        }
    }
}

/// The warnings for the bindings of one function body itself.
proof fn lemma_unused_own(
    acc: Seq<TypeWarningV>,
    name: Text,
    body: Seq<Spanned<StmtV>>,
    w: TypeWarningV,
)
    ensures
        lint::unused_own(acc, name, body).contains(w) <==> acc.contains(w) || own_warning(name, body, w),
{
    let used = lint::used_stmts(body, 0, Seq::empty());
    let bs = lint::lets_stmts(body, 0, Seq::empty());
    lemma_unused_bindings(acc, name, used, bs, 0, w);
    assert forall|b: LocalBindingV| #[trigger] bs.contains(b) <==> bound_in(body, b) by {
        lemma_lets_stmts(body, 0, Seq::empty(), b);
    }
    assert forall|k: Text| #[trigger] text::has_text(used, k) <==> named_in(body, k) by {
        lemma_used_stmts(body, 0, Seq::empty(), k);
    }
    if own_warning(name, body, w) {
        let b = choose|b: LocalBindingV| #[trigger]
            bound_in(body, b) && !text::begins_with_char(b.name, '_') && b.sigil != Sigil::Linear
                && !named_in(body, b.sigil.key(b.name)) && w.span == b.span && w.message
                == unused_text(b.name, name);
        assert(bs.contains(b));
        let j = choose|j: int| 0 <= j < bs.len() && bs[j] == b;
        assert(lint::reported(bs[j], used));
    }
    if lint::unused_own(acc, name, body).contains(w) && !acc.contains(w) {
        let j = choose|j: int|
            0 <= j < bs.len() && lint::reported(#[trigger] bs[j], used) && w.span == bs[j].span
                && w.message == unused_text(bs[j].name, name);
        assert(bs.contains(bs[j]));
        assert(bound_in(body, bs[j]));
        assert(!text::has_text(used, bs[j].sigil.key(bs[j].name)));
    }
}

#[verifier::spinoff_prover]
#[verifier::rlimit(40)]
proof fn lemma_unused_expr(e: ExprV, acc: Seq<TypeWarningV>, w: TypeWarningV)
    ensures
        lint::unused_expr(e, acc).contains(w) <==> acc.contains(w) || tree::holds_inside(NodeV::Expr(e), warning(w), true),
    decreases e, 0nat,
{
    let q = warning(w);
    tree::law_inside_is_here_or_deeper(NodeV::Expr(e), q, true);
    match e {
        ExprV::Literal(_) => {
        },
        ExprV::Variable(name, sigil) => {
        },
        ExprV::Borrow(name, sigil) => {
        },
        ExprV::BinaryOp(l, _, r) => {
            tree::lemma_some_of_one(NodeV::Expr(l.node), q, true);
            tree::lemma_some_of_one(NodeV::Expr(r.node), q, true);
            tree::lemma_some_of_both(seq![NodeV::Expr(l.node)], seq![NodeV::Expr(r.node)], q, true);
            lemma_unused_expr(l.node, acc, w);
            lemma_unused_expr(r.node, lint::unused_expr(l.node, acc), w);
        },
        ExprV::Index(l, r) => {
            tree::lemma_some_of_one(NodeV::Expr(l.node), q, true);
            tree::lemma_some_of_one(NodeV::Expr(r.node), q, true);
            tree::lemma_some_of_both(seq![NodeV::Expr(l.node)], seq![NodeV::Expr(r.node)], q, true);
            lemma_unused_expr(l.node, acc, w);
            lemma_unused_expr(r.node, lint::unused_expr(l.node, acc), w);
        },
        ExprV::Call { func, args } => {
            lemma_unused_labelled(args, 0, acc, w);
        },
        ExprV::Constructor(_, args) => {
            lemma_unused_ctor_args(args, 0, acc, w);
        },
        ExprV::Record(fs) => {
            lemma_unused_labelled(fs, 0, acc, w);
        },
        ExprV::Array(es) => {
            lemma_unused_exprs(es, 0, acc, w);
        },
        ExprV::List(es) => {
            lemma_unused_exprs(es, 0, acc, w);
        },
        ExprV::FieldAccess(x, _) => {
            tree::lemma_some_of_one(NodeV::Expr(x.node), q, true);
            lemma_unused_expr(x.node, acc, w);
        },
        ExprV::Raise(x) => {
            tree::lemma_some_of_one(NodeV::Expr(x.node), q, true);
            lemma_unused_expr(x.node, acc, w);
        },
        ExprV::If { cond, then_branch, else_branch } => {
            let rest = match else_branch {
                Some(other) => tree::stmt_nodes(other),
                None => Seq::empty(),
            };
            tree::lemma_some_of_one(NodeV::Expr(cond.node), q, true);
            tree::lemma_some_of_both(seq![NodeV::Expr(cond.node)], tree::stmt_nodes(then_branch) + rest, q, true);
            tree::lemma_some_of_both(tree::stmt_nodes(then_branch), rest, q, true);
            lemma_unused_expr(cond.node, acc, w);
            lemma_unused_stmts(then_branch, 0, lint::unused_expr(cond.node, acc), w);
            match else_branch {
                Some(other) => lemma_unused_stmts(other, 0, lint::unused_stmts(then_branch, 0, lint::unused_expr(cond.node, acc)), w),
                None => {},
            }
        },
        ExprV::Match { target: on, cases } => {
            tree::lemma_some_of_one(NodeV::Expr(on.node), q, true);
            tree::lemma_some_of_both(seq![NodeV::Expr(on.node)], tree::case_nodes(cases), q, true);
            lemma_unused_expr(on.node, acc, w);
            lemma_unused_cases(cases, 0, lint::unused_expr(on.node, acc), w);
        },
        ExprV::While { cond, body } => {
            tree::lemma_some_of_one(NodeV::Expr(cond.node), q, true);
            tree::lemma_some_of_both(seq![NodeV::Expr(cond.node)], tree::stmt_nodes(body), q, true);
            lemma_unused_expr(cond.node, acc, w);
            lemma_unused_stmts(body, 0, lint::unused_expr(cond.node, acc), w);
        },
        ExprV::For { var: _, start, end_expr, body } => {
            tree::lemma_some_of_one(NodeV::Expr(start.node), q, true);
            tree::lemma_some_of_one(NodeV::Expr(end_expr.node), q, true);
            tree::lemma_some_of_both(seq![NodeV::Expr(start.node)], seq![NodeV::Expr(end_expr.node)] + tree::stmt_nodes(body), q, true);
            tree::lemma_some_of_both(seq![NodeV::Expr(end_expr.node)], tree::stmt_nodes(body), q, true);
            lemma_unused_expr(start.node, acc, w);
            lemma_unused_expr(end_expr.node, lint::unused_expr(start.node, acc), w);
            lemma_unused_stmts(body, 0, lint::unused_expr(end_expr.node, lint::unused_expr(start.node, acc)), w);
        },
        ExprV::Lambda { type_params: _, params: _, ret_type: _, requires: _, throws: _, body } => {
            let name = "<lambda>"@;
            lemma_unused_own(acc, name, body, w);
            lemma_unused_stmts(body, 0, lint::unused_own(acc, name, body), w);
            assert(lint::unused_function(name, body, acc) == lint::unused_stmts(body, 0, lint::unused_own(acc, name, body)));
            assert(own_warning(name, body, w) <==> warned_at(NodeV::Expr(e), w));
            assert(lint::unused_expr(e, acc) == lint::unused_function(name, body, acc));
        },
        ExprV::External(_, _, _) => {
        },
        ExprV::Handler { coeffect_name, requires: _, functions } => {
            lemma_unused_functions(functions, 0, "handler "@ + coeffect_name + "."@, acc, w);
        },
    }
}

#[verifier::spinoff_prover]
#[verifier::rlimit(40)]
proof fn lemma_unused_stmt(s: Spanned<StmtV>, acc: Seq<TypeWarningV>, w: TypeWarningV)
    ensures
        lint::unused_stmt(s, acc).contains(w) <==> acc.contains(w) || tree::holds_inside(NodeV::Stmt(s), warning(w), true),
    decreases s, 0nat,
{
    let q = warning(w);
    tree::law_inside_is_here_or_deeper(NodeV::Stmt(s), q, true);
    match s.node {
        StmtV::Let { name, sigil, typ: _, value } => {
            tree::lemma_some_of_one(NodeV::Expr(value.node), q, true);
            lemma_unused_expr(value.node, acc, w);
        },
        StmtV::LetPattern { pattern: _, value } => {
            tree::lemma_some_of_one(NodeV::Expr(value.node), q, true);
            lemma_unused_expr(value.node, acc, w);
        },
        StmtV::Expr(value) => {
            tree::lemma_some_of_one(NodeV::Expr(value.node), q, true);
            lemma_unused_expr(value.node, acc, w);
        },
        StmtV::Return(value) => {
            tree::lemma_some_of_one(NodeV::Expr(value.node), q, true);
            lemma_unused_expr(value.node, acc, w);
        },
        StmtV::Assign { target: to, value } => {
            tree::lemma_some_of_one(NodeV::Expr(to.node), q, true);
            tree::lemma_some_of_one(NodeV::Expr(value.node), q, true);
            tree::lemma_some_of_both(seq![NodeV::Expr(to.node)], seq![NodeV::Expr(value.node)], q, true);
            lemma_unused_expr(to.node, acc, w);
            lemma_unused_expr(value.node, lint::unused_expr(to.node, acc), w);
        },
        StmtV::Conc(tasks) => {
            lemma_unused_functions(tasks, 0, "task "@, acc, w);
        },
        StmtV::Try { body, catch_param: _, catch_body } => {
            tree::lemma_some_of_both(tree::stmt_nodes(body), tree::stmt_nodes(catch_body), q, true);
            lemma_unused_stmts(body, 0, acc, w);
            lemma_unused_stmts(catch_body, 0, lint::unused_stmts(body, 0, acc), w);
        },
        StmtV::Inject { handlers, body } => {
            lemma_unused_stmts(body, 0, acc, w);
        },
    }
}

proof fn lemma_unused_stmts(xs: Seq<Spanned<StmtV>>, i: nat, acc: Seq<TypeWarningV>, w: TypeWarningV)
    ensures
        lint::unused_stmts(xs, i, acc).contains(w) <==> acc.contains(w) || tree::some_holds(tree::stmt_nodes(xs), i, warning(w), true),
    decreases xs, xs.len() - i,
{
    if i < xs.len() {
        let x = xs[i as int];
        assert(tree::stmt_nodes(xs)[i as int] == NodeV::Stmt(x));
        tree::lemma_some_from(tree::stmt_nodes(xs), i, warning(w), true);
        lemma_unused_stmt(x, acc, w);
        lemma_unused_stmts(xs, i + 1, lint::unused_stmt(x, acc), w);
    }
}

proof fn lemma_unused_exprs(xs: Seq<Spanned<ExprV>>, i: nat, acc: Seq<TypeWarningV>, w: TypeWarningV)
    ensures
        lint::unused_exprs(xs, i, acc).contains(w) <==> acc.contains(w) || tree::some_holds(tree::expr_nodes(xs), i, warning(w), true),
    decreases xs, xs.len() - i,
{
    if i < xs.len() {
        let x = xs[i as int];
        assert(tree::expr_nodes(xs)[i as int] == NodeV::Expr(x.node));
        tree::lemma_some_from(tree::expr_nodes(xs), i, warning(w), true);
        lemma_unused_expr(x.node, acc, w);
        lemma_unused_exprs(xs, i + 1, lint::unused_expr(x.node, acc), w);
    }
}

proof fn lemma_unused_labelled(xs: Seq<(Text, Spanned<ExprV>)>, i: nat, acc: Seq<TypeWarningV>, w: TypeWarningV)
    ensures
        lint::unused_labelled(xs, i, acc).contains(w) <==> acc.contains(w) || tree::some_holds(tree::labelled_nodes(xs), i, warning(w), true),
    decreases xs, xs.len() - i,
{
    if i < xs.len() {
        let x = xs[i as int];
        assert(tree::labelled_nodes(xs)[i as int] == NodeV::Expr(x.1.node));
        tree::lemma_some_from(tree::labelled_nodes(xs), i, warning(w), true);
        lemma_unused_expr(x.1.node, acc, w);
        lemma_unused_labelled(xs, i + 1, lint::unused_expr(x.1.node, acc), w);
    }
}

proof fn lemma_unused_ctor_args(xs: Seq<(Option<Text>, Spanned<ExprV>)>, i: nat, acc: Seq<TypeWarningV>, w: TypeWarningV)
    ensures
        lint::unused_ctor_args(xs, i, acc).contains(w) <==> acc.contains(w) || tree::some_holds(tree::ctor_arg_nodes(xs), i, warning(w), true),
    decreases xs, xs.len() - i,
{
    if i < xs.len() {
        let x = xs[i as int];
        assert(tree::ctor_arg_nodes(xs)[i as int] == NodeV::Expr(x.1.node));
        tree::lemma_some_from(tree::ctor_arg_nodes(xs), i, warning(w), true);
        lemma_unused_expr(x.1.node, acc, w);
        lemma_unused_ctor_args(xs, i + 1, lint::unused_expr(x.1.node, acc), w);
    }
}

proof fn lemma_unused_cases(xs: Seq<MatchCaseV>, i: nat, acc: Seq<TypeWarningV>, w: TypeWarningV)
    ensures
        lint::unused_cases(xs, i, acc).contains(w) <==> acc.contains(w) || tree::some_holds(tree::case_nodes(xs), i, warning(w), true),
    decreases xs, xs.len() - i,
{
    if i < xs.len() {
        let x = xs[i as int];
        assert(tree::case_nodes(xs)[i as int] == NodeV::Case(x));
        tree::lemma_some_from(tree::case_nodes(xs), i, warning(w), true);
        tree::law_inside_is_here_or_deeper(NodeV::Case(x), warning(w), true);
        lemma_unused_stmts(x.body, 0, acc, w);
        lemma_unused_cases(xs, i + 1, lint::unused_stmts(x.body, 0, acc), w);
    }
}

proof fn lemma_unused_functions(
    xs: Seq<FunctionV>,
    i: nat,
    prefix: Text,
    acc: Seq<TypeWarningV>,
    w: TypeWarningV,
)
    ensures
        lint::unused_functions(xs, i, prefix, acc).contains(w) <==> acc.contains(w) || warned_in_functions(
            xs,
            i,
            prefix,
            w,
        ) || tree::some_holds(tree::function_nodes(xs), i, warning(w), true),
    decreases xs, xs.len() - i,
{
    if i < xs.len() {
        let x = xs[i as int];
        let name = prefix + x.name;
        let own = lint::unused_own(acc, name, x.body);
        assert(tree::function_nodes(xs)[i as int] == NodeV::Function(x));
        tree::lemma_some_from(tree::function_nodes(xs), i, warning(w), true);
        tree::law_inside_is_here_or_deeper(NodeV::Function(x), warning(w), true);
        lemma_unused_own(acc, name, x.body, w);
        lemma_unused_stmts(x.body, 0, own, w);
        lemma_unused_functions(xs, i + 1, prefix, lint::unused_stmts(x.body, 0, own), w);
        assert(lint::unused_function(name, x.body, acc) == lint::unused_stmts(x.body, 0, own));
        assert(warned_in_functions(xs, i, prefix, w) <==> own_warning(name, x.body, w)
            || warned_in_functions(xs, i + 1, prefix, w)) by {
            if warned_in_functions(xs, i, prefix, w) {
                let j = choose|j: int|
                    i <= j < xs.len() && own_warning(prefix + (#[trigger] xs[j]).name, xs[j].body, w);
            }
        }
    }
}


// ---------------------------------------------------------------------------
// References to a definition
// ---------------------------------------------------------------------------

/// Whether a part of a tree refers to a definition itself: a plain variable or a borrow of its
/// name, a call of it, or the injection of a handler that is it or an item of it.
pub open spec fn refers_to(n: NodeV, target: Text) -> bool {
    match n {
        NodeV::Expr(ExprV::Variable(name, Sigil::Immutable)) => name == target,
        NodeV::Expr(ExprV::Borrow(name, Sigil::Immutable)) => name == target,
        NodeV::Expr(ExprV::Call { func, args: _ }) => func == target,
        NodeV::Stmt(s) => match s.node {
            StmtV::Inject { handlers, body: _ } => exists|i: int|
                0 <= i < handlers.len() && ((#[trigger] handlers[i]) == target
                    || exists|rest: Text| handlers[i] == #[trigger] (target + seq!['.'] + rest)),
            _ => false,
        },
        _ => false,
    }
}

/// That a part of a tree refers to a definition itself.
pub open spec fn referring(target: Text) -> spec_fn(NodeV) -> bool {
    |n: NodeV| refers_to(n, target)
}

/// The handlers that are a definition or an item of it.
proof fn lemma_handler_mentions(handlers: Seq<Text>, i: nat, target: Text)
    ensures
        lint::handler_mentions(handlers, i, target) <==> exists|j: int|
            i <= j < handlers.len() && ((#[trigger] handlers[j]) == target || exists|rest: Text|
                handlers[j] == #[trigger] (target + seq!['.'] + rest)),
    decreases handlers.len() - i,
{
    if i < handlers.len() {
        let h = handlers[i as int];
        let p = target + "."@;
        reveal_strlit(".");
        assert("."@ =~= seq!['.']);
        if text::begins_with(h, p) {
            assert(h =~= p + h.subrange(p.len() as int, h.len() as int));
        }
        if exists|rest: Text| h == #[trigger] (target + seq!['.'] + rest) {
            let rest = choose|rest: Text| h == #[trigger] (target + seq!['.'] + rest);
            assert(h.subrange(0, p.len() as int) =~= p);
        }
        lemma_handler_mentions(handlers, i + 1, target);
    }
}

#[verifier::spinoff_prover]
#[verifier::rlimit(40)]
proof fn lemma_mentions_expr(e: ExprV, target: Text)
    ensures
        lint::mentions_expr(e, target) <==> tree::holds_inside(NodeV::Expr(e), referring(target), true),
    decreases e, 0nat,
{
    let q = referring(target);
    tree::law_inside_is_here_or_deeper(NodeV::Expr(e), q, true);
    match e {
        ExprV::Literal(_) => {
        },
        ExprV::Variable(name, sigil) => {
        },
        ExprV::Borrow(name, sigil) => {
        },
        ExprV::BinaryOp(l, _, r) => {
            tree::lemma_some_of_one(NodeV::Expr(l.node), q, true);
            tree::lemma_some_of_one(NodeV::Expr(r.node), q, true);
            tree::lemma_some_of_both(seq![NodeV::Expr(l.node)], seq![NodeV::Expr(r.node)], q, true);
            lemma_mentions_expr(l.node, target);
            lemma_mentions_expr(r.node, target);
        },
        ExprV::Index(l, r) => {
            tree::lemma_some_of_one(NodeV::Expr(l.node), q, true);
            tree::lemma_some_of_one(NodeV::Expr(r.node), q, true);
            tree::lemma_some_of_both(seq![NodeV::Expr(l.node)], seq![NodeV::Expr(r.node)], q, true);
            lemma_mentions_expr(l.node, target);
            lemma_mentions_expr(r.node, target);
        },
        ExprV::Call { func, args } => {
            lemma_mentions_labelled(args, 0, target);
        },
        ExprV::Constructor(_, args) => {
            lemma_mentions_ctor_args(args, 0, target);
        },
        ExprV::Record(fs) => {
            lemma_mentions_labelled(fs, 0, target);
        },
        ExprV::Array(es) => {
            lemma_mentions_exprs(es, 0, target);
        },
        ExprV::List(es) => {
            lemma_mentions_exprs(es, 0, target);
        },
        ExprV::FieldAccess(x, _) => {
            tree::lemma_some_of_one(NodeV::Expr(x.node), q, true);
            lemma_mentions_expr(x.node, target);
        },
        ExprV::Raise(x) => {
            tree::lemma_some_of_one(NodeV::Expr(x.node), q, true);
            lemma_mentions_expr(x.node, target);
        },
        ExprV::If { cond, then_branch, else_branch } => {
            let rest = match else_branch {
                Some(other) => tree::stmt_nodes(other),
                None => Seq::empty(),
            };
            tree::lemma_some_of_one(NodeV::Expr(cond.node), q, true);
            tree::lemma_some_of_both(seq![NodeV::Expr(cond.node)], tree::stmt_nodes(then_branch) + rest, q, true);
            tree::lemma_some_of_both(tree::stmt_nodes(then_branch), rest, q, true);
            lemma_mentions_expr(cond.node, target);
            lemma_mentions_stmts(then_branch, 0, target);
            match else_branch {
                Some(other) => lemma_mentions_stmts(other, 0, target),
                None => {},
            }
        },
        ExprV::Match { target: on, cases } => {
            tree::lemma_some_of_one(NodeV::Expr(on.node), q, true);
            tree::lemma_some_of_both(seq![NodeV::Expr(on.node)], tree::case_nodes(cases), q, true);
            lemma_mentions_expr(on.node, target);
            lemma_mentions_cases(cases, 0, target);
        },
        ExprV::While { cond, body } => {
            tree::lemma_some_of_one(NodeV::Expr(cond.node), q, true);
            tree::lemma_some_of_both(seq![NodeV::Expr(cond.node)], tree::stmt_nodes(body), q, true);
            lemma_mentions_expr(cond.node, target);
            lemma_mentions_stmts(body, 0, target);
        },
        ExprV::For { var: _, start, end_expr, body } => {
            tree::lemma_some_of_one(NodeV::Expr(start.node), q, true);
            tree::lemma_some_of_one(NodeV::Expr(end_expr.node), q, true);
            tree::lemma_some_of_both(seq![NodeV::Expr(start.node)], seq![NodeV::Expr(end_expr.node)] + tree::stmt_nodes(body), q, true);
            tree::lemma_some_of_both(seq![NodeV::Expr(end_expr.node)], tree::stmt_nodes(body), q, true);
            lemma_mentions_expr(start.node, target);
            lemma_mentions_expr(end_expr.node, target);
            lemma_mentions_stmts(body, 0, target);
        },
        ExprV::Lambda { type_params: _, params: _, ret_type: _, requires: _, throws: _, body } => {
            lemma_mentions_stmts(body, 0, target);
        },
        ExprV::External(_, _, _) => {
        },
        ExprV::Handler { coeffect_name, requires: _, functions } => {
            lemma_mentions_functions(functions, 0, target);
        },
    }
}

#[verifier::spinoff_prover]
#[verifier::rlimit(40)]
proof fn lemma_mentions_stmt(s: Spanned<StmtV>, target: Text)
    ensures
        lint::mentions_stmt(s, target) <==> tree::holds_inside(NodeV::Stmt(s), referring(target), true),
    decreases s, 0nat,
{
    let q = referring(target);
    tree::law_inside_is_here_or_deeper(NodeV::Stmt(s), q, true);
    match s.node {
        StmtV::Let { name, sigil, typ: _, value } => {
            tree::lemma_some_of_one(NodeV::Expr(value.node), q, true);
            lemma_mentions_expr(value.node, target);
        },
        StmtV::LetPattern { pattern: _, value } => {
            tree::lemma_some_of_one(NodeV::Expr(value.node), q, true);
            lemma_mentions_expr(value.node, target);
        },
        StmtV::Expr(value) => {
            tree::lemma_some_of_one(NodeV::Expr(value.node), q, true);
            lemma_mentions_expr(value.node, target);
        },
        StmtV::Return(value) => {
            tree::lemma_some_of_one(NodeV::Expr(value.node), q, true);
            lemma_mentions_expr(value.node, target);
        },
        StmtV::Assign { target: to, value } => {
            tree::lemma_some_of_one(NodeV::Expr(to.node), q, true);
            tree::lemma_some_of_one(NodeV::Expr(value.node), q, true);
            tree::lemma_some_of_both(seq![NodeV::Expr(to.node)], seq![NodeV::Expr(value.node)], q, true);
            lemma_mentions_expr(to.node, target);
            lemma_mentions_expr(value.node, target);
        },
        StmtV::Conc(tasks) => {
            lemma_mentions_functions(tasks, 0, target);
        },
        StmtV::Try { body, catch_param: _, catch_body } => {
            tree::lemma_some_of_both(tree::stmt_nodes(body), tree::stmt_nodes(catch_body), q, true);
            lemma_mentions_stmts(body, 0, target);
            lemma_mentions_stmts(catch_body, 0, target);
        },
        StmtV::Inject { handlers, body } => {
            lemma_handler_mentions(handlers, 0, target);
            lemma_mentions_stmts(body, 0, target);
        },
    }
}

proof fn lemma_mentions_stmts(xs: Seq<Spanned<StmtV>>, i: nat, target: Text)
    ensures
        lint::mentions_stmts(xs, i, target) <==> tree::some_holds(tree::stmt_nodes(xs), i, referring(target), true),
    decreases xs, xs.len() - i,
{
    if i < xs.len() {
        let x = xs[i as int];
        assert(tree::stmt_nodes(xs)[i as int] == NodeV::Stmt(x));
        tree::lemma_some_from(tree::stmt_nodes(xs), i, referring(target), true);
        lemma_mentions_stmt(x, target);
        lemma_mentions_stmts(xs, i + 1, target);
    }
}

proof fn lemma_mentions_exprs(xs: Seq<Spanned<ExprV>>, i: nat, target: Text)
    ensures
        lint::mentions_exprs(xs, i, target) <==> tree::some_holds(tree::expr_nodes(xs), i, referring(target), true),
    decreases xs, xs.len() - i,
{
    if i < xs.len() {
        let x = xs[i as int];
        assert(tree::expr_nodes(xs)[i as int] == NodeV::Expr(x.node));
        tree::lemma_some_from(tree::expr_nodes(xs), i, referring(target), true);
        lemma_mentions_expr(x.node, target);
        lemma_mentions_exprs(xs, i + 1, target);
    }
}

proof fn lemma_mentions_labelled(xs: Seq<(Text, Spanned<ExprV>)>, i: nat, target: Text)
    ensures
        lint::mentions_labelled(xs, i, target) <==> tree::some_holds(tree::labelled_nodes(xs), i, referring(target), true),
    decreases xs, xs.len() - i,
{
    if i < xs.len() {
        let x = xs[i as int];
        assert(tree::labelled_nodes(xs)[i as int] == NodeV::Expr(x.1.node));
        tree::lemma_some_from(tree::labelled_nodes(xs), i, referring(target), true);
        lemma_mentions_expr(x.1.node, target);
        lemma_mentions_labelled(xs, i + 1, target);
    }
}

proof fn lemma_mentions_ctor_args(xs: Seq<(Option<Text>, Spanned<ExprV>)>, i: nat, target: Text)
    ensures
        lint::mentions_ctor_args(xs, i, target) <==> tree::some_holds(tree::ctor_arg_nodes(xs), i, referring(target), true),
    decreases xs, xs.len() - i,
{
    if i < xs.len() {
        let x = xs[i as int];
        assert(tree::ctor_arg_nodes(xs)[i as int] == NodeV::Expr(x.1.node));
        tree::lemma_some_from(tree::ctor_arg_nodes(xs), i, referring(target), true);
        lemma_mentions_expr(x.1.node, target);
        lemma_mentions_ctor_args(xs, i + 1, target);
    }
}

proof fn lemma_mentions_cases(xs: Seq<MatchCaseV>, i: nat, target: Text)
    ensures
        lint::mentions_cases(xs, i, target) <==> tree::some_holds(tree::case_nodes(xs), i, referring(target), true),
    decreases xs, xs.len() - i,
{
    if i < xs.len() {
        let x = xs[i as int];
        assert(tree::case_nodes(xs)[i as int] == NodeV::Case(x));
        tree::lemma_some_from(tree::case_nodes(xs), i, referring(target), true);
        tree::law_inside_is_here_or_deeper(NodeV::Case(x), referring(target), true);
        lemma_mentions_stmts(x.body, 0, target);
        lemma_mentions_cases(xs, i + 1, target);
    }
}

proof fn lemma_mentions_functions(xs: Seq<FunctionV>, i: nat, target: Text)
    ensures
        lint::mentions_functions(xs, i, target) <==> tree::some_holds(tree::function_nodes(xs), i, referring(target), true),
    decreases xs, xs.len() - i,
{
    if i < xs.len() {
        let x = xs[i as int];
        assert(tree::function_nodes(xs)[i as int] == NodeV::Function(x));
        tree::lemma_some_from(tree::function_nodes(xs), i, referring(target), true);
        tree::law_inside_is_here_or_deeper(NodeV::Function(x), referring(target), true);
        lemma_mentions_stmts(x.body, 0, target);
        lemma_mentions_functions(xs, i + 1, target);
    }
}

// ---------------------------------------------------------------------------
// The warnings of a program
// ---------------------------------------------------------------------------

/// Whether a warning is owed for an unused local variable of one definition: of the function or
/// of the functions of the handler that it binds, or of a function body inside those.
pub open spec fn unused_warning(def: TopLevelV, w: TypeWarningV) -> bool {
    match def {
        TopLevelV::Let(gl) => match gl.value.node {
            ExprV::Lambda {
                type_params: _,
                params: _,
                ret_type: _,
                requires: _,
                throws: _,
                body,
            } => own_warning(gl.name, body, w) || tree::some_holds(
                tree::stmt_nodes(body),
                0,
                warning(w),
                true,
            ),
            ExprV::Handler { coeffect_name: _, requires: _, functions: _ } => tree::holds_inside(
                NodeV::Expr(gl.value.node),
                warning(w),
                true,
            ),
            _ => false,
        },
        _ => false,
    }
}

/// Whether a warning is owed for a private binding: it is not the entry point, and nothing in
/// the value of a binding of another name refers to it.
pub open spec fn private_warning(
    defs: Seq<Spanned<TopLevelV>>,
    gl: GlobalLetV,
    span: Span,
    w: TypeWarningV,
) -> bool {
    !gl.is_public && gl.name != "main"@ && w.span == span && w.message == "Private definition '"@
        + gl.name + "' is never referenced"@ && !exists|i: int|
        0 <= i < defs.len() && refers_from(#[trigger] defs[i].node, gl.name)
}

/// Whether something in the value of a binding refers to the binding of another name.
pub open spec fn refers_from(def: TopLevelV, name: Text) -> bool {
    match def {
        TopLevelV::Let(gl) => gl.name != name && tree::holds_inside(
            NodeV::Expr(gl.value.node),
            referring(name),
            true,
        ),
        _ => false,
    }
}

/// What refers to a definition, by the parts of the other definitions.
proof fn lemma_referenced_from(defs: Seq<Spanned<TopLevelV>>, i: nat, name: Text)
    ensures
        lint::referenced_from(defs, i, name) <==> exists|j: int|
            i <= j < defs.len() && refers_from(#[trigger] defs[j].node, name),
    decreases defs.len() - i,
{
    if i < defs.len() {
        match defs[i as int].node {
            TopLevelV::Let(gl) => lemma_mentions_expr(gl.value.node, name),
            _ => {},
        }
        assert(refers_from(defs[i as int].node, name) || lint::referenced_from(defs, i + 1, name)
            <==> lint::referenced_from(defs, i, name));
        lemma_referenced_from(defs, i + 1, name);
    }
}

/// The warnings for private bindings, one by one.
proof fn lemma_private_warnings(
    acc: Seq<TypeWarningV>,
    defs: Seq<Spanned<TopLevelV>>,
    i: nat,
    w: TypeWarningV,
)
    ensures
        lint::private_warnings(acc, defs, i).contains(w) <==> acc.contains(w) || exists|j: int|
            i <= j < defs.len() && privately_warned(defs, #[trigger] defs[j], w),
    decreases defs.len() - i,
{
    if i < defs.len() {
        let def = defs[i as int];
        match def.node {
            TopLevelV::Let(gl) => {
                lemma_referenced_from(defs, 0, gl.name);
                let added = TypeWarningV {
                    message: "Private definition '"@ + gl.name + "' is never referenced"@,
                    span: def.span,
                };
                lemma_after_push(acc, added, w);
                lemma_private_warnings(acc.push(added), defs, i + 1, w);
            },
            _ => {},
        }
        lemma_private_warnings(acc, defs, i + 1, w);
        assert(lint::private_warnings(acc, defs, i).contains(w) <==> acc.contains(w) || privately_warned(
            defs,
            def,
            w,
        ) || exists|j: int|
            i + 1 <= j < defs.len() && privately_warned(defs, #[trigger] defs[j], w));
    }
}

/// Whether a warning is owed for a definition that is a private binding.
pub open spec fn privately_warned(
    defs: Seq<Spanned<TopLevelV>>,
    def: Spanned<TopLevelV>,
    w: TypeWarningV,
) -> bool {
    match def.node {
        TopLevelV::Let(gl) => private_warning(defs, gl, def.span, w),
        _ => false,
    }
}

/// The warnings for the unused local variables of one definition.
proof fn lemma_unused_in_definition(acc: Seq<TypeWarningV>, def: TopLevelV, w: TypeWarningV)
    ensures
        lint::unused_in_definition(acc, def).contains(w) <==> acc.contains(w) || unused_warning(def, w),
{
    match def {
        TopLevelV::Let(gl) => match gl.value.node {
            ExprV::Lambda {
                type_params: _,
                params: _,
                ret_type: _,
                requires: _,
                throws: _,
                body,
            } => {
                lemma_unused_own(acc, gl.name, body, w);
                lemma_unused_stmts(body, 0, lint::unused_own(acc, gl.name, body), w);
            },
            ExprV::Handler { coeffect_name, requires: _, functions } => {
                lemma_unused_expr(gl.value.node, acc, w);
            },
            _ => {},
        },
        _ => {},
    }
}

/// The warnings for the unused local variables of the definitions from one on.
proof fn lemma_unused_in_definitions(
    acc: Seq<TypeWarningV>,
    defs: Seq<Spanned<TopLevelV>>,
    i: nat,
    w: TypeWarningV,
)
    ensures
        lint::unused_in_definitions(acc, defs, i).contains(w) <==> acc.contains(w) || exists|j: int|
            i <= j < defs.len() && unused_warning((#[trigger] defs[j]).node, w),
    decreases defs.len() - i,
{
    if i < defs.len() {
        let next = lint::unused_in_definition(acc, defs[i as int].node);
        lemma_unused_in_definition(acc, defs[i as int].node, w);
        lemma_unused_in_definitions(next, defs, i + 1, w);
        assert(lint::unused_in_definitions(acc, defs, i) == lint::unused_in_definitions(next, defs, i + 1));
    }
}

/// A function body is told of a local variable exactly where it binds one, not by a name that
/// begins with an underscore nor as linear, whose key nothing in the body names, and of those of
/// the function bodies inside it.
pub proof fn law_binding_is_unused_iff_nothing_names_it(
    name: Text,
    body: Seq<Spanned<StmtV>>,
    w: TypeWarningV,
)
    ensures
        lint::unused_function(name, body, Seq::empty()).contains(w) <==> own_warning(name, body, w)
            || tree::some_holds(tree::stmt_nodes(body), 0, warning(w), true),
{
    lemma_unused_own(Seq::empty(), name, body, w);
    lemma_unused_stmts(body, 0, lint::unused_own(Seq::empty(), name, body), w);
}

/// A key that a variable, a borrow or a plain call names anywhere inside a body is used by it.
pub proof fn law_used_keys_are_those_named(body: Seq<Spanned<StmtV>>, k: Text)
    ensures
        text::has_text(lint::used_stmts(body, 0, Seq::empty()), k) <==> named_in(body, k),
{
    lemma_used_stmts(body, 0, Seq::empty(), k);
}

/// A program's lint warnings are those that were there, those for its private bindings that no
/// other binding refers to, those for signatures that declare too much, and those for its unused
/// local variables.
pub proof fn law_lint_warnings(
    acc: Seq<TypeWarningV>,
    env: EnvV,
    defs: Seq<Spanned<TopLevelV>>,
    w: TypeWarningV,
)
    ensures
        lint::lint_warnings(acc, env, defs).contains(w) <==> acc.contains(w) || (exists|i: int|
            0 <= i < defs.len() && privately_warned(defs, #[trigger] defs[i], w)) || (exists|
            i: int,
        |
            0 <= i < defs.len() && lint::signature_warning(
                Seq::empty(),
                env,
                #[trigger] defs[i],
            ).contains(w)) || (exists|i: int|
            0 <= i < defs.len() && unused_warning((#[trigger] defs[i]).node, w)),
{
    let private = lint::private_warnings(acc, defs, 0);
    lemma_private_warnings(acc, defs, 0, w);
    lemma_signature_warnings(private, env, defs, 0, w);
    lemma_unused_in_definitions(lint::signature_warnings(private, env, defs, 0), defs, 0, w);
}

/// The warnings for the signature of one definition are put behind the others.
proof fn lemma_signature_warning(
    acc: Seq<TypeWarningV>,
    env: EnvV,
    def: Spanned<TopLevelV>,
    w: TypeWarningV,
)
    ensures
        lint::signature_warning(acc, env, def).contains(w) <==> acc.contains(w) || lint::signature_warning(
            Seq::empty(),
            env,
            def,
        ).contains(w),
{
    match def.node {
        TopLevelV::Let(gl) => match gl.value.node {
            ExprV::Lambda {
                type_params: _,
                params: _,
                ret_type: _,
                requires: reqs,
                throws,
                body,
            } => {
                let n = lint::body_needs(body, env);
                let what1 = "' declares reducible coeffects: "@;
                let what2 = "' declares reducible effects: "@;
                let none = Seq::<TypeWarningV>::empty();
                let first = lint::reducible_warning(none, gl.name, what1, reqs, n.reqs, def.span);
                let all = lint::reducible_warning(acc, gl.name, what1, reqs, n.reqs, def.span);
                lemma_reducible_warning(acc, gl.name, what1, reqs, n.reqs, def.span, w);
                lemma_reducible_warning(all, gl.name, what2, throws, n.effs, def.span, w);
                lemma_reducible_warning(first, gl.name, what2, throws, n.effs, def.span, w);
            },
            _ => {},
        },
        _ => {},
    }
}

proof fn lemma_reducible_warning(
    acc: Seq<TypeWarningV>,
    name: Text,
    what: Text,
    declared: TypeV,
    used: Seq<Text>,
    span: Span,
    w: TypeWarningV,
)
    ensures
        lint::reducible_warning(acc, name, what, declared, used, span).contains(w) <==> acc.contains(w)
            || lint::reducible_warning(Seq::empty(), name, what, declared, used, span).contains(w),
{
    let redundant = text::sorted_texts(text::difference_texts(lint::row_names(declared).0, used));
    let added = TypeWarningV { message: "Function '"@ + name + what + text::joined(redundant, ", "@), span };
    lemma_after_push(acc, added, w);
    lemma_after_push(Seq::empty(), added, w);
}

proof fn lemma_signature_warnings(
    acc: Seq<TypeWarningV>,
    env: EnvV,
    defs: Seq<Spanned<TopLevelV>>,
    i: nat,
    w: TypeWarningV,
)
    ensures
        lint::signature_warnings(acc, env, defs, i).contains(w) <==> acc.contains(w) || exists|j: int|
            i <= j < defs.len() && lint::signature_warning(
                Seq::empty(),
                env,
                #[trigger] defs[j],
            ).contains(w),
    decreases defs.len() - i,
{
    if i < defs.len() {
        let next = lint::signature_warning(acc, env, defs[i as int]);
        lemma_signature_warning(acc, env, defs[i as int], w);
        lemma_signature_warnings(next, env, defs, i + 1, w);
        assert(lint::signature_warnings(acc, env, defs, i) == lint::signature_warnings(next, env, defs, i + 1));
    }
}

} // verus!
