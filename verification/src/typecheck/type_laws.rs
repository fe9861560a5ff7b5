//! What occurs where in a type, and in the statements of a body that can end it.

use crate::ast::{Expr, ExprV, MatchCaseV, StmtV};
use crate::text::Text;
use crate::typecheck::helpers;
use crate::types::{Spanned, TypeV};
use vstd::prelude::*;

verus! {

// ---------------------------------------------------------------------------
// Types inside a type
// ---------------------------------------------------------------------------

/// The types of labelled types.
pub open spec fn label_types(fs: Seq<(Text, TypeV)>) -> Seq<TypeV> {
    fs.map_values(|f: (Text, TypeV)| f.1)
}

/// The types that stand directly inside a type. Lists and handlers are not entered.
pub open spec fn type_parts(t: TypeV) -> Seq<TypeV> {
    match t {
        TypeV::UserDefined(_, args) => args,
        TypeV::Arrow(p, r, q, e) => label_types(p) + seq![*r, *q, *e],
        TypeV::Ref(i) => seq![*i],
        TypeV::Linear(i) => seq![*i],
        TypeV::Lazy(i) => seq![*i],
        TypeV::Borrow(i) => seq![*i],
        TypeV::Array(i) => seq![*i],
        TypeV::Row(es, tail) => match tail {
            Some(x) => es + seq![*x],
            None => es,
        },
        TypeV::Record(fs) => label_types(fs),
        _ => Seq::empty(),
    }
}

/// Whether something holds of a type `d` levels inside a type.
pub open spec fn type_holds_below(t: TypeV, q: spec_fn(TypeV) -> bool, d: nat) -> bool
    decreases d,
{
    if d == 0 {
        q(t)
    } else {
        exists|i: int|
            0 <= i < type_parts(t).len() && type_holds_below(
                #[trigger] type_parts(t)[i],
                q,
                (d - 1) as nat,
            )
    }
}

/// Whether something holds of a type or of a type anywhere inside it.
#[verifier::opaque]
pub open spec fn type_holds(t: TypeV, q: spec_fn(TypeV) -> bool) -> bool {
    exists|d: nat| type_holds_below(t, q, d)
}

/// Whether something holds of one of the types or inside one.
pub open spec fn some_type_holds(ts: Seq<TypeV>, q: spec_fn(TypeV) -> bool) -> bool {
    exists|i: int| 0 <= i < ts.len() && type_holds(#[trigger] ts[i], q)
}

/// What holds inside a type holds of it, or inside one of the types that stand directly in it.
pub proof fn law_type_holds_here_or_deeper(t: TypeV, q: spec_fn(TypeV) -> bool)
    ensures
        type_holds(t, q) <==> q(t) || some_type_holds(type_parts(t), q),
{
    reveal(type_holds);
    let ps = type_parts(t);
    if q(t) {
        assert(type_holds_below(t, q, 0));
    }
    if some_type_holds(ps, q) {
        let j = choose|j: int| 0 <= j < ps.len() && type_holds(#[trigger] ps[j], q);
        let d = choose|d: nat| type_holds_below(ps[j], q, d);
        assert(type_holds_below(t, q, d + 1));
    }
    if type_holds(t, q) {
        let d = choose|d: nat| type_holds_below(t, q, d);
        if d > 0 {
            let j = choose|j: int|
                0 <= j < ps.len() && type_holds_below(#[trigger] ps[j], q, (d - 1) as nat);
            assert(type_holds(ps[j], q));
        }
    }
}

proof fn lemma_some_type_of_both(a: Seq<TypeV>, b: Seq<TypeV>, q: spec_fn(TypeV) -> bool)
    ensures
        some_type_holds(a + b, q) <==> some_type_holds(a, q) || some_type_holds(b, q),
{
    let all = a + b;
    if some_type_holds(a, q) {
        let j = choose|j: int| 0 <= j < a.len() && type_holds(#[trigger] a[j], q);
        assert(all[j] == a[j]);
    }
    if some_type_holds(b, q) {
        let j = choose|j: int| 0 <= j < b.len() && type_holds(#[trigger] b[j], q);
        assert(all[a.len() + j] == b[j]);
    }
    if some_type_holds(all, q) {
        let j = choose|j: int| 0 <= j < all.len() && type_holds(#[trigger] all[j], q);
        if j < a.len() {
            assert(a[j] == all[j]);
        } else {
            assert(b[j - a.len()] == all[j]);
        }
    }
}

proof fn lemma_one_type(t: TypeV, q: spec_fn(TypeV) -> bool)
    ensures
        some_type_holds(seq![t], q) <==> type_holds(t, q),
{
    assert(seq![t][0] == t);
}

proof fn lemma_three_types(a: TypeV, b: TypeV, c: TypeV, q: spec_fn(TypeV) -> bool)
    ensures
        some_type_holds(seq![a, b, c], q) <==> type_holds(a, q) || type_holds(b, q) || type_holds(
            c,
            q,
        ),
{
    let s = seq![a, b, c];
    assert(s[0] == a && s[1] == b && s[2] == c);
}

/// That a type is a reference.
pub open spec fn is_reference() -> spec_fn(TypeV) -> bool {
    |t: TypeV| t is Ref
}

/// That a type is a bare name.
pub open spec fn is_bare(name: Text) -> spec_fn(TypeV) -> bool {
    |t: TypeV| t matches TypeV::UserDefined(n, args) && n == name && args.len() == 0
}

proof fn lemma_has_ref(t: TypeV)
    ensures
        helpers::has_ref(t) <==> type_holds(t, is_reference()),
    decreases t, 0nat,
{
    let q = is_reference();
    law_type_holds_here_or_deeper(t, q);
    match t {
        TypeV::UserDefined(_, args) => lemma_has_ref_any(args, 0),
        TypeV::Arrow(p, r, k, e) => {
            lemma_has_ref(*r);
            lemma_has_ref(*k);
            lemma_has_ref(*e);
            lemma_has_ref_field(p, 0);
            lemma_some_type_of_both(label_types(p), seq![*r, *k, *e], q);
            lemma_three_types(*r, *k, *e, q);
        },
        TypeV::Ref(i) => {
            lemma_has_ref(*i);
            lemma_one_type(*i, q);
        },
        TypeV::Linear(i) => {
            lemma_has_ref(*i);
            lemma_one_type(*i, q);
        },
        TypeV::Lazy(i) => {
            lemma_has_ref(*i);
            lemma_one_type(*i, q);
        },
        TypeV::Borrow(i) => {
            lemma_has_ref(*i);
            lemma_one_type(*i, q);
        },
        TypeV::Array(i) => {
            lemma_has_ref(*i);
            lemma_one_type(*i, q);
        },
        TypeV::Row(es, tail) => {
            lemma_has_ref_any(es, 0);
            match tail {
                Some(x) => {
                    lemma_has_ref(*x);
                    lemma_some_type_of_both(es, seq![*x], q);
                    lemma_one_type(*x, q);
                },
                None => {},
            }
        },
        TypeV::Record(fs) => lemma_has_ref_field(fs, 0),
        _ => {},
    }
}

proof fn lemma_has_ref_any(ts: Seq<TypeV>, i: nat)
    ensures
        helpers::has_ref_any(ts, i) <==> exists|j: int|
            i <= j < ts.len() && type_holds(#[trigger] ts[j], is_reference()),
        helpers::has_ref_any(ts, 0) && i == 0 <==> some_type_holds(ts, is_reference()) && i == 0,
    decreases ts, ts.len() - i,
{
    if i < ts.len() {
        lemma_has_ref(ts[i as int]);
        lemma_has_ref_any(ts, i + 1);
    }
}

proof fn lemma_has_ref_field(fs: Seq<(Text, TypeV)>, i: nat)
    ensures
        helpers::has_ref_field(fs, i) <==> exists|j: int|
            i <= j < fs.len() && type_holds(#[trigger] label_types(fs)[j], is_reference()),
        helpers::has_ref_field(fs, 0) && i == 0 <==> some_type_holds(label_types(fs), is_reference()) && i == 0,
    decreases fs, fs.len() - i,
{
    if i < fs.len() {
        assert(label_types(fs)[i as int] == fs[i as int].1);
        lemma_has_ref(fs[i as int].1);
        lemma_has_ref_field(fs, i + 1);
    }
}

proof fn lemma_has_effect(name: Text, t: TypeV)
    ensures
        helpers::has_effect(name, t) <==> type_holds(t, is_bare(name)),
    decreases t, 0nat,
{
    let q = is_bare(name);
    law_type_holds_here_or_deeper(t, q);
    match t {
        TypeV::UserDefined(_, args) => lemma_has_effect_any(name, args, 0),
        TypeV::Arrow(p, r, k, e) => {
            lemma_has_effect(name, *r);
            lemma_has_effect(name, *k);
            lemma_has_effect(name, *e);
            lemma_has_effect_field(name, p, 0);
            lemma_some_type_of_both(label_types(p), seq![*r, *k, *e], q);
            lemma_three_types(*r, *k, *e, q);
        },
        TypeV::Ref(i) => {
            lemma_has_effect(name, *i);
            lemma_one_type(*i, q);
        },
        TypeV::Linear(i) => {
            lemma_has_effect(name, *i);
            lemma_one_type(*i, q);
        },
        TypeV::Lazy(i) => {
            lemma_has_effect(name, *i);
            lemma_one_type(*i, q);
        },
        TypeV::Borrow(i) => {
            lemma_has_effect(name, *i);
            lemma_one_type(*i, q);
        },
        TypeV::Array(i) => {
            lemma_has_effect(name, *i);
            lemma_one_type(*i, q);
        },
        TypeV::Row(es, tail) => {
            lemma_has_effect_any(name, es, 0);
            match tail {
                Some(x) => {
                    lemma_has_effect(name, *x);
                    lemma_some_type_of_both(es, seq![*x], q);
                    lemma_one_type(*x, q);
                },
                None => {},
            }
        },
        TypeV::Record(fs) => lemma_has_effect_field(name, fs, 0),
        _ => {},
    }
}

proof fn lemma_has_effect_any(name: Text, ts: Seq<TypeV>, i: nat)
    ensures
        helpers::has_effect_any(name, ts, i) <==> exists|j: int|
            i <= j < ts.len() && type_holds(#[trigger] ts[j], is_bare(name)),
        helpers::has_effect_any(name, ts, 0) && i == 0 <==> some_type_holds(ts, is_bare(name)) && i == 0,
    decreases ts, ts.len() - i,
{
    if i < ts.len() {
        lemma_has_effect(name, ts[i as int]);
        lemma_has_effect_any(name, ts, i + 1);
    }
}

proof fn lemma_has_effect_field(name: Text, fs: Seq<(Text, TypeV)>, i: nat)
    ensures
        helpers::has_effect_field(name, fs, i) <==> exists|j: int|
            i <= j < fs.len() && type_holds(#[trigger] label_types(fs)[j], is_bare(name)),
        helpers::has_effect_field(name, fs, 0) && i == 0 <==> some_type_holds(label_types(fs), is_bare(name)) && i == 0,
    decreases fs, fs.len() - i,
{
    if i < fs.len() {
        assert(label_types(fs)[i as int] == fs[i as int].1);
        lemma_has_effect(name, fs[i as int].1);
        lemma_has_effect_field(name, fs, i + 1);
    }
}


/// A type has a reference exactly where a reference occurs in it, lists and handlers aside.
pub proof fn law_reference_occurs(t: TypeV)
    ensures
        helpers::has_ref(t) <==> type_holds(t, is_reference()),
{
    lemma_has_ref(t);
}

/// A type has an effect exactly where its bare name occurs in it, lists and handlers aside.
pub proof fn law_effect_occurs(name: Text, t: TypeV)
    ensures
        helpers::has_effect(name, t) <==> type_holds(t, is_bare(name)),
{
    lemma_has_effect(name, t);
}

// ---------------------------------------------------------------------------
// Statements that give the value of a body
// ---------------------------------------------------------------------------

/// The bodies whose value a statement passes on: the branches of an `if` and the cases of a
/// `match` that stand as a statement, both bodies of a `try`, and the body of an `inject`.
pub open spec fn passed_bodies(s: StmtV) -> Seq<Seq<Spanned<StmtV>>> {
    match s {
        StmtV::Expr(e) => match e.node {
            ExprV::If { cond: _, then_branch, else_branch } => match else_branch {
                Some(b) => seq![then_branch, b],
                None => seq![then_branch],
            },
            ExprV::Match { target: _, cases } => cases.map_values(|c: MatchCaseV| c.body),
            _ => Seq::empty(),
        },
        StmtV::Try { body, catch_param: _, catch_body } => seq![body, catch_body],
        StmtV::Inject { handlers: _, body } => seq![body],
        _ => Seq::empty(),
    }
}

/// Whether a body gives a value `d` bodies deep: by a `return`, or by an expression at its end.
pub open spec fn gives_value(body: Seq<Spanned<StmtV>>, d: nat) -> bool
    decreases d,
{
    if d == 0 {
        (exists|i: int| 0 <= i < body.len() && (#[trigger] body[i]).node is Return) || (body.len()
            > 0 && body.last().node is Expr)
    } else {
        exists|i: int, j: int|
            0 <= i < body.len() && 0 <= j < passed_bodies(body[i].node).len() && gives_value(
                #[trigger] passed_bodies(body[i].node)[j],
                (d - 1) as nat,
            )
    }
}

/// Whether a body gives a value, in itself or in a body that it passes on.
pub open spec fn gives_some_value(body: Seq<Spanned<StmtV>>) -> bool {
    exists|d: nat| #[trigger] gives_value(body, d)
}

proof fn lemma_passed_on(body: Seq<Spanned<StmtV>>, i: int, j: int)
    requires
        0 <= i < body.len(),
        0 <= j < passed_bodies(body[i].node).len(),
        gives_some_value(passed_bodies(body[i].node)[j]),
    ensures
        gives_some_value(body),
{
    let d = choose|d: nat| #[trigger] gives_value(passed_bodies(body[i].node)[j], d);
    assert(gives_value(body, d + 1));
}

/// Each statement that is found to give a value gives one.
#[verifier::spinoff_prover]
#[verifier::rlimit(40)]
proof fn lemma_returns_from(body: Seq<Spanned<StmtV>>, i: nat)
    ensures
        helpers::returns_from(body, i) ==> gives_some_value(body),
        !helpers::returns_from(body, i) ==> forall|k: int|
            i <= k < body.len() ==> !helpers::stmt_returns((#[trigger] body[k]).node),
    decreases body, body.len() - i,
{
    if i < body.len() {
        let s = body[i as int];
        lemma_returns_from(body, i + 1);
        if helpers::stmt_returns(s.node) {
            match s.node {
                StmtV::Return(_) => {
                    assert(gives_value(body, 0));
                },
                StmtV::Expr(e) => {
                    assert(helpers::expr_returns(e.node));
                    match e.node {
                        ExprV::If { cond: _, then_branch, else_branch } => {
                            lemma_has_return(then_branch);
                            assert(passed_bodies(s.node)[0] == then_branch);
                            if helpers::has_return(then_branch) {
                                lemma_passed_on(body, i as int, 0);
                            } else {
                                match else_branch {
                                    Some(b) => {
                                        lemma_has_return(b);
                                        assert(passed_bodies(s.node)[1] == b);
                                        lemma_passed_on(body, i as int, 1);
                                    },
                                    None => {},
                                }
                            }
                        },
                        ExprV::Match { target: _, cases } => {
                            lemma_case_returns(cases, 0);
                            let j = choose|j: int|
                                0 <= j < cases.len() && gives_some_value((#[trigger] cases[j]).body);
                            assert(passed_bodies(s.node)[j] == cases[j].body);
                            lemma_passed_on(body, i as int, j);
                        },
                        _ => {},
                    }
                },
                StmtV::Try { body: b, catch_param: _, catch_body } => {
                    lemma_has_return(b);
                    lemma_has_return(catch_body);
                    assert(passed_bodies(s.node)[0] == b);
                    assert(passed_bodies(s.node)[1] == catch_body);
                    if helpers::has_return(b) {
                        lemma_passed_on(body, i as int, 0);
                    } else {
                        lemma_passed_on(body, i as int, 1);
                    }
                },
                StmtV::Inject { handlers: _, body: b } => {
                    lemma_has_return(b);
                    assert(passed_bodies(s.node)[0] == b);
                    lemma_passed_on(body, i as int, 0);
                },
                _ => {},
            }
        }
    }
}

proof fn lemma_has_return(body: Seq<Spanned<StmtV>>)
    ensures
        helpers::has_return(body) ==> gives_some_value(body),
    decreases body, body.len() + 1,
{
    lemma_returns_from(body, 0);
    if body.len() > 0 && body.last().node is Expr {
        assert(gives_value(body, 0));
    }
}

proof fn lemma_case_returns(cases: Seq<MatchCaseV>, i: nat)
    ensures
        helpers::case_returns(cases, i) ==> exists|j: int|
            i <= j < cases.len() && gives_some_value((#[trigger] cases[j]).body),
        !helpers::case_returns(cases, i) ==> forall|j: int|
            i <= j < cases.len() ==> !helpers::has_return((#[trigger] cases[j]).body),
    decreases cases, cases.len() - i,
{
    if i < cases.len() {
        lemma_has_return(cases[i as int].body);
        lemma_case_returns(cases, i + 1);
    }
}

proof fn lemma_value_is_found(body: Seq<Spanned<StmtV>>, d: nat)
    requires
        gives_value(body, d),
    ensures
        helpers::has_return(body),
    decreases d,
{
    lemma_returns_from(body, 0);
    if d == 0 {
        if !(body.len() > 0 && body.last().node is Expr) {
            let i = choose|i: int| 0 <= i < body.len() && (#[trigger] body[i]).node is Return;
            assert(helpers::stmt_returns(body[i].node));
        }
    } else {
        let (i, j) = choose|i: int, j: int|
            0 <= i < body.len() && 0 <= j < passed_bodies(body[i].node).len() && gives_value(
                #[trigger] passed_bodies(body[i].node)[j],
                (d - 1) as nat,
            );
        let s = body[i].node;
        lemma_value_is_found(passed_bodies(s)[j], (d - 1) as nat);
        match s {
            StmtV::Expr(e) => {
                match e.node {
                    ExprV::Match { target: _, cases } => {
                        lemma_case_returns(cases, 0);
                        assert(passed_bodies(s)[j] == cases[j].body);
                    },
                    _ => {},
                }
                assert(helpers::expr_returns(e.node));
            },
            _ => {},
        }
        assert(helpers::stmt_returns(s));
    }
}

/// A body is found to give a value exactly where it has a `return` or ends in an expression, in
/// itself or in a body that one of its statements passes on.
pub proof fn law_value_of_a_body(body: Seq<Spanned<StmtV>>)
    ensures
        helpers::has_return(body) <==> gives_some_value(body),
{
    lemma_has_return(body);
    if gives_some_value(body) {
        let d = choose|d: nat| #[trigger] gives_value(body, d);
        lemma_value_is_found(body, d);
    }
}

} // verus!
