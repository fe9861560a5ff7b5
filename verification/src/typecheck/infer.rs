//! Inference of types, effects and linear use over expressions and statements.

use crate::ast;
use crate::ast::{Expr, ExprV, Function, FunctionV, MatchCase, MatchCaseV, Stmt, StmtV};
use crate::table;
use crate::table::list_keys;
use crate::text;
use crate::text::{Text, cat2, cat3, copy_texts, list_add, list_same, owned};
use crate::typecheck::capture;
use crate::typecheck::capture::collect_lambda_captures;
use crate::typecheck::env;
use crate::typecheck::env::{EnvV, TypeEnv, TypeError, TypeErrorV, mono_scheme};
use crate::typecheck::exhaustiveness;
use crate::typecheck::exhaustiveness::check_exhaustiveness;
use crate::typecheck::helpers;
use crate::typecheck::helpers::{contains_ref, make_named, merge_type_rows};
use crate::typecheck::pattern;
use crate::typecheck::pattern::type_of_literal;
use crate::typecheck::rules;
use crate::typecheck::rules::{
    check_has_return, check_methods_present, check_task_unused, close_lambda, ctor_missing_error,
    ctor_type_error, find_captured_linear, find_field_type, insert_params, make_lambda_type,
    make_task_scope, prepare_let,
};
use crate::typecheck::state;
use crate::typecheck::state::{Cx, Expect, ExpectV, Infer, InferV, St};
use crate::typecheck::steps;
use crate::typecheck::steps::{CtorUse, CtorUseV, make_exn_row};
use crate::typecheck::subst;
use crate::typecheck::subst::{
    Subst, SubstV, apply_subst_type, apply_subst_type_list, compose_subst, empty_subst,
};
use crate::types;
use crate::types::{BinaryOp, Sigil, Span, Spanned, Type, TypeV};
use vstd::prelude::*;

verus! {

// ---------------------------------------------------------------------------
// Expressions
// ---------------------------------------------------------------------------

/// What an expression is: a substitution and a type, or the first error; and the state after
/// it. The environment in the state loses the linear bindings that the expression consumes.
pub open spec fn inferred(cx: Cx, st: St, e: Spanned<ExprV>, x: ExpectV) -> (InferV, St)
    decreases e, 1nat,
{
    match e.node {
        ExprV::Literal(l) => (Ok((subst::no_subst(), pattern::literal_type(l))), st),
        ExprV::Variable(n, sigil) => rules::variable_rule(st, e.span, n, sigil),
        ExprV::Borrow(n, sigil) => rules::borrow_rule(st, e.span, n, sigil),
        ExprV::BinaryOp(..) => binary_inferred(cx, st, e, x),
        ExprV::Call { .. } => call_inferred(cx, st, e, x),
        ExprV::Constructor(..) => ctor_inferred(cx, st, e, x),
        ExprV::Record(..) => record_inferred(cx, st, e, x),
        ExprV::Array(..) => array_literal_inferred(cx, st, e, x),
        ExprV::List(..) => list_literal_inferred(cx, st, e, x),
        ExprV::Index(..) => index_inferred(cx, st, e, x),
        ExprV::FieldAccess(..) => field_inferred(cx, st, e, x),
        ExprV::If { .. } => if_inferred(cx, st, e, x),
        ExprV::Match { .. } => match_inferred(cx, st, e, x),
        ExprV::While { .. } => while_inferred(cx, st, e, x),
        ExprV::For { .. } => for_inferred(cx, st, e, x),
        ExprV::Lambda { .. } => lambda_inferred(cx, st, e, x),
        ExprV::External(_, _, t) => (Ok((subst::no_subst(), t)), st),
        ExprV::Handler { .. } => handler_inferred(cx, st, e, x),
        ExprV::Raise(..) => raise_inferred(cx, st, e, x),
    }
}

/// An operator and its operands.
pub open spec fn binary_inferred(cx: Cx, st: St, e: Spanned<ExprV>, x: ExpectV) -> (InferV, St)
    decreases e, 0nat,
{
    match e.node {
        ExprV::BinaryOp(l, op, r) => match inferred(cx, st, *l, x) {
            (Err(er), st1) => (Err(er), st1),
            (Ok((s1, t1)), st1) => match inferred(cx, st1, *r, x) {
                (Err(er), st2) => (Err(er), st2),
                (Ok((s2, t2)), st2) => rules::operator_rule(
                    cx,
                    st2,
                    e.span,
                    l.span,
                    r.span,
                    op,
                    subst::composed(s1, s2),
                    t1,
                    t2,
                ),
            },
        },
        _ => (Ok((subst::no_subst(), TypeV::Unit)), st),
    }
}

/// A call and its arguments.
pub open spec fn call_inferred(cx: Cx, st: St, e: Spanned<ExprV>, x: ExpectV) -> (InferV, St)
    decreases e, 0nat,
{
    match e.node {
        ExprV::Call { func, args } => match rules::call_rule(
            cx,
            st,
            e.span,
            func,
            rules::item_labels(args),
            x,
        ) {
            (Err(er), st1) => (Err(er), st1),
            (Ok((s, pts, rt)), st1) => match args_inferred(cx, st1, pts, args, 0, x, s) {
                (Err(er), st2) => (Err(er), st2),
                (Ok(s2), st2) => (Ok((s2, subst::substituted(s2, rt))), st2),
            },
        },
        _ => (Ok((subst::no_subst(), TypeV::Unit)), st),
    }
}

/// A constructor and its arguments.
pub open spec fn ctor_inferred(cx: Cx, st: St, e: Spanned<ExprV>, x: ExpectV) -> (InferV, St)
    decreases e, 0nat,
{
    match e.node {
        ExprV::Constructor(name, args) => match steps::ctor_rule(st, e.span, name, args) {
            (Err(er), st1) => (Err(er), st1),
            (Ok(u), st1) => match ctor_args_inferred(
                cx,
                st1,
                e.span,
                name,
                u,
                args,
                0,
                x,
                subst::no_subst(),
            ) {
                (Err(er), st2) => (Err(er), st2),
                (Ok(s), st2) => (
                    Ok((s, TypeV::UserDefined(u.name, subst::substituted_list(s, u.targs)))),
                    st2,
                ),
            },
        },
        _ => (Ok((subst::no_subst(), TypeV::Unit)), st),
    }
}

/// A record and its fields.
pub open spec fn record_inferred(cx: Cx, st: St, e: Spanned<ExprV>, x: ExpectV) -> (InferV, St)
    decreases e, 0nat,
{
    match e.node {
        ExprV::Record(fs) => match fields_inferred(
            cx,
            st,
            fs,
            0,
            x,
            subst::no_subst(),
            Seq::empty(),
        ) {
            (Err(er), st1) => (Err(er), st1),
            (Ok((s, rfs)), st1) => (Ok((s, TypeV::Record(rfs))), st1),
        },
        _ => (Ok((subst::no_subst(), TypeV::Unit)), st),
    }
}

/// An array and its elements, which may not be references.
pub open spec fn array_literal_inferred(cx: Cx, st: St, e: Spanned<ExprV>, x: ExpectV) -> (InferV, St)
    decreases e, 0nat,
{
    match e.node {
        ExprV::Array(es) => {
            let (et, st1) = state::fresh(st);
            match elements_inferred(cx, st1, et, es, 0, x, subst::no_subst()) {
                (Err(er), st2) => (Err(er), st2),
                (Ok(s), st2) => {
                    if helpers::has_ref(subst::substituted(s, et)) {
                        (Err(env::error_at("Array cannot contain References"@, e.span)), st2)
                    } else {
                        (Ok((s, TypeV::Array(Box::new(subst::substituted(s, et))))), st2)
                    }
                },
            }
        },
        _ => (Ok((subst::no_subst(), TypeV::Unit)), st),
    }
}

/// A list and its elements.
pub open spec fn list_literal_inferred(cx: Cx, st: St, e: Spanned<ExprV>, x: ExpectV) -> (InferV, St)
    decreases e, 0nat,
{
    match e.node {
        ExprV::List(es) => {
            let (et, st1) = state::fresh(st);
            match elements_inferred(cx, st1, et, es, 0, x, subst::no_subst()) {
                (Err(er), st2) => (Err(er), st2),
                (Ok(s), st2) => (Ok((s, TypeV::List(Box::new(subst::substituted(s, et))))), st2),
            }
        },
        _ => (Ok((subst::no_subst(), TypeV::Unit)), st),
    }
}

/// An element of an array.
pub open spec fn index_inferred(cx: Cx, st: St, e: Spanned<ExprV>, x: ExpectV) -> (InferV, St)
    decreases e, 0nat,
{
    match e.node {
        ExprV::Index(arr, idx) => match inferred(cx, st, *arr, x) {
            (Err(er), st1) => (Err(er), st1),
            (Ok((s1, ta)), st1) => match inferred(cx, st1, *idx, x) {
                (Err(er), st2) => (Err(er), st2),
                (Ok((s2, ti)), st2) => match steps::condition_rule(
                    cx,
                    st2,
                    idx.span,
                    subst::composed(s1, s2),
                    ti,
                    TypeV::I64,
                ) {
                    (Err(er), st3) => (Err(er), st3),
                    (Ok(s), st3) => rules::index_rule(cx, st3, e.span, arr.span, s, ta),
                },
            },
        },
        _ => (Ok((subst::no_subst(), TypeV::Unit)), st),
    }
}

/// A field of a record.
pub open spec fn field_inferred(cx: Cx, st: St, e: Spanned<ExprV>, x: ExpectV) -> (InferV, St)
    decreases e, 0nat,
{
    match e.node {
        ExprV::FieldAccess(rec, name) => match inferred(cx, st, *rec, x) {
            (Err(er), st1) => (Err(er), st1),
            (Ok((s1, tr)), st1) => match rules::field_access_type(st1.env, subst::substituted(s1, tr), name) {
                Some(t) => (Ok((s1, t)), st1),
                None => (Err(env::error_at("Field "@ + name + " not found"@, e.span)), st1),
            },
        },
        _ => (Ok((subst::no_subst(), TypeV::Unit)), st),
    }
}

/// A branch. Both sides leave the same linear bindings.
pub open spec fn if_inferred(cx: Cx, st: St, e: Spanned<ExprV>, x: ExpectV) -> (InferV, St)
    decreases e, 0nat,
{
    match e.node {
        ExprV::If { cond, then_branch, else_branch } => match inferred(cx, st, *cond, x) {
            (Err(er), st1) => (Err(er), st1),
            (Ok((s1, tc)), st1) => match steps::condition_rule(
                cx,
                st1,
                cond.span,
                s1,
                tc,
                TypeV::Bool,
            ) {
                (Err(er), st2) => (Err(er), st2),
                (Ok(s), st2) => {
                    let branch = env::env_apply(s, st2.env);
                    match body_inferred(
                        cx,
                        state::with_env(st2, branch),
                        then_branch,
                        0,
                        then_branch.len(),
                        x,
                    ) {
                        (Err(er), st3) => (Err(er), state::with_env(st3, st2.env)),
                        (Ok(()), st3) => {
                            let (r, st4) = match else_branch {
                                Some(eb) => body_inferred(
                                    cx,
                                    state::with_env(st3, branch),
                                    eb,
                                    0,
                                    eb.len(),
                                    x,
                                ),
                                None => (Ok(()), state::with_env(st3, branch)),
                            };
                            match r {
                                Err(er) => (Err(er), state::with_env(st4, st2.env)),
                                Ok(()) => {
                                    if text::same_texts(st3.env.linear_vars, st4.env.linear_vars) {
                                        (
                                            Ok((s, TypeV::Unit)),
                                            state::with_env(
                                                st4,
                                                EnvV {
                                                    linear_vars: st3.env.linear_vars,
                                                    ..st2.env
                                                },
                                            ),
                                        )
                                    } else {
                                        (
                                            Err(env::error_at("Linear mismatch"@, e.span)),
                                            state::with_env(st4, st2.env),
                                        )
                                    }
                                },
                            }
                        },
                    }
                },
            },
        },
        _ => (Ok((subst::no_subst(), TypeV::Unit)), st),
    }
}

/// A match: its target, its cases, and the type that they share.
pub open spec fn match_inferred(cx: Cx, st: St, e: Spanned<ExprV>, x: ExpectV) -> (InferV, St)
    decreases e, 0nat,
{
    match e.node {
        ExprV::Match { target, cases } => match inferred(cx, st, *target, x) {
            (Err(er), st1) => (Err(er), st1),
            (Ok((s1, tt)), st1) => match exhaustiveness::exhaustive(
                st1.env,
                cx.cache,
                subst::substituted(s1, tt),
                exhaustiveness::case_rows(cases),
            ) {
                Err(m) => (Err(env::error_at(m, e.span)), st1),
                Ok(()) => match cases_inferred(
                    cx,
                    st1,
                    tt,
                    cases,
                    0,
                    x,
                    s1,
                    None,
                    Seq::empty(),
                ) {
                    (Err(er), st2) => (Err(er), st2),
                    (Ok((s, rv, tails)), st2) => steps::match_rule(cx, st2, e.span, s, rv, tails),
                },
            },
        },
        _ => (Ok((subst::no_subst(), TypeV::Unit)), st),
    }
}

/// A loop on a condition. Its body works on an environment of its own.
pub open spec fn while_inferred(cx: Cx, st: St, e: Spanned<ExprV>, x: ExpectV) -> (InferV, St)
    decreases e, 0nat,
{
    match e.node {
        ExprV::While { cond, body } => match inferred(cx, st, *cond, x) {
            (Err(er), st1) => (Err(er), st1),
            (Ok((s1, tc)), st1) => match steps::condition_rule(
                cx,
                st1,
                cond.span,
                s1,
                tc,
                TypeV::Bool,
            ) {
                (Err(er), st2) => (Err(er), st2),
                (Ok(s), st2) => match body_inferred(
                    cx,
                    state::with_env(st2, env::env_apply(s, st2.env)),
                    body,
                    0,
                    body.len(),
                    x,
                ) {
                    (Err(er), st3) => (Err(er), state::with_env(st3, st2.env)),
                    (Ok(()), st3) => (Ok((s, TypeV::Unit)), state::with_env(st3, st2.env)),
                },
            },
        },
        _ => (Ok((subst::no_subst(), TypeV::Unit)), st),
    }
}

/// A loop over a range of integers. Its body works on an environment of its own.
pub open spec fn for_inferred(cx: Cx, st: St, e: Spanned<ExprV>, x: ExpectV) -> (InferV, St)
    decreases e, 0nat,
{
    match e.node {
        ExprV::For { var, start, end_expr, body } => match inferred(cx, st, *start, x) {
            (Err(er), st1) => (Err(er), st1),
            (Ok((s1, ts)), st1) => match steps::condition_rule(
                cx,
                state::with_env(st1, env::env_apply(s1, st1.env)),
                start.span,
                s1,
                ts,
                TypeV::I64,
            ) {
                (Err(er), st2) => (Err(er), st2),
                (Ok(sa), st2) => match inferred(cx, st2, *end_expr, x) {
                    (Err(er), st3) => (Err(er), st3),
                    (Ok((s2, te)), st3) => match steps::condition_rule(
                        cx,
                        st3,
                        end_expr.span,
                        subst::composed(sa, s2),
                        te,
                        TypeV::I64,
                    ) {
                        (Err(er), st4) => (Err(er), st4),
                        (Ok(s), st4) => match body_inferred(
                            cx,
                            state::with_env(
                                st4,
                                env::env_insert(env::env_apply(s, st4.env), var, env::mono(TypeV::I64)),
                            ),
                            body,
                            0,
                            body.len(),
                            x,
                        ) {
                            (Err(er), st5) => (Err(er), state::with_env(st5, st4.env)),
                            (Ok(()), st5) => (Ok((s, TypeV::Unit)), state::with_env(st5, st4.env)),
                        },
                    },
                },
            },
        },
        _ => (Ok((subst::no_subst(), TypeV::Unit)), st),
    }
}

/// A lambda. It is linear where it captures linear bindings, which it consumes.
pub open spec fn lambda_inferred(cx: Cx, st: St, e: Spanned<ExprV>, x: ExpectV) -> (InferV, St)
    decreases e, 0nat,
{
    match e.node {
        ExprV::Lambda { type_params, params, ret_type, requires: reqs, throws, body } => {
            if helpers::has_ref(ret_type) {
                (Err(env::error_at("Cannot return Ref"@, e.span)), st)
            } else {
                match rules::captured_linear(
                    st.env,
                    capture::lambda_captures(body, params, table::keys_of(st.env.vars)),
                    0,
                    Seq::empty(),
                ) {
                    Err(m) => (Err(env::error_at(m, e.span)), st),
                    Ok(captured) => match body_inferred(
                        cx,
                        state::with_env(st, rules::env_with_params(st.env, params, 0)),
                        body,
                        0,
                        body.len(),
                        (ExpectV { ret: ret_type, reqs, effs: throws }),
                    ) {
                        (Err(er), st1) => (Err(er), state::with_env(st1, st.env)),
                        (Ok(()), st1) => match rules::no_return_error(body, ret_type, e.span) {
                            Some(er) => (Err(er), state::with_env(st1, st.env)),
                            None => match rules::lambda_close(st.env, st1.env, captured, e.span) {
                                (Err(er), env) => (Err(er), state::with_env(st1, env)),
                                (Ok(linear), env) => {
                                    let t = rules::lambda_type(
                                        type_params,
                                        params,
                                        ret_type,
                                        reqs,
                                        throws,
                                        true,
                                    );
                                    (
                                        Ok(
                                            (
                                                subst::no_subst(),
                                                if linear {
                                                    TypeV::Linear(Box::new(t))
                                                } else {
                                                    t
                                                },
                                            ),
                                        ),
                                        state::with_env(st1, env),
                                    )
                                },
                            },
                        },
                    },
                }
            }
        },
        _ => (Ok((subst::no_subst(), TypeV::Unit)), st),
    }
}

/// A handler: its functions are the methods of its port.
pub open spec fn handler_inferred(cx: Cx, st: St, e: Spanned<ExprV>, x: ExpectV) -> (InferV, St)
    decreases e, 0nat,
{
    match e.node {
        ExprV::Handler { coeffect_name, requires: reqs, functions } => {
            let (methods, st1) = rules::port_methods(
                Seq::empty(),
                st.env.vars,
                coeffect_name + "."@,
                0,
                st,
            );
            match methods_inferred(
                cx,
                st1,
                e.span,
                coeffect_name,
                reqs,
                methods,
                functions,
                0,
                Seq::empty(),
            ) {
                (Err(er), st2) => (Err(er), st2),
                (Ok(implemented), st2) => match rules::methods_missing(
                    methods,
                    implemented,
                    coeffect_name,
                    e.span,
                ) {
                    Some(er) => (Err(er), st2),
                    None => (
                        Ok((subst::no_subst(), TypeV::Handler(coeffect_name, Box::new(reqs)))),
                        st2,
                    ),
                },
            }
        },
        _ => (Ok((subst::no_subst(), TypeV::Unit)), st),
    }
}

/// A `raise` and its operand.
pub open spec fn raise_inferred(cx: Cx, st: St, e: Spanned<ExprV>, x: ExpectV) -> (InferV, St)
    decreases e, 0nat,
{
    match e.node {
        ExprV::Raise(ex) => match inferred(cx, st, *ex, x) {
            (Err(er), st1) => (Err(er), st1),
            (Ok((s, t)), st1) => steps::raise_rule(cx, st1, e.span, ex.span, s, t, x.effs),
        },
        _ => (Ok((subst::no_subst(), TypeV::Unit)), st),
    }
}

/// The arguments of a call from index `i` on.
pub open spec fn args_inferred(
    cx: Cx,
    st: St,
    pts: Seq<(Text, TypeV)>,
    args: Seq<(Text, Spanned<ExprV>)>,
    i: nat,
    x: ExpectV,
    s: SubstV,
) -> (Result<SubstV, TypeErrorV>, St)
    decreases args, args.len() - i,
{
    if i >= args.len() {
        (Ok(s), st)
    } else {
        match inferred(cx, st, args[i as int].1, x) {
            (Err(er), st1) => (Err(er), st1),
            (Ok((sa, ta)), st1) => match rules::argument_rule(
                cx,
                st1,
                args[i as int].1.span,
                subst::composed(s, sa),
                pts[i as int].1,
                ta,
            ) {
                (Err(er), st2) => (Err(er), st2),
                (Ok(s2), st2) => args_inferred(cx, st2, pts, args, i + 1, x, s2),
            },
        }
    }
}

/// The arguments of a constructor, in the order of its fields from index `i` on.
pub open spec fn ctor_args_inferred(
    cx: Cx,
    st: St,
    span: Span,
    name: Text,
    u: CtorUseV,
    args: Seq<(Option<Text>, Spanned<ExprV>)>,
    i: nat,
    x: ExpectV,
    s: SubstV,
) -> (Result<SubstV, TypeErrorV>, St)
    decreases args, u.fields.len() - i,
{
    if i >= u.fields.len() {
        (Ok(s), st)
    } else {
        match u.places[i as int] {
            None => (
                Err(
                    env::error_at(
                        rules::ctor_missing_message(name, i, u.fields, helpers::labels_of(args)),
                        span,
                    ),
                ),
                st,
            ),
            Some(k) => {
                if k >= args.len() {
                    (Ok(s), st)
                } else {
                    match inferred(cx, st, args[k as int].1, x) {
                        (Err(er), st1) => (Err(er), st1),
                        (Ok((sa, ta)), st1) => {
                            let s1 = subst::composed(s, sa);
                            match state::st_unify(
                                cx,
                                st1,
                                ta,
                                subst::substituted(s1, subst::substituted(u.inst, u.fields[i as int].1)),
                            ) {
                                (Err(m), st2) => (
                                    Err(
                                        env::error_at(
                                            rules::ctor_type_message(name, i, u.fields, m),
                                            args[k as int].1.span,
                                        ),
                                    ),
                                    st2,
                                ),
                                (Ok(su), st2) => ctor_args_inferred(
                                    cx,
                                    st2,
                                    span,
                                    name,
                                    u,
                                    args,
                                    i + 1,
                                    x,
                                    subst::composed(s1, su),
                                ),
                            }
                        },
                    }
                }
            },
        }
    }
}

/// The fields of a record from index `i` on, behind those of `acc`.
pub open spec fn fields_inferred(
    cx: Cx,
    st: St,
    fs: Seq<(Text, Spanned<ExprV>)>,
    i: nat,
    x: ExpectV,
    s: SubstV,
    acc: Seq<(Text, TypeV)>,
) -> (Result<(SubstV, Seq<(Text, TypeV)>), TypeErrorV>, St)
    decreases fs, fs.len() - i,
{
    if i >= fs.len() {
        (Ok((s, acc)), st)
    } else {
        match inferred(cx, st, fs[i as int].1, x) {
            (Err(er), st1) => (Err(er), st1),
            (Ok((sa, ta)), st1) => fields_inferred(
                cx,
                st1,
                fs,
                i + 1,
                x,
                subst::composed(s, sa),
                acc.push((fs[i as int].0, ta)),
            ),
        }
    }
}

/// The elements of an array or a list from index `i` on, each of the type `et`.
pub open spec fn elements_inferred(
    cx: Cx,
    st: St,
    et: TypeV,
    es: Seq<Spanned<ExprV>>,
    i: nat,
    x: ExpectV,
    s: SubstV,
) -> (Result<SubstV, TypeErrorV>, St)
    decreases es, es.len() - i,
{
    if i >= es.len() {
        (Ok(s), st)
    } else {
        match inferred(cx, st, es[i as int], x) {
            (Err(er), st1) => (Err(er), st1),
            (Ok((sa, ta)), st1) => {
                let s1 = subst::composed(s, sa);
                match steps::condition_rule(cx, st1, es[i as int].span, s1, ta, subst::substituted(s1, et)) {
                    (Err(er), st2) => (Err(er), st2),
                    (Ok(s2), st2) => elements_inferred(cx, st2, et, es, i + 1, x, s2),
                }
            },
        }
    }
}

/// The cases of a match from index `i` on, each in an environment of its own. `rv` holds the
/// linear bindings that the cases leave which go on; all of them leave the same. `tails` holds
/// their types.
pub open spec fn cases_inferred(
    cx: Cx,
    st: St,
    tt: TypeV,
    cases: Seq<MatchCaseV>,
    i: nat,
    x: ExpectV,
    s: SubstV,
    rv: Option<Seq<Text>>,
    tails: Seq<TypeV>,
) -> (Result<(SubstV, Option<Seq<Text>>, Seq<TypeV>), TypeErrorV>, St)
    decreases cases, cases.len() - i,
{
    if i >= cases.len() {
        (Ok((s, rv, tails)), st)
    } else {
        match case_inferred(
            cx,
            state::with_env(st, env::env_apply(s, st.env)),
            subst::substituted(s, tt),
            cases[i as int],
            x,
            s,
        ) {
            (Err(er), st1) => (Err(er), state::with_env(st1, st.env)),
            (Ok((s1, tail)), st1) => {
                let back = state::with_env(st1, st.env);
                match tail {
                    None => cases_inferred(cx, back, tt, cases, i + 1, x, s1, rv, tails),
                    Some(t) => {
                        let left = st1.env.linear_vars;
                        if rv is Some && !text::same_texts(rv->0, left) {
                            (
                                Err(env::error_at("Linear mismatch"@, cases[i as int].pattern.span)),
                                back,
                            )
                        } else {
                            cases_inferred(
                                cx,
                                back,
                                tt,
                                cases,
                                i + 1,
                                x,
                                s1,
                                if rv is Some {
                                    rv
                                } else {
                                    Some(left)
                                },
                                tails.push(t),
                            )
                        }
                    },
                }
            },
        }
    }
}

/// A case of a match on a value of type `tt`: the type of its last expression, or nothing
/// where the case ends in `return` or `raise`.
pub open spec fn case_inferred(
    cx: Cx,
    st: St,
    tt: TypeV,
    case: MatchCaseV,
    x: ExpectV,
    s: SubstV,
) -> (Result<(SubstV, Option<TypeV>), TypeErrorV>, St)
    decreases case, 0nat,
{
    match pattern::pattern_bound(cx, st, case.pattern, tt) {
        (Err(er), st1) => (Err(er), st1),
        (Ok(sm), st1) => {
            let s1 = subst::composed(s, sm);
            let st2 = state::with_env(st1, env::env_apply(sm, st1.env));
            if case.body.len() == 0 {
                (Ok((s1, Some(TypeV::Unit))), st2)
            } else {
                let last = (case.body.len() - 1) as nat;
                match body_inferred(cx, st2, case.body, 0, last, x) {
                    (Err(er), st3) => (Err(er), st3),
                    (Ok(()), st3) => match case.body[last as int].node {
                        StmtV::Expr(ex) => match inferred(cx, st3, ex, x) {
                            (Err(er), st4) => (Err(er), st4),
                            (Ok((s2, t2)), st4) => {
                                let s3 = subst::composed(s1, s2);
                                let tail = if ex.node is Raise {
                                    None
                                } else {
                                    Some(subst::substituted(s3, subst::substituted(s2, t2)))
                                };
                                (Ok((s3, tail)), st4)
                            },
                        },
                        StmtV::Return(ex) => match inferred(cx, st3, ex, x) {
                            (Err(er), st4) => (Err(er), st4),
                            (Ok((s2, t2)), st4) => match steps::return_rule(
                                cx,
                                st4,
                                ex.span,
                                s2,
                                t2,
                                x.ret,
                            ) {
                                (Err(er), st5) => (Err(er), st5),
                                (Ok(()), st5) => (Ok((s1, None)), st5),
                            },
                        },
                        _ => match stmt_inferred(cx, st3, case.body[last as int], x) {
                            (Err(er), st4) => (Err(er), st4),
                            (Ok(()), st4) => (Ok((s1, Some(TypeV::Unit))), st4),
                        },
                    },
                }
            }
        },
    }
}

/// The functions of a handler from index `i` on: each is checked, and is a method of the port.
pub open spec fn methods_inferred(
    cx: Cx,
    st: St,
    span: Span,
    port: Text,
    reqs: TypeV,
    methods: Seq<(Text, TypeV)>,
    functions: Seq<FunctionV>,
    i: nat,
    implemented: Seq<Text>,
) -> (Result<Seq<Text>, TypeErrorV>, St)
    decreases functions, functions.len() - i,
{
    if i >= functions.len() {
        (Ok(implemented), st)
    } else {
        let f = functions[i as int];
        match function_checked(cx, st, f, span, reqs) {
            (Err(er), st1) => (Err(er), st1),
            (Ok(()), st1) => match rules::method_rule(cx, st1, span, port, methods, f) {
                (Err(er), st2) => (Err(er), st2),
                (Ok(()), st2) => methods_inferred(
                    cx,
                    st2,
                    span,
                    port,
                    reqs,
                    methods,
                    functions,
                    i + 1,
                    text::with_text(implemented, f.name),
                ),
            },
        }
    }
}

// ---------------------------------------------------------------------------
// Statements
// ---------------------------------------------------------------------------

/// The statements of a body from index `i` up to `end`.
pub open spec fn body_inferred(
    cx: Cx,
    st: St,
    body: Seq<Spanned<StmtV>>,
    i: nat,
    end: nat,
    x: ExpectV,
) -> (Result<(), TypeErrorV>, St)
    decreases body, end - i,
{
    if i >= end || i >= body.len() {
        (Ok(()), st)
    } else {
        match stmt_inferred(cx, st, body[i as int], x) {
            (Err(er), st1) => (Err(er), st1),
            (Ok(()), st1) => body_inferred(cx, st1, body, i + 1, end, x),
        }
    }
}

/// A statement.
pub open spec fn stmt_inferred(cx: Cx, st: St, s: Spanned<StmtV>, x: ExpectV) -> (
    Result<(), TypeErrorV>,
    St,
)
    decreases s, 1nat,
{
    match s.node {
        StmtV::Let { .. } => let_inferred(cx, st, s, x),
        StmtV::LetPattern { pattern, value } => match inferred(cx, st, value, x) {
            (Err(er), st1) => (Err(er), st1),
            (Ok((s1, t1)), st1) => steps::let_pattern_rule(cx, st1, pattern, s1, t1),
        },
        StmtV::Expr(e) => match inferred(cx, st, e, x) {
            (Err(er), st1) => (Err(er), st1),
            (Ok(_), st1) => (Ok(()), st1),
        },
        StmtV::Return(e) => match inferred(cx, st, e, x) {
            (Err(er), st1) => (Err(er), st1),
            (Ok((s1, t1)), st1) => steps::return_rule(cx, st1, e.span, s1, t1, x.ret),
        },
        StmtV::Assign { target, value } => match inferred(cx, st, value, x) {
            (Err(er), st1) => (Err(er), st1),
            (Ok((sv, tv)), st1) => target_inferred(
                cx,
                state::with_env(st1, env::env_apply(sv, st1.env)),
                s.span,
                value.span,
                tv,
                target,
                x,
            ),
        },
        StmtV::Conc(ts) => tasks_checked(cx, st, ts, 0, s.span, x.reqs),
        StmtV::Try { .. } => try_inferred(cx, st, s, x),
        StmtV::Inject { .. } => inject_inferred(cx, st, s, x),
    }
}

/// A `let`. A lambda that refers to its own name sees it with its declared type.
pub open spec fn let_inferred(cx: Cx, st: St, s: Spanned<StmtV>, x: ExpectV) -> (
    Result<(), TypeErrorV>,
    St,
)
    decreases s, 0nat,
{
    match s.node {
        StmtV::Let { name, sigil, typ, value } => match rules::let_scope(
            st.env,
            name,
            sigil,
            typ,
            value,
        ) {
            Err(er) => (Err(er), st),
            Ok(env) => match inferred(cx, state::with_env(st, env), value, x) {
                (Err(er), st1) => (Err(er), st1),
                (Ok((s1, t1)), st1) => rules::let_rule(
                    cx,
                    st1,
                    value.span,
                    name,
                    sigil,
                    typ,
                    s1,
                    t1,
                ),
            },
        },
        _ => (Ok(()), st),
    }
}

/// A `try`. Its body and its handler leave the same linear bindings.
pub open spec fn try_inferred(cx: Cx, st: St, s: Spanned<StmtV>, x: ExpectV) -> (
    Result<(), TypeErrorV>,
    St,
)
    decreases s, 0nat,
{
    match s.node {
        StmtV::Try { body, catch_param, catch_body } => match body_inferred(
            cx,
            st,
            body,
            0,
            body.len(),
            (ExpectV { effs: steps::try_effects(x.effs), ..x }),
        ) {
            (Err(er), st1) => (Err(er), state::with_env(st1, st.env)),
            (Ok(()), st1) => match body_inferred(
                cx,
                state::with_env(
                    st1,
                    env::env_insert(st.env, catch_param, env::mono(helpers::named_type(helpers::exn_name()))),
                ),
                catch_body,
                0,
                catch_body.len(),
                x,
            ) {
                (Err(er), st2) => (Err(er), state::with_env(st2, st.env)),
                (Ok(()), st2) => {
                    if text::same_texts(st1.env.linear_vars, st2.env.linear_vars) {
                        (
                            Ok(()),
                            state::with_env(
                                st2,
                                EnvV { linear_vars: st1.env.linear_vars, ..st.env },
                            ),
                        )
                    } else {
                        (Err(env::error_at("Linear mismatch"@, s.span)), state::with_env(st2, st.env))
                    }
                },
            },
        },
        _ => (Ok(()), st),
    }
}

/// An `inject`: its body has the coeffects of the handlers at hand.
pub open spec fn inject_inferred(cx: Cx, st: St, s: Spanned<StmtV>, x: ExpectV) -> (
    Result<(), TypeErrorV>,
    St,
)
    decreases s, 0nat,
{
    match s.node {
        StmtV::Inject { handlers, body } => match rules::inject_rule(
            st,
            s.span,
            handlers,
            body,
            x.reqs,
        ) {
            (Err(er), st1) => (Err(er), st1),
            (Ok(reqs), st1) => body_inferred(
                cx,
                st1,
                body,
                0,
                body.len(),
                (ExpectV { reqs, ..x }),
            ),
        },
        _ => (Ok(()), st),
    }
}

/// The target of an assignment of a value of type `tv`: a variable, or an element of an array,
/// where an array that is a variable is not consumed.
pub open spec fn target_inferred(
    cx: Cx,
    st: St,
    span: Span,
    vspan: Span,
    tv: TypeV,
    target: Spanned<ExprV>,
    x: ExpectV,
) -> (Result<(), TypeErrorV>, St)
    decreases target, 2nat,
{
    match target.node {
        ExprV::Variable(name, sigil) => steps::assign_variable_rule(
            cx,
            st,
            span,
            vspan,
            name,
            sigil,
            tv,
        ),
        ExprV::Index(arr, idx) => match inferred(cx, st, *idx, x) {
            (Err(er), st1) => (Err(er), st1),
            (Ok((si, ti)), st1) => match state::st_unify_at(
                cx,
                state::with_env(st1, env::env_apply(si, st1.env)),
                ti,
                TypeV::I64,
                idx.span,
            ) {
                (Err(er), st2) => (Err(er), st2),
                (Ok(_), st2) => match array_inferred(cx, st2, *arr, x) {
                    (Err(er), st3) => (Err(er), st3),
                    (Ok(ta), st3) => steps::assign_element_rule(cx, st3, arr.span, vspan, ta, tv),
                },
            },
        },
        _ => (Err(env::error_at("Invalid assignment target"@, span)), st),
    }
}

/// The type of an array whose element is assigned.
pub open spec fn array_inferred(cx: Cx, st: St, arr: Spanned<ExprV>, x: ExpectV) -> (
    Result<TypeV, TypeErrorV>,
    St,
)
    decreases arr, 2nat,
{
    match arr.node {
        ExprV::Variable(n, sigil) => steps::assigned_array_rule(st, arr.span, n, sigil),
        _ => match inferred(cx, st, arr, x) {
            (Err(er), st1) => (Err(er), st1),
            (Ok((sa, ta)), st1) => (Ok(ta), state::with_env(st1, env::env_apply(sa, st1.env))),
        },
    }
}

/// The tasks of a `conc` from index `i` on.
pub open spec fn tasks_checked(
    cx: Cx,
    st: St,
    ts: Seq<FunctionV>,
    i: nat,
    span: Span,
    reqs: TypeV,
) -> (Result<(), TypeErrorV>, St)
    decreases ts, ts.len() - i,
{
    if i >= ts.len() {
        (Ok(()), st)
    } else {
        match task_checked(cx, st, ts[i as int], span, reqs) {
            (Err(er), st1) => (Err(er), st1),
            (Ok(()), st1) => tasks_checked(cx, st1, ts, i + 1, span, reqs),
        }
    }
}

/// A task of a `conc`: its body sees the bindings around it, references left out, and consumes
/// each linear binding of its own. The environment around it stays as it is.
pub open spec fn task_checked(cx: Cx, st: St, t: FunctionV, span: Span, reqs: TypeV) -> (
    Result<(), TypeErrorV>,
    St,
)
    decreases t, 0nat,
{
    let (te, captured) = rules::task_scope(
        EnvV { types: st.env.types, enums: st.env.enums, ..env::empty_env() },
        st.env.vars,
        0,
        Seq::empty(),
    );
    match body_inferred(
        cx,
        state::with_env(st, te),
        t.body,
        0,
        t.body.len(),
        (ExpectV { ret: TypeV::Unit, reqs: helpers::merged_rows(t.requires, reqs), effs: t.throws }),
    ) {
        (Err(er), st1) => (Err(er), state::with_env(st1, st.env)),
        (Ok(()), st1) => match rules::task_unused(st1.env, captured, span) {
            Some(er) => (Err(er), state::with_env(st1, st.env)),
            None => (Ok(()), state::with_env(st1, st.env)),
        },
    }
}

/// A function: its body against its signature, with the coeffects `extra` at hand beside its
/// own. The environment around it stays as it is.
pub open spec fn function_checked(cx: Cx, st: St, f: FunctionV, span: Span, extra: TypeV) -> (
    Result<(), TypeErrorV>,
    St,
)
    decreases f, 0nat,
{
    if helpers::has_ref(f.ret_type) {
        (Err(env::error_at("Cannot return Ref"@, span)), st)
    } else {
        match body_inferred(
            cx,
            state::with_env(st, rules::env_with_params(st.env, f.params, 0)),
            f.body,
            0,
            f.body.len(),
            (ExpectV {
                ret: f.ret_type,
                reqs: helpers::merged_rows(f.requires, extra),
                effs: f.throws,
            }),
        ) {
            (Err(er), st1) => (Err(er), state::with_env(st1, st.env)),
            (Ok(()), st1) => match rules::no_return_error(f.body, f.ret_type, span) {
                Some(er) => (Err(er), state::with_env(st1, st.env)),
                None => match env::unused_error(st1.env, span) {
                    Some(er) => (Err(er), state::with_env(st1, st.env)),
                    None => (Ok(()), state::with_env(st1, st.env)),
                },
            },
        }
    }
}

fn labels_of_args(args: &Vec<(String, Spanned<Expr>)>) -> (r: Vec<String>)
    ensures
        text::texts(r@) == rules::item_labels(ast::labelled_view(args@)),
        r.len() == args.len(),
{
    let mut out: Vec<String> = Vec::new();
    let mut i: usize = 0;
    while i < args.len()
        invariant
            i <= args.len(),
            out.len() == i,
            forall|j: int| 0 <= j < i ==> (#[trigger] out@[j])@ == args@[j].0@,
        decreases args.len() - i,
    {
        out.push(args[i].0.clone());
        i = i + 1;
    }
    assert(text::texts(out@) =~= rules::item_labels(ast::labelled_view(args@)));
    out
}

impl<'a> Infer<'a> {
    // -----------------------------------------------------------------------
    // Expressions
    // -----------------------------------------------------------------------

    /// Infers an expression.
    pub fn infer(&mut self, env: &mut TypeEnv, e: &Spanned<Expr>, x: &Expect) -> (r: Result<
        (Subst, Type),
        TypeError,
    >)
        ensures
            state::infer_matches(r, inferred(old(self).cx(), old(self).st(old(env)@), e@, x@).0),
            final(self).st(final(env)@) == inferred(
                old(self).cx(),
                old(self).st(old(env)@),
                e@,
                x@,
            ).1,
            final(self).cx() == old(self).cx(),
            env::keys_kept(old(env)@, final(env)@),
        decreases e, 1nat,
    {
        match &e.node {
            Expr::Literal(l) => Ok((empty_subst(), type_of_literal(l))),
            Expr::Variable(n, sigil) => self.use_variable(env, &e.span, n.as_str(), sigil),
            Expr::Borrow(n, sigil) => self.use_borrow(env, &e.span, n.as_str(), sigil),
            Expr::BinaryOp(l, op, r) => self.infer_binary(env, e, l, *op, r, x),
            Expr::Call { func, args } => self.infer_call(env, e, func.as_str(), args, x),
            Expr::Constructor(name, args) => self.infer_ctor(env, e, name.as_str(), args, x),
            Expr::Record(fs) => self.infer_record(env, e, fs, x),
            Expr::Array(es) => self.infer_array_literal(env, e, es, x),
            Expr::List(es) => self.infer_list_literal(env, e, es, x),
            Expr::Index(arr, idx) => self.infer_index(env, e, arr, idx, x),
            Expr::FieldAccess(rec, name) => self.infer_field(env, e, rec, name.as_str(), x),
            Expr::If { cond, then_branch, else_branch } => self.infer_if(
                env,
                e,
                cond,
                then_branch,
                else_branch,
                x,
            ),
            Expr::Match { target, cases } => self.infer_match(env, e, target, cases, x),
            Expr::While { cond, body } => self.infer_while(env, e, cond, body, x),
            Expr::For { var, start, end_expr, body } => self.infer_for(
                env,
                e,
                var.as_str(),
                start,
                end_expr,
                body,
                x,
            ),
            Expr::Lambda { .. } => self.infer_lambda(env, e, x),
            Expr::External(_, _, t) => Ok((empty_subst(), t.clone())),
            Expr::Handler { .. } => self.infer_handler(env, e, x),
            Expr::Raise(ex) => self.infer_raise(env, e, ex, x),
        }
    }

    fn infer_binary(
        &mut self,
        env: &mut TypeEnv,
        e: &Spanned<Expr>,
        l: &Spanned<Expr>,
        op: BinaryOp,
        rhs: &Spanned<Expr>,
        x: &Expect,
    ) -> (r: Result<(Subst, Type), TypeError>)
        requires
            e.node matches Expr::BinaryOp(a, o, b) && *a == *l && o == op && *b == *rhs,
        ensures
            state::infer_matches(r, binary_inferred(old(self).cx(), old(self).st(old(env)@), e@, x@).0),
            final(self).st(final(env)@) == binary_inferred(
                old(self).cx(),
                old(self).st(old(env)@),
                e@,
                x@,
            ).1,
            final(self).cx() == old(self).cx(),
            env::keys_kept(old(env)@, final(env)@),
        decreases e, 0nat,
    {
        let (s1, t1) = self.infer(env, l, x)?;
        let (s2, t2) = self.infer(env, rhs, x)?;
        let s = compose_subst(&s1, &s2);
        self.apply_operator(&e.span, &l.span, &rhs.span, op, &s, &t1, &t2, Ghost(env@))
    }

    fn infer_call(
        &mut self,
        env: &mut TypeEnv,
        e: &Spanned<Expr>,
        func: &str,
        args: &Vec<(String, Spanned<Expr>)>,
        x: &Expect,
    ) -> (r: Result<(Subst, Type), TypeError>)
        requires
            e.node matches Expr::Call { func: f, args: a } && f@ == func@ && a == *args,
        ensures
            state::infer_matches(r, call_inferred(old(self).cx(), old(self).st(old(env)@), e@, x@).0),
            final(self).st(final(env)@) == call_inferred(
                old(self).cx(),
                old(self).st(old(env)@),
                e@,
                x@,
            ).1,
            final(self).cx() == old(self).cx(),
            env::keys_kept(old(env)@, final(env)@),
        decreases e, 0nat,
    {
        let labels = labels_of_args(args);
        let (s, pts, rt) = self.begin_call(env, &e.span, func, &labels, x)?;
        let s2 = self.infer_args(env, &pts, args, x, s)?;
        let t = apply_subst_type(&s2, &rt);
        Ok((s2, t))
    }

    #[verifier::loop_isolation(false)]
    fn infer_args(
        &mut self,
        env: &mut TypeEnv,
        pts: &Vec<(String, Type)>,
        args: &Vec<(String, Spanned<Expr>)>,
        x: &Expect,
        s: Subst,
    ) -> (r: Result<Subst, TypeError>)
        requires
            pts.len() == args.len(),
        ensures
            state::subst_matches(
                r,
                args_inferred(
                    old(self).cx(),
                    old(self).st(old(env)@),
                    types::fields_view(pts@),
                    ast::labelled_view(args@),
                    0,
                    x@,
                    types::fields_view(s@),
                ).0,
            ),
            final(self).st(final(env)@) == args_inferred(
                old(self).cx(),
                old(self).st(old(env)@),
                types::fields_view(pts@),
                ast::labelled_view(args@),
                0,
                x@,
                types::fields_view(s@),
            ).1,
            final(self).cx() == old(self).cx(),
            env::keys_kept(old(env)@, final(env)@),
        decreases args, 0nat,
    {
        let ghost av = ast::labelled_view(args@);
        let ghost pv = types::fields_view(pts@);
        let ghost all = args_inferred(
            self.cx(),
            self.st(env@),
            pv,
            av,
            0,
            x@,
            types::fields_view(s@),
        );
        let mut acc = s;
        let mut i: usize = 0;
        while i < args.len()
            invariant
                env::keys_kept(old(env)@, env@),
                i <= args.len(),
                self.cx() == old(self).cx(),
                args_inferred(
                    self.cx(),
                    self.st(env@),
                    pv,
                    av,
                    i as nat,
                    x@,
                    types::fields_view(acc@),
                ) == all,
            decreases args.len() - i,
        {
            assert(av[i as int].1 == args@[i as int].1@);
            assert(pv[i as int].1 == pts@[i as int].1@);
            let (sa, ta) = self.infer(env, &args[i].1, x)?;
            let s1 = compose_subst(&acc, &sa);
            acc = self.pass_argument(env, &args[i].1.span, &s1, &pts[i].1, &ta)?;
            i = i + 1;
        }
        Ok(acc)
    }

    fn infer_ctor(
        &mut self,
        env: &mut TypeEnv,
        e: &Spanned<Expr>,
        name: &str,
        args: &Vec<(Option<String>, Spanned<Expr>)>,
        x: &Expect,
    ) -> (r: Result<(Subst, Type), TypeError>)
        requires
            e.node matches Expr::Constructor(n, a) && n@ == name@ && a == *args,
        ensures
            state::infer_matches(r, ctor_inferred(old(self).cx(), old(self).st(old(env)@), e@, x@).0),
            final(self).st(final(env)@) == ctor_inferred(
                old(self).cx(),
                old(self).st(old(env)@),
                e@,
                x@,
            ).1,
            final(self).cx() == old(self).cx(),
            env::keys_kept(old(env)@, final(env)@),
        decreases e, 0nat,
    {
        let u = self.begin_ctor(env, &e.span, name, args)?;
        let s = self.infer_ctor_args(env, &e.span, name, &u, args, x)?;
        let targs = apply_subst_type_list(&s, &u.targs);
        Ok((s, Type::UserDefined(u.name, targs)))
    }

    #[verifier::loop_isolation(false)]
    fn infer_ctor_args(
        &mut self,
        env: &mut TypeEnv,
        span: &Span,
        name: &str,
        u: &CtorUse,
        args: &Vec<(Option<String>, Spanned<Expr>)>,
        x: &Expect,
    ) -> (r: Result<Subst, TypeError>)
        requires
            u.places.len() == u.fields.len(),
            forall|k: int|
                0 <= k < u.places.len() ==> (#[trigger] u.places@[k] matches Some(a) ==> a
                    < args.len()),
        ensures
            state::subst_matches(
                r,
                ctor_args_inferred(
                    old(self).cx(),
                    old(self).st(old(env)@),
                    *span,
                    name@,
                    u@,
                    ast::ctor_args_view(args@),
                    0,
                    x@,
                    subst::no_subst(),
                ).0,
            ),
            final(self).st(final(env)@) == ctor_args_inferred(
                old(self).cx(),
                old(self).st(old(env)@),
                *span,
                name@,
                u@,
                ast::ctor_args_view(args@),
                0,
                x@,
                subst::no_subst(),
            ).1,
            final(self).cx() == old(self).cx(),
            env::keys_kept(old(env)@, final(env)@),
        decreases args, 0nat,
    {
        let ghost av = ast::ctor_args_view(args@);
        let ghost all = ctor_args_inferred(
            self.cx(),
            self.st(env@),
            *span,
            name@,
            u@,
            av,
            0,
            x@,
            subst::no_subst(),
        );
        let mut acc = empty_subst();
        let mut i: usize = 0;
        while i < u.fields.len()
            invariant
                env::keys_kept(old(env)@, env@),
                i <= u.fields.len(),
                self.cx() == old(self).cx(),
                ctor_args_inferred(
                    self.cx(),
                    self.st(env@),
                    *span,
                    name@,
                    u@,
                    av,
                    i as nat,
                    x@,
                    types::fields_view(acc@),
                ) == all,
            decreases u.fields.len() - i,
        {
            assert(u@.fields[i as int] == (
                types::opt_text(u.fields@[i as int].0),
                u.fields@[i as int].1@,
            ));
            match u.places[i] {
                None => {
                    assert(helpers::raw_labels(args@) =~= helpers::labels_of(av));
                    return Err(ctor_missing_error(name, i, &u.fields, args, *span));
                },
                Some(k) => {
                    assert(av[k as int].1 == args@[k as int].1@);
                    let (sa, ta) = self.infer(env, &args[k].1, x)?;
                    let s1 = compose_subst(&acc, &sa);
                    let t0 = apply_subst_type(&u.inst, &u.fields[i].1);
                    let t1 = apply_subst_type(&s1, &t0);
                    match self.unify(&ta, &t1) {
                        Ok(su) => {
                            acc = compose_subst(&s1, &su);
                        },
                        Err(m) => {
                            return Err(
                                ctor_type_error(
                                    name,
                                    i,
                                    &u.fields,
                                    m.as_str(),
                                    args[k].1.span,
                                ),
                            );
                        },
                    }
                },
            }
            i = i + 1;
        }
        Ok(acc)
    }

    #[verifier::loop_isolation(false)]
    fn infer_fields(
        &mut self,
        env: &mut TypeEnv,
        fs: &Vec<(String, Spanned<Expr>)>,
        x: &Expect,
    ) -> (r: Result<(Subst, Vec<(String, Type)>), TypeError>)
        ensures
            match r {
                Ok((s, v)) => fields_inferred(
                    old(self).cx(),
                    old(self).st(old(env)@),
                    ast::labelled_view(fs@),
                    0,
                    x@,
                    subst::no_subst(),
                    Seq::empty(),
                ).0 == Ok::<(SubstV, Seq<(Text, TypeV)>), TypeErrorV>(
                    (types::fields_view(s@), types::fields_view(v@)),
                ),
                Err(er) => fields_inferred(
                    old(self).cx(),
                    old(self).st(old(env)@),
                    ast::labelled_view(fs@),
                    0,
                    x@,
                    subst::no_subst(),
                    Seq::empty(),
                ).0 == Err::<(SubstV, Seq<(Text, TypeV)>), TypeErrorV>(er@),
            },
            final(self).st(final(env)@) == fields_inferred(
                old(self).cx(),
                old(self).st(old(env)@),
                ast::labelled_view(fs@),
                0,
                x@,
                subst::no_subst(),
                Seq::empty(),
            ).1,
            final(self).cx() == old(self).cx(),
            env::keys_kept(old(env)@, final(env)@),
        decreases fs, 0nat,
    {
        let ghost fv = ast::labelled_view(fs@);
        let ghost all = fields_inferred(
            self.cx(),
            self.st(env@),
            fv,
            0,
            x@,
            subst::no_subst(),
            Seq::empty(),
        );
        let mut acc = empty_subst();
        let mut out: Vec<(String, Type)> = Vec::new();
        assert(types::fields_view(out@) =~= Seq::<(Text, TypeV)>::empty());
        let mut i: usize = 0;
        while i < fs.len()
            invariant
                env::keys_kept(old(env)@, env@),
                i <= fs.len(),
                self.cx() == old(self).cx(),
                fields_inferred(
                    self.cx(),
                    self.st(env@),
                    fv,
                    i as nat,
                    x@,
                    types::fields_view(acc@),
                    types::fields_view(out@),
                ) == all,
            decreases fs.len() - i,
        {
            assert(fv[i as int] == (fs@[i as int].0@, fs@[i as int].1@));
            let (sa, ta) = self.infer(env, &fs[i].1, x)?;
            acc = compose_subst(&acc, &sa);
            let ghost before = types::fields_view(out@);
            let ghost tv = ta@;
            out.push((fs[i].0.clone(), ta));
            assert(types::fields_view(out@) =~= before.push((fv[i as int].0, tv)));
            i = i + 1;
        }
        Ok((acc, out))
    }

    #[verifier::loop_isolation(false)]
    fn infer_elements(
        &mut self,
        env: &mut TypeEnv,
        et: &Type,
        es: &Vec<Spanned<Expr>>,
        x: &Expect,
    ) -> (r: Result<Subst, TypeError>)
        ensures
            state::subst_matches(
                r,
                elements_inferred(
                    old(self).cx(),
                    old(self).st(old(env)@),
                    et@,
                    ast::exprs_view(es@),
                    0,
                    x@,
                    subst::no_subst(),
                ).0,
            ),
            final(self).st(final(env)@) == elements_inferred(
                old(self).cx(),
                old(self).st(old(env)@),
                et@,
                ast::exprs_view(es@),
                0,
                x@,
                subst::no_subst(),
            ).1,
            final(self).cx() == old(self).cx(),
            env::keys_kept(old(env)@, final(env)@),
        decreases es, 0nat,
    {
        let ghost ev = ast::exprs_view(es@);
        let ghost all = elements_inferred(
            self.cx(),
            self.st(env@),
            et@,
            ev,
            0,
            x@,
            subst::no_subst(),
        );
        let mut acc = empty_subst();
        let mut i: usize = 0;
        while i < es.len()
            invariant
                env::keys_kept(old(env)@, env@),
                i <= es.len(),
                self.cx() == old(self).cx(),
                elements_inferred(
                    self.cx(),
                    self.st(env@),
                    et@,
                    ev,
                    i as nat,
                    x@,
                    types::fields_view(acc@),
                ) == all,
            decreases es.len() - i,
        {
            assert(ev[i as int] == es@[i as int]@);
            let (sa, ta) = self.infer(env, &es[i], x)?;
            let s1 = compose_subst(&acc, &sa);
            let want = apply_subst_type(&s1, et);
            acc = self.check_condition(env, &es[i].span, &s1, &ta, &want)?;
            i = i + 1;
        }
        Ok(acc)
    }

    fn infer_record(
        &mut self,
        env: &mut TypeEnv,
        e: &Spanned<Expr>,
        fs: &Vec<(String, Spanned<Expr>)>,
        x: &Expect,
    ) -> (r: Result<(Subst, Type), TypeError>)
        requires
            e.node matches Expr::Record(f) && f == *fs,
        ensures
            state::infer_matches(r, record_inferred(old(self).cx(), old(self).st(old(env)@), e@, x@).0),
            final(self).st(final(env)@) == record_inferred(
                old(self).cx(),
                old(self).st(old(env)@),
                e@,
                x@,
            ).1,
            final(self).cx() == old(self).cx(),
            env::keys_kept(old(env)@, final(env)@),
        decreases e, 0nat,
    {
        let (s, rfs) = self.infer_fields(env, fs, x)?;
        Ok((s, Type::Record(rfs)))
    }

    fn infer_array_literal(
        &mut self,
        env: &mut TypeEnv,
        e: &Spanned<Expr>,
        es: &Vec<Spanned<Expr>>,
        x: &Expect,
    ) -> (r: Result<(Subst, Type), TypeError>)
        requires
            e.node matches Expr::Array(v) && v == *es,
        ensures
            state::infer_matches(
                r,
                array_literal_inferred(old(self).cx(), old(self).st(old(env)@), e@, x@).0,
            ),
            final(self).st(final(env)@) == array_literal_inferred(
                old(self).cx(),
                old(self).st(old(env)@),
                e@,
                x@,
            ).1,
            final(self).cx() == old(self).cx(),
            env::keys_kept(old(env)@, final(env)@),
        decreases e, 0nat,
    {
        let et = self.new_var();
        let s = self.infer_elements(env, &et, es, x)?;
        let t = apply_subst_type(&s, &et);
        if contains_ref(&t) {
            return Err(TypeError::new(owned("Array cannot contain References"), e.span));
        }
        Ok((s, Type::Array(Box::new(t))))
    }

    fn infer_list_literal(
        &mut self,
        env: &mut TypeEnv,
        e: &Spanned<Expr>,
        es: &Vec<Spanned<Expr>>,
        x: &Expect,
    ) -> (r: Result<(Subst, Type), TypeError>)
        requires
            e.node matches Expr::List(v) && v == *es,
        ensures
            state::infer_matches(
                r,
                list_literal_inferred(old(self).cx(), old(self).st(old(env)@), e@, x@).0,
            ),
            final(self).st(final(env)@) == list_literal_inferred(
                old(self).cx(),
                old(self).st(old(env)@),
                e@,
                x@,
            ).1,
            final(self).cx() == old(self).cx(),
            env::keys_kept(old(env)@, final(env)@),
        decreases e, 0nat,
    {
        let et = self.new_var();
        let s = self.infer_elements(env, &et, es, x)?;
        let t = apply_subst_type(&s, &et);
        Ok((s, Type::List(Box::new(t))))
    }

    fn infer_field(
        &mut self,
        env: &mut TypeEnv,
        e: &Spanned<Expr>,
        rec: &Spanned<Expr>,
        name: &str,
        x: &Expect,
    ) -> (r: Result<(Subst, Type), TypeError>)
        requires
            e.node matches Expr::FieldAccess(v, n) && *v == *rec && n@ == name@,
        ensures
            state::infer_matches(r, field_inferred(old(self).cx(), old(self).st(old(env)@), e@, x@).0),
            final(self).st(final(env)@) == field_inferred(
                old(self).cx(),
                old(self).st(old(env)@),
                e@,
                x@,
            ).1,
            final(self).cx() == old(self).cx(),
            env::keys_kept(old(env)@, final(env)@),
        decreases e, 0nat,
    {
        let (s1, tr) = self.infer(env, rec, x)?;
        let t = apply_subst_type(&s1, &tr);
        match find_field_type(env, &t, name) {
            Some(ft) => Ok((s1, ft)),
            None => Err(TypeError::new(cat3("Field ", name, " not found"), e.span)),
        }
    }

    fn infer_raise(
        &mut self,
        env: &mut TypeEnv,
        e: &Spanned<Expr>,
        ex: &Spanned<Expr>,
        x: &Expect,
    ) -> (r: Result<(Subst, Type), TypeError>)
        requires
            e.node matches Expr::Raise(v) && *v == *ex,
        ensures
            state::infer_matches(r, raise_inferred(old(self).cx(), old(self).st(old(env)@), e@, x@).0),
            final(self).st(final(env)@) == raise_inferred(
                old(self).cx(),
                old(self).st(old(env)@),
                e@,
                x@,
            ).1,
            final(self).cx() == old(self).cx(),
            env::keys_kept(old(env)@, final(env)@),
        decreases e, 0nat,
    {
        let (s, t) = self.infer(env, ex, x)?;
        self.finish_raise(env, &e.span, &ex.span, &s, &t, x.effs)
    }

    fn infer_index(
        &mut self,
        env: &mut TypeEnv,
        e: &Spanned<Expr>,
        arr: &Spanned<Expr>,
        idx: &Spanned<Expr>,
        x: &Expect,
    ) -> (r: Result<(Subst, Type), TypeError>)
        requires
            e.node matches Expr::Index(a, b) && *a == *arr && *b == *idx,
        ensures
            state::infer_matches(r, index_inferred(old(self).cx(), old(self).st(old(env)@), e@, x@).0),
            final(self).st(final(env)@) == index_inferred(
                old(self).cx(),
                old(self).st(old(env)@),
                e@,
                x@,
            ).1,
            final(self).cx() == old(self).cx(),
            env::keys_kept(old(env)@, final(env)@),
        decreases e, 0nat,
    {
        let (s1, ta) = self.infer(env, arr, x)?;
        let (s2, ti) = self.infer(env, idx, x)?;
        let s0 = compose_subst(&s1, &s2);
        let s = self.check_condition(env, &idx.span, &s0, &ti, &Type::I64)?;
        self.finish_index(env, &e.span, &arr.span, s, &ta)
    }

    fn infer_if(
        &mut self,
        env: &mut TypeEnv,
        e: &Spanned<Expr>,
        cond: &Spanned<Expr>,
        then_branch: &Vec<Spanned<Stmt>>,
        else_branch: &Option<Vec<Spanned<Stmt>>>,
        x: &Expect,
    ) -> (r: Result<(Subst, Type), TypeError>)
        requires
            e.node matches Expr::If { cond: c, then_branch: t, else_branch: b } && *c == *cond
                && t == *then_branch && b == *else_branch,
        ensures
            state::infer_matches(r, if_inferred(old(self).cx(), old(self).st(old(env)@), e@, x@).0),
            final(self).st(final(env)@) == if_inferred(
                old(self).cx(),
                old(self).st(old(env)@),
                e@,
                x@,
            ).1,
            final(self).cx() == old(self).cx(),
            env::keys_kept(old(env)@, final(env)@),
        decreases e, 0nat,
    {
        let (s1, tc) = self.infer(env, cond, x)?;
        let s = self.check_condition(env, &cond.span, &s1, &tc, &Type::Bool)?;
        let mut et = env.clone();
        et.apply(&s);
        let mut ee = et.clone();
        assert(ast::stmts_view(then_branch@).len() == then_branch.len());
        self.infer_body(&mut et, then_branch, then_branch.len(), x)?;
        match else_branch {
            Some(eb) => {
                assert(ast::stmts_view(eb@).len() == eb.len());
                self.infer_body(&mut ee, eb, eb.len(), x)?;
            },
            None => {},
        }
        if !list_same(&et.linear_vars, &ee.linear_vars) {
            return Err(TypeError::new(owned("Linear mismatch"), e.span));
        }
        proof {
            env::lemma_linear_keeps_keys(env@, et@.linear_vars);
            env::lemma_linear_keeps_keys(et@, et@.linear_vars);
        }
        env.linear_vars = et.linear_vars;
        Ok((s, Type::Unit))
    }

    fn infer_match(
        &mut self,
        env: &mut TypeEnv,
        e: &Spanned<Expr>,
        target: &Spanned<Expr>,
        cases: &Vec<MatchCase>,
        x: &Expect,
    ) -> (r: Result<(Subst, Type), TypeError>)
        requires
            e.node matches Expr::Match { target: t, cases: c } && *t == *target && c == *cases,
        ensures
            state::infer_matches(r, match_inferred(old(self).cx(), old(self).st(old(env)@), e@, x@).0),
            final(self).st(final(env)@) == match_inferred(
                old(self).cx(),
                old(self).st(old(env)@),
                e@,
                x@,
            ).1,
            final(self).cx() == old(self).cx(),
            env::keys_kept(old(env)@, final(env)@),
        decreases e, 0nat,
    {
        let (s1, tt) = self.infer(env, target, x)?;
        let t = apply_subst_type(&s1, &tt);
        match check_exhaustiveness(env, self.cache, &t, cases) {
            Ok(()) => {},
            Err(m) => {
                return Err(TypeError::new(m, e.span));
            },
        }
        let (s, rv, tails) = self.infer_cases(env, &tt, cases, x, s1)?;
        self.finish_match(env, &e.span, s, rv, &tails)
    }

    #[verifier::loop_isolation(false)]
    fn infer_cases(
        &mut self,
        env: &mut TypeEnv,
        tt: &Type,
        cases: &Vec<MatchCase>,
        x: &Expect,
        s: Subst,
    ) -> (r: Result<(Subst, Option<Vec<String>>, Vec<Type>), TypeError>)
        ensures
            match r {
                Ok((sr, rv, tails)) => cases_inferred(
                    old(self).cx(),
                    old(self).st(old(env)@),
                    tt@,
                    ast::cases_view(cases@),
                    0,
                    x@,
                    types::fields_view(s@),
                    None,
                    Seq::empty(),
                ).0 == Ok::<(SubstV, Option<Seq<Text>>, Seq<TypeV>), TypeErrorV>(
                    (types::fields_view(sr@), steps::opt_texts(rv), types::types_view(tails@)),
                ),
                Err(er) => cases_inferred(
                    old(self).cx(),
                    old(self).st(old(env)@),
                    tt@,
                    ast::cases_view(cases@),
                    0,
                    x@,
                    types::fields_view(s@),
                    None,
                    Seq::empty(),
                ).0 == Err::<(SubstV, Option<Seq<Text>>, Seq<TypeV>), TypeErrorV>(er@),
            },
            final(self).st(final(env)@) == cases_inferred(
                old(self).cx(),
                old(self).st(old(env)@),
                tt@,
                ast::cases_view(cases@),
                0,
                x@,
                types::fields_view(s@),
                None,
                Seq::empty(),
            ).1,
            final(self).cx() == old(self).cx(),
            env::keys_kept(old(env)@, final(env)@),
            env::keys_apart(old(env)@) ==> (r matches Ok((_, rv, _)) ==> steps::left_apart(steps::opt_texts(rv))),
        decreases cases, 0nat,
    {
        let ghost cv = ast::cases_view(cases@);
        let ghost all = cases_inferred(
            self.cx(),
            self.st(env@),
            tt@,
            cv,
            0,
            x@,
            types::fields_view(s@),
            None,
            Seq::empty(),
        );
        let mut acc = s;
        let mut rv: Option<Vec<String>> = None;
        let mut tails: Vec<Type> = Vec::new();
        assert(types::types_view(tails@) =~= Seq::<TypeV>::empty());
        let mut i: usize = 0;
        while i < cases.len()
            invariant
                env::keys_kept(old(env)@, env@),
                env::keys_apart(old(env)@) ==> steps::left_apart(steps::opt_texts(rv)),
                i <= cases.len(),
                self.cx() == old(self).cx(),
                cases_inferred(
                    self.cx(),
                    self.st(env@),
                    tt@,
                    cv,
                    i as nat,
                    x@,
                    types::fields_view(acc@),
                    steps::opt_texts(rv),
                    types::types_view(tails@),
                ) == all,
            decreases cases.len() - i,
        {
            assert(cv[i as int] == cases@[i as int]@);
            let mut le = env.clone();
            le.apply(&acc);
            let t = apply_subst_type(&acc, tt);
            let (s1, tail) = self.infer_case(&mut le, &t, &cases[i], x, &acc)?;
            proof {
                env::lemma_linear_keeps_keys(le@, le@.linear_vars);
            }
            match tail {
                None => {},
                Some(t1) => {
                    match &rv {
                        Some(p) => {
                            if !list_same(p, &le.linear_vars) {
                                return Err(
                                    TypeError::new(
                                        owned("Linear mismatch"),
                                        cases[i].pattern.span,
                                    ),
                                );
                            }
                        },
                        None => {
                            rv = Some(copy_texts(&le.linear_vars));
                        },
                    }
                    let ghost before = types::types_view(tails@);
                    let ghost tv = t1@;
                    tails.push(t1);
                    assert(types::types_view(tails@) =~= before.push(tv));
                },
            }
            acc = s1;
            i = i + 1;
        }
        Ok((acc, rv, tails))
    }

    fn infer_case(
        &mut self,
        env: &mut TypeEnv,
        tt: &Type,
        case: &MatchCase,
        x: &Expect,
        s: &Vec<(String, Type)>,
    ) -> (r: Result<(Subst, Option<Type>), TypeError>)
        ensures
            match r {
                Ok((sr, t)) => case_inferred(
                    old(self).cx(),
                    old(self).st(old(env)@),
                    tt@,
                    case@,
                    x@,
                    types::fields_view(s@),
                ).0 == Ok::<(SubstV, Option<TypeV>), TypeErrorV>((types::fields_view(sr@), ast::opt_type(t))),
                Err(er) => case_inferred(
                    old(self).cx(),
                    old(self).st(old(env)@),
                    tt@,
                    case@,
                    x@,
                    types::fields_view(s@),
                ).0 == Err::<(SubstV, Option<TypeV>), TypeErrorV>(er@),
            },
            final(self).st(final(env)@) == case_inferred(
                old(self).cx(),
                old(self).st(old(env)@),
                tt@,
                case@,
                x@,
                types::fields_view(s@),
            ).1,
            final(self).cx() == old(self).cx(),
            env::keys_kept(old(env)@, final(env)@),
        decreases case, 0nat,
    {
        let sm = self.bind_pattern(&case.pattern, tt, env)?;
        let s1 = compose_subst(s, &sm);
        env.apply(&sm);
        assert(ast::stmts_view(case.body@).len() == case.body.len());
        if case.body.len() == 0 {
            return Ok((s1, Some(Type::Unit)));
        }
        let last: usize = case.body.len() - 1;
        self.infer_body(env, &case.body, last, x)?;
        let stmt = &case.body[last];
        assert(ast::stmts_view(case.body@)[last as int] == stmt@);
        match &stmt.node {
            Stmt::Expr(ex) => {
                let (s2, t2) = self.infer(env, ex, x)?;
                let t3 = apply_subst_type(&s2, &t2);
                let s3 = compose_subst(&s1, &s2);
                assert(stmt@.node == StmtV::Expr(ex@));
                if matches!(ex.node, Expr::Raise(_)) {
                    Ok((s3, None))
                } else {
                    let t4 = apply_subst_type(&s3, &t3);
                    Ok((s3, Some(t4)))
                }
            },
            Stmt::Return(ex) => {
                let (s2, t2) = self.infer(env, ex, x)?;
                assert(stmt@.node == StmtV::Return(ex@));
                self.finish_return(env, &ex.span, &s2, &t2, x.ret)?;
                Ok((s1, None))
            },
            _ => {
                self.infer_stmt(env, stmt, x)?;
                Ok((s1, Some(Type::Unit)))
            },
        }
    }

    fn infer_while(
        &mut self,
        env: &mut TypeEnv,
        e: &Spanned<Expr>,
        cond: &Spanned<Expr>,
        body: &Vec<Spanned<Stmt>>,
        x: &Expect,
    ) -> (r: Result<(Subst, Type), TypeError>)
        requires
            e.node matches Expr::While { cond: c, body: b } && *c == *cond && b == *body,
        ensures
            state::infer_matches(r, while_inferred(old(self).cx(), old(self).st(old(env)@), e@, x@).0),
            final(self).st(final(env)@) == while_inferred(
                old(self).cx(),
                old(self).st(old(env)@),
                e@,
                x@,
            ).1,
            final(self).cx() == old(self).cx(),
            env::keys_kept(old(env)@, final(env)@),
        decreases e, 0nat,
    {
        let (s1, tc) = self.infer(env, cond, x)?;
        let s = self.check_condition(env, &cond.span, &s1, &tc, &Type::Bool)?;
        let mut le = env.clone();
        le.apply(&s);
        assert(ast::stmts_view(body@).len() == body.len());
        self.infer_body(&mut le, body, body.len(), x)?;
        Ok((s, Type::Unit))
    }

    fn infer_for(
        &mut self,
        env: &mut TypeEnv,
        e: &Spanned<Expr>,
        var: &str,
        start: &Spanned<Expr>,
        end_expr: &Spanned<Expr>,
        body: &Vec<Spanned<Stmt>>,
        x: &Expect,
    ) -> (r: Result<(Subst, Type), TypeError>)
        requires
            e.node matches Expr::For { var: v, start: a, end_expr: b, body: c } && v@ == var@
                && *a == *start && *b == *end_expr && c == *body,
        ensures
            state::infer_matches(r, for_inferred(old(self).cx(), old(self).st(old(env)@), e@, x@).0),
            final(self).st(final(env)@) == for_inferred(
                old(self).cx(),
                old(self).st(old(env)@),
                e@,
                x@,
            ).1,
            final(self).cx() == old(self).cx(),
            env::keys_kept(old(env)@, final(env)@),
        decreases e, 0nat,
    {
        let (s1, ts) = self.infer(env, start, x)?;
        env.apply(&s1);
        let sa = self.check_condition(env, &start.span, &s1, &ts, &Type::I64)?;
        let (s2, te) = self.infer(env, end_expr, x)?;
        let sb = compose_subst(&sa, &s2);
        let s = self.check_condition(env, &end_expr.span, &sb, &te, &Type::I64)?;
        let mut le = env.clone();
        le.apply(&s);
        le.insert(owned(var), mono_scheme(Type::I64));
        assert(ast::stmts_view(body@).len() == body.len());
        self.infer_body(&mut le, body, body.len(), x)?;
        Ok((s, Type::Unit))
    }

    fn infer_lambda(&mut self, env: &mut TypeEnv, e: &Spanned<Expr>, x: &Expect) -> (r: Result<
        (Subst, Type),
        TypeError,
    >)
        requires
            e.node is Lambda,
        ensures
            state::infer_matches(r, lambda_inferred(old(self).cx(), old(self).st(old(env)@), e@, x@).0),
            final(self).st(final(env)@) == lambda_inferred(
                old(self).cx(),
                old(self).st(old(env)@),
                e@,
                x@,
            ).1,
            final(self).cx() == old(self).cx(),
            env::keys_kept(old(env)@, final(env)@),
        decreases e, 0nat,
    {
        match &e.node {
            Expr::Lambda { type_params, params, ret_type, requires: reqs, throws, body } => {
                if contains_ref(ret_type) {
                    return Err(TypeError::new(owned("Cannot return Ref"), e.span));
                }
                let outer_keys = list_keys(&env.vars);
                assert(text::texts(outer_keys@) =~= table::keys_of(env@.vars));
                let captured = collect_lambda_captures(body, params, &outer_keys);
                let linear = match find_captured_linear(env, &captured) {
                    Ok(v) => v,
                    Err(m) => {
                        return Err(TypeError::new(m, e.span));
                    },
                };
                let mut inner = env.clone();
                insert_params(&mut inner, params);
                let want = Expect { ret: ret_type, reqs, effs: throws };
                assert(ast::stmts_view(body@).len() == body.len());
                self.infer_body(&mut inner, body, body.len(), &want)?;
                check_has_return(body, ret_type, &e.span)?;
                let is_linear = close_lambda(env, &inner, &linear, &e.span)?;
                let t = make_lambda_type(type_params, params, ret_type, reqs, throws, true);
                if is_linear {
                    Ok((empty_subst(), Type::Linear(Box::new(t))))
                } else {
                    Ok((empty_subst(), t))
                }
            },
            _ => Ok((empty_subst(), Type::Unit)),
        }
    }

    fn infer_handler(&mut self, env: &mut TypeEnv, e: &Spanned<Expr>, x: &Expect) -> (r: Result<
        (Subst, Type),
        TypeError,
    >)
        requires
            e.node is Handler,
        ensures
            state::infer_matches(r, handler_inferred(old(self).cx(), old(self).st(old(env)@), e@, x@).0),
            final(self).st(final(env)@) == handler_inferred(
                old(self).cx(),
                old(self).st(old(env)@),
                e@,
                x@,
            ).1,
            final(self).cx() == old(self).cx(),
            env::keys_kept(old(env)@, final(env)@),
        decreases e, 0nat,
    {
        match &e.node {
            Expr::Handler { coeffect_name, requires: reqs, functions } => {
                let prefix = cat2(coeffect_name.as_str(), ".");
                let methods = self.collect_port_methods(env, prefix.as_str());
                let implemented = self.infer_methods(
                    env,
                    &e.span,
                    coeffect_name.as_str(),
                    reqs,
                    &methods,
                    functions,
                )?;
                check_methods_present(
                    &methods,
                    &implemented,
                    coeffect_name.as_str(),
                    &e.span,
                )?;
                Ok(
                    (
                        empty_subst(),
                        Type::Handler(coeffect_name.clone(), Box::new(reqs.clone())),
                    ),
                )
            },
            _ => Ok((empty_subst(), Type::Unit)),
        }
    }

    #[verifier::loop_isolation(false)]
    fn infer_methods(
        &mut self,
        env: &TypeEnv,
        span: &Span,
        port: &str,
        reqs: &Type,
        methods: &Vec<(String, Type)>,
        functions: &Vec<Function>,
    ) -> (r: Result<Vec<String>, TypeError>)
        ensures
            match r {
                Ok(v) => methods_inferred(
                    old(self).cx(),
                    old(self).st(env@),
                    *span,
                    port@,
                    reqs@,
                    types::fields_view(methods@),
                    ast::functions_view(functions@),
                    0,
                    Seq::empty(),
                ).0 == Ok::<Seq<Text>, TypeErrorV>(text::texts(v@)),
                Err(er) => methods_inferred(
                    old(self).cx(),
                    old(self).st(env@),
                    *span,
                    port@,
                    reqs@,
                    types::fields_view(methods@),
                    ast::functions_view(functions@),
                    0,
                    Seq::empty(),
                ).0 == Err::<Seq<Text>, TypeErrorV>(er@),
            },
            final(self).st(env@) == methods_inferred(
                old(self).cx(),
                old(self).st(env@),
                *span,
                port@,
                reqs@,
                types::fields_view(methods@),
                ast::functions_view(functions@),
                0,
                Seq::empty(),
            ).1,
            final(self).cx() == old(self).cx(),
        decreases functions, 0nat,
    {
        let ghost fv = ast::functions_view(functions@);
        let ghost mv = types::fields_view(methods@);
        let ghost all = methods_inferred(
            self.cx(),
            self.st(env@),
            *span,
            port@,
            reqs@,
            mv,
            fv,
            0,
            Seq::empty(),
        );
        let mut implemented: Vec<String> = Vec::new();
        assert(text::texts(implemented@) =~= Seq::<Text>::empty());
        let mut i: usize = 0;
        while i < functions.len()
            invariant
                i <= functions.len(),
                self.cx() == old(self).cx(),
                methods_inferred(
                    self.cx(),
                    self.st(env@),
                    *span,
                    port@,
                    reqs@,
                    mv,
                    fv,
                    i as nat,
                    text::texts(implemented@),
                ) == all,
            decreases functions.len() - i,
        {
            assert(fv[i as int] == functions@[i as int]@);
            self.check_function(&functions[i], env, span, reqs)?;
            self.check_method(span, port, methods, &functions[i], Ghost(env@))?;
            list_add(&mut implemented, functions[i].name.clone());
            i = i + 1;
        }
        Ok(implemented)
    }

    // -----------------------------------------------------------------------
    // Statements
    // -----------------------------------------------------------------------

    /// Infers the first `end` statements of a body.
    #[verifier::loop_isolation(false)]
    pub fn infer_body(
        &mut self,
        env: &mut TypeEnv,
        body: &Vec<Spanned<Stmt>>,
        end: usize,
        x: &Expect,
    ) -> (r: Result<(), TypeError>)
        requires
            end <= body.len(),
        ensures
            state::unit_matches(
                r,
                body_inferred(
                    old(self).cx(),
                    old(self).st(old(env)@),
                    ast::stmts_view(body@),
                    0,
                    end as nat,
                    x@,
                ).0,
            ),
            final(self).st(final(env)@) == body_inferred(
                old(self).cx(),
                old(self).st(old(env)@),
                ast::stmts_view(body@),
                0,
                end as nat,
                x@,
            ).1,
            final(self).cx() == old(self).cx(),
            env::keys_kept(old(env)@, final(env)@),
        decreases body, 0nat,
    {
        let ghost bv = ast::stmts_view(body@);
        let ghost all = body_inferred(self.cx(), self.st(env@), bv, 0, end as nat, x@);
        let mut i: usize = 0;
        while i < end
            invariant
                env::keys_kept(old(env)@, env@),
                i <= end <= body.len(),
                self.cx() == old(self).cx(),
                body_inferred(self.cx(), self.st(env@), bv, i as nat, end as nat, x@) == all,
            decreases end - i,
        {
            assert(bv[i as int] == body@[i as int]@);
            self.infer_stmt(env, &body[i], x)?;
            i = i + 1;
        }
        Ok(())
    }

    /// Infers a statement.
    pub fn infer_stmt(&mut self, env: &mut TypeEnv, s: &Spanned<Stmt>, x: &Expect) -> (r: Result<
        (),
        TypeError,
    >)
        ensures
            state::unit_matches(r, stmt_inferred(old(self).cx(), old(self).st(old(env)@), s@, x@).0),
            final(self).st(final(env)@) == stmt_inferred(
                old(self).cx(),
                old(self).st(old(env)@),
                s@,
                x@,
            ).1,
            final(self).cx() == old(self).cx(),
            env::keys_kept(old(env)@, final(env)@),
        decreases s, 1nat,
    {
        match &s.node {
            Stmt::Let { name, sigil, typ, value } => self.infer_let(
                env,
                s,
                name.as_str(),
                sigil,
                typ,
                value,
                x,
            ),
            Stmt::LetPattern { pattern, value } => {
                let (s1, t1) = self.infer(env, value, x)?;
                self.finish_let_pattern(env, pattern, &s1, &t1)
            },
            Stmt::Expr(e) => {
                self.infer(env, e, x)?;
                Ok(())
            },
            Stmt::Return(e) => {
                let (s1, t1) = self.infer(env, e, x)?;
                self.finish_return(env, &e.span, &s1, &t1, x.ret)
            },
            Stmt::Assign { target, value } => {
                let (sv, tv) = self.infer(env, value, x)?;
                env.apply(&sv);
                self.infer_target(env, &s.span, &value.span, &tv, target, x)
            },
            Stmt::Conc(ts) => self.check_tasks(env, ts, &s.span, x.reqs),
            Stmt::Try { body, catch_param, catch_body } => self.infer_try(
                env,
                s,
                body,
                catch_param.as_str(),
                catch_body,
                x,
            ),
            Stmt::Inject { handlers, body } => self.infer_inject(env, s, handlers, body, x),
        }
    }

    fn infer_let(
        &mut self,
        env: &mut TypeEnv,
        s: &Spanned<Stmt>,
        name: &str,
        sigil: &Sigil,
        typ: &Option<Type>,
        value: &Spanned<Expr>,
        x: &Expect,
    ) -> (r: Result<(), TypeError>)
        requires
            s.node matches Stmt::Let { name: n, sigil: g, typ: t, value: v } && n@ == name@ && g
                == *sigil && t == *typ && v == *value,
        ensures
            state::unit_matches(r, let_inferred(old(self).cx(), old(self).st(old(env)@), s@, x@).0),
            final(self).st(final(env)@) == let_inferred(
                old(self).cx(),
                old(self).st(old(env)@),
                s@,
                x@,
            ).1,
            final(self).cx() == old(self).cx(),
            env::keys_kept(old(env)@, final(env)@),
        decreases s, 0nat,
    {
        prepare_let(env, name, sigil, typ, value)?;
        let (s1, t1) = self.infer(env, value, x)?;
        self.finish_let(env, &value.span, name, sigil, typ, &s1, &t1)
    }

    fn infer_inject(
        &mut self,
        env: &mut TypeEnv,
        s: &Spanned<Stmt>,
        handlers: &Vec<String>,
        body: &Vec<Spanned<Stmt>>,
        x: &Expect,
    ) -> (r: Result<(), TypeError>)
        requires
            s.node matches Stmt::Inject { handlers: h, body: b } && h == *handlers && b == *body,
        ensures
            state::unit_matches(r, inject_inferred(old(self).cx(), old(self).st(old(env)@), s@, x@).0),
            final(self).st(final(env)@) == inject_inferred(
                old(self).cx(),
                old(self).st(old(env)@),
                s@,
                x@,
            ).1,
            final(self).cx() == old(self).cx(),
            env::keys_kept(old(env)@, final(env)@),
        decreases s, 0nat,
    {
        let reqs = self.begin_inject(env, &s.span, handlers, body, x.reqs)?;
        let want = Expect { ret: x.ret, reqs: &reqs, effs: x.effs };
        assert(ast::stmts_view(body@).len() == body.len());
        self.infer_body(env, body, body.len(), &want)
    }

    fn infer_try(
        &mut self,
        env: &mut TypeEnv,
        s: &Spanned<Stmt>,
        body: &Vec<Spanned<Stmt>>,
        catch_param: &str,
        catch_body: &Vec<Spanned<Stmt>>,
        x: &Expect,
    ) -> (r: Result<(), TypeError>)
        requires
            s.node matches Stmt::Try { body: b, catch_param: p, catch_body: c } && b == *body
                && p@ == catch_param@ && c == *catch_body,
        ensures
            state::unit_matches(r, try_inferred(old(self).cx(), old(self).st(old(env)@), s@, x@).0),
            final(self).st(final(env)@) == try_inferred(
                old(self).cx(),
                old(self).st(old(env)@),
                s@,
                x@,
            ).1,
            final(self).cx() == old(self).cx(),
            env::keys_kept(old(env)@, final(env)@),
        decreases s, 0nat,
    {
        let effs = make_exn_row(x.effs.clone());
        let want = Expect { ret: x.ret, reqs: x.reqs, effs: &effs };
        let mut et = env.clone();
        assert(ast::stmts_view(body@).len() == body.len());
        self.infer_body(&mut et, body, body.len(), &want)?;
        let mut ec = env.clone();
        ec.insert(owned(catch_param), mono_scheme(make_named(owned("Exn"))));
        assert(ast::stmts_view(catch_body@).len() == catch_body.len());
        self.infer_body(&mut ec, catch_body, catch_body.len(), x)?;
        if !list_same(&et.linear_vars, &ec.linear_vars) {
            return Err(TypeError::new(owned("Linear mismatch"), s.span));
        }
        proof {
            env::lemma_linear_keeps_keys(env@, et@.linear_vars);
            env::lemma_linear_keeps_keys(et@, et@.linear_vars);
        }
        env.linear_vars = et.linear_vars;
        Ok(())
    }

    fn infer_target(
        &mut self,
        env: &mut TypeEnv,
        span: &Span,
        vspan: &Span,
        tv: &Type,
        target: &Spanned<Expr>,
        x: &Expect,
    ) -> (r: Result<(), TypeError>)
        ensures
            state::unit_matches(
                r,
                target_inferred(
                    old(self).cx(),
                    old(self).st(old(env)@),
                    *span,
                    *vspan,
                    tv@,
                    target@,
                    x@,
                ).0,
            ),
            final(self).st(final(env)@) == target_inferred(
                old(self).cx(),
                old(self).st(old(env)@),
                *span,
                *vspan,
                tv@,
                target@,
                x@,
            ).1,
            final(self).cx() == old(self).cx(),
            env::keys_kept(old(env)@, final(env)@),
        decreases target, 2nat,
    {
        match &target.node {
            Expr::Variable(name, sigil) => self.assign_variable(
                env,
                span,
                vspan,
                name.as_str(),
                sigil,
                tv,
            ),
            Expr::Index(arr, idx) => {
                let (si, ti) = self.infer(env, idx, x)?;
                env.apply(&si);
                self.unify_at(&ti, &Type::I64, &idx.span, Ghost(env@))?;
                let ta = self.infer_array(env, arr, x)?;
                self.assign_element(env, &arr.span, vspan, ta, tv)
            },
            _ => Err(TypeError::new(owned("Invalid assignment target"), *span)),
        }
    }

    fn infer_array(&mut self, env: &mut TypeEnv, arr: &Spanned<Expr>, x: &Expect) -> (r: Result<
        Type,
        TypeError,
    >)
        ensures
            match r {
                Ok(t) => array_inferred(old(self).cx(), old(self).st(old(env)@), arr@, x@).0
                    == Ok::<TypeV, TypeErrorV>(t@),
                Err(er) => array_inferred(old(self).cx(), old(self).st(old(env)@), arr@, x@).0
                    == Err::<TypeV, TypeErrorV>(er@),
            },
            final(self).st(final(env)@) == array_inferred(
                old(self).cx(),
                old(self).st(old(env)@),
                arr@,
                x@,
            ).1,
            final(self).cx() == old(self).cx(),
            env::keys_kept(old(env)@, final(env)@),
        decreases arr, 2nat,
    {
        match &arr.node {
            Expr::Variable(n, sigil) => self.assigned_array(env, &arr.span, n.as_str(), sigil),
            _ => {
                let (sa, ta) = self.infer(env, arr, x)?;
                env.apply(&sa);
                Ok(ta)
            },
        }
    }

    #[verifier::loop_isolation(false)]
    fn check_tasks(&mut self, env: &TypeEnv, ts: &Vec<Function>, span: &Span, reqs: &Type) -> (r:
        Result<(), TypeError>)
        ensures
            state::unit_matches(
                r,
                tasks_checked(
                    old(self).cx(),
                    old(self).st(env@),
                    ast::functions_view(ts@),
                    0,
                    *span,
                    reqs@,
                ).0,
            ),
            final(self).st(env@) == tasks_checked(
                old(self).cx(),
                old(self).st(env@),
                ast::functions_view(ts@),
                0,
                *span,
                reqs@,
            ).1,
            final(self).cx() == old(self).cx(),
        decreases ts, 0nat,
    {
        let ghost tv = ast::functions_view(ts@);
        let ghost all = tasks_checked(self.cx(), self.st(env@), tv, 0, *span, reqs@);
        let mut i: usize = 0;
        while i < ts.len()
            invariant
                i <= ts.len(),
                self.cx() == old(self).cx(),
                tasks_checked(self.cx(), self.st(env@), tv, i as nat, *span, reqs@) == all,
            decreases ts.len() - i,
        {
            assert(tv[i as int] == ts@[i as int]@);
            self.check_task(&ts[i], env, span, reqs)?;
            i = i + 1;
        }
        Ok(())
    }

    /// Checks a task of a `conc`.
    pub fn check_task(&mut self, t: &Function, env: &TypeEnv, span: &Span, reqs: &Type) -> (r:
        Result<(), TypeError>)
        ensures
            state::unit_matches(r, task_checked(old(self).cx(), old(self).st(env@), t@, *span, reqs@).0),
            final(self).st(env@) == task_checked(
                old(self).cx(),
                old(self).st(env@),
                t@,
                *span,
                reqs@,
            ).1,
            final(self).cx() == old(self).cx(),
        decreases t, 0nat,
    {
        let (mut te, captured) = make_task_scope(env);
        let merged = merge_type_rows(&t.requires, reqs);
        let unit = Type::Unit;
        let want = Expect { ret: &unit, reqs: &merged, effs: &t.throws };
        assert(ast::stmts_view(t.body@).len() == t.body.len());
        self.infer_body(&mut te, &t.body, t.body.len(), &want)?;
        check_task_unused(&te, &captured, span)
    }

    /// Checks a function. The coeffects `extra` are at hand in its body beside its own, as
    /// those of a handler are in its methods.
    pub fn check_function(&mut self, f: &Function, env: &TypeEnv, span: &Span, extra: &Type) -> (r:
        Result<(), TypeError>)
        ensures
            state::unit_matches(
                r,
                function_checked(old(self).cx(), old(self).st(env@), f@, *span, extra@).0,
            ),
            final(self).st(env@) == function_checked(
                old(self).cx(),
                old(self).st(env@),
                f@,
                *span,
                extra@,
            ).1,
            final(self).cx() == old(self).cx(),
        decreases f, 0nat,
    {
        if contains_ref(&f.ret_type) {
            return Err(TypeError::new(owned("Cannot return Ref"), *span));
        }
        let mut inner = env.clone();
        insert_params(&mut inner, &f.params);
        let merged = merge_type_rows(&f.requires, extra);
        let want = Expect { ret: &f.ret_type, reqs: &merged, effs: &f.throws };
        assert(ast::stmts_view(f.body@).len() == f.body.len());
        self.infer_body(&mut inner, &f.body, f.body.len(), &want)?;
        check_has_return(&f.body, &f.ret_type, span)?;
        inner.check_unused_linear(span)
    }
}

} // verus!
