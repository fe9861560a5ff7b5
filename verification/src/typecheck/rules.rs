//! The rules of inference that need no recursion: operators, variables, calls before their
//! arguments, bindings, and the bookkeeping of lambdas, handlers and tasks.

use crate::ast;
use crate::ast::{Expr, ExprV, Function, FunctionV, Param, ParamV, Stmt, StmtV};
use crate::table;
use crate::text;
use crate::text::{
    Text, cat2, cat3, cat4, cat5, copy_texts, join, list_add, list_difference, list_extend, owned,
    skip_chars, sort_texts, starts_with, starts_with_char, to_set, usize_to_text,
};
use crate::typecheck::capture;
use crate::typecheck::capture::lambda_references_name;
use crate::typecheck::env;
use crate::typecheck::env::{
    EnvV, SchemeV, TypeEnv, TypeError, TypeErrorV, TypeWarning, TypeWarningV, bind_params,
    copy_enums, copy_typedefs, generalize, mono_scheme, undroppable,
};
use crate::typecheck::exhaustiveness;
use crate::typecheck::exhaustiveness::unwrap_type;
use crate::typecheck::helpers;
use crate::typecheck::helpers::{
    add_type, add_types, contains_ref, contains_return, convert_user_defined_to_var,
    default_numeric_literals, describe_ctor_field, extract_row_port_names, is_auto_droppable,
    make_named, select_float_type, select_int_type, strip_required_port_coeffect,
    summarize_ctor_args, summarize_ctor_fields,
};
use crate::typecheck::lint;
use crate::typecheck::lint::collect_signature_needs_from_stmts;
use crate::typecheck::pattern;
use crate::typecheck::pattern::label_or_empty;
use crate::typecheck::render;
use crate::typecheck::render::{quote_all, type_to_debug, type_to_text};
use crate::typecheck::state;
use crate::typecheck::state::{Cx, Expect, ExpectV, Infer, InferV, Misplaced, St};
use crate::typecheck::subst;
use crate::typecheck::subst::{
    Subst, SubstV, apply_subst_type, compose_subst, empty_subst, subst_get, subst_put,
};
use crate::typecheck::unify;
use crate::types;
use crate::types::{BinaryOp, Sigil, Span, Spanned, Type, TypeV, copy_fields, copy_tail, copy_types};
use vstd::prelude::*;

verus! {

// ---------------------------------------------------------------------------
// Operators
// ---------------------------------------------------------------------------

/// The message for operands of the wrong types.
pub open spec fn operand_message(what: Text, l: TypeV, r: TypeV) -> Text {
    what + render::type_text(l) + " and "@ + render::type_text(r)
}

/// The type at which the operands of an operator meet, or the message of the failure.
pub open spec fn operand_type(op: BinaryOp, l: TypeV, r: TypeV) -> Result<TypeV, Text> {
    match op {
        BinaryOp::Concat => Ok(TypeV::String),
        BinaryOp::And => Ok(TypeV::Bool),
        BinaryOp::Or => Ok(TypeV::Bool),
        BinaryOp::FAdd | BinaryOp::FSub | BinaryOp::FMul | BinaryOp::FDiv => match helpers::float_type(l, r) {
            Some(t) => Ok(t),
            None => Err(operand_message("Float op expects f32/f64, got "@, l, r)),
        },
        BinaryOp::FEq | BinaryOp::FNe | BinaryOp::FLt | BinaryOp::FGt | BinaryOp::FLe
        | BinaryOp::FGe => match helpers::float_type(l, r) {
            Some(t) => Ok(t),
            None => Err(operand_message("Float comparison expects f32/f64, got "@, l, r)),
        },
        BinaryOp::Eq | BinaryOp::Ne => match helpers::int_type(l, r) {
            Some(t) => Ok(t),
            None => {
                if (l is Char && r is Char) || (l is String && r is String) || (l is Bool
                    && r is Bool) {
                    Ok(l)
                } else {
                    Err(
                        operand_message(
                            "Equality comparison expects matching types, got "@,
                            l,
                            r,
                        ),
                    )
                }
            },
        },
        BinaryOp::Lt | BinaryOp::Gt | BinaryOp::Le | BinaryOp::Ge => match helpers::int_type(l, r) {
            Some(t) => Ok(t),
            None => {
                if l is Char && r is Char {
                    Ok(TypeV::Char)
                } else {
                    Err(operand_message("Ordered comparison expects i32/i64/char, got "@, l, r))
                }
            },
        },
        _ => match helpers::int_type(l, r) {
            Some(t) => Ok(t),
            None => Err(operand_message("Integer op expects i32/i64, got "@, l, r)),
        },
    }
}

/// The type of the result of an operator whose operands meet at `t`.
pub open spec fn operator_result(op: BinaryOp, t: TypeV) -> TypeV {
    match op {
        BinaryOp::Eq | BinaryOp::Ne | BinaryOp::Lt | BinaryOp::Gt | BinaryOp::Le | BinaryOp::Ge
        | BinaryOp::FEq | BinaryOp::FNe | BinaryOp::FLt | BinaryOp::FGt | BinaryOp::FLe
        | BinaryOp::FGe | BinaryOp::And | BinaryOp::Or => TypeV::Bool,
        _ => t,
    }
}

/// An operator applied to operands of the types `t1` and `t2`, under a substitution.
#[verifier::opaque]
pub open spec fn operator_rule(
    cx: Cx,
    st: St,
    span: Span,
    lspan: Span,
    rspan: Span,
    op: BinaryOp,
    s: SubstV,
    t1: TypeV,
    t2: TypeV,
) -> (InferV, St) {
    let lt = subst::substituted(s, t1);
    match operand_type(op, lt, subst::substituted(s, t2)) {
        Err(m) => (Err(env::error_at(m, span)), st),
        Ok(target) => match state::st_unify_at(cx, st, lt, target, lspan) {
            (Err(e), st1) => (Err(e), st1),
            (Ok(s3), st1) => {
                let sa = subst::composed(s, s3);
                match state::st_unify_at(cx, st1, subst::substituted(sa, t2), target, rspan) {
                    (Err(e), st2) => (Err(e), st2),
                    (Ok(s4), st2) => (
                        Ok((subst::composed(sa, s4), operator_result(op, target))),
                        st2,
                    ),
                }
            },
        },
    }
}

fn operand_error(what: &str, l: &Type, r: &Type) -> (m: String)
    ensures
        m@ == operand_message(what@, l@, r@),
{
    let a = type_to_text(l);
    let b = type_to_text(r);
    cat4(what, a.as_str(), " and ", b.as_str())
}

fn select_operand_type(op: BinaryOp, l: &Type, r: &Type) -> (res: Result<Type, String>)
    ensures
        match res {
            Ok(t) => operand_type(op, l@, r@) == Ok::<TypeV, Text>(t@),
            Err(m) => operand_type(op, l@, r@) == Err::<TypeV, Text>(m@),
        },
{
    match op {
        BinaryOp::Concat => Ok(Type::String),
        BinaryOp::And => Ok(Type::Bool),
        BinaryOp::Or => Ok(Type::Bool),
        BinaryOp::FAdd | BinaryOp::FSub | BinaryOp::FMul | BinaryOp::FDiv => match select_float_type(
            l,
            r,
        ) {
            Some(t) => Ok(t),
            None => Err(operand_error("Float op expects f32/f64, got ", l, r)),
        },
        BinaryOp::FEq | BinaryOp::FNe | BinaryOp::FLt | BinaryOp::FGt | BinaryOp::FLe
        | BinaryOp::FGe => match select_float_type(l, r) {
            Some(t) => Ok(t),
            None => Err(operand_error("Float comparison expects f32/f64, got ", l, r)),
        },
        BinaryOp::Eq | BinaryOp::Ne => match select_int_type(l, r) {
            Some(t) => Ok(t),
            None => match (l, r) {
                (Type::Char, Type::Char) => Ok(Type::Char),
                (Type::String, Type::String) => Ok(Type::String),
                (Type::Bool, Type::Bool) => Ok(Type::Bool),
                _ => Err(
                    operand_error("Equality comparison expects matching types, got ", l, r),
                ),
            },
        },
        BinaryOp::Lt | BinaryOp::Gt | BinaryOp::Le | BinaryOp::Ge => match select_int_type(l, r) {
            Some(t) => Ok(t),
            None => match (l, r) {
                (Type::Char, Type::Char) => Ok(Type::Char),
                _ => Err(operand_error("Ordered comparison expects i32/i64/char, got ", l, r)),
            },
        },
        _ => match select_int_type(l, r) {
            Some(t) => Ok(t),
            None => Err(operand_error("Integer op expects i32/i64, got ", l, r)),
        },
    }
}

fn result_of_operator(op: BinaryOp, t: Type) -> (r: Type)
    ensures
        r@ == operator_result(op, t@),
{
    match op {
        BinaryOp::Eq | BinaryOp::Ne | BinaryOp::Lt | BinaryOp::Gt | BinaryOp::Le | BinaryOp::Ge
        | BinaryOp::FEq | BinaryOp::FNe | BinaryOp::FLt | BinaryOp::FGt | BinaryOp::FLe
        | BinaryOp::FGe | BinaryOp::And | BinaryOp::Or => Type::Bool,
        _ => t,
    }
}

// ---------------------------------------------------------------------------
// Variables
// ---------------------------------------------------------------------------

/// The use of a variable: a mutable one is read through its reference, and one with linear
/// data is consumed.
#[verifier::opaque]
pub open spec fn variable_rule(st: St, span: Span, name: Text, sigil: Sigil) -> (InferV, St) {
    let key = sigil.key(name);
    match env::env_get(st.env, key) {
        None => (Err(env::error_at("Not found: "@ + key, span)), st),
        Some(sch) => {
            let (t0, st1) = state::instantiated(st, sch);
            let t = match t0 {
                TypeV::Ref(i) => if sigil == Sigil::Mutable {
                    *i
                } else {
                    t0
                },
                _ => t0,
            };
            if env::has_linear(st.env, t) {
                match env::env_consume(st1.env, key) {
                    (Ok(()), env) => (Ok((subst::no_subst(), t)), state::with_env(st1, env)),
                    (Err(m), env) => (Err(env::error_at(m, span)), state::with_env(st1, env)),
                }
            } else {
                (Ok((subst::no_subst(), t)), st1)
            }
        },
    }
}

/// A borrow of a variable.
#[verifier::opaque]
pub open spec fn borrow_rule(st: St, span: Span, name: Text, sigil: Sigil) -> (InferV, St) {
    match env::env_get(st.env, sigil.key(name)) {
        None => (Err(env::error_at("Not found"@, span)), st),
        Some(sch) => {
            let (t, st1) = state::instantiated(st, sch);
            (Ok((subst::no_subst(), TypeV::Borrow(Box::new(exhaustiveness::unwrapped(t))))), st1)
        },
    }
}

// ---------------------------------------------------------------------------
// Calls
// ---------------------------------------------------------------------------

/// The labels of a list of labelled items.
pub open spec fn item_labels<A>(args: Seq<(Text, A)>) -> Seq<Text> {
    args.map_values(|a: (Text, A)| a.0)
}

/// The message for a call with the wrong number of arguments.
pub open spec fn call_count_message(
    func: Text,
    params: Seq<(Text, TypeV)>,
    labels: Seq<Text>,
) -> Text {
    "Arity mismatch in call to `"@ + func + "`: expected "@ + text::decimal(params.len())
        + " arguments, got "@ + text::decimal(labels.len()) + ".\nExpected parameters: ("@ + text::joined(
        item_labels(params),
        ", "@,
    ) + ")\nProvided arguments: ("@ + text::joined(labels, ", "@) + ")"@
}

/// What is called: the instance of the function's scheme, a linear one consumed.
pub open spec fn callee_rule(st: St, span: Span, func: Text) -> (Result<TypeV, TypeErrorV>, St) {
    match env::env_get(st.env, func) {
        None => (Err(env::error_at("Fn "@ + func + " not found"@, span)), st),
        Some(sch) => {
            let (t, st1) = state::instantiated(st, sch);
            match t {
                TypeV::Linear(i) => match env::env_consume(st1.env, func) {
                    (Ok(()), env) => (Ok(*i), state::with_env(st1, env)),
                    (Err(m), env) => (Err(env::error_at(m, span)), state::with_env(st1, env)),
                },
                _ => (Ok(t), st1),
            }
        },
    }
}

/// A call before its arguments: the substitution, the types of the parameters, and the type of
/// the result.
#[verifier::opaque]
pub open spec fn call_rule(
    cx: Cx,
    st: St,
    span: Span,
    func: Text,
    labels: Seq<Text>,
    x: ExpectV,
) -> (Result<(SubstV, Seq<(Text, TypeV)>, TypeV), TypeErrorV>, St) {
    match callee_rule(st, span, func) {
        (Err(e), st1) => (Err(e), st1),
        (Ok(ft), st1) => {
            if ft is Arrow && ft->Arrow_0.len() != labels.len() {
                (Err(env::error_at(call_count_message(func, ft->Arrow_0, labels), span)), st1)
            } else {
                let rt = unify::numbered_var(st1.supply);
                let (pts, n1) = state::fresh_params(
                    Seq::empty(),
                    labels,
                    0,
                    unify::next_number(st1.supply),
                );
                let req = unify::numbered_var(n1);
                let eff = unify::numbered_var(unify::next_number(n1));
                let st2 = St { supply: unify::next_number(unify::next_number(n1)), ..st1 };
                let shape = TypeV::Arrow(pts, Box::new(rt), Box::new(req), Box::new(eff));
                match state::st_unify_at(cx, st2, ft, shape, span) {
                    (Err(e), st3) => (Err(e), st3),
                    (Ok(sf), st3) => {
                        let (eco, st4) = state::opened_row(st3, subst::substituted(sf, eff));
                        match state::st_unify_at(cx, st4, subst::substituted(sf, x.effs), eco, span) {
                            (Err(e), st5) => (Err(e), st5),
                            (Ok(se), st5) => {
                                let s1 = subst::composed(sf, se);
                                let reqi = subst::substituted(s1, req);
                                let (reqo, st6) = state::opened_row(st5, reqi);
                                match state::st_unify(cx, st6, subst::substituted(s1, x.reqs), reqo) {
                                    (Err(_), st7) => (
                                        Err(
                                            env::error_at(
                                                "Call to '"@ + func + "' requires "@ + render::type_text(
                                                    reqi,
                                                ),
                                                span,
                                            ),
                                        ),
                                        st7,
                                    ),
                                    (Ok(sr), st7) => (Ok((subst::composed(s1, sr), pts, rt)), st7),
                                }
                            },
                        }
                    },
                }
            }
        },
    }
}

/// An argument of a call: its type meets that of the parameter. A plain value may be passed
/// where a linear one is expected.
#[verifier::opaque]
pub open spec fn argument_rule(cx: Cx, st: St, span: Span, s: SubstV, pt: TypeV, ta: TypeV) -> (
    Result<SubstV, TypeErrorV>,
    St,
) {
    let expected = subst::substituted(s, pt);
    let actual = subst::substituted(s, ta);
    match state::st_unify(cx, st, actual, expected) {
        (Ok(su), st1) => (Ok(subst::composed(s, su)), st1),
        (Err(m), st1) => match expected {
            TypeV::Linear(inner) => {
                if env::has_linear(st1.env, actual) {
                    (Err(env::error_at(m, span)), st1)
                } else {
                    match state::st_unify(cx, st1, actual, *inner) {
                        (Ok(su), st2) => (Ok(subst::composed(s, su)), st2),
                        (Err(m2), st2) => (
                            Err(
                                env::error_at(
                                    m + " (and linear weakening failed: "@ + m2 + ")"@,
                                    span,
                                ),
                            ),
                            st2,
                        ),
                    }
                }
            },
            _ => (Err(env::error_at(m, span)), st1),
        },
    }
}

fn labels_of_params(params: &Vec<(String, Type)>) -> (r: Vec<String>)
    ensures
        text::texts(r@) == item_labels(types::fields_view(params@)),
{
    let mut out: Vec<String> = Vec::new();
    let mut i: usize = 0;
    while i < params.len()
        invariant
            i <= params.len(),
            out.len() == i,
            forall|j: int| 0 <= j < i ==> (#[trigger] out@[j])@ == params@[j].0@,
        decreases params.len() - i,
    {
        out.push(params[i].0.clone());
        i = i + 1;
    }
    assert(text::texts(out@) =~= item_labels(types::fields_view(params@)));
    out
}

fn call_count_error(func: &str, params: &Vec<(String, Type)>, labels: &Vec<String>, span: Span) -> (r:
    TypeError)
    ensures
        r@ == env::error_at(
            call_count_message(func@, types::fields_view(params@), text::texts(labels@)),
            span,
        ),
{
    let e = usize_to_text(params.len());
    let g = usize_to_text(labels.len());
    let names = labels_of_params(params);
    let pl = join(&names, ", ");
    let al = join(labels, ", ");
    let h = cat5(
        "Arity mismatch in call to `",
        func,
        "`: expected ",
        e.as_str(),
        " arguments, got ",
    );
    let h2 = cat5(
        h.as_str(),
        g.as_str(),
        ".\nExpected parameters: (",
        pl.as_str(),
        ")\nProvided arguments: (",
    );
    proof {
        assert(types::fields_view(params@).len() == params.len());
        assert(text::texts(labels@).len() == labels.len());
    }
    TypeError::new(cat3(h2.as_str(), al.as_str(), ")"), span)
}

// ---------------------------------------------------------------------------
// Constructors
// ---------------------------------------------------------------------------

/// What a message about the arguments of a constructor ends with.
pub open spec fn ctor_context(
    fields: Seq<(Option<Text>, TypeV)>,
    labels: Seq<Option<Text>>,
) -> Text {
    "\nExpected fields: "@ + helpers::ctor_fields_summary(fields) + "\nProvided arguments: "@
        + helpers::ctor_args_summary(labels)
}

fn ctor_context_text<T>(
    fields: &Vec<(Option<String>, Type)>,
    args: &Vec<(Option<String>, T)>,
) -> (r: String)
    ensures
        r@ == ctor_context(ast::ctor_fields(fields@), helpers::raw_labels(args@)),
{
    let f = summarize_ctor_fields(fields);
    let a = summarize_ctor_args(args);
    cat4("\nExpected fields: ", f.as_str(), "\nProvided arguments: ", a.as_str())
}

/// The message for a constructor with the wrong number of arguments.
pub open spec fn ctor_count_message(
    name: Text,
    fields: Seq<(Option<Text>, TypeV)>,
    labels: Seq<Option<Text>>,
) -> Text {
    "Arity mismatch in constructor `"@ + name + "`: expected "@ + text::decimal(fields.len())
        + " arguments, got "@ + text::decimal(labels.len()) + "."@ + ctor_context(fields, labels)
}

/// The message for an argument of a constructor that has no place.
pub open spec fn ctor_place_message(
    why: Misplaced,
    label: Text,
    name: Text,
    fields: Seq<(Option<Text>, TypeV)>,
    labels: Seq<Option<Text>>,
) -> Text {
    match why {
        Misplaced::Duplicate => "Duplicate labeled argument `"@ + label + "` in constructor `"@
            + name + "`."@ + ctor_context(fields, labels),
        Misplaced::Unknown => "Unknown label `"@ + label + "` for constructor `"@ + name + "`."@
            + ctor_context(fields, labels),
        Misplaced::TooMany => "Too many positional arguments for constructor `"@ + name + "`."@
            + ctor_context(fields, labels),
    }
}

/// The message for a field that a constructor is not given.
pub open spec fn ctor_missing_message(
    name: Text,
    i: nat,
    fields: Seq<(Option<Text>, TypeV)>,
    labels: Seq<Option<Text>>,
) -> Text {
    "Missing constructor argument for `"@ + name + "` at "@ + helpers::ctor_field_text(
        fields[i as int].0,
        i,
    ) + "."@ + ctor_context(fields, labels)
        + "\nHint: provide all fields exactly once (labels are recommended)."@
}

/// The message for an argument of a constructor of the wrong type.
pub open spec fn ctor_type_message(
    name: Text,
    i: nat,
    fields: Seq<(Option<Text>, TypeV)>,
    detail: Text,
) -> Text {
    "Type mismatch in constructor `"@ + name + "` at "@ + helpers::ctor_field_text(
        fields[i as int].0,
        i,
    ) + ".\nDetails: "@ + detail
}

/// Reports a constructor with the wrong number of arguments.
pub fn ctor_count_error<T>(
    name: &str,
    fields: &Vec<(Option<String>, Type)>,
    args: &Vec<(Option<String>, T)>,
    span: Span,
) -> (r: TypeError)
    ensures
        r@ == env::error_at(
            ctor_count_message(name@, ast::ctor_fields(fields@), helpers::raw_labels(args@)),
            span,
        ),
{
    let e = usize_to_text(fields.len());
    let g = usize_to_text(args.len());
    let c = ctor_context_text(fields, args);
    let head = cat5(
        "Arity mismatch in constructor `",
        name,
        "`: expected ",
        e.as_str(),
        " arguments, got ",
    );
    let m = cat4(head.as_str(), g.as_str(), ".", c.as_str());
    assert(ast::ctor_fields(fields@).len() == fields.len());
    assert(helpers::raw_labels(args@).len() == args.len());
    TypeError::new(m, span)
}

/// Reports an argument of a constructor that has no place.
pub fn ctor_place_error<T>(
    why: Misplaced,
    label: &Option<String>,
    name: &str,
    fields: &Vec<(Option<String>, Type)>,
    args: &Vec<(Option<String>, T)>,
    span: Span,
) -> (r: TypeError)
    ensures
        r@ == env::error_at(
            ctor_place_message(
                why,
                pattern::label_text(types::opt_text(*label)),
                name@,
                ast::ctor_fields(fields@),
                helpers::raw_labels(args@),
            ),
            span,
        ),
{
    let l = label_or_empty(label);
    let c = ctor_context_text(fields, args);
    let m = match why {
        Misplaced::Duplicate => {
            let h = cat5(
                "Duplicate labeled argument `",
                l.as_str(),
                "` in constructor `",
                name,
                "`.",
            );
            cat2(h.as_str(), c.as_str())
        },
        Misplaced::Unknown => {
            let h = cat5("Unknown label `", l.as_str(), "` for constructor `", name, "`.");
            cat2(h.as_str(), c.as_str())
        },
        Misplaced::TooMany => cat4(
            "Too many positional arguments for constructor `",
            name,
            "`.",
            c.as_str(),
        ),
    };
    TypeError::new(m, span)
}

/// Reports a field that a constructor is not given.
pub fn ctor_missing_error<T>(
    name: &str,
    i: usize,
    fields: &Vec<(Option<String>, Type)>,
    args: &Vec<(Option<String>, T)>,
    span: Span,
) -> (r: TypeError)
    requires
        i < fields.len(),
    ensures
        r@ == env::error_at(
            ctor_missing_message(name@, i as nat, ast::ctor_fields(fields@), helpers::raw_labels(args@)),
            span,
        ),
{
    let f = describe_ctor_field(&fields[i].0, i);
    let c = ctor_context_text(fields, args);
    let h = cat5("Missing constructor argument for `", name, "` at ", f.as_str(), ".");
    let m = cat3(
        h.as_str(),
        c.as_str(),
        "\nHint: provide all fields exactly once (labels are recommended).",
    );
    TypeError::new(m, span)
}

/// Reports an argument of a constructor of the wrong type.
pub fn ctor_type_error(
    name: &str,
    i: usize,
    fields: &Vec<(Option<String>, Type)>,
    detail: &str,
    span: Span,
) -> (r: TypeError)
    requires
        i < fields.len(),
    ensures
        r@ == env::error_at(
            ctor_type_message(name@, i as nat, ast::ctor_fields(fields@), detail@),
            span,
        ),
{
    let f = describe_ctor_field(&fields[i].0, i);
    let h = cat4("Type mismatch in constructor `", name, "` at ", f.as_str());
    TypeError::new(cat3(h.as_str(), ".\nDetails: ", detail), span)
}

// ---------------------------------------------------------------------------
// Elements and fields
// ---------------------------------------------------------------------------

/// The type of the elements of an array that is indexed; nothing where the type is not known
/// to be that of an array.
pub open spec fn element_type(t: TypeV) -> Option<TypeV> {
    match t {
        TypeV::Array(i) => Some(*i),
        TypeV::Borrow(b) => match *b {
            TypeV::Array(i) => Some(*i),
            _ => None,
        },
        _ => None,
    }
}

/// A type without its outermost linear wrapper.
pub open spec fn without_linear(t: TypeV) -> TypeV {
    match t {
        TypeV::Linear(i) => *i,
        _ => t,
    }
}

/// A type without its outermost linear wrapper.
pub fn strip_linear(t: Type) -> (r: Type)
    ensures
        r@ == without_linear(t@),
{
    match t {
        Type::Linear(i) => *i,
        other => other,
    }
}

/// The element type of an array.
pub fn find_element_type(t: &Type) -> (r: Option<&Type>)
    ensures
        match r {
            Some(e) => element_type(t@) == Some(e@),
            None => element_type(t@) is None,
        },
{
    match t {
        Type::Array(i) => Some(&**i),
        Type::Borrow(b) => {
            let inner: &Type = &**b;
            assert(t@ == TypeV::Borrow(Box::new(inner@)));
            match inner {
                Type::Array(i) => Some(&**i),
                _ => None,
            }
        },
        _ => None,
    }
}

/// The last steps of an index expression: the element type of what is indexed, which may not
/// hold linear data.
#[verifier::opaque]
pub open spec fn index_rule(cx: Cx, st: St, span: Span, aspan: Span, s: SubstV, t_arr: TypeV) -> (
    InferV,
    St,
) {
    let arr = without_linear(subst::substituted(s, t_arr));
    let (res, st1): (Result<(SubstV, TypeV), TypeErrorV>, St) = match element_type(arr) {
        Some(t) => (Ok((s, t)), st),
        None => {
            if arr is Borrow {
                (Err(env::error_at("Indexing non-array"@, aspan)), st)
            } else {
                let (et, sta) = state::fresh(st);
                match state::st_unify_at(cx, sta, arr, TypeV::Array(Box::new(et)), aspan) {
                    (Err(e), stb) => (Err(e), stb),
                    (Ok(su), stb) => (
                        Ok((subst::composed(s, su), subst::substituted(subst::composed(s, su), et))),
                        stb,
                    ),
                }
            }
        },
    };
    match res {
        Err(e) => (Err(e), st1),
        Ok((s1, t)) => {
            if env::has_linear(st1.env, t) {
                (Err(env::error_at("Cannot move linear element out of array"@, span)), st1)
            } else {
                (Ok((s1, t)), st1)
            }
        },
    }
}

/// The type of a field of a record type, or of a named record type.
#[verifier::opaque]
pub open spec fn field_access_type(env: EnvV, t: TypeV, name: Text) -> Option<TypeV> {
    match t {
        TypeV::Record(fs) => table::lookup(fs, name),
        TypeV::UserDefined(tn, args) => match env::env_type(env, tn) {
            Some(td) => match table::lookup(td.fields, name) {
                Some(ft) => Some(subst::substituted(env::bound_params(td.type_params, args), ft)),
                None => None,
            },
            None => None,
        },
        _ => None,
    }
}

/// Finds the type of a field.
pub fn find_field_type(env: &TypeEnv, t: &Type, name: &str) -> (r: Option<Type>)
    ensures
        ast::opt_type(r) == field_access_type(env@, t@, name@),
{
    proof {
        reveal(field_access_type);
    }
    match t {
        Type::Record(fs) => match subst_get(fs, name) {
            Some(u) => Some(u.clone()),
            None => None,
        },
        Type::UserDefined(tn, args) => match env.get_type(tn.as_str()) {
            Some(td) => match subst_get(&td.fields, name) {
                Some(ft) => {
                    let s = bind_params(&td.type_params, args);
                    Some(apply_subst_type(&s, ft))
                },
                None => None,
            },
            None => None,
        },
        _ => None,
    }
}

// ---------------------------------------------------------------------------
// Lambdas
// ---------------------------------------------------------------------------

/// The parameters of a lambda in its type; those of a linear sigil have a linear type.
pub open spec fn lambda_params(params: Seq<ParamV>, vars: Seq<Text>, linear: bool) -> Seq<
    (Text, TypeV),
> {
    params.map_values(
        |p: ParamV|
            (
                p.name,
                if linear && p.sigil == Sigil::Linear {
                    TypeV::Linear(Box::new(helpers::signature_vars(vars, p.typ)))
                } else {
                    helpers::signature_vars(vars, p.typ)
                },
            ),
    )
}

/// The type that a lambda declares.
#[verifier::opaque]
pub open spec fn lambda_type(
    type_params: Seq<Text>,
    params: Seq<ParamV>,
    ret: TypeV,
    reqs: TypeV,
    throws: TypeV,
    linear: bool,
) -> TypeV {
    let vars = text::distinct_texts(type_params);
    TypeV::Arrow(
        lambda_params(params, vars, linear),
        Box::new(helpers::signature_vars(vars, ret)),
        Box::new(helpers::signature_vars(vars, reqs)),
        Box::new(helpers::signature_vars(vars, throws)),
    )
}

/// Makes the type that a lambda declares.
pub fn make_lambda_type(
    type_params: &Vec<String>,
    params: &Vec<Param>,
    ret: &Type,
    reqs: &Type,
    throws: &Type,
    linear: bool,
) -> (r: Type)
    ensures
        r@ == lambda_type(
            text::texts(type_params@),
            ast::params_view(params@),
            ret@,
            reqs@,
            throws@,
            linear,
        ),
{
    proof {
        reveal(lambda_type);
    }
    let vars = to_set(type_params);
    let mut out: Vec<(String, Type)> = Vec::new();
    let mut i: usize = 0;
    while i < params.len()
        invariant
            i <= params.len(),
            out.len() == i,
            forall|j: int|
                0 <= j < i ==> ((#[trigger] out@[j]).0@, out@[j].1@) == lambda_params(
                    ast::params_view(params@),
                    text::texts(vars@),
                    linear,
                )[j],
        decreases params.len() - i,
    {
        let p = &params[i];
        assert(ast::params_view(params@)[i as int] == p@);
        let t = convert_user_defined_to_var(&vars, &p.typ);
        let t = if linear && p.sigil == Sigil::Linear {
            Type::Linear(Box::new(t))
        } else {
            t
        };
        out.push((p.name.clone(), t));
        i = i + 1;
    }
    assert(types::fields_view(out@) =~= lambda_params(ast::params_view(params@), text::texts(vars@), linear));
    Type::Arrow(
        out,
        Box::new(convert_user_defined_to_var(&vars, ret)),
        Box::new(convert_user_defined_to_var(&vars, reqs)),
        Box::new(convert_user_defined_to_var(&vars, throws)),
    )
}

/// The captured bindings from index `i` on: those with linear data, or the first that is a
/// reference.
pub open spec fn captured_linear(env: EnvV, captured: Seq<Text>, i: nat, acc: Seq<Text>) -> Result<
    Seq<Text>,
    Text,
>
    decreases captured.len() - i,
{
    if i >= captured.len() {
        Ok(acc)
    } else {
        match env::env_get(env, captured[i as int]) {
            Some(sch) => {
                if helpers::has_ref(sch.typ) {
                    Err(
                        "Lambda cannot capture Ref value '"@ + captured[i as int] + "'"@,
                    )
                } else if env::has_linear(env, sch.typ) {
                    captured_linear(env, captured, i + 1, text::with_text(acc, captured[i as int]))
                } else {
                    captured_linear(env, captured, i + 1, acc)
                }
            },
            None => captured_linear(env, captured, i + 1, acc),
        }
    }
}

/// Finds the captured bindings with linear data.
pub fn find_captured_linear(env: &TypeEnv, captured: &Vec<String>) -> (r: Result<
    Vec<String>,
    String,
>)
    ensures
        match r {
            Ok(v) => captured_linear(env@, text::texts(captured@), 0, Seq::empty()) == Ok::<
                Seq<Text>,
                Text,
            >(text::texts(v@)),
            Err(m) => captured_linear(env@, text::texts(captured@), 0, Seq::empty()) == Err::<
                Seq<Text>,
                Text,
            >(m@),
        },
{
    let mut acc: Vec<String> = Vec::new();
    assert(text::texts(acc@) =~= Seq::<Text>::empty());
    let mut i: usize = 0;
    while i < captured.len()
        invariant
            i <= captured.len(),
            captured_linear(env@, text::texts(captured@), i as nat, text::texts(acc@)) == captured_linear(
                env@,
                text::texts(captured@),
                0,
                Seq::empty(),
            ),
        decreases captured.len() - i,
    {
        match env.get(captured[i].as_str()) {
            Some(sch) => {
                if contains_ref(&sch.typ) {
                    return Err(
                        cat3("Lambda cannot capture Ref value '", captured[i].as_str(), "'"),
                    );
                }
                if env.contains_linear_type(&sch.typ) {
                    list_add(&mut acc, captured[i].clone());
                }
            },
            None => {},
        }
        i = i + 1;
    }
    Ok(acc)
}

/// The environment with the parameters from index `i` on inserted.
pub open spec fn env_with_params(env: EnvV, params: Seq<ParamV>, i: nat) -> EnvV
    decreases params.len() - i,
{
    if i >= params.len() {
        env
    } else {
        let p = params[i as int];
        env_with_params(env::env_insert(env, p.sigil.key(p.name), env::mono(p.typ)), params, i + 1)
    }
}

/// Inserts parameters into an environment.
pub fn insert_params(env: &mut TypeEnv, params: &Vec<Param>)
    ensures
        final(env)@ == env_with_params(old(env)@, ast::params_view(params@), 0),
        env::keys_kept(old(env)@, final(env)@),
{
    let mut i: usize = 0;
    while i < params.len()
        invariant
            env::keys_kept(old(env)@, env@),
            i <= params.len(),
            env_with_params(env@, ast::params_view(params@), i as nat) == env_with_params(
                old(env)@,
                ast::params_view(params@),
                0,
            ),
        decreases params.len() - i,
    {
        let p = &params[i];
        assert(ast::params_view(params@)[i as int] == p@);
        env.insert(p.sigil.get_key(p.name.as_str()), mono_scheme(p.typ.clone()));
        i = i + 1;
    }
}

/// Consuming the names from index `i` on.
pub open spec fn consume_all(env: EnvV, names: Seq<Text>, i: nat) -> (Result<(), Text>, EnvV)
    decreases names.len() - i,
{
    if i >= names.len() {
        (Ok(()), env)
    } else {
        match env::env_consume(env, names[i as int]) {
            (Ok(()), env1) => consume_all(env1, names, i + 1),
            (Err(m), env1) => (Err(m), env1),
        }
    }
}

/// Consumes each of a list of names.
pub fn consume_names(env: &mut TypeEnv, names: &Vec<String>) -> (r: Result<(), String>)
    ensures
        final(env)@ == consume_all(old(env)@, text::texts(names@), 0).1,
        match r {
            Ok(()) => consume_all(old(env)@, text::texts(names@), 0).0 is Ok,
            Err(m) => consume_all(old(env)@, text::texts(names@), 0).0 == Err::<(), Text>(m@),
        },
        env::keys_kept(old(env)@, final(env)@),
{
    let mut i: usize = 0;
    while i < names.len()
        invariant
            env::keys_kept(old(env)@, env@),
            i <= names.len(),
            consume_all(env@, text::texts(names@), i as nat) == consume_all(
                old(env)@,
                text::texts(names@),
                0,
            ),
        decreases names.len() - i,
    {
        match env.consume(names[i].as_str()) {
            Ok(()) => {},
            Err(m) => {
                return Err(m);
            },
        }
        i = i + 1;
    }
    Ok(())
}

/// The message for linear bindings that a lambda leaves.
pub open spec fn lambda_unused_message(names: Seq<Text>) -> Text {
    "Unused linear in lambda: {"@ + text::joined(render::quoted_list(names), ", "@) + "}"@
}

/// What follows the check of a lambda's body: `outer` is the environment around it, `inner`
/// that at the end of its body, and `captured` the captured bindings with linear data. The
/// result says whether the lambda is linear.
#[verifier::opaque]
pub open spec fn lambda_close(
    outer: EnvV,
    inner: EnvV,
    captured: Seq<Text>,
    span: Span,
) -> (Result<bool, TypeErrorV>, EnvV) {
    let before = outer.linear_vars;
    let left = env::undroppable_from(inner.vars, text::difference_texts(inner.linear_vars, before), 0);
    if left.len() > 0 {
        (Err(env::error_at(lambda_unused_message(left), span)), outer)
    } else {
        let taken = text::union_texts(captured, text::difference_texts(before, inner.linear_vars));
        match consume_all(outer, taken, 0) {
            (Err(m), env) => (Err(env::error_at(m, span)), env),
            (Ok(()), env) => (Ok(taken.len() > 0), env),
        }
    }
}

/// Closes a lambda whose body has been checked.
pub fn close_lambda(
    outer: &mut TypeEnv,
    inner: &TypeEnv,
    captured: &Vec<String>,
    span: &Span,
) -> (r: Result<bool, TypeError>)
    ensures
        final(outer)@ == lambda_close(old(outer)@, inner@, text::texts(captured@), *span).1,
        match r {
            Ok(b) => lambda_close(old(outer)@, inner@, text::texts(captured@), *span).0 == Ok::<
                bool,
                TypeErrorV,
            >(b),
            Err(e) => lambda_close(old(outer)@, inner@, text::texts(captured@), *span).0 == Err::<
                bool,
                TypeErrorV,
            >(e@),
        },
        env::keys_kept(old(outer)@, final(outer)@),
{
    proof {
        reveal(lambda_close);
    }
    let fresh_linear = list_difference(&inner.linear_vars, &outer.linear_vars);
    let left = undroppable(&inner.vars, &fresh_linear);
    assert(text::texts(left@).len() == left.len());
    if left.len() > 0 {
        let parts = quote_all(&left);
        let list = join(&parts, ", ");
        return Err(
            TypeError::new(cat3("Unused linear in lambda: {", list.as_str(), "}"), *span),
        );
    }
    let consumed = list_difference(&outer.linear_vars, &inner.linear_vars);
    let mut taken = copy_texts(captured);
    list_extend(&mut taken, &consumed);
    assert(text::texts(taken@).len() == taken.len());
    match consume_names(outer, &taken) {
        Err(m) => Err(TypeError::new(m, *span)),
        Ok(()) => Ok(taken.len() > 0),
    }
}

/// The error for a body that should yield a value and has no `return`.
#[verifier::opaque]
pub open spec fn no_return_error(body: Seq<Spanned<StmtV>>, ret: TypeV, span: Span) -> Option<
    TypeErrorV,
> {
    if !helpers::has_return(body) && !(ret is Unit) {
        Some(
            env::error_at(
                "Function body has no return statement; implicit return type is Unit"@,
                span,
            ),
        )
    } else {
        None
    }
}

/// Checks that a body that should yield a value has a `return`.
pub fn check_has_return(body: &Vec<Spanned<Stmt>>, ret: &Type, span: &Span) -> (r: Result<
    (),
    TypeError,
>)
    ensures
        match r {
            Ok(()) => no_return_error(ast::stmts_view(body@), ret@, *span) is None,
            Err(e) => no_return_error(ast::stmts_view(body@), ret@, *span) == Some(e@),
        },
{
    proof {
        reveal(no_return_error);
    }
    if !contains_return(body) && !matches!(ret, Type::Unit) {
        return Err(
            TypeError::new(
                owned("Function body has no return statement; implicit return type is Unit"),
                *span,
            ),
        );
    }
    Ok(())
}

// ---------------------------------------------------------------------------
// Bindings
// ---------------------------------------------------------------------------

/// The type that a binding gets by its sigil, the warnings after it, or the reason why it may
/// not be bound.
pub open spec fn sigil_rule(
    env: EnvV,
    warnings: Seq<TypeWarningV>,
    name: Text,
    sigil: Sigil,
    t: TypeV,
    span: Span,
) -> (Result<TypeV, TypeErrorV>, Seq<TypeWarningV>) {
    match sigil {
        Sigil::Mutable => {
            if env::has_linear(env, t) {
                (Err(env::error_at("Mutable linear"@, span)), warnings)
            } else {
                (Ok(TypeV::Ref(Box::new(t))), warnings)
            }
        },
        Sigil::Linear => {
            let w = if helpers::auto_droppable(t) {
                warnings.push(
                    TypeWarningV {
                        message: "Linear sigil '%' on '"@ + name
                            + "' is unnecessary: primitive type '"@ + render::type_debug(t)
                            + "' is automatically managed"@,
                        span,
                    },
                )
            } else {
                warnings
            };
            (
                Ok(
                    if t is Linear {
                        t
                    } else {
                        TypeV::Linear(Box::new(t))
                    },
                ),
                w,
            )
        },
        Sigil::Immutable => {
            if helpers::has_ref(t) {
                (Err(env::error_at("Immutable Ref"@, span)), warnings)
            } else {
                (Ok(t), warnings)
            }
        },
        Sigil::Borrow => {
            let inner = match t {
                TypeV::Linear(i) => *i,
                TypeV::Borrow(i) => *i,
                TypeV::Ref(i) => *i,
                _ => t,
            };
            (Ok(TypeV::Borrow(Box::new(inner))), warnings)
        },
    }
}

/// The last steps of a `let` whose value has the type `t1` under `s1`.
#[verifier::opaque]
pub open spec fn let_rule(
    cx: Cx,
    st: St,
    span: Span,
    name: Text,
    sigil: Sigil,
    ann: Option<TypeV>,
    s1: SubstV,
    t1: TypeV,
) -> (Result<(), TypeErrorV>, St) {
    let sta = state::with_env(st, env::env_apply(s1, st.env));
    let t = subst::substituted(s1, t1);
    let (typed, stb): (Result<TypeV, TypeErrorV>, St) = match ann {
        Some(a) => match state::st_unify_at(cx, sta, t, a, span) {
            (Err(e), stx) => (Err(e), stx),
            (Ok(sa), stx) => (
                Ok(subst::substituted(sa, a)),
                state::with_env(stx, env::env_apply(sa, stx.env)),
            ),
        },
        None => (Ok(helpers::defaulted(t)), sta),
    };
    match typed {
        Err(e) => (Err(e), stb),
        Ok(t2) => {
            let (r, w) = sigil_rule(stb.env, stb.warnings, name, sigil, t2, span);
            let stc = St { warnings: w, ..stb };
            match r {
                Err(e) => (Err(e), stc),
                Ok(ft) => (
                    Ok(()),
                    state::with_env(
                        stc,
                        env::env_insert(stc.env, sigil.key(name), env::generalized(stc.env, ft)),
                    ),
                ),
            }
        },
    }
}

/// The environment in which the value of a `let` is inferred: a lambda that refers to its own
/// name sees it with its declared type.
#[verifier::opaque]
pub open spec fn let_scope(
    env: EnvV,
    name: Text,
    sigil: Sigil,
    ann: Option<TypeV>,
    value: Spanned<ExprV>,
) -> Result<EnvV, TypeErrorV> {
    match value.node {
        ExprV::Lambda { type_params, params, ret_type, requires: reqs, throws, body } => {
            if !capture::lambda_refers(body, params, name) {
                Ok(env)
            } else if sigil != Sigil::Immutable {
                Err(env::error_at("Recursive lambda binding must be immutable"@, value.span))
            } else {
                let t = match ann {
                    Some(a) => a,
                    None => lambda_type(type_params, params, ret_type, reqs, throws, false),
                };
                Ok(env::env_insert(env, sigil.key(name), env::mono(t)))
            }
        },
        _ => Ok(env),
    }
}

/// Prepares the environment in which the value of a `let` is inferred.
pub fn prepare_let(
    env: &mut TypeEnv,
    name: &str,
    sigil: &Sigil,
    ann: &Option<Type>,
    value: &Spanned<Expr>,
) -> (r: Result<(), TypeError>)
    ensures
        match r {
            Ok(()) => let_scope(old(env)@, name@, *sigil, ast::opt_type(*ann), value@) == Ok::<
                EnvV,
                TypeErrorV,
            >(final(env)@),
            Err(e) => {
                &&& let_scope(old(env)@, name@, *sigil, ast::opt_type(*ann), value@) == Err::<
                    EnvV,
                    TypeErrorV,
                >(e@)
                &&& final(env)@ == old(env)@
            },
        },
        env::keys_kept(old(env)@, final(env)@),
{
    proof {
        reveal(let_scope);
    }
    match &value.node {
        Expr::Lambda { type_params, params, ret_type, requires: reqs, throws, body } => {
            if lambda_references_name(body, params, name) {
                if *sigil != Sigil::Immutable {
                    return Err(
                        TypeError::new(
                            owned("Recursive lambda binding must be immutable"),
                            value.span,
                        ),
                    );
                }
                let t = match ann {
                    Some(a) => a.clone(),
                    None => make_lambda_type(
                        type_params,
                        params,
                        ret_type,
                        reqs,
                        throws,
                        false,
                    ),
                };
                env.insert(sigil.get_key(name), mono_scheme(t));
            }
            Ok(())
        },
        _ => Ok(()),
    }
}

// ---------------------------------------------------------------------------
// Handlers
// ---------------------------------------------------------------------------

/// The methods that the variables from index `i` on declare behind a prefix, each with an
/// instance of its type; and the next number.
pub open spec fn port_methods(
    acc: Seq<(Text, TypeV)>,
    vars: Seq<(Text, SchemeV)>,
    prefix: Text,
    i: nat,
    st: St,
) -> (Seq<(Text, TypeV)>, St)
    decreases vars.len() - i,
{
    if i >= vars.len() {
        (acc, st)
    } else if text::begins_with(vars[i as int].0, prefix) {
        let (t, st1) = state::instantiated(st, vars[i as int].1);
        port_methods(
            table::store(acc, vars[i as int].0.skip(prefix.len() as int), t),
            vars,
            prefix,
            i + 1,
            st1,
        )
    } else {
        port_methods(acc, vars, prefix, i + 1, st)
    }
}

/// The type of a function of a handler.
pub open spec fn method_type(f: FunctionV) -> TypeV {
    TypeV::Arrow(
        f.params.map_values(|p: ParamV| (p.name, p.typ)),
        Box::new(f.ret_type),
        Box::new(f.requires),
        Box::new(f.throws),
    )
}

/// Makes the type of a function of a handler.
pub fn make_method_type(f: &Function) -> (r: Type)
    ensures
        r@ == method_type(f@),
{
    let mut out: Vec<(String, Type)> = Vec::new();
    let mut i: usize = 0;
    while i < f.params.len()
        invariant
            i <= f.params.len(),
            out.len() == i,
            forall|j: int|
                0 <= j < i ==> (#[trigger] out@[j]).0@ == f.params@[j].name@ && out@[j].1@
                    == f.params@[j].typ@,
        decreases f.params.len() - i,
    {
        out.push((f.params[i].name.clone(), f.params[i].typ.clone()));
        i = i + 1;
    }
    assert(types::fields_view(out@) =~= f@.params.map_values(|p: ParamV| (p.name, p.typ)));
    Type::Arrow(
        out,
        Box::new(f.ret_type.clone()),
        Box::new(f.requires.clone()),
        Box::new(f.throws.clone()),
    )
}

/// A method of a handler against the port that declares it.
#[verifier::opaque]
pub open spec fn method_rule(
    cx: Cx,
    st: St,
    span: Span,
    port: Text,
    methods: Seq<(Text, TypeV)>,
    f: FunctionV,
) -> (Result<(), TypeErrorV>, St) {
    match table::lookup(methods, f.name) {
        None => (
            Err(
                env::error_at(
                    "Handler '"@ + port + "."@ + f.name + "' is not declared in port '"@ + port
                        + "'"@,
                    span,
                ),
            ),
            st,
        ),
        Some(t) => match state::st_unify(cx, st, method_type(f), helpers::stripped(t, port)) {
            (Ok(_), st1) => (Ok(()), st1),
            (Err(m), st1) => (
                Err(
                    env::error_at(
                        "Handler '"@ + port + "."@ + f.name + "' signature mismatch: "@ + m,
                        span,
                    ),
                ),
                st1,
            ),
        },
    }
}

/// The error for methods of a port that a handler leaves out.
#[verifier::opaque]
pub open spec fn methods_missing(
    methods: Seq<(Text, TypeV)>,
    implemented: Seq<Text>,
    port: Text,
    span: Span,
) -> Option<TypeErrorV> {
    let missing = text::sorted_texts(text::difference_texts(item_labels(methods), implemented));
    if missing.len() > 0 {
        Some(
            env::error_at(
                "Handler '"@ + port + "' is missing methods: "@ + text::joined(missing, ", "@),
                span,
            ),
        )
    } else {
        None
    }
}

/// Checks that a handler leaves out no method of its port.
pub fn check_methods_present(
    methods: &Vec<(String, Type)>,
    implemented: &Vec<String>,
    port: &str,
    span: &Span,
) -> (r: Result<(), TypeError>)
    ensures
        match r {
            Ok(()) => methods_missing(
                types::fields_view(methods@),
                text::texts(implemented@),
                port@,
                *span,
            ) is None,
            Err(e) => methods_missing(
                types::fields_view(methods@),
                text::texts(implemented@),
                port@,
                *span,
            ) == Some(e@),
        },
{
    proof {
        reveal(methods_missing);
    }
    let names = labels_of_params(methods);
    let diff = list_difference(&names, implemented);
    let missing = sort_texts(&diff);
    assert(text::texts(missing@).len() == missing.len());
    if missing.len() > 0 {
        let list = join(&missing, ", ");
        return Err(
            TypeError::new(
                cat4("Handler '", port, "' is missing methods: ", list.as_str()),
                *span,
            ),
        );
    }
    Ok(())
}

// ---------------------------------------------------------------------------
// Injection
// ---------------------------------------------------------------------------

/// The handlers of an `inject` from index `i` on: the requirements they meet, their ports, and
/// the coeffects they need themselves.
pub open spec fn inject_handlers(
    st: St,
    span: Span,
    handlers: Seq<Text>,
    i: nat,
    reqs: Seq<TypeV>,
    ports: Seq<Text>,
    extra: Seq<Text>,
) -> (Result<(Seq<TypeV>, Seq<Text>, Seq<Text>), TypeErrorV>, St)
    decreases handlers.len() - i,
{
    if i >= handlers.len() {
        (Ok((reqs, ports, extra)), st)
    } else {
        match env::env_get(st.env, handlers[i as int]) {
            None => (
                Err(
                    env::error_at(
                        "Handler '"@ + handlers[i as int] + "' not found in scope"@,
                        span,
                    ),
                ),
                st,
            ),
            Some(sch) => {
                let (t, st1) = state::instantiated(st, sch);
                match t {
                    TypeV::Handler(port, q) => inject_handlers(
                        st1,
                        span,
                        handlers,
                        i + 1,
                        helpers::with_type(reqs, helpers::named_type(port)),
                        text::with_text(ports, port),
                        text::union_texts(extra, helpers::row_port_names(*q)),
                    ),
                    _ => (
                        Err(
                            env::error_at(
                                "'"@ + handlers[i as int]
                                    + "' is not a handler value (expected type 'handler <Port>')"@,
                                span,
                            ),
                        ),
                        st1,
                    ),
                }
            },
        }
    }
}

/// `reqs` extended by the names from index `i` on.
pub open spec fn with_named_types(reqs: Seq<TypeV>, names: Seq<Text>, i: nat) -> Seq<TypeV>
    decreases names.len() - i,
{
    if i >= names.len() {
        reqs
    } else {
        with_named_types(helpers::with_type(reqs, helpers::named_type(names[i as int])), names, i + 1)
    }
}

/// The coeffects at hand inside an `inject`.
pub open spec fn injected_row(eq: TypeV, reqs: Seq<TypeV>) -> TypeV {
    match eq {
        TypeV::Row(members, tail) => TypeV::Row(helpers::merged_from(members, reqs, 0), tail),
        TypeV::Unit => TypeV::Row(reqs, None),
        _ => TypeV::Row(reqs, Some(Box::new(eq))),
    }
}

/// An `inject` before its body: the coeffects at hand inside it. A handler whose coeffect the
/// body does not need is an error.
#[verifier::opaque]
pub open spec fn inject_rule(
    st: St,
    span: Span,
    handlers: Seq<Text>,
    body: Seq<Spanned<StmtV>>,
    eq: TypeV,
) -> (Result<TypeV, TypeErrorV>, St) {
    match inject_handlers(st, span, handlers, 0, Seq::empty(), Seq::empty(), Seq::empty()) {
        (Err(e), st1) => (Err(e), st1),
        (Ok((reqs, ports, extra)), st1) => {
            let n = lint::body_needs(body, st1.env);
            let idle = text::sorted_texts(text::difference_texts(ports, n.reqs));
            if !n.unknown && idle.len() > 0 {
                (
                    Err(
                        env::error_at(
                            "Inject handler(s) "@ + text::joined(idle, ", "@)
                                + " does not reduce requirements in this scope"@,
                            span,
                        ),
                    ),
                    st1,
                )
            } else {
                (Ok(injected_row(eq, with_named_types(reqs, extra, 0))), st1)
            }
        },
    }
}

fn add_named_types(reqs: &mut Vec<Type>, names: &Vec<String>)
    ensures
        types::types_view(final(reqs)@) == with_named_types(types::types_view(old(reqs)@), text::texts(names@), 0),
{
    let mut i: usize = 0;
    while i < names.len()
        invariant
            i <= names.len(),
            with_named_types(types::types_view(reqs@), text::texts(names@), i as nat) == with_named_types(
                types::types_view(old(reqs)@),
                text::texts(names@),
                0,
            ),
        decreases names.len() - i,
    {
        add_type(reqs, make_named(names[i].clone()));
        i = i + 1;
    }
}

fn make_injected_row(eq: &Type, reqs: Vec<Type>) -> (r: Type)
    ensures
        r@ == injected_row(eq@, types::types_view(reqs@)),
{
    match eq {
        Type::Row(members, tail) => {
            let mut merged = copy_types(members);
            add_types(&mut merged, &reqs);
            Type::Row(merged, copy_tail(tail))
        },
        Type::Unit => Type::Row(reqs, None),
        _ => Type::Row(reqs, Some(Box::new(eq.clone()))),
    }
}

// ---------------------------------------------------------------------------
// Tasks
// ---------------------------------------------------------------------------

/// The environment of a task, extended by the bindings from index `i` on, references left out;
/// and those of them with linear data.
pub open spec fn task_scope(
    te: EnvV,
    vars: Seq<(Text, SchemeV)>,
    i: nat,
    captured: Seq<Text>,
) -> (EnvV, Seq<Text>)
    decreases vars.len() - i,
{
    if i >= vars.len() {
        (te, captured)
    } else if text::begins_with_char(vars[i as int].0, '~') {
        task_scope(te, vars, i + 1, captured)
    } else {
        let env = env::env_insert(te, vars[i as int].0, vars[i as int].1);
        task_scope(
            env,
            vars,
            i + 1,
            if env::has_linear(env, vars[i as int].1.typ) {
                text::with_text(captured, vars[i as int].0)
            } else {
                captured
            },
        )
    }
}

/// Makes the environment of a task.
pub fn make_task_scope(oe: &TypeEnv) -> (r: (TypeEnv, Vec<String>))
    ensures
        (r.0@, text::texts(r.1@)) == task_scope(
            EnvV { types: oe@.types, enums: oe@.enums, ..env::empty_env() },
            oe@.vars,
            0,
            Seq::empty(),
        ),
{
    let ghost vars = oe@.vars;
    let mut te = TypeEnv::new();
    te.types = copy_typedefs(&oe.types);
    te.enums = copy_enums(&oe.enums);
    let ghost start = te@;
    let mut captured: Vec<String> = Vec::new();
    assert(text::texts(captured@) =~= Seq::<Text>::empty());
    let mut i: usize = 0;
    while i < oe.vars.len()
        invariant
            i <= oe.vars.len(),
            vars == env::schemes_view(oe.vars@),
            task_scope(te@, vars, i as nat, text::texts(captured@)) == task_scope(
                start,
                vars,
                0,
                Seq::empty(),
            ),
        decreases oe.vars.len() - i,
    {
        let entry = &oe.vars[i];
        assert(vars[i as int] == (entry.0@, entry.1@));
        if !starts_with_char(entry.0.as_str(), '~') {
            te.insert(entry.0.clone(), entry.1.clone());
            if te.contains_linear_type(&entry.1.typ) {
                list_add(&mut captured, entry.0.clone());
            }
        }
        i = i + 1;
    }
    (te, captured)
}

/// The error for linear bindings that a task makes and leaves.
#[verifier::opaque]
pub open spec fn task_unused(te: EnvV, captured: Seq<Text>, span: Span) -> Option<TypeErrorV> {
    let left = env::undroppable_from(te.vars, text::difference_texts(te.linear_vars, captured), 0);
    if left.len() > 0 {
        Some(
            env::error_at(
                "Unused linear in task: ["@ + text::joined(render::quoted_list(left), ", "@) + "]"@,
                span,
            ),
        )
    } else {
        None
    }
}

/// Checks that a task leaves no linear binding of its own.
pub fn check_task_unused(te: &TypeEnv, captured: &Vec<String>, span: &Span) -> (r: Result<
    (),
    TypeError,
>)
    ensures
        match r {
            Ok(()) => task_unused(te@, text::texts(captured@), *span) is None,
            Err(e) => task_unused(te@, text::texts(captured@), *span) == Some(e@),
        },
{
    proof {
        reveal(task_unused);
    }
    let own = list_difference(&te.linear_vars, captured);
    let left = undroppable(&te.vars, &own);
    assert(text::texts(left@).len() == left.len());
    if left.len() > 0 {
        let parts = quote_all(&left);
        let list = join(&parts, ", ");
        return Err(
            TypeError::new(cat3("Unused linear in task: [", list.as_str(), "]"), *span),
        );
    }
    Ok(())
}

// ---------------------------------------------------------------------------
// Rules that take variables from the supply
// ---------------------------------------------------------------------------

impl<'a> Infer<'a> {
    /// Applies an operator to operands of given types.
    pub fn apply_operator(
        &mut self,
        span: &Span,
        lspan: &Span,
        rspan: &Span,
        op: BinaryOp,
        s: &Vec<(String, Type)>,
        t1: &Type,
        t2: &Type,
        Ghost(env): Ghost<EnvV>,
    ) -> (r: Result<(Subst, Type), TypeError>)
        ensures
            state::infer_matches(
                r,
                operator_rule(
                    old(self).cx(),
                    old(self).st(env),
                    *span,
                    *lspan,
                    *rspan,
                    op,
                    types::fields_view(s@),
                    t1@,
                    t2@,
                ).0,
            ),
            final(self).st(env) == operator_rule(
                old(self).cx(),
                old(self).st(env),
                *span,
                *lspan,
                *rspan,
                op,
                types::fields_view(s@),
                t1@,
                t2@,
            ).1,
            final(self).cx() == old(self).cx(),
    {
        proof {
            reveal(operator_rule);
        }
        let lt = apply_subst_type(s, t1);
        let rt = apply_subst_type(s, t2);
        let target = match select_operand_type(op, &lt, &rt) {
            Ok(t) => t,
            Err(m) => {
                return Err(TypeError::new(m, *span));
            },
        };
        let s3 = match self.unify_at(&lt, &target, lspan, Ghost(env)) {
            Ok(s3) => s3,
            Err(e) => {
                return Err(e);
            },
        };
        let sa = compose_subst(s, &s3);
        let rt2 = apply_subst_type(&sa, t2);
        let s4 = match self.unify_at(&rt2, &target, rspan, Ghost(env)) {
            Ok(s4) => s4,
            Err(e) => {
                return Err(e);
            },
        };
        let sb = compose_subst(&sa, &s4);
        Ok((sb, result_of_operator(op, target)))
    }

    /// Infers the use of a variable.
    pub fn use_variable(&mut self, env: &mut TypeEnv, span: &Span, name: &str, sigil: &Sigil) -> (r:
        Result<(Subst, Type), TypeError>)
        ensures
            state::infer_matches(r, variable_rule(old(self).st(old(env)@), *span, name@, *sigil).0),
            final(self).st(final(env)@) == variable_rule(
                old(self).st(old(env)@),
                *span,
                name@,
                *sigil,
            ).1,
            final(self).cx() == old(self).cx(),
            env::keys_kept(old(env)@, final(env)@),
    {
        proof {
            reveal(variable_rule);
        }
        let key = sigil.get_key(name);
        let sch = match env.get(key.as_str()) {
            Some(s) => s.clone(),
            None => {
                return Err(TypeError::new(cat2("Not found: ", key.as_str()), *span));
            },
        };
        let t0 = self.instantiate(&sch, Ghost(env@));
        let t = match t0 {
            Type::Ref(i) => {
                if *sigil == Sigil::Mutable {
                    *i
                } else {
                    Type::Ref(i)
                }
            },
            other => other,
        };
        if env.contains_linear_type(&t) {
            match env.consume(key.as_str()) {
                Ok(()) => {},
                Err(m) => {
                    return Err(TypeError::new(m, *span));
                },
            }
        }
        Ok((empty_subst(), t))
    }

    /// Infers a borrow of a variable.
    pub fn use_borrow(&mut self, env: &TypeEnv, span: &Span, name: &str, sigil: &Sigil) -> (r:
        Result<(Subst, Type), TypeError>)
        ensures
            state::infer_matches(r, borrow_rule(old(self).st(env@), *span, name@, *sigil).0),
            final(self).st(env@) == borrow_rule(old(self).st(env@), *span, name@, *sigil).1,
            final(self).cx() == old(self).cx(),
    {
        proof {
            reveal(borrow_rule);
        }
        let key = sigil.get_key(name);
        match env.get(key.as_str()) {
            Some(sch) => {
                let t = self.instantiate(sch, Ghost(env@));
                let i = unwrap_type(&t).clone();
                Ok((empty_subst(), Type::Borrow(Box::new(i))))
            },
            None => Err(TypeError::new(owned("Not found"), *span)),
        }
    }

    fn use_callee(&mut self, env: &mut TypeEnv, span: &Span, func: &str) -> (r: Result<
        Type,
        TypeError,
    >)
        ensures
            match r {
                Ok(t) => callee_rule(old(self).st(old(env)@), *span, func@).0 == Ok::<
                    TypeV,
                    TypeErrorV,
                >(t@),
                Err(e) => callee_rule(old(self).st(old(env)@), *span, func@).0 == Err::<
                    TypeV,
                    TypeErrorV,
                >(e@),
            },
            final(self).st(final(env)@) == callee_rule(old(self).st(old(env)@), *span, func@).1,
            final(self).cx() == old(self).cx(),
            env::keys_kept(old(env)@, final(env)@),
    {
        let sch = match env.get(func) {
            Some(s) => s.clone(),
            None => {
                return Err(TypeError::new(cat3("Fn ", func, " not found"), *span));
            },
        };
        let t = self.instantiate(&sch, Ghost(env@));
        match t {
            Type::Linear(i) => match env.consume(func) {
                Ok(()) => Ok(*i),
                Err(m) => Err(TypeError::new(m, *span)),
            },
            other => Ok(other),
        }
    }

    fn new_params(&mut self, labels: &Vec<String>) -> (r: Vec<(String, Type)>)
        ensures
            (types::fields_view(r@), final(self).supply) == state::fresh_params(
                Seq::empty(),
                text::texts(labels@),
                0,
                old(self).supply,
            ),
            r.len() == labels.len(),
            final(self).warnings == old(self).warnings,
            final(self).cx() == old(self).cx(),
    {
        let mut out: Vec<(String, Type)> = Vec::new();
        assert(types::fields_view(out@) =~= Seq::<(Text, TypeV)>::empty());
        let mut i: usize = 0;
        while i < labels.len()
            invariant
                i <= labels.len(),
                out.len() == i,
                state::fresh_params(types::fields_view(out@), text::texts(labels@), i as nat, self.supply)
                    == state::fresh_params(Seq::empty(), text::texts(labels@), 0, old(self).supply),
                self.warnings == old(self).warnings,
                self.cx() == old(self).cx(),
            decreases labels.len() - i,
        {
            let ghost before = types::fields_view(out@);
            let v = self.new_var();
            out.push((labels[i].clone(), v));
            assert(types::fields_view(out@) =~= before.push((text::texts(labels@)[i as int], v@)));
            i = i + 1;
        }
        out
    }

    /// Infers a call before its arguments.
    pub fn begin_call(
        &mut self,
        env: &mut TypeEnv,
        span: &Span,
        func: &str,
        labels: &Vec<String>,
        x: &Expect,
    ) -> (r: Result<(Subst, Vec<(String, Type)>, Type), TypeError>)
        ensures
            match r {
                Ok((s, p, t)) => {
                    &&& call_rule(
                        old(self).cx(),
                        old(self).st(old(env)@),
                        *span,
                        func@,
                        text::texts(labels@),
                        x@,
                    ).0 == Ok::<(SubstV, Seq<(Text, TypeV)>, TypeV), TypeErrorV>(
                        (types::fields_view(s@), types::fields_view(p@), t@),
                    )
                    &&& p.len() == labels.len()
                },
                Err(e) => call_rule(
                    old(self).cx(),
                    old(self).st(old(env)@),
                    *span,
                    func@,
                    text::texts(labels@),
                    x@,
                ).0 == Err::<(SubstV, Seq<(Text, TypeV)>, TypeV), TypeErrorV>(e@),
            },
            final(self).st(final(env)@) == call_rule(
                old(self).cx(),
                old(self).st(old(env)@),
                *span,
                func@,
                text::texts(labels@),
                x@,
            ).1,
            final(self).cx() == old(self).cx(),
            env::keys_kept(old(env)@, final(env)@),
    {
        proof {
            reveal(call_rule);
        }
        let ft = match self.use_callee(env, span, func) {
            Ok(t) => t,
            Err(e) => {
                return Err(e);
            },
        };
        match &ft {
            Type::Arrow(params, _, _, _) => {
                assert(types::fields_view(params@).len() == params.len());
                assert(text::texts(labels@).len() == labels.len());
                if params.len() != labels.len() {
                    return Err(call_count_error(func, params, labels, *span));
                }
            },
            _ => {},
        }
        let rt = self.new_var();
        let pts = self.new_params(labels);
        let req = self.new_var();
        let eff = self.new_var();
        let shape = Type::Arrow(
            copy_fields(&pts),
            Box::new(rt.clone()),
            Box::new(req.clone()),
            Box::new(eff.clone()),
        );
        let sf = match self.unify_at(&ft, &shape, span, Ghost(env@)) {
            Ok(s) => s,
            Err(e) => {
                return Err(e);
            },
        };
        let eci = apply_subst_type(&sf, &eff);
        let eco = self.open_row(&eci, Ghost(env@));
        let have = apply_subst_type(&sf, x.effs);
        let se = match self.unify_at(&have, &eco, span, Ghost(env@)) {
            Ok(s) => s,
            Err(e) => {
                return Err(e);
            },
        };
        let s1 = compose_subst(&sf, &se);
        let reqi = apply_subst_type(&s1, &req);
        let reqo = self.open_row(&reqi, Ghost(env@));
        let have_req = apply_subst_type(&s1, x.reqs);
        match self.unify(&have_req, &reqo) {
            Ok(sr) => Ok((compose_subst(&s1, &sr), pts, rt)),
            Err(_) => {
                let t = type_to_text(&reqi);
                Err(
                    TypeError::new(
                        cat4("Call to '", func, "' requires ", t.as_str()),
                        *span,
                    ),
                )
            },
        }
    }

    /// Meets the type of an argument with that of its parameter.
    pub fn pass_argument(
        &mut self,
        env: &TypeEnv,
        span: &Span,
        s: &Vec<(String, Type)>,
        pt: &Type,
        ta: &Type,
    ) -> (r: Result<Subst, TypeError>)
        ensures
            state::subst_matches(
                r,
                argument_rule(
                    old(self).cx(),
                    old(self).st(env@),
                    *span,
                    types::fields_view(s@),
                    pt@,
                    ta@,
                ).0,
            ),
            final(self).st(env@) == argument_rule(
                old(self).cx(),
                old(self).st(env@),
                *span,
                types::fields_view(s@),
                pt@,
                ta@,
            ).1,
            final(self).cx() == old(self).cx(),
    {
        proof {
            reveal(argument_rule);
        }
        let expected = apply_subst_type(s, pt);
        let actual = apply_subst_type(s, ta);
        match self.unify(&actual, &expected) {
            Ok(su) => Ok(compose_subst(s, &su)),
            Err(m) => match &expected {
                Type::Linear(inner) => {
                    if env.contains_linear_type(&actual) {
                        return Err(TypeError::new(m, *span));
                    }
                    match self.unify(&actual, inner) {
                        Ok(su) => Ok(compose_subst(s, &su)),
                        Err(m2) => Err(
                            TypeError::new(
                                cat4(
                                    m.as_str(),
                                    " (and linear weakening failed: ",
                                    m2.as_str(),
                                    ")",
                                ),
                                *span,
                            ),
                        ),
                    }
                },
                _ => Err(TypeError::new(m, *span)),
            },
        }
    }

    /// Finishes an index expression.
    pub fn finish_index(
        &mut self,
        env: &TypeEnv,
        span: &Span,
        aspan: &Span,
        s: Subst,
        t_arr: &Type,
    ) -> (r: Result<(Subst, Type), TypeError>)
        ensures
            state::infer_matches(
                r,
                index_rule(
                    old(self).cx(),
                    old(self).st(env@),
                    *span,
                    *aspan,
                    types::fields_view(s@),
                    t_arr@,
                ).0,
            ),
            final(self).st(env@) == index_rule(
                old(self).cx(),
                old(self).st(env@),
                *span,
                *aspan,
                types::fields_view(s@),
                t_arr@,
            ).1,
            final(self).cx() == old(self).cx(),
    {
        proof {
            reveal(index_rule);
        }
        let arr = strip_linear(apply_subst_type(&s, t_arr));
        let (s1, t) = match find_element_type(&arr) {
            Some(t) => (s, t.clone()),
            None => {
                if matches!(arr, Type::Borrow(_)) {
                    return Err(TypeError::new(owned("Indexing non-array"), *aspan));
                }
                let et = self.new_var();
                let shape = Type::Array(Box::new(et.clone()));
                match self.unify_at(&arr, &shape, aspan, Ghost(env@)) {
                    Err(e) => {
                        return Err(e);
                    },
                    Ok(su) => {
                        let s1 = compose_subst(&s, &su);
                        let t = apply_subst_type(&s1, &et);
                        (s1, t)
                    },
                }
            },
        };
        if env.contains_linear_type(&t) {
            return Err(
                TypeError::new(owned("Cannot move linear element out of array"), *span),
            );
        }
        Ok((s1, t))
    }

    fn apply_sigil(&mut self, env: &TypeEnv, name: &str, sigil: &Sigil, t: Type, span: &Span) -> (r:
        Result<Type, TypeError>)
        ensures
            match r {
                Ok(ft) => sigil_rule(
                    env@,
                    env::warnings_view(old(self).warnings@),
                    name@,
                    *sigil,
                    t@,
                    *span,
                ).0 == Ok::<TypeV, TypeErrorV>(ft@),
                Err(e) => sigil_rule(
                    env@,
                    env::warnings_view(old(self).warnings@),
                    name@,
                    *sigil,
                    t@,
                    *span,
                ).0 == Err::<TypeV, TypeErrorV>(e@),
            },
            env::warnings_view(final(self).warnings@) == sigil_rule(
                env@,
                env::warnings_view(old(self).warnings@),
                name@,
                *sigil,
                t@,
                *span,
            ).1,
            final(self).supply == old(self).supply,
            final(self).cx() == old(self).cx(),
    {
        match sigil {
            Sigil::Mutable => {
                if env.contains_linear_type(&t) {
                    return Err(TypeError::new(owned("Mutable linear"), *span));
                }
                Ok(Type::Ref(Box::new(t)))
            },
            Sigil::Linear => {
                if is_auto_droppable(&t) {
                    let d = type_to_debug(&t);
                    let m = cat5(
                        "Linear sigil '%' on '",
                        name,
                        "' is unnecessary: primitive type '",
                        d.as_str(),
                        "' is automatically managed",
                    );
                    let ghost before = env::warnings_view(self.warnings@);
                    let ghost w = TypeWarningV { message: m@, span: *span };
                    self.warnings.push(TypeWarning { message: m, span: *span });
                    assert(env::warnings_view(self.warnings@) =~= before.push(w));
                }
                match t {
                    Type::Linear(i) => Ok(Type::Linear(i)),
                    other => Ok(Type::Linear(Box::new(other))),
                }
            },
            Sigil::Immutable => {
                if contains_ref(&t) {
                    return Err(TypeError::new(owned("Immutable Ref"), *span));
                }
                Ok(t)
            },
            Sigil::Borrow => {
                let inner = match t {
                    Type::Linear(i) => i,
                    Type::Borrow(i) => i,
                    Type::Ref(i) => i,
                    other => Box::new(other),
                };
                Ok(Type::Borrow(inner))
            },
        }
    }

    /// Finishes a `let` whose value has been inferred.
    pub fn finish_let(
        &mut self,
        env: &mut TypeEnv,
        span: &Span,
        name: &str,
        sigil: &Sigil,
        ann: &Option<Type>,
        s1: &Vec<(String, Type)>,
        t1: &Type,
    ) -> (r: Result<(), TypeError>)
        ensures
            state::unit_matches(
                r,
                let_rule(
                    old(self).cx(),
                    old(self).st(old(env)@),
                    *span,
                    name@,
                    *sigil,
                    ast::opt_type(*ann),
                    types::fields_view(s1@),
                    t1@,
                ).0,
            ),
            final(self).st(final(env)@) == let_rule(
                old(self).cx(),
                old(self).st(old(env)@),
                *span,
                name@,
                *sigil,
                ast::opt_type(*ann),
                types::fields_view(s1@),
                t1@,
            ).1,
            final(self).cx() == old(self).cx(),
            env::keys_kept(old(env)@, final(env)@),
    {
        proof {
            reveal(let_rule);
        }
        env.apply(s1);
        let t = apply_subst_type(s1, t1);
        let t2 = match ann {
            Some(a) => match self.unify_at(&t, a, span, Ghost(env@)) {
                Ok(sa) => {
                    env.apply(&sa);
                    apply_subst_type(&sa, a)
                },
                Err(e) => {
                    return Err(e);
                },
            },
            None => default_numeric_literals(&t),
        };
        match self.apply_sigil(env, name, sigil, t2, span) {
            Err(e) => Err(e),
            Ok(ft) => {
                let sch = generalize(env, ft);
                env.insert(sigil.get_key(name), sch);
                Ok(())
            },
        }
    }

    /// The methods that a port declares.
    pub fn collect_port_methods(&mut self, env: &TypeEnv, prefix: &str) -> (r: Vec<(String, Type)>)
        ensures
            (types::fields_view(r@), final(self).st(env@)) == port_methods(
                Seq::empty(),
                env@.vars,
                prefix@,
                0,
                old(self).st(env@),
            ),
            final(self).cx() == old(self).cx(),
    {
        let ghost vars = env@.vars;
        let mut out = empty_subst();
        let n = prefix.unicode_len();
        let mut i: usize = 0;
        while i < env.vars.len()
            invariant
                i <= env.vars.len(),
                n == prefix@.len(),
                vars == env::schemes_view(env.vars@),
                port_methods(types::fields_view(out@), vars, prefix@, i as nat, self.st(env@))
                    == port_methods(Seq::empty(), vars, prefix@, 0, old(self).st(env@)),
                self.cx() == old(self).cx(),
            decreases env.vars.len() - i,
        {
            let entry = &env.vars[i];
            assert(vars[i as int] == (entry.0@, entry.1@));
            if starts_with(entry.0.as_str(), prefix) {
                let t = self.instantiate(&entry.1, Ghost(env@));
                let method = skip_chars(entry.0.as_str(), n);
                subst_put(&mut out, method, t);
            }
            i = i + 1;
        }
        out
    }

    /// Checks a method of a handler against its port.
    pub fn check_method(
        &mut self,
        span: &Span,
        port: &str,
        methods: &Vec<(String, Type)>,
        f: &Function,
        Ghost(env): Ghost<EnvV>,
    ) -> (r: Result<(), TypeError>)
        ensures
            state::unit_matches(
                r,
                method_rule(
                    old(self).cx(),
                    old(self).st(env),
                    *span,
                    port@,
                    types::fields_view(methods@),
                    f@,
                ).0,
            ),
            final(self).st(env) == method_rule(
                old(self).cx(),
                old(self).st(env),
                *span,
                port@,
                types::fields_view(methods@),
                f@,
            ).1,
            final(self).cx() == old(self).cx(),
    {
        proof {
            reveal(method_rule);
        }
        match subst_get(methods, f.name.as_str()) {
            None => {
                let h = cat5("Handler '", port, ".", f.name.as_str(), "' is not declared in port '");
                Err(TypeError::new(cat3(h.as_str(), port, "'"), *span))
            },
            Some(t) => {
                let expected = strip_required_port_coeffect(t, port);
                let actual = make_method_type(f);
                match self.unify(&actual, &expected) {
                    Ok(_) => Ok(()),
                    Err(m) => {
                        let h = cat5(
                            "Handler '",
                            port,
                            ".",
                            f.name.as_str(),
                            "' signature mismatch: ",
                        );
                        Err(TypeError::new(cat2(h.as_str(), m.as_str()), *span))
                    },
                }
            },
        }
    }

    /// Infers an `inject` before its body.
    pub fn begin_inject(
        &mut self,
        env: &TypeEnv,
        span: &Span,
        handlers: &Vec<String>,
        body: &Vec<Spanned<Stmt>>,
        eq: &Type,
    ) -> (r: Result<Type, TypeError>)
        ensures
            match r {
                Ok(t) => inject_rule(
                    old(self).st(env@),
                    *span,
                    text::texts(handlers@),
                    ast::stmts_view(body@),
                    eq@,
                ).0 == Ok::<TypeV, TypeErrorV>(t@),
                Err(e) => inject_rule(
                    old(self).st(env@),
                    *span,
                    text::texts(handlers@),
                    ast::stmts_view(body@),
                    eq@,
                ).0 == Err::<TypeV, TypeErrorV>(e@),
            },
            final(self).st(env@) == inject_rule(
                old(self).st(env@),
                *span,
                text::texts(handlers@),
                ast::stmts_view(body@),
                eq@,
            ).1,
            final(self).cx() == old(self).cx(),
    {
        proof {
            reveal(inject_rule);
        }
        let (mut reqs, ports, extra) = match self.collect_handlers(env, span, handlers) {
            Ok(v) => v,
            Err(e) => {
                return Err(e);
            },
        };
        let n = collect_signature_needs_from_stmts(body, env);
        if !n.unknown {
            let diff = list_difference(&ports, &n.reqs);
            let idle = sort_texts(&diff);
            assert(text::texts(idle@).len() == idle.len());
            if idle.len() > 0 {
                let list = join(&idle, ", ");
                return Err(
                    TypeError::new(
                        cat3(
                            "Inject handler(s) ",
                            list.as_str(),
                            " does not reduce requirements in this scope",
                        ),
                        *span,
                    ),
                );
            }
        }
        add_named_types(&mut reqs, &extra);
        Ok(make_injected_row(eq, reqs))
    }

    #[verifier::loop_isolation(false)]
    fn collect_handlers(&mut self, env: &TypeEnv, span: &Span, handlers: &Vec<String>) -> (r: Result<
        (Vec<Type>, Vec<String>, Vec<String>),
        TypeError,
    >)
        ensures
            match r {
                Ok((a, b, c)) => inject_handlers(
                    old(self).st(env@),
                    *span,
                    text::texts(handlers@),
                    0,
                    Seq::empty(),
                    Seq::empty(),
                    Seq::empty(),
                ).0 == Ok::<(Seq<TypeV>, Seq<Text>, Seq<Text>), TypeErrorV>(
                    (types::types_view(a@), text::texts(b@), text::texts(c@)),
                ),
                Err(e) => inject_handlers(
                    old(self).st(env@),
                    *span,
                    text::texts(handlers@),
                    0,
                    Seq::empty(),
                    Seq::empty(),
                    Seq::empty(),
                ).0 == Err::<(Seq<TypeV>, Seq<Text>, Seq<Text>), TypeErrorV>(e@),
            },
            final(self).st(env@) == inject_handlers(
                old(self).st(env@),
                *span,
                text::texts(handlers@),
                0,
                Seq::empty(),
                Seq::empty(),
                Seq::empty(),
            ).1,
            final(self).cx() == old(self).cx(),
    {
        let ghost hs = text::texts(handlers@);
        let ghost all = inject_handlers(
            self.st(env@),
            *span,
            hs,
            0,
            Seq::empty(),
            Seq::empty(),
            Seq::empty(),
        );
        let mut reqs: Vec<Type> = Vec::new();
        let mut ports: Vec<String> = Vec::new();
        let mut extra: Vec<String> = Vec::new();
        proof {
            assert(types::types_view(reqs@) =~= Seq::<TypeV>::empty());
            assert(text::texts(ports@) =~= Seq::<Text>::empty());
            assert(text::texts(extra@) =~= Seq::<Text>::empty());
        }
        let mut i: usize = 0;
        while i < handlers.len()
            invariant
                i <= handlers.len(),
                inject_handlers(
                    self.st(env@),
                    *span,
                    hs,
                    i as nat,
                    types::types_view(reqs@),
                    text::texts(ports@),
                    text::texts(extra@),
                ) == all,
                self.cx() == old(self).cx(),
            decreases handlers.len() - i,
        {
            let name = handlers[i].as_str();
            match env.get(name) {
                None => {
                    return Err(
                        TypeError::new(cat3("Handler '", name, "' not found in scope"), *span),
                    );
                },
                Some(sch) => {
                    let t = self.instantiate(sch, Ghost(env@));
                    match t {
                        Type::Handler(port, q) => {
                            let names = extract_row_port_names(&q);
                            add_type(&mut reqs, make_named(port.clone()));
                            list_add(&mut ports, port);
                            list_extend(&mut extra, &names);
                        },
                        _ => {
                            return Err(
                                TypeError::new(
                                    cat3(
                                        "'",
                                        name,
                                        "' is not a handler value (expected type 'handler <Port>')",
                                    ),
                                    *span,
                                ),
                            );
                        },
                    }
                },
            }
            i = i + 1;
        }
        Ok((reqs, ports, extra))
    }
}

} // verus!
