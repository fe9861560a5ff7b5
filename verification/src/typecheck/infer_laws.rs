//! What inference says of the expressions that it accepts.

use crate::ast::{ExprV, StmtV};
use crate::table;
use crate::text::Text;
use crate::typecheck::coverage;
use crate::typecheck::coverage::ValueV;
use crate::typecheck::env;
use crate::typecheck::env::{EnvV, TypeErrorV, TypeWarningV};
use crate::typecheck::env_laws;
use crate::typecheck::infer;
use crate::typecheck::rules;
use crate::typecheck::state;
use crate::typecheck::state::{Cx, ExpectV, St};
use crate::typecheck::steps;
use crate::typecheck::subst;
use crate::typecheck::subst::SubstV;
use crate::typecheck::unify;
use crate::types::{BinaryOp, LiteralV, Sigil, Span, Spanned, TypeV};
use vstd::prelude::*;

verus! {

// ---------------------------------------------------------------------------
// Operators
// ---------------------------------------------------------------------------

/// The kinds of value that operators work on. A number that is written without a type is of a
/// kind of its own, which fits every width.
pub enum ScalarKind {
    I32,
    I64,
    Integer,
    F32,
    F64,
    Real,
    Bool,
    Char,
    Text,
}

/// The type of the values of a kind.
pub open spec fn type_of_kind(k: ScalarKind) -> TypeV {
    match k {
        ScalarKind::I32 => TypeV::I32,
        ScalarKind::I64 => TypeV::I64,
        ScalarKind::Integer => TypeV::IntLit,
        ScalarKind::F32 => TypeV::F32,
        ScalarKind::F64 => TypeV::F64,
        ScalarKind::Real => TypeV::FloatLit,
        ScalarKind::Bool => TypeV::Bool,
        ScalarKind::Char => TypeV::Char,
        ScalarKind::Text => TypeV::String,
    }
}

/// The width at which two integers meet; none for other values and for two different widths.
pub open spec fn common_integer(a: ScalarKind, b: ScalarKind) -> Option<ScalarKind> {
    match (a, b) {
        (ScalarKind::I32, ScalarKind::I32) => Some(ScalarKind::I32),
        (ScalarKind::I32, ScalarKind::Integer) => Some(ScalarKind::I32),
        (ScalarKind::Integer, ScalarKind::I32) => Some(ScalarKind::I32),
        (ScalarKind::I64, ScalarKind::I64) => Some(ScalarKind::I64),
        (ScalarKind::I64, ScalarKind::Integer) => Some(ScalarKind::I64),
        (ScalarKind::Integer, ScalarKind::I64) => Some(ScalarKind::I64),
        (ScalarKind::Integer, ScalarKind::Integer) => Some(ScalarKind::I64),
        _ => None,
    }
}

/// The width at which two floating-point numbers meet.
pub open spec fn common_float(a: ScalarKind, b: ScalarKind) -> Option<ScalarKind> {
    match (a, b) {
        (ScalarKind::F32, ScalarKind::F32) => Some(ScalarKind::F32),
        (ScalarKind::F32, ScalarKind::Real) => Some(ScalarKind::F32),
        (ScalarKind::Real, ScalarKind::F32) => Some(ScalarKind::F32),
        (ScalarKind::F64, ScalarKind::F64) => Some(ScalarKind::F64),
        (ScalarKind::F64, ScalarKind::Real) => Some(ScalarKind::F64),
        (ScalarKind::Real, ScalarKind::F64) => Some(ScalarKind::F64),
        (ScalarKind::Real, ScalarKind::Real) => Some(ScalarKind::F64),
        _ => None,
    }
}

/// The truth value that a comparison gives, where it compares.
pub open spec fn truth_if(compares: bool) -> Option<ScalarKind> {
    if compares {
        Some(ScalarKind::Bool)
    } else {
        None
    }
}

/// The kind of the value that an operator gives for operands of two kinds; none where the
/// operator gives no value for them.
pub open spec fn value_kind(op: BinaryOp, a: ScalarKind, b: ScalarKind) -> Option<ScalarKind> {
    match op {
        BinaryOp::Add => common_integer(a, b),
        BinaryOp::Sub => common_integer(a, b),
        BinaryOp::Mul => common_integer(a, b),
        BinaryOp::Div => common_integer(a, b),
        BinaryOp::Mod => common_integer(a, b),
        BinaryOp::BitAnd => common_integer(a, b),
        BinaryOp::BitOr => common_integer(a, b),
        BinaryOp::BitXor => common_integer(a, b),
        BinaryOp::Shl => common_integer(a, b),
        BinaryOp::Shr => common_integer(a, b),
        BinaryOp::FAdd => common_float(a, b),
        BinaryOp::FSub => common_float(a, b),
        BinaryOp::FMul => common_float(a, b),
        BinaryOp::FDiv => common_float(a, b),
        BinaryOp::Concat => if a is Text && b is Text {
            Some(ScalarKind::Text)
        } else {
            None
        },
        BinaryOp::And => truth_if(a is Bool && b is Bool),
        BinaryOp::Or => truth_if(a is Bool && b is Bool),
        BinaryOp::Eq => truth_if(
            common_integer(a, b) is Some || (a == b && (a is Char || a is Text || a is Bool)),
        ),
        BinaryOp::Ne => truth_if(
            common_integer(a, b) is Some || (a == b && (a is Char || a is Text || a is Bool)),
        ),
        BinaryOp::Lt => truth_if(common_integer(a, b) is Some || (a is Char && b is Char)),
        BinaryOp::Gt => truth_if(common_integer(a, b) is Some || (a is Char && b is Char)),
        BinaryOp::Le => truth_if(common_integer(a, b) is Some || (a is Char && b is Char)),
        BinaryOp::Ge => truth_if(common_integer(a, b) is Some || (a is Char && b is Char)),
        BinaryOp::FEq => truth_if(common_float(a, b) is Some),
        BinaryOp::FNe => truth_if(common_float(a, b) is Some),
        BinaryOp::FLt => truth_if(common_float(a, b) is Some),
        BinaryOp::FGt => truth_if(common_float(a, b) is Some),
        BinaryOp::FLe => truth_if(common_float(a, b) is Some),
        BinaryOp::FGe => truth_if(common_float(a, b) is Some),
    }
}

/// Whether a type is one that an operator may give: a truth value for a comparison or a
/// connective, a number for arithmetic, a text for a concatenation.
pub open spec fn may_result(op: BinaryOp, t: TypeV) -> bool {
    match op {
        BinaryOp::Add => t is I32 || t is I64,
        BinaryOp::Sub => t is I32 || t is I64,
        BinaryOp::Mul => t is I32 || t is I64,
        BinaryOp::Div => t is I32 || t is I64,
        BinaryOp::Mod => t is I32 || t is I64,
        BinaryOp::BitAnd => t is I32 || t is I64,
        BinaryOp::BitOr => t is I32 || t is I64,
        BinaryOp::BitXor => t is I32 || t is I64,
        BinaryOp::Shl => t is I32 || t is I64,
        BinaryOp::Shr => t is I32 || t is I64,
        BinaryOp::FAdd => t is F32 || t is F64,
        BinaryOp::FSub => t is F32 || t is F64,
        BinaryOp::FMul => t is F32 || t is F64,
        BinaryOp::FDiv => t is F32 || t is F64,
        BinaryOp::Concat => t is String,
        BinaryOp::And => t is Bool,
        BinaryOp::Or => t is Bool,
        BinaryOp::Eq => t is Bool,
        BinaryOp::Ne => t is Bool,
        BinaryOp::Lt => t is Bool,
        BinaryOp::Gt => t is Bool,
        BinaryOp::Le => t is Bool,
        BinaryOp::Ge => t is Bool,
        BinaryOp::FEq => t is Bool,
        BinaryOp::FNe => t is Bool,
        BinaryOp::FLt => t is Bool,
        BinaryOp::FGt => t is Bool,
        BinaryOp::FLe => t is Bool,
        BinaryOp::FGe => t is Bool,
    }
}

/// An operator that is accepted gives a value of the type that it may give, whatever its operands
/// are.
pub proof fn law_operator_gives_its_type(cx: Cx, st: St, e: Spanned<ExprV>, x: ExpectV)
    ensures
        e.node matches ExprV::BinaryOp(l, op, r) ==> (infer::inferred(cx, st, e, x).0 matches Ok((s, t))
            ==> may_result(op, t)),
{
    match e.node {
        ExprV::BinaryOp(l, op, r) => {
            assert(infer::inferred(cx, st, e, x) == infer::binary_inferred(cx, st, e, x));
            reveal(rules::operator_rule);
        },
        _ => {},
    }
}

/// Two types of kinds unify where they are equal or one is a number written without a type that
/// the other can hold, and then nothing is bound.
proof fn lemma_kinds_unify(cx: Cx, st: St, a: ScalarKind, b: ScalarKind, span: Span)
    ensures
        ({
            let r = state::st_unify_at(cx, st, type_of_kind(a), type_of_kind(b), span);
            &&& (a == b || unify::literal_fits(type_of_kind(a), type_of_kind(b))) ==> r.0 == Ok::<
                SubstV,
                TypeErrorV,
            >(subst::no_subst())
            &&& !(a == b || unify::literal_fits(type_of_kind(a), type_of_kind(b))) ==> r.0 is Err
        }),
{
    reveal(unify::unified);
}

/// An operator on operands whose types are those of kinds of values is accepted exactly where it
/// gives a value for them, and its type is that of the value.
#[verifier::spinoff_prover]
#[verifier::rlimit(60)]
pub proof fn law_operator_has_the_type_of_its_value(
    cx: Cx,
    st: St,
    e: Spanned<ExprV>,
    x: ExpectV,
    a: ScalarKind,
    b: ScalarKind,
)
    requires
        e.node is BinaryOp,
        infer::inferred(cx, st, *e.node->BinaryOp_0, x).0 matches Ok((s, t)) && t == type_of_kind(a),
        infer::inferred(cx, infer::inferred(cx, st, *e.node->BinaryOp_0, x).1, *e.node->BinaryOp_2, x).0 matches Ok(
            (s, t),
        ) && t == type_of_kind(b),
    ensures
        match value_kind(e.node->BinaryOp_1, a, b) {
            Some(k) => infer::inferred(cx, st, e, x).0 matches Ok((s, t)) && t == type_of_kind(k),
            None => infer::inferred(cx, st, e, x).0 is Err,
        },
{
    let l = *e.node->BinaryOp_0;
    let r = *e.node->BinaryOp_2;
    let op = e.node->BinaryOp_1;
    let (i1, st1) = infer::inferred(cx, st, l, x);
    let (i2, st2) = infer::inferred(cx, st1, r, x);
    let s = subst::composed(i1->Ok_0.0, i2->Ok_0.0);
    let (ta, tb) = (type_of_kind(a), type_of_kind(b));
    assert(infer::inferred(cx, st, e, x) == infer::binary_inferred(cx, st, e, x));
    assert(infer::binary_inferred(cx, st, e, x) == rules::operator_rule(
        cx,
        st2,
        e.span,
        l.span,
        r.span,
        op,
        s,
        ta,
        tb,
    ));
    reveal(rules::operator_rule);
    lemma_kind_is_closed(s, a);
    lemma_kind_is_closed(s, b);
    match rules::operand_type(op, ta, tb) {
        Ok(target) => {
            let k = lemma_operand_kind(op, a, b);
            lemma_kinds_unify(cx, st2, a, k, l.span);
            let (u, st3) = state::st_unify_at(cx, st2, ta, target, l.span);
            if u is Ok {
                lemma_kind_is_closed(subst::composed(s, u->Ok_0), b);
                lemma_kinds_unify(cx, st3, b, k, r.span);
            }
        },
        Err(_) => {},
    }
}

/// A substitution leaves the type of a kind alone.
pub proof fn lemma_kind_is_closed(s: SubstV, k: ScalarKind)
    ensures
        subst::substituted(s, type_of_kind(k)) == type_of_kind(k),
{
}

/// The kind at which the operands of an operator meet.
proof fn lemma_operand_kind(op: BinaryOp, a: ScalarKind, b: ScalarKind) -> (k: ScalarKind)
    requires
        rules::operand_type(op, type_of_kind(a), type_of_kind(b)) is Ok,
    ensures
        rules::operand_type(op, type_of_kind(a), type_of_kind(b)) == Ok::<TypeV, Text>(type_of_kind(k)),
{
    match rules::operand_type(op, type_of_kind(a), type_of_kind(b)) {
        Ok(TypeV::I32) => ScalarKind::I32,
        Ok(TypeV::I64) => ScalarKind::I64,
        Ok(TypeV::F32) => ScalarKind::F32,
        Ok(TypeV::F64) => ScalarKind::F64,
        Ok(TypeV::Bool) => ScalarKind::Bool,
        Ok(TypeV::Char) => ScalarKind::Char,
        _ => ScalarKind::Text,
    }
}

// ---------------------------------------------------------------------------
// Scalar expressions
// ---------------------------------------------------------------------------

/// The kind whose values a type has.
pub open spec fn kind_of_type(t: TypeV) -> Option<ScalarKind> {
    match t {
        TypeV::I32 => Some(ScalarKind::I32),
        TypeV::I64 => Some(ScalarKind::I64),
        TypeV::IntLit => Some(ScalarKind::Integer),
        TypeV::F32 => Some(ScalarKind::F32),
        TypeV::F64 => Some(ScalarKind::F64),
        TypeV::FloatLit => Some(ScalarKind::Real),
        TypeV::Bool => Some(ScalarKind::Bool),
        TypeV::Char => Some(ScalarKind::Char),
        TypeV::String => Some(ScalarKind::Text),
        _ => None,
    }
}

/// The kind of a literal; the unit value has none.
pub open spec fn literal_kind(l: LiteralV) -> Option<ScalarKind> {
    match l {
        LiteralV::Int(_) => Some(ScalarKind::Integer),
        LiteralV::Float(_) => Some(ScalarKind::Real),
        LiteralV::Bool(_) => Some(ScalarKind::Bool),
        LiteralV::Char(_) => Some(ScalarKind::Char),
        LiteralV::String(_) => Some(ScalarKind::Text),
        LiteralV::Unit => None,
    }
}

/// Whether an expression is built by operators from literals and from immutable variables of
/// scalar types.
pub open spec fn is_scalar(env: EnvV, e: ExprV) -> bool
    decreases e,
{
    match e {
        ExprV::Literal(l) => literal_kind(l) is Some,
        ExprV::Variable(n, Sigil::Immutable) => env::env_get(env, n) matches Some(sch)
            && sch.vars.len() == 0 && kind_of_type(sch.typ) is Some,
        ExprV::BinaryOp(l, _, r) => is_scalar(env, l.node) && is_scalar(env, r.node),
        _ => false,
    }
}

/// The kind of the value of a scalar expression; none where an operator has no value.
pub open spec fn expr_kind(env: EnvV, e: ExprV) -> Option<ScalarKind>
    decreases e,
{
    match e {
        ExprV::Literal(l) => literal_kind(l),
        ExprV::Variable(n, _) => match env::env_get(env, n) {
            Some(sch) => kind_of_type(sch.typ),
            None => None,
        },
        ExprV::BinaryOp(l, op, r) => match (expr_kind(env, l.node), expr_kind(env, r.node)) {
            (Some(a), Some(b)) => value_kind(op, a, b),
            _ => None,
        },
        _ => None,
    }
}

/// A scalar expression is accepted exactly where its operators have values for their operands,
/// its type is then that of its value, and no binding is used up.
#[verifier::spinoff_prover]
#[verifier::rlimit(60)]
pub proof fn law_scalar_expression_has_the_type_of_its_value(
    cx: Cx,
    st: St,
    e: Spanned<ExprV>,
    x: ExpectV,
)
    requires
        is_scalar(st.env, e.node),
    ensures
        match expr_kind(st.env, e.node) {
            Some(k) => infer::inferred(cx, st, e, x).0 matches Ok((s, t)) && t == type_of_kind(k),
            None => infer::inferred(cx, st, e, x).0 is Err,
        },
        infer::inferred(cx, st, e, x).1.env == st.env,
    decreases e,
{
    match e.node {
        ExprV::Literal(l) => {},
        ExprV::Variable(n, sigil) => {
            reveal(rules::variable_rule);
            let sch = env::env_get(st.env, n)->0;
            assert(state::fresh_binding(subst::no_subst(), sch.vars, 0, st.supply) == (subst::no_subst(), st.supply));
            lemma_kind_is_closed(subst::no_subst(), kind_of_type(sch.typ)->0);
            assert(state::instantiated(st, sch) == (sch.typ, st));
            assert(!env::has_linear(st.env, sch.typ));
        },
        ExprV::BinaryOp(l, op, r) => {
            law_scalar_expression_has_the_type_of_its_value(cx, st, *l, x);
            let st1 = infer::inferred(cx, st, *l, x).1;
            law_scalar_expression_has_the_type_of_its_value(cx, st1, *r, x);
            assert(infer::inferred(cx, st, e, x) == infer::binary_inferred(cx, st, e, x));
            match (expr_kind(st.env, l.node), expr_kind(st.env, r.node)) {
                (Some(a), Some(b)) => {
                    law_operator_has_the_type_of_its_value(cx, st, e, x, a, b);
                },
                _ => {},
            }
            reveal(rules::operator_rule);
        },
        _ => {},
    }
}

// ---------------------------------------------------------------------------
// Conditions, ranges and results
// ---------------------------------------------------------------------------

/// Whether a value of a kind can stand where one of another kind is asked for: the same kind, or
/// a number that is written without a type where a number of that sort is asked for.
pub open spec fn may_stand_for(a: ScalarKind, b: ScalarKind) -> bool {
    match (a, b) {
        (ScalarKind::Integer, ScalarKind::I32) => true,
        (ScalarKind::Integer, ScalarKind::I64) => true,
        (ScalarKind::I32, ScalarKind::Integer) => true,
        (ScalarKind::I64, ScalarKind::Integer) => true,
        (ScalarKind::Real, ScalarKind::F32) => true,
        (ScalarKind::Real, ScalarKind::F64) => true,
        (ScalarKind::F32, ScalarKind::Real) => true,
        (ScalarKind::F64, ScalarKind::Real) => true,
        _ => a == b,
    }
}

/// Two types of kinds unify exactly where values of the one can stand for the other.
pub proof fn law_kinds_unify(cx: Cx, st: St, a: ScalarKind, b: ScalarKind, span: Span)
    ensures
        state::st_unify_at(cx, st, type_of_kind(a), type_of_kind(b), span).0 is Ok <==> may_stand_for(
            a,
            b,
        ),
{
    lemma_kinds_unify(cx, st, a, b, span);
}

/// What is branched on or looped on is a truth value: an `if` or a `while` whose condition is of
/// another kind is refused.
pub proof fn law_condition_is_a_truth_value(
    cx: Cx,
    st: St,
    e: Spanned<ExprV>,
    x: ExpectV,
    k: ScalarKind,
)
    requires
        match e.node {
            ExprV::If { cond, then_branch: _, else_branch: _ } => infer::inferred(
                cx,
                st,
                *cond,
                x,
            ).0 matches Ok((s, t)) && t == type_of_kind(k),
            ExprV::While { cond, body: _ } => infer::inferred(cx, st, *cond, x).0 matches Ok((s, t)) && t
                == type_of_kind(k),
            _ => false,
        },
    ensures
        infer::inferred(cx, st, e, x).0 is Ok ==> k is Bool,
{
    reveal(steps::condition_rule);
    match e.node {
        ExprV::If { cond, then_branch, else_branch } => {
            assert(infer::inferred(cx, st, e, x) == infer::if_inferred(cx, st, e, x));
            let st1 = infer::inferred(cx, st, *cond, x).1;
            lemma_kinds_unify(cx, st1, k, ScalarKind::Bool, cond.span);
        },
        ExprV::While { cond, body } => {
            assert(infer::inferred(cx, st, e, x) == infer::while_inferred(cx, st, e, x));
            let st1 = infer::inferred(cx, st, *cond, x).1;
            lemma_kinds_unify(cx, st1, k, ScalarKind::Bool, cond.span);
        },
        _ => {},
    }
}

/// A `for` counts over integers of the wide kind: one whose first bound is of another kind is
/// refused.
pub proof fn law_range_is_of_integers(
    cx: Cx,
    st: St,
    e: Spanned<ExprV>,
    x: ExpectV,
    k: ScalarKind,
)
    requires
        e.node matches ExprV::For { var, start, end_expr, body } && infer::inferred(
            cx,
            st,
            *start,
            x,
        ).0 matches Ok((s, t)) && t == type_of_kind(k),
    ensures
        infer::inferred(cx, st, e, x).0 is Ok ==> k is I64 || k is Integer,
{
    reveal(steps::condition_rule);
    match e.node {
        ExprV::For { var, start, end_expr, body } => {
            assert(infer::inferred(cx, st, e, x) == infer::for_inferred(cx, st, e, x));
            let (r, st1) = infer::inferred(cx, st, *start, x);
            lemma_kinds_unify(
                cx,
                state::with_env(st1, env::env_apply(r->Ok_0.0, st1.env)),
                k,
                ScalarKind::I64,
                start.span,
            );
        },
        _ => {},
    }
}

/// An index is an integer of the wide kind: one of another kind is refused.
pub proof fn law_index_is_an_integer(
    cx: Cx,
    st: St,
    e: Spanned<ExprV>,
    x: ExpectV,
    k: ScalarKind,
)
    requires
        e.node matches ExprV::Index(arr, idx) && infer::inferred(
            cx,
            infer::inferred(cx, st, *arr, x).1,
            *idx,
            x,
        ).0 matches Ok((s, t)) && t == type_of_kind(k),
    ensures
        infer::inferred(cx, st, e, x).0 is Ok ==> k is I64 || k is Integer,
{
    reveal(steps::condition_rule);
    match e.node {
        ExprV::Index(arr, idx) => {
            assert(infer::inferred(cx, st, e, x) == infer::index_inferred(cx, st, e, x));
            let st1 = infer::inferred(cx, st, *arr, x).1;
            let st2 = infer::inferred(cx, st1, *idx, x).1;
            lemma_kinds_unify(cx, st2, k, ScalarKind::I64, idx.span);
        },
        _ => {},
    }
}

/// An element of an array of scalars has the type of the array's elements.
pub proof fn law_element_has_the_type_of_the_elements(
    cx: Cx,
    st: St,
    e: Spanned<ExprV>,
    x: ExpectV,
    k: ScalarKind,
)
    requires
        e.node matches ExprV::Index(arr, idx) && infer::inferred(cx, st, *arr, x).0 matches Ok((s, t)) && t
            == TypeV::Array(Box::new(type_of_kind(k))),
    ensures
        infer::inferred(cx, st, e, x).0 matches Ok((s, t)) ==> t == type_of_kind(k),
{
    reveal(steps::condition_rule);
    reveal(rules::index_rule);
    match e.node {
        ExprV::Index(arr, idx) => {
            assert(infer::inferred(cx, st, e, x) == infer::index_inferred(cx, st, e, x));
            assert forall|s: SubstV| #[trigger]
                subst::substituted(s, TypeV::Array(Box::new(type_of_kind(k)))) == TypeV::Array(
                    Box::new(type_of_kind(k)),
                ) by {
                lemma_kind_is_closed(s, k);
            }
        },
        _ => {},
    }
}

/// A field of a record has the type that the record's type gives that field, and a field that the
/// type does not have is refused.
pub proof fn law_field_has_the_type_of_the_record(
    cx: Cx,
    st: St,
    e: Spanned<ExprV>,
    x: ExpectV,
    fields: Seq<(Text, TypeV)>,
)
    requires
        e.node matches ExprV::FieldAccess(rec, name) && infer::inferred(cx, st, *rec, x).0 matches Ok(
            (s, t),
        ) && subst::substituted(s, t) == TypeV::Record(fields),
    ensures
        e.node matches ExprV::FieldAccess(rec, name) && match infer::inferred(cx, st, e, x).0 {
            Ok((s, t)) => exists|i: int|
                0 <= i < fields.len() && #[trigger] fields[i] == (name, t),
            Err(_) => forall|i: int| 0 <= i < fields.len() ==> (#[trigger] fields[i]).0 != name,
        },
{
    reveal(rules::field_access_type);
    match e.node {
        ExprV::FieldAccess(rec, name) => {
            assert(infer::inferred(cx, st, e, x) == infer::field_inferred(cx, st, e, x));
            table::lemma_index_of_text(table::keys_of(fields), name, 0);
            let i = table::key_index(fields, name) as int;
            if table::has_key(fields, name) {
                assert(table::keys_of(fields)[i] == fields[i].0);
                assert(fields[i] == (name, fields[i].1));
            } else {
                assert forall|j: int| 0 <= j < fields.len() implies (#[trigger] fields[j]).0
                    != name by {
                    assert(table::keys_of(fields)[j] == fields[j].0);
                }
            }
        },
        _ => {},
    }
}

/// Branches and loops give nothing, an array is of an array type, a list of a list type, a record
/// of a record type with its labels in their order, a borrow of a borrowed type, a handler of the
/// type of handlers of its port, and a binding of a foreign function of the type that it names.
pub proof fn law_forms_have_their_types(cx: Cx, st: St, e: Spanned<ExprV>, x: ExpectV)
    ensures
        infer::inferred(cx, st, e, x).0 matches Ok((s, t)) ==> match e.node {
            ExprV::If { cond: _, then_branch: _, else_branch: _ } => t is Unit,
            ExprV::While { cond: _, body: _ } => t is Unit,
            ExprV::For { var: _, start: _, end_expr: _, body: _ } => t is Unit,
            ExprV::Array(_) => t is Array,
            ExprV::List(_) => t is List,
            ExprV::Record(fs) => t is Record && t->Record_0.len() == fs.len() && forall|i: int|
                0 <= i < fs.len() ==> (#[trigger] t->Record_0[i]).0 == fs[i].0,
            ExprV::Borrow(_, _) => t is Borrow,
            ExprV::Handler { coeffect_name, requires: reqs, functions: _ } => t == TypeV::Handler(
                coeffect_name,
                Box::new(reqs),
            ),
            ExprV::External(_, _, declared) => t == declared,
            ExprV::Literal(LiteralV::Unit) => t is Unit,
            _ => true,
        },
{
    reveal(rules::borrow_rule);
    match e.node {
        ExprV::If { cond: _, then_branch: _, else_branch: _ } => {
            assert(infer::inferred(cx, st, e, x) == infer::if_inferred(cx, st, e, x));
        },
        ExprV::While { cond: _, body: _ } => {
            assert(infer::inferred(cx, st, e, x) == infer::while_inferred(cx, st, e, x));
        },
        ExprV::For { var: _, start: _, end_expr: _, body: _ } => {
            assert(infer::inferred(cx, st, e, x) == infer::for_inferred(cx, st, e, x));
        },
        ExprV::Array(_) => {
            assert(infer::inferred(cx, st, e, x) == infer::array_literal_inferred(cx, st, e, x));
        },
        ExprV::List(_) => {
            assert(infer::inferred(cx, st, e, x) == infer::list_literal_inferred(cx, st, e, x));
        },
        ExprV::Record(fs) => {
            assert(infer::inferred(cx, st, e, x) == infer::record_inferred(cx, st, e, x));
            lemma_record_labels(cx, st, fs, 0, x, subst::no_subst(), Seq::empty());
        },
        ExprV::Handler { coeffect_name: _, requires: _, functions: _ } => {
            assert(infer::inferred(cx, st, e, x) == infer::handler_inferred(cx, st, e, x));
        },
        _ => {},
    }
}

proof fn lemma_record_labels(
    cx: Cx,
    st: St,
    fs: Seq<(Text, Spanned<ExprV>)>,
    i: nat,
    x: ExpectV,
    s: SubstV,
    acc: Seq<(Text, TypeV)>,
)
    requires
        i <= fs.len(),
        acc.len() == i,
        forall|j: int| 0 <= j < i ==> (#[trigger] acc[j]).0 == fs[j].0,
    ensures
        infer::fields_inferred(cx, st, fs, i, x, s, acc).0 matches Ok((s2, out)) ==> out.len() == fs.len()
            && forall|j: int| 0 <= j < fs.len() ==> (#[trigger] out[j]).0 == fs[j].0,
    decreases fs.len() - i,
{
    if i < fs.len() {
        match infer::inferred(cx, st, fs[i as int].1, x) {
            (Ok((sa, ta)), st1) => {
                lemma_record_labels(
                    cx,
                    st1,
                    fs,
                    i + 1,
                    x,
                    subst::composed(s, sa),
                    acc.push((fs[i as int].0, ta)),
                );
            },
            (Err(_), _) => {},
        }
    }
}

/// A match that is accepted has a case for every value of the type of what it matches on.
pub proof fn law_accepted_match_has_a_case_for_every_value(
    cx: Cx,
    st: St,
    e: Spanned<ExprV>,
    x: ExpectV,
    v: ValueV,
)
    requires
        e.node matches ExprV::Match { target, cases } && infer::inferred(cx, st, *target, x).0 matches Ok(
            (s, t),
        ) && coverage::constructors_named(infer::inferred(cx, st, *target, x).1.env, cx.cache) && coverage::value_of_type(
            infer::inferred(cx, st, *target, x).1.env,
            cx.cache,
            v,
            subst::substituted(s, t),
        ),
        infer::inferred(cx, st, e, x).0 is Ok,
    ensures
        e.node matches ExprV::Match { target, cases } && exists|i: int|
            0 <= i < cases.len() && coverage::pattern_matches((#[trigger] cases[i]).pattern.node, v),
{
    match e.node {
        ExprV::Match { target, cases } => {
            assert(infer::inferred(cx, st, e, x) == infer::match_inferred(cx, st, e, x));
            let (r, st1) = infer::inferred(cx, st, *target, x);
            let (s, t) = r->Ok_0;
            coverage::law_exhaustive_match_covers_every_value(
                st1.env,
                cx.cache,
                subst::substituted(s, t),
                cases,
                v,
            );
        },
        _ => {},
    }
}

// ---------------------------------------------------------------------------
// Statements
// ---------------------------------------------------------------------------

/// A `return` is accepted where no linear binding is left over and its value can stand for the
/// result of the function, and nowhere else.
pub proof fn law_return_fits_the_result(
    cx: Cx,
    st: St,
    s: Spanned<StmtV>,
    x: ExpectV,
    a: ScalarKind,
    b: ScalarKind,
)
    requires
        s.node matches StmtV::Return(e) && infer::inferred(cx, st, e, x).0 matches Ok((s1, t)) && t
            == type_of_kind(a),
        x.ret == type_of_kind(b),
    ensures
        s.node matches StmtV::Return(e) && infer::inferred(cx, st, e, x).0 matches Ok((s1, t)) && (
        infer::stmt_inferred(cx, st, s, x).0 is Ok <==> may_stand_for(a, b) && env::unused_error(
            env::env_apply(s1, infer::inferred(cx, st, e, x).1.env),
            e.span,
        ) is None),
{
    reveal(steps::return_rule);
    match s.node {
        StmtV::Return(e) => {
            let (r, st1) = infer::inferred(cx, st, e, x);
            let s1 = r->Ok_0.0;
            lemma_kind_is_closed(s1, b);
            lemma_kinds_unify(cx, state::with_env(st1, env::env_apply(s1, st1.env)), a, b, e.span);
        },
        _ => {},
    }
}

/// The kind of a binding without a type: a number that is written without one is of the wide
/// kind.
pub open spec fn settled(k: ScalarKind) -> ScalarKind {
    match k {
        ScalarKind::Integer => ScalarKind::I64,
        ScalarKind::Real => ScalarKind::F64,
        _ => k,
    }
}

/// The scheme of the type of a kind is general in nothing.
proof fn lemma_kind_scheme(env: EnvV, k: ScalarKind)
    ensures
        env::generalized(env, type_of_kind(k)) == env::mono(type_of_kind(k)),
{
    reveal(env::generalized);
    assert(subst::free_vars(Seq::empty(), type_of_kind(k)) == Seq::<Text>::empty());
    assert(env::generalized(env, type_of_kind(k)).vars =~= Seq::<Text>::empty());
}

/// A `let` of a scalar without a type is accepted, and the name then stands for a value of that
/// kind. With a type it is accepted exactly where the value can stand for one of the type, and
/// the name then has that type.
#[verifier::spinoff_prover]
#[verifier::rlimit(40)]
pub proof fn law_let_binds_its_value(
    cx: Cx,
    st: St,
    s: Spanned<StmtV>,
    x: ExpectV,
    a: ScalarKind,
    b: ScalarKind,
)
    requires
        s.node matches StmtV::Let { name, sigil, typ, value } && sigil is Immutable
            && !(value.node is Lambda) && (typ is None || typ == Some(type_of_kind(b))) && (infer::inferred(
            cx,
            st,
            value,
            x,
        ).0 matches Ok((s1, t)) && t == type_of_kind(a)),
    ensures
        s.node matches StmtV::Let { name, sigil, typ, value } && {
            let (r, after) = infer::stmt_inferred(cx, st, s, x);
            &&& typ is None ==> r is Ok && env::env_get(after.env, name) == Some(
                env::mono(type_of_kind(settled(a))),
            )
            &&& typ is Some ==> (r is Ok <==> may_stand_for(a, b))
            &&& typ is Some && r is Ok ==> env::env_get(after.env, name) == Some(env::mono(type_of_kind(b)))
        },
{
    reveal(rules::let_rule);
    reveal(rules::let_scope);
    match s.node {
        StmtV::Let { name, sigil, typ, value } => {
            let st0 = state::with_env(st, st.env);
            assert(st0 == st);
            let (r, st1) = infer::inferred(cx, st, value, x);
            let s1 = r->Ok_0.0;
            let sta = state::with_env(st1, env::env_apply(s1, st1.env));
            assert(infer::stmt_inferred(cx, st, s, x) == infer::let_inferred(cx, st, s, x));
            lemma_kind_is_closed(s1, a);
            match typ {
                None => {
                    let k = settled(a);
                    lemma_kind_scheme(sta.env, k);
                    env_laws::law_inserted_binding_is_found(sta.env, name, env::mono(type_of_kind(k)), name);
                },
                Some(_) => {
                    lemma_kinds_unify(cx, sta, a, b, value.span);
                    lemma_kind_is_closed(subst::no_subst(), b);
                    let (u, stx) = state::st_unify_at(cx, sta, type_of_kind(a), type_of_kind(b), value.span);
                    if u is Ok {
                        let env = env::env_apply(subst::no_subst(), stx.env);
                        lemma_kind_scheme(env, b);
                        env_laws::law_inserted_binding_is_found(env, name, env::mono(type_of_kind(b)), name);
                    }
                },
            }
        },
        _ => {},
    }
}

/// A variable without a sigil cannot be assigned to, nor can what is neither a variable nor an
/// element.
pub proof fn law_immutable_names_stay(cx: Cx, st: St, s: Spanned<StmtV>, x: ExpectV)
    requires
        s.node matches StmtV::Assign { target, value } && match target.node {
            ExprV::Variable(_, sigil) => sigil is Immutable,
            ExprV::Index(_, _) => false,
            _ => true,
        },
    ensures
        infer::stmt_inferred(cx, st, s, x).0 is Err,
{
    reveal(steps::assign_variable_rule);
    match s.node {
        StmtV::Assign { target, value } => match infer::inferred(cx, st, value, x) {
            (Ok((sv, tv)), st1) => {
                assert(infer::stmt_inferred(cx, st, s, x) == infer::target_inferred(
                    cx,
                    state::with_env(st1, env::env_apply(sv, st1.env)),
                    s.span,
                    value.span,
                    tv,
                    target,
                    x,
                ));
            },
            (Err(_), _) => {},
        },
        _ => {},
    }
}

/// An assignment to a mutable variable of a scalar kind is accepted exactly where the value can
/// stand for one of that kind.
pub proof fn law_assignment_fits_the_variable(
    cx: Cx,
    st: St,
    span: Span,
    vspan: Span,
    name: Text,
    a: ScalarKind,
    b: ScalarKind,
)
    requires
        env::env_get(st.env, Sigil::Mutable.key(name)) == Some(
            env::mono(TypeV::Ref(Box::new(type_of_kind(b)))),
        ),
    ensures
        steps::assign_variable_rule(
            cx,
            st,
            span,
            vspan,
            name,
            Sigil::Mutable,
            type_of_kind(a),
        ).0 is Ok <==> may_stand_for(a, b),
{
    reveal(steps::assign_variable_rule);
    let t = TypeV::Ref(Box::new(type_of_kind(b)));
    assert(state::fresh_binding(subst::no_subst(), env::mono(t).vars, 0, st.supply) == (subst::no_subst(), st.supply));
    lemma_kind_is_closed(subst::no_subst(), b);
    assert(subst::substituted(subst::no_subst(), t) == t);
    assert(state::instantiated(st, env::mono(t)) == (t, st));
    lemma_kinds_unify(cx, st, a, b, vspan);
}

/// A call of a name that is not bound is refused, and so is one with another number of arguments
/// than the function has parameters.
pub proof fn law_call_gives_every_argument(cx: Cx, st: St, e: Spanned<ExprV>, x: ExpectV)
    ensures
        e.node matches ExprV::Call { func, args } ==> (infer::inferred(cx, st, e, x).0 is Ok ==> (env::env_get(
            st.env,
            func,
        ) matches Some(sch) && (state::instantiated(st, sch).0 matches TypeV::Arrow(ps, _, _, _)
            ==> ps.len() == args.len()))),
{
    reveal(rules::call_rule);
    match e.node {
        ExprV::Call { func, args } => {
            assert(infer::inferred(cx, st, e, x) == infer::call_inferred(cx, st, e, x));
        },
        _ => {},
    }
}

/// A scalar given as an argument is accepted exactly where it can stand for one of the kind of the
/// parameter.
pub proof fn law_argument_fits_the_parameter(
    cx: Cx,
    st: St,
    span: Span,
    s: SubstV,
    a: ScalarKind,
    b: ScalarKind,
)
    ensures
        rules::argument_rule(cx, st, span, s, type_of_kind(b), type_of_kind(a)).0 is Ok <==> may_stand_for(
            a,
            b,
        ),
{
    reveal(rules::argument_rule);
    lemma_kind_is_closed(s, a);
    lemma_kind_is_closed(s, b);
    lemma_kinds_unify(cx, st, a, b, span);
}

/// What is raised is an exception: a scalar cannot be raised.
pub proof fn law_scalars_are_not_raised(
    cx: Cx,
    st: St,
    e: Spanned<ExprV>,
    x: ExpectV,
    k: ScalarKind,
)
    requires
        e.node matches ExprV::Raise(ex) && infer::inferred(cx, st, *ex, x).0 matches Ok((s, t)) && t
            == type_of_kind(k),
    ensures
        infer::inferred(cx, st, e, x).0 is Err,
{
    reveal(steps::raise_rule);
    reveal(unify::unified);
    assert(infer::inferred(cx, st, e, x) == infer::raise_inferred(cx, st, e, x));
}

/// A binding with the sigil of mutable bindings is a reference to its value, one with the sigil of
/// linear bindings is linear, and one of a scalar without a sigil has the type of its value.
pub proof fn law_sigils_wrap_the_type(
    env: EnvV,
    warnings: Seq<TypeWarningV>,
    name: Text,
    k: ScalarKind,
    span: Span,
)
    ensures
        rules::sigil_rule(env, warnings, name, Sigil::Immutable, type_of_kind(k), span).0 == Ok::<
            TypeV,
            TypeErrorV,
        >(type_of_kind(k)),
        rules::sigil_rule(env, warnings, name, Sigil::Mutable, type_of_kind(k), span).0 == Ok::<
            TypeV,
            TypeErrorV,
        >(TypeV::Ref(Box::new(type_of_kind(k)))),
        rules::sigil_rule(env, warnings, name, Sigil::Linear, type_of_kind(k), span).0 == Ok::<
            TypeV,
            TypeErrorV,
        >(TypeV::Linear(Box::new(type_of_kind(k)))),
        rules::sigil_rule(env, warnings, name, Sigil::Borrow, type_of_kind(k), span).0 == Ok::<
            TypeV,
            TypeErrorV,
        >(TypeV::Borrow(Box::new(type_of_kind(k)))),
{
}

} // verus!
