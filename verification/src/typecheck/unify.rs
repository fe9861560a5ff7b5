//! Unification of types.

use crate::ast::{TypeDef, TypeDefV};
use crate::table;
use crate::table::find_key;
use crate::text;
use crate::text::{Text, cat2, cat4, owned, str_eq, text_lt, usize_to_text};
use crate::typecheck::env;
use crate::typecheck::env::{bind_params, find_typedef};
use crate::typecheck::helpers;
use crate::typecheck::helpers::find_type;
use crate::typecheck::render;
use crate::typecheck::render::type_to_text;
use crate::typecheck::subst;
use crate::typecheck::subst::{
    Subst, SubstV, apply_subst_type, apply_subst_type_fields, compose_subst, empty_subst,
    occurs_check,
};
use crate::types;
use crate::types::{Type, TypeV, copy_fields, copy_tail, copy_types, type_eq};
use vstd::prelude::*;

verus! {

/// What unification yields: a substitution or the reason of failure.
pub type UnifyV = Result<SubstV, Text>;

/// The type variable of a given number.
pub open spec fn numbered_var(n: usize) -> TypeV {
    TypeV::Var("?"@ + text::decimal(n as nat))
}

/// The number after `n`; the numbers start again after the last one.
pub open spec fn next_number(n: usize) -> usize {
    if n == usize::MAX {
        0
    } else {
        (n + 1) as usize
    }
}

/// Takes the next type variable from a supply.
pub fn fresh_var(supply: &mut usize) -> (r: Type)
    ensures
        r@ == numbered_var(*old(supply)),
        *final(supply) == next_number(*old(supply)),
{
    let n: usize = *supply;
    if n == usize::MAX {
        *supply = 0;
    } else {
        *supply = n + 1;
    }
    let digits = usize_to_text(n);
    Type::Var(cat2("?", digits.as_str()))
}

// ---------------------------------------------------------------------------
// Sorting of record fields
// ---------------------------------------------------------------------------

/// The position at which a field of label `k` is inserted, looking back from `n`: behind every
/// field whose label does not come after it.
pub open spec fn field_slot(s: Seq<(Text, TypeV)>, k: Text, n: nat) -> nat
    decreases n,
{
    if n == 0 {
        0
    } else if n <= s.len() && text::precedes(k, s[n - 1].0) {
        field_slot(s, k, (n - 1) as nat)
    } else {
        n
    }
}

/// The first `n` fields in the order of their labels, equal labels in their given order.
pub open spec fn sorted_fields_prefix(s: Seq<(Text, TypeV)>, n: nat) -> Seq<(Text, TypeV)>
    decreases n,
{
    if n == 0 || n > s.len() {
        Seq::empty()
    } else {
        let before = sorted_fields_prefix(s, (n - 1) as nat);
        let x = s[n - 1];
        before.insert(field_slot(before, x.0, before.len()) as int, x)
    }
}

/// The fields in the order of their labels.
pub open spec fn sorted_fields(s: Seq<(Text, TypeV)>) -> Seq<(Text, TypeV)> {
    sorted_fields_prefix(s, s.len())
}

/// Sorts fields by their labels.
pub fn sort_fields(v: &Vec<(String, Type)>) -> (r: Vec<(String, Type)>)
    ensures
        types::fields_view(r@) == sorted_fields(types::fields_view(v@)),
        r.len() == v.len(),
{
    let mut out: Vec<(String, Type)> = Vec::new();
    let mut i: usize = 0;
    assert(types::fields_view(out@) =~= Seq::<(Text, TypeV)>::empty());
    while i < v.len()
        invariant
            i <= v.len(),
            types::fields_view(out@) == sorted_fields_prefix(types::fields_view(v@), i as nat),
            out.len() == i,
        decreases v.len() - i,
    {
        let ghost before = types::fields_view(out@);
        let ghost x = types::fields_view(v@)[i as int];
        let mut j: usize = out.len();
        while j > 0 && text_lt(v[i].0.as_str(), out[j - 1].0.as_str())
            invariant
                j <= out.len(),
                i < v.len(),
                before == types::fields_view(out@),
                x == types::fields_view(v@)[i as int],
                field_slot(before, x.0, before.len()) == field_slot(before, x.0, j as nat),
            decreases j,
        {
            j = j - 1;
        }
        let item = &v[i];
        out.insert(j, (item.0.clone(), item.1.clone()));
        i = i + 1;
        assert(types::fields_view(out@) =~= before.insert(j as int, x));
    }
    out
}

// ---------------------------------------------------------------------------
// Unification
// ---------------------------------------------------------------------------

/// Whether two types differ only in that one is the type of a numeric literal that the other
/// can be.
pub open spec fn literal_fits(a: TypeV, b: TypeV) -> bool {
    match (a, b) {
        (TypeV::IntLit, TypeV::I32) => true,
        (TypeV::I32, TypeV::IntLit) => true,
        (TypeV::IntLit, TypeV::I64) => true,
        (TypeV::I64, TypeV::IntLit) => true,
        (TypeV::FloatLit, TypeV::F32) => true,
        (TypeV::F32, TypeV::FloatLit) => true,
        (TypeV::FloatLit, TypeV::F64) => true,
        (TypeV::F64, TypeV::FloatLit) => true,
        _ => false,
    }
}

/// Binding a variable to a type that it does not occur in.
pub open spec fn bind_var(n: Text, t: TypeV) -> UnifyV {
    if subst::occurs(n, t) {
        Err("Recursive"@)
    } else {
        Ok(seq![(n, t)])
    }
}

/// The failure to unify two types.
pub open spec fn mismatch(a: TypeV, b: TypeV) -> UnifyV {
    Err("Mismatch: "@ + render::type_text(a) + " vs "@ + render::type_text(b))
}

/// The record that a named type stands for at its arguments.
pub open spec fn expanded_record(td: TypeDefV, args: Seq<TypeV>) -> TypeV {
    TypeV::Record(subst::substituted_fields(env::bound_params(td.type_params, args), td.fields))
}

/// Unifies two types. `n` is the number of the next fresh variable, `defs` the record types
/// that names stand for, and `depth` bounds the nesting of the search, which does not end on
/// some rows with a common tail. The result is the outcome and the next number after it.
#[verifier::opaque]
pub open spec fn unified(
    n: usize,
    defs: Seq<(Text, TypeDefV)>,
    a: TypeV,
    b: TypeV,
    depth: nat,
) -> (UnifyV, usize)
    decreases depth, 0nat, 0nat,
{
    if a == b || literal_fits(a, b) {
        (Ok(subst::no_subst()), n)
    } else if a is Var {
        (bind_var(a->Var_0, b), n)
    } else if b is Var {
        (bind_var(b->Var_0, a), n)
    } else if depth == 0 {
        (Err("Recursion limit"@), n)
    } else {
        let d = (depth - 1) as nat;
        match (a, b) {
            (TypeV::Arrow(p1, r1, q1, e1), TypeV::Arrow(p2, r2, q2, e2)) => unified_arrows(
                n,
                defs,
                p1,
                seq![*r1, *q1, *e1],
                p2,
                seq![*r2, *q2, *e2],
                d,
            ),
            (TypeV::Row(e1, t1), TypeV::Row(e2, t2)) => unified_rows(n, defs, e1, t1, e2, t2, d),
            (TypeV::Record(f1), TypeV::Record(f2)) => {
                if f1.len() != f2.len() {
                    (Err("Arity mismatch"@), n)
                } else {
                    unified_fields(n, defs, sorted_fields(f1), sorted_fields(f2), 0, subst::no_subst(), d)
                }
            },
            (TypeV::UserDefined(n1, a1), TypeV::UserDefined(n2, a2)) => {
                if n1 != n2 {
                    (mismatch(a, b), n)
                } else if a1.len() != a2.len() {
                    (Err("Arity mismatch"@), n)
                } else {
                    unified_lists(n, defs, a1, a2, 0, subst::no_subst(), d)
                }
            },
            (TypeV::Array(i1), TypeV::Array(i2)) => unified(n, defs, *i1, *i2, d),
            (TypeV::List(i1), TypeV::List(i2)) => unified(n, defs, *i1, *i2, d),
            (TypeV::List(i), TypeV::UserDefined(name, args)) => {
                if name == "List"@ && args.len() == 1 {
                    unified(n, defs, *i, args[0], d)
                } else {
                    (mismatch(a, b), n)
                }
            },
            (TypeV::UserDefined(name, args), TypeV::List(i)) => {
                if name == "List"@ && args.len() == 1 {
                    unified(n, defs, *i, args[0], d)
                } else {
                    (mismatch(a, b), n)
                }
            },
            (TypeV::Ref(i1), TypeV::Ref(i2)) => unified(n, defs, *i1, *i2, d),
            (TypeV::Linear(i1), TypeV::Linear(i2)) => unified(n, defs, *i1, *i2, d),
            (TypeV::Borrow(i1), TypeV::Borrow(i2)) => unified(n, defs, *i1, *i2, d),
            (TypeV::Handler(n1, q1), TypeV::Handler(n2, q2)) => {
                if n1 == n2 {
                    unified(n, defs, *q1, *q2, d)
                } else {
                    (mismatch(a, b), n)
                }
            },
            (TypeV::UserDefined(name, args), TypeV::Record(_)) => match table::lookup(defs, name) {
                Some(td) => unified(n, defs, b, expanded_record(td, args), d),
                None => (mismatch(a, b), n),
            },
            (TypeV::Record(_), TypeV::UserDefined(name, args)) => match table::lookup(defs, name) {
                Some(td) => unified(n, defs, a, expanded_record(td, args), d),
                None => (mismatch(a, b), n),
            },
            (TypeV::Borrow(i1), _) => unified(n, defs, *i1, b, d),
            _ => (mismatch(a, b), n),
        }
    }
}

/// Unifies two types under a substitution and extends the substitution by the outcome.
pub open spec fn unified_step(
    n: usize,
    defs: Seq<(Text, TypeDefV)>,
    s: SubstV,
    a: TypeV,
    b: TypeV,
    depth: nat,
) -> (UnifyV, usize)
    decreases depth, 1nat, 0nat,
{
    match unified(n, defs, subst::substituted(s, a), subst::substituted(s, b), depth) {
        (Ok(sn), m) => (Ok(subst::composed(s, sn)), m),
        (Err(e), m) => (Err(e), m),
    }
}

/// Unifies the types of two lists pairwise, from index `i` on, extending `s`.
pub open spec fn unified_lists(
    n: usize,
    defs: Seq<(Text, TypeDefV)>,
    xs: Seq<TypeV>,
    ys: Seq<TypeV>,
    i: nat,
    s: SubstV,
    depth: nat,
) -> (UnifyV, usize)
    decreases depth, 2nat, xs.len() - i,
{
    if i >= xs.len() || i >= ys.len() {
        (Ok(s), n)
    } else {
        match unified_step(n, defs, s, xs[i as int], ys[i as int], depth) {
            (Ok(s2), m) => unified_lists(m, defs, xs, ys, i + 1, s2, depth),
            (Err(e), m) => (Err(e), m),
        }
    }
}

/// Unifies the fields of two sorted records pairwise, from index `i` on, extending `s`.
pub open spec fn unified_fields(
    n: usize,
    defs: Seq<(Text, TypeDefV)>,
    xs: Seq<(Text, TypeV)>,
    ys: Seq<(Text, TypeV)>,
    i: nat,
    s: SubstV,
    depth: nat,
) -> (UnifyV, usize)
    decreases depth, 2nat, xs.len() - i,
{
    if i >= xs.len() || i >= ys.len() {
        (Ok(s), n)
    } else if xs[i as int].0 != ys[i as int].0 {
        (Err("Field mismatch"@), n)
    } else {
        match unified_step(n, defs, s, xs[i as int].1, ys[i as int].1, depth) {
            (Ok(s2), m) => unified_fields(m, defs, xs, ys, i + 1, s2, depth),
            (Err(e), m) => (Err(e), m),
        }
    }
}

/// Unifies labelled parameters from index `i` on, each with the parameter of the same label
/// among those that remain, extending `s`.
pub open spec fn unified_params(
    n: usize,
    defs: Seq<(Text, TypeDefV)>,
    xs: Seq<(Text, TypeV)>,
    i: nat,
    remaining: Seq<(Text, TypeV)>,
    s: SubstV,
    depth: nat,
) -> (UnifyV, usize)
    decreases depth, 2nat, xs.len() - i,
{
    if i >= xs.len() {
        (Ok(s), n)
    } else {
        let k = table::key_index(remaining, xs[i as int].0);
        if k >= remaining.len() {
            (Err("Label mismatch: missing "@ + xs[i as int].0), n)
        } else {
            match unified_step(n, defs, s, xs[i as int].1, remaining[k as int].1, depth) {
                (Ok(s2), m) => unified_params(
                    m,
                    defs,
                    xs,
                    i + 1,
                    remaining.remove(k as int),
                    s2,
                    depth,
                ),
                (Err(e), m) => (Err(e), m),
            }
        }
    }
}

/// Unifies two arrows: the parameters by label, then result, requirements and effects.
pub open spec fn unified_arrows(
    n: usize,
    defs: Seq<(Text, TypeDefV)>,
    p1: Seq<(Text, TypeV)>,
    rest1: Seq<TypeV>,
    p2: Seq<(Text, TypeV)>,
    rest2: Seq<TypeV>,
    depth: nat,
) -> (UnifyV, usize)
    decreases depth, 3nat, 0nat,
{
    if p1.len() != p2.len() {
        (Err("Arity mismatch"@), n)
    } else {
        match unified_params(n, defs, p1, 0, p2, subst::no_subst(), depth) {
            (Ok(s), m) => unified_lists(m, defs, rest1, rest2, 0, s, depth),
            (Err(e), m) => (Err(e), m),
        }
    }
}

/// What is left of two rows when the members from index `i` of the first that are in the
/// second are taken out of both.
pub open spec fn row_rests(
    e1: Seq<TypeV>,
    i: nat,
    rest1: Seq<TypeV>,
    rest2: Seq<TypeV>,
) -> (Seq<TypeV>, Seq<TypeV>)
    decreases e1.len() - i,
{
    if i >= e1.len() {
        (rest1, rest2)
    } else {
        let k = helpers::index_of_type(rest2, e1[i as int], 0);
        if k < rest2.len() {
            row_rests(e1, i + 1, rest1, rest2.remove(k as int))
        } else {
            row_rests(e1, i + 1, rest1.push(e1[i as int]), rest2)
        }
    }
}

/// Unifies two rows: common members meet, and the tail of each row takes what only the other
/// one has, with a fresh common tail.
pub open spec fn unified_rows(
    n: usize,
    defs: Seq<(Text, TypeDefV)>,
    e1: Seq<TypeV>,
    t1: Option<Box<TypeV>>,
    e2: Seq<TypeV>,
    t2: Option<Box<TypeV>>,
    depth: nat,
) -> (UnifyV, usize)
    decreases depth, 3nat, 0nat,
{
    let (r1, r2) = row_rests(e1, 0, Seq::empty(), e2);
    let open = t1 is Some || t2 is Some || r1.len() > 0 || r2.len() > 0;
    let tail = if open {
        Some(Box::new(numbered_var(n)))
    } else {
        None
    };
    let n1 = if open {
        next_number(n)
    } else {
        n
    };
    let first: (UnifyV, usize) = match t1 {
        Some(i) => unified(n1, defs, *i, TypeV::Row(r2, tail), depth),
        None => if r2.len() > 0 {
            (Err("Row mismatch"@), n1)
        } else {
            (Ok(subst::no_subst()), n1)
        },
    };
    match first {
        (Err(e), m) => (Err(e), m),
        (Ok(s), m) => match t2 {
            Some(i) => match unified(m, defs, subst::substituted(s, *i), TypeV::Row(r1, tail), depth) {
                (Ok(sn), m2) => (Ok(subst::composed(s, sn)), m2),
                (Err(e), m2) => (Err(e), m2),
            },
            None => if r1.len() > 0 {
                (Err("Row mismatch"@), m)
            } else {
                (Ok(s), m)
            },
        },
    }
}

/// Whether an outcome is the one that its model says.
pub open spec fn unify_matches(r: Result<Subst, String>, m: UnifyV) -> bool {
    match r {
        Ok(s) => m == Ok::<SubstV, Text>(types::fields_view(s@)),
        Err(e) => m == Err::<SubstV, Text>(e@),
    }
}

fn fails(a: &Type, b: &Type) -> (r: Result<Subst, String>)
    ensures
        unify_matches(r, mismatch(a@, b@)),
{
    let x = type_to_text(a);
    let y = type_to_text(b);
    Err(cat4("Mismatch: ", x.as_str(), " vs ", y.as_str()))
}

fn bind_variable(n: &String, t: &Type) -> (r: Result<Subst, String>)
    ensures
        unify_matches(r, bind_var(n@, t@)),
{
    if occurs_check(n.as_str(), t) {
        return Err(owned("Recursive"));
    }
    let mut s: Vec<(String, Type)> = Vec::new();
    s.push((n.clone(), t.clone()));
    assert(types::fields_view(s@) =~= seq![(n@, t@)]);
    Ok(s)
}

fn literal_meets(a: &Type, b: &Type) -> (r: bool)
    ensures
        r == literal_fits(a@, b@),
{
    match (a, b) {
        (Type::IntLit, Type::I32) => true,
        (Type::I32, Type::IntLit) => true,
        (Type::IntLit, Type::I64) => true,
        (Type::I64, Type::IntLit) => true,
        (Type::FloatLit, Type::F32) => true,
        (Type::F32, Type::FloatLit) => true,
        (Type::FloatLit, Type::F64) => true,
        (Type::F64, Type::FloatLit) => true,
        _ => false,
    }
}

/// Unifies two types. Fresh variables are taken from `supply`; `defs` are the record types
/// that names stand for.
#[verifier::spinoff_prover]
#[verifier::rlimit(40)]
pub fn unify_types(
    supply: &mut usize,
    defs: &Vec<(String, TypeDef)>,
    a: &Type,
    b: &Type,
    depth: usize,
) -> (r: Result<Subst, String>)
    ensures
        unify_matches(
            r,
            unified(*old(supply), env::typedefs_view(defs@), a@, b@, depth as nat).0,
        ),
        *final(supply) == unified(
            *old(supply),
            env::typedefs_view(defs@),
            a@,
            b@,
            depth as nat,
        ).1,
    decreases depth, 0nat, 0nat,
{
    proof {
        reveal(unified);
    }
    if type_eq(a, b) || literal_meets(a, b) {
        return Ok(empty_subst());
    }
    match a {
        Type::Var(n) => return bind_variable(n, b),
        _ => {},
    }
    match b {
        Type::Var(n) => return bind_variable(n, a),
        _ => {},
    }
    if depth == 0 {
        return Err(owned("Recursion limit"));
    }
    let d: usize = depth - 1;
    match (a, b) {
        (Type::Arrow(p1, r1, q1, e1), Type::Arrow(p2, r2, q2, e2)) => {
            let x: Vec<&Type> = vec![&**r1, &**q1, &**e1];
            let y: Vec<&Type> = vec![&**r2, &**q2, &**e2];
            proof {
                assert(refs_view(x@) =~= seq![r1@, q1@, e1@]);
                assert(refs_view(y@) =~= seq![r2@, q2@, e2@]);
            }
            unify_arrows(supply, defs, p1, &x, p2, &y, d)
        },
        (Type::Row(e1, t1), Type::Row(e2, t2)) => unify_rows(supply, defs, e1, t1, e2, t2, d),
        (Type::Record(f1), Type::Record(f2)) => {
            proof {
                assert(types::fields_view(f1@).len() == f1.len());
                assert(types::fields_view(f2@).len() == f2.len());
            }
            if f1.len() != f2.len() {
                Err(owned("Arity mismatch"))
            } else {
                let x = sort_fields(f1);
                let y = sort_fields(f2);
                unify_fields(supply, defs, &x, &y, d)
            }
        },
        (Type::UserDefined(n1, a1), Type::UserDefined(n2, a2)) => {
            proof {
                assert(types::types_view(a1@).len() == a1.len());
                assert(types::types_view(a2@).len() == a2.len());
            }
            if !str_eq(n1.as_str(), n2.as_str()) {
                fails(a, b)
            } else if a1.len() != a2.len() {
                Err(owned("Arity mismatch"))
            } else {
                let x = type_refs(a1);
                let y = type_refs(a2);
                let s = empty_subst();
                unify_lists(supply, defs, &x, &y, s, d)
            }
        },
        (Type::Array(i1), Type::Array(i2)) => unify_types(supply, defs, i1, i2, d),
        (Type::List(i1), Type::List(i2)) => unify_types(supply, defs, i1, i2, d),
        (Type::List(i), Type::UserDefined(name, args)) => {
            assert(types::types_view(args@).len() == args.len());
            if str_eq(name.as_str(), "List") && args.len() == 1 {
                unify_types(supply, defs, i, &args[0], d)
            } else {
                fails(a, b)
            }
        },
        (Type::UserDefined(name, args), Type::List(i)) => {
            assert(types::types_view(args@).len() == args.len());
            if str_eq(name.as_str(), "List") && args.len() == 1 {
                unify_types(supply, defs, i, &args[0], d)
            } else {
                fails(a, b)
            }
        },
        (Type::Ref(i1), Type::Ref(i2)) => unify_types(supply, defs, i1, i2, d),
        (Type::Linear(i1), Type::Linear(i2)) => unify_types(supply, defs, i1, i2, d),
        (Type::Borrow(i1), Type::Borrow(i2)) => unify_types(supply, defs, i1, i2, d),
        (Type::Handler(n1, q1), Type::Handler(n2, q2)) => {
            if str_eq(n1.as_str(), n2.as_str()) {
                unify_types(supply, defs, q1, q2, d)
            } else {
                fails(a, b)
            }
        },
        (Type::UserDefined(name, args), Type::Record(_)) => match find_typedef(
            defs,
            name.as_str(),
        ) {
            Some(td) => {
                let expanded = expand_record(td, args);
                unify_types(supply, defs, b, &expanded, d)
            },
            None => fails(a, b),
        },
        (Type::Record(_), Type::UserDefined(name, args)) => match find_typedef(
            defs,
            name.as_str(),
        ) {
            Some(td) => {
                let expanded = expand_record(td, args);
                unify_types(supply, defs, a, &expanded, d)
            },
            None => fails(a, b),
        },
        (Type::Borrow(i1), _) => unify_types(supply, defs, i1, b, d),
        _ => fails(a, b),
    }
}

/// The models of a list of borrowed types.
pub open spec fn refs_view(v: Seq<&Type>) -> Seq<TypeV> {
    v.map_values(|t: &Type| t@)
}

fn type_refs(v: &Vec<Type>) -> (r: Vec<&Type>)
    ensures
        refs_view(r@) == types::types_view(v@),
{
    let mut out: Vec<&Type> = Vec::new();
    let mut i: usize = 0;
    while i < v.len()
        invariant
            i <= v.len(),
            out.len() == i,
            forall|j: int| 0 <= j < i ==> (#[trigger] out@[j])@ == v@[j]@,
        decreases v.len() - i,
    {
        out.push(&v[i]);
        i = i + 1;
    }
    assert(refs_view(out@) =~= types::types_view(v@));
    out
}

fn expand_record(td: &TypeDef, args: &Vec<Type>) -> (r: Type)
    ensures
        r@ == expanded_record(td@, types::types_view(args@)),
{
    let s = bind_params(&td.type_params, args);
    Type::Record(apply_subst_type_fields(&s, &td.fields))
}

fn unify_step(
    supply: &mut usize,
    defs: &Vec<(String, TypeDef)>,
    s: &Vec<(String, Type)>,
    a: &Type,
    b: &Type,
    depth: usize,
) -> (r: Result<Subst, String>)
    ensures
        unify_matches(
            r,
            unified_step(
                *old(supply),
                env::typedefs_view(defs@),
                types::fields_view(s@),
                a@,
                b@,
                depth as nat,
            ).0,
        ),
        *final(supply) == unified_step(
            *old(supply),
            env::typedefs_view(defs@),
            types::fields_view(s@),
            a@,
            b@,
            depth as nat,
        ).1,
    decreases depth, 1nat, 0nat,
{
    proof {
        reveal(unified);
    }
    let x = apply_subst_type(s, a);
    let y = apply_subst_type(s, b);
    match unify_types(supply, defs, &x, &y, depth) {
        Ok(sn) => Ok(compose_subst(s, &sn)),
        Err(e) => Err(e),
    }
}

#[verifier::loop_isolation(false)]
fn unify_lists(
    supply: &mut usize,
    defs: &Vec<(String, TypeDef)>,
    xs: &Vec<&Type>,
    ys: &Vec<&Type>,
    s: Subst,
    depth: usize,
) -> (r: Result<Subst, String>)
    ensures
        unify_matches(
            r,
            unified_lists(
                *old(supply),
                env::typedefs_view(defs@),
                refs_view(xs@),
                refs_view(ys@),
                0,
                types::fields_view(s@),
                depth as nat,
            ).0,
        ),
        *final(supply) == unified_lists(
            *old(supply),
            env::typedefs_view(defs@),
            refs_view(xs@),
            refs_view(ys@),
            0,
            types::fields_view(s@),
            depth as nat,
        ).1,
    decreases depth, 2nat, 0nat,
{
    let ghost all = unified_lists(
        *supply,
        env::typedefs_view(defs@),
        refs_view(xs@),
        refs_view(ys@),
        0,
        types::fields_view(s@),
        depth as nat,
    );
    let mut acc = s;
    let mut i: usize = 0;
    while i < xs.len() && i < ys.len()
        invariant
            i <= xs.len(),
            i <= ys.len(),
            unified_lists(
                *supply,
                env::typedefs_view(defs@),
                refs_view(xs@),
                refs_view(ys@),
                i as nat,
                types::fields_view(acc@),
                depth as nat,
            ) == all,
        decreases xs.len() - i,
    {
        let x: &Type = xs[i];
        let y: &Type = ys[i];
        proof {
            assert(refs_view(xs@)[i as int] == x@);
            assert(refs_view(ys@)[i as int] == y@);
        }
        match unify_step(supply, defs, &acc, x, y, depth) {
            Ok(s2) => {
                acc = s2;
            },
            Err(e) => {
                return Err(e);
            },
        }
        i = i + 1;
    }
    Ok(acc)
}

#[verifier::loop_isolation(false)]
fn unify_fields(
    supply: &mut usize,
    defs: &Vec<(String, TypeDef)>,
    xs: &Vec<(String, Type)>,
    ys: &Vec<(String, Type)>,
    depth: usize,
) -> (r: Result<Subst, String>)
    ensures
        unify_matches(
            r,
            unified_fields(
                *old(supply),
                env::typedefs_view(defs@),
                types::fields_view(xs@),
                types::fields_view(ys@),
                0,
                subst::no_subst(),
                depth as nat,
            ).0,
        ),
        *final(supply) == unified_fields(
            *old(supply),
            env::typedefs_view(defs@),
            types::fields_view(xs@),
            types::fields_view(ys@),
            0,
            subst::no_subst(),
            depth as nat,
        ).1,
    decreases depth, 2nat, 0nat,
{
    let ghost all = unified_fields(
        *supply,
        env::typedefs_view(defs@),
        types::fields_view(xs@),
        types::fields_view(ys@),
        0,
        subst::no_subst(),
        depth as nat,
    );
    let mut acc = empty_subst();
    let mut i: usize = 0;
    while i < xs.len() && i < ys.len()
        invariant
            i <= xs.len(),
            i <= ys.len(),
            unified_fields(
                *supply,
                env::typedefs_view(defs@),
                types::fields_view(xs@),
                types::fields_view(ys@),
                i as nat,
                types::fields_view(acc@),
                depth as nat,
            ) == all,
        decreases xs.len() - i,
    {
        if !str_eq(xs[i].0.as_str(), ys[i].0.as_str()) {
            return Err(owned("Field mismatch"));
        }
        match unify_step(supply, defs, &acc, &xs[i].1, &ys[i].1, depth) {
            Ok(s2) => {
                acc = s2;
            },
            Err(e) => {
                return Err(e);
            },
        }
        i = i + 1;
    }
    Ok(acc)
}

#[verifier::loop_isolation(false)]
fn unify_params(
    supply: &mut usize,
    defs: &Vec<(String, TypeDef)>,
    xs: &Vec<(String, Type)>,
    ys: &Vec<(String, Type)>,
    depth: usize,
) -> (r: Result<Subst, String>)
    ensures
        unify_matches(
            r,
            unified_params(
                *old(supply),
                env::typedefs_view(defs@),
                types::fields_view(xs@),
                0,
                types::fields_view(ys@),
                subst::no_subst(),
                depth as nat,
            ).0,
        ),
        *final(supply) == unified_params(
            *old(supply),
            env::typedefs_view(defs@),
            types::fields_view(xs@),
            0,
            types::fields_view(ys@),
            subst::no_subst(),
            depth as nat,
        ).1,
    decreases depth, 2nat, 0nat,
{
    let ghost all = unified_params(
        *supply,
        env::typedefs_view(defs@),
        types::fields_view(xs@),
        0,
        types::fields_view(ys@),
        subst::no_subst(),
        depth as nat,
    );
    let mut remaining = copy_fields(ys);
    let mut acc = empty_subst();
    let mut i: usize = 0;
    while i < xs.len()
        invariant
            i <= xs.len(),
            unified_params(
                *supply,
                env::typedefs_view(defs@),
                types::fields_view(xs@),
                i as nat,
                types::fields_view(remaining@),
                types::fields_view(acc@),
                depth as nat,
            ) == all,
        decreases xs.len() - i,
    {
        let ghost rem = types::fields_view(remaining@);
        assert(table::keys_of(rem) =~= table::raw_keys(remaining@));
        match find_key(&remaining, xs[i].0.as_str()) {
            Some(k) => {
                let item = remaining.remove(k);
                assert(types::fields_view(remaining@) =~= rem.remove(k as int));
                match unify_step(supply, defs, &acc, &xs[i].1, &item.1, depth) {
                    Ok(s2) => {
                        acc = s2;
                    },
                    Err(e) => {
                        return Err(e);
                    },
                }
            },
            None => {
                return Err(cat2("Label mismatch: missing ", xs[i].0.as_str()));
            },
        }
        i = i + 1;
    }
    Ok(acc)
}

fn unify_arrows(
    supply: &mut usize,
    defs: &Vec<(String, TypeDef)>,
    p1: &Vec<(String, Type)>,
    rest1: &Vec<&Type>,
    p2: &Vec<(String, Type)>,
    rest2: &Vec<&Type>,
    depth: usize,
) -> (r: Result<Subst, String>)
    ensures
        unify_matches(
            r,
            unified_arrows(
                *old(supply),
                env::typedefs_view(defs@),
                types::fields_view(p1@),
                refs_view(rest1@),
                types::fields_view(p2@),
                refs_view(rest2@),
                depth as nat,
            ).0,
        ),
        *final(supply) == unified_arrows(
            *old(supply),
            env::typedefs_view(defs@),
            types::fields_view(p1@),
            refs_view(rest1@),
            types::fields_view(p2@),
            refs_view(rest2@),
            depth as nat,
        ).1,
    decreases depth, 3nat, 0nat,
{
    if p1.len() != p2.len() {
        return Err(owned("Arity mismatch"));
    }
    match unify_params(supply, defs, p1, p2, depth) {
        Ok(s) => unify_lists(supply, defs, rest1, rest2, s, depth),
        Err(e) => Err(e),
    }
}

fn split_rows(e1: &Vec<Type>, e2: &Vec<Type>) -> (r: (Vec<Type>, Vec<Type>))
    ensures
        (types::types_view(r.0@), types::types_view(r.1@)) == row_rests(
            types::types_view(e1@),
            0,
            Seq::empty(),
            types::types_view(e2@),
        ),
{
    let mut rest2 = copy_types(e2);
    let mut rest1: Vec<Type> = Vec::new();
    let ghost all = row_rests(types::types_view(e1@), 0, Seq::empty(), types::types_view(e2@));
    assert(types::types_view(rest1@) =~= Seq::<TypeV>::empty());
    let mut i: usize = 0;
    while i < e1.len()
        invariant
            i <= e1.len(),
            row_rests(types::types_view(e1@), i as nat, types::types_view(rest1@), types::types_view(rest2@)) == all,
        decreases e1.len() - i,
    {
        let ghost b1 = types::types_view(rest1@);
        let ghost b2 = types::types_view(rest2@);
        match find_type(&rest2, &e1[i]) {
            Some(k) => {
                rest2.remove(k);
                assert(types::types_view(rest2@) =~= b2.remove(k as int));
            },
            None => {
                rest1.push(e1[i].clone());
                assert(types::types_view(rest1@) =~= b1.push(e1@[i as int]@));
            },
        }
        i = i + 1;
    }
    (rest1, rest2)
}

fn unify_rows(
    supply: &mut usize,
    defs: &Vec<(String, TypeDef)>,
    e1: &Vec<Type>,
    t1: &Option<Box<Type>>,
    e2: &Vec<Type>,
    t2: &Option<Box<Type>>,
    depth: usize,
) -> (r: Result<Subst, String>)
    ensures
        unify_matches(
            r,
            unified_rows(
                *old(supply),
                env::typedefs_view(defs@),
                types::types_view(e1@),
                types::tail_view(*t1),
                types::types_view(e2@),
                types::tail_view(*t2),
                depth as nat,
            ).0,
        ),
        *final(supply) == unified_rows(
            *old(supply),
            env::typedefs_view(defs@),
            types::types_view(e1@),
            types::tail_view(*t1),
            types::types_view(e2@),
            types::tail_view(*t2),
            depth as nat,
        ).1,
    decreases depth, 3nat, 0nat,
{
    proof {
        reveal(unified);
    }
    let (r1, r2) = split_rows(e1, e2);
    proof {
        assert(types::types_view(r1@).len() == r1.len());
        assert(types::types_view(r2@).len() == r2.len());
    }
    let open = t1.is_some() || t2.is_some() || r1.len() > 0 || r2.len() > 0;
    let tail: Option<Box<Type>> = if open {
        Some(Box::new(fresh_var(supply)))
    } else {
        None
    };
    let r1_empty = r1.len() == 0;
    let row1 = Type::Row(r1, copy_tail(&tail));
    let r2_empty = r2.len() == 0;
    let row2 = Type::Row(r2, tail);
    let s = match t1 {
        Some(i) => match unify_types(supply, defs, i, &row2, depth) {
            Ok(s) => s,
            Err(e) => {
                return Err(e);
            },
        },
        None => {
            if !r2_empty {
                return Err(owned("Row mismatch"));
            }
            empty_subst()
        },
    };
    match t2 {
        Some(i) => {
            let x = apply_subst_type(&s, i);
            match unify_types(supply, defs, &x, &row1, depth) {
                Ok(sn) => Ok(compose_subst(&s, &sn)),
                Err(e) => Err(e),
            }
        },
        None => {
            if !r1_empty {
                return Err(owned("Row mismatch"));
            }
            Ok(s)
        },
    }
}

} // verus!
