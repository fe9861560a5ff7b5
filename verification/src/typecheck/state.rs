//! The state of inference: the supply of type variables, the warnings, and the definitions
//! that unification and exhaustiveness look at.

use crate::ast;
use crate::ast::{EnumDefV, TypeDef, TypeDefV, VariantDefV};
use crate::table;
use crate::text;
use crate::text::{Text, str_eq};
use crate::typecheck::env;
use crate::typecheck::env::{
    EnvV, Scheme, SchemeV, TypeEnv, TypeError, TypeErrorV, TypeWarning, TypeWarningV,
};
use crate::typecheck::helpers;
use crate::typecheck::subst;
use crate::typecheck::subst::{Subst, SubstV, apply_subst_type, empty_subst, subst_put};
use crate::typecheck::unify;
use crate::typecheck::unify::{UnifyV, fresh_var, unify_types};
use crate::types;
use crate::types::{EnumDef, Span, Type, TypeV, VariantDef, copy_types};
use vstd::prelude::*;

verus! {

/// What inference works with: fresh variables and warnings of its own, and definitions that
/// it only reads.
pub struct Infer<'a> {
    pub supply: usize,
    pub warnings: Vec<TypeWarning>,
    pub defs: &'a Vec<(String, TypeDef)>,
    pub cache: &'a Vec<(String, TypeEnv)>,
}

/// The model of the definitions that inference reads.
pub struct Cx {
    pub defs: Seq<(Text, TypeDefV)>,
    pub cache: Seq<(Text, EnvV)>,
}

/// The model of what inference changes: the next variable, the warnings, the environment.
pub struct St {
    pub supply: usize,
    pub warnings: Seq<TypeWarningV>,
    pub env: EnvV,
}

/// The state with another environment.
pub open spec fn with_env(st: St, env: EnvV) -> St {
    St { env, ..st }
}

impl<'a> Infer<'a> {
    /// The model of the definitions.
    pub open spec fn cx(&self) -> Cx {
        Cx { defs: env::typedefs_view(self.defs@), cache: env::modules_view(self.cache@) }
    }

    /// The model of the state, together with an environment.
    pub open spec fn st(&self, env: EnvV) -> St {
        St { supply: self.supply, warnings: env::warnings_view(self.warnings@), env }
    }
}

/// What the code around an expression expects: the type that `return` yields, the coeffects
/// at hand, and the effects that may be thrown.
pub struct Expect<'a> {
    pub ret: &'a Type,
    pub reqs: &'a Type,
    pub effs: &'a Type,
}

/// The model of what is expected.
pub struct ExpectV {
    pub ret: TypeV,
    pub reqs: TypeV,
    pub effs: TypeV,
}

impl<'a> Expect<'a> {
    /// The model of what is expected.
    pub open spec fn view(&self) -> ExpectV {
        ExpectV { ret: self.ret@, reqs: self.reqs@, effs: self.effs@ }
    }
}

/// What inference of an expression yields: a substitution and a type.
pub type InferV = Result<(SubstV, TypeV), TypeErrorV>;

/// Whether an outcome is the one that its model says.
pub open spec fn infer_matches(r: Result<(Subst, Type), TypeError>, m: InferV) -> bool {
    match r {
        Ok((s, t)) => m == Ok::<(SubstV, TypeV), TypeErrorV>((types::fields_view(s@), t@)),
        Err(e) => m == Err::<(SubstV, TypeV), TypeErrorV>(e@),
    }
}

/// Whether an outcome is the one that its model says.
pub open spec fn subst_matches(
    r: Result<Subst, TypeError>,
    m: Result<SubstV, TypeErrorV>,
) -> bool {
    match r {
        Ok(s) => m == Ok::<SubstV, TypeErrorV>(types::fields_view(s@)),
        Err(e) => m == Err::<SubstV, TypeErrorV>(e@),
    }
}

/// Whether an outcome is the one that its model says.
pub open spec fn unit_matches(r: Result<(), TypeError>, m: Result<(), TypeErrorV>) -> bool {
    match r {
        Ok(()) => m is Ok,
        Err(e) => m == Err::<(), TypeErrorV>(e@),
    }
}

/// A fresh variable, and the state after it.
pub open spec fn fresh(st: St) -> (TypeV, St) {
    (unify::numbered_var(st.supply), St { supply: unify::next_number(st.supply), ..st })
}

/// Unification in a state.
pub open spec fn st_unify(cx: Cx, st: St, a: TypeV, b: TypeV) -> (UnifyV, St) {
    let (r, n) = unify::unified(st.supply, cx.defs, a, b, usize::MAX as nat);
    (r, St { supply: n, ..st })
}

/// Unification in a state, with the place at which a failure is reported.
pub open spec fn st_unify_at(cx: Cx, st: St, a: TypeV, b: TypeV, span: Span) -> (
    Result<SubstV, TypeErrorV>,
    St,
) {
    match st_unify(cx, st, a, b) {
        (Ok(s), st1) => (Ok(s), st1),
        (Err(m), st1) => (Err(env::error_at(m, span)), st1),
    }
}

/// `s` extended by a fresh variable for each name from index `i` on, and the next number.
pub open spec fn fresh_binding(s: SubstV, vars: Seq<Text>, i: nat, n: usize) -> (SubstV, usize)
    decreases vars.len() - i,
{
    if i >= vars.len() {
        (s, n)
    } else {
        fresh_binding(table::store(s, vars[i as int], unify::numbered_var(n)), vars, i + 1, unify::next_number(n))
    }
}

/// A scheme with fresh variables for those it is general in, and the state after it.
pub open spec fn instantiated(st: St, sch: SchemeV) -> (TypeV, St) {
    let (s, n) = fresh_binding(subst::no_subst(), sch.vars, 0, st.supply);
    (subst::substituted(s, sch.typ), St { supply: n, ..st })
}

/// `k` fresh variables, from number `n` on, behind those of `acc`; and the next number.
pub open spec fn fresh_list(acc: Seq<TypeV>, k: nat, n: usize) -> (Seq<TypeV>, usize)
    decreases k,
{
    if k == 0 {
        (acc, n)
    } else {
        fresh_list(acc.push(unify::numbered_var(n)), (k - 1) as nat, unify::next_number(n))
    }
}

/// Labels with a fresh variable each, from index `i` on, behind those of `acc`; and the next
/// number.
pub open spec fn fresh_params(
    acc: Seq<(Text, TypeV)>,
    labels: Seq<Text>,
    i: nat,
    n: usize,
) -> (Seq<(Text, TypeV)>, usize)
    decreases labels.len() - i,
{
    if i >= labels.len() {
        (acc, n)
    } else {
        fresh_params(
            acc.push((labels[i as int], unify::numbered_var(n))),
            labels,
            i + 1,
            unify::next_number(n),
        )
    }
}

/// A closed row opened by a fresh tail; other types as they are.
pub open spec fn opened_row(st: St, t: TypeV) -> (TypeV, St) {
    match t {
        TypeV::Row(es, tail) => {
            if tail is None {
                (TypeV::Row(es, Some(Box::new(fresh(st).0))), fresh(st).1)
            } else {
                (t, st)
            }
        },
        TypeV::Unit => (TypeV::Row(Seq::empty(), Some(Box::new(fresh(st).0))), fresh(st).1),
        _ => (t, st),
    }
}

impl<'a> Infer<'a> {
    /// A fresh type variable.
    pub fn new_var(&mut self) -> (r: Type)
        ensures
            r@ == unify::numbered_var(old(self).supply),
            final(self).supply == unify::next_number(old(self).supply),
            final(self).warnings == old(self).warnings,
            final(self).cx() == old(self).cx(),
    {
        fresh_var(&mut self.supply)
    }

    /// Unifies two types.
    pub fn unify(&mut self, a: &Type, b: &Type) -> (r: Result<Subst, String>)
        ensures
            unify::unify_matches(
                r,
                unify::unified(old(self).supply, old(self).cx().defs, a@, b@, usize::MAX as nat).0,
            ),
            final(self).supply == unify::unified(
                old(self).supply,
                old(self).cx().defs,
                a@,
                b@,
                usize::MAX as nat,
            ).1,
            final(self).warnings == old(self).warnings,
            final(self).cx() == old(self).cx(),
    {
        unify_types(&mut self.supply, self.defs, a, b, usize::MAX)
    }

    /// Unifies two types, and reports a failure at a place.
    pub fn unify_at(&mut self, a: &Type, b: &Type, span: &Span, Ghost(env): Ghost<EnvV>) -> (r:
        Result<Subst, TypeError>)
        ensures
            subst_matches(r, st_unify_at(old(self).cx(), old(self).st(env), a@, b@, *span).0),
            final(self).st(env) == st_unify_at(
                old(self).cx(),
                old(self).st(env),
                a@,
                b@,
                *span,
            ).1,
            final(self).warnings == old(self).warnings,
            final(self).cx() == old(self).cx(),
    {
        match self.unify(a, b) {
            Ok(s) => Ok(s),
            Err(m) => Err(TypeError::new(m, *span)),
        }
    }

    /// Gives a scheme fresh variables.
    pub fn instantiate(&mut self, scheme: &Scheme, Ghost(env): Ghost<EnvV>) -> (r: Type)
        ensures
            (r@, final(self).st(env)) == instantiated(old(self).st(env), scheme@),
            final(self).warnings == old(self).warnings,
            final(self).cx() == old(self).cx(),
    {
        let mut s = empty_subst();
        let mut i: usize = 0;
        while i < scheme.vars.len()
            invariant
                i <= scheme.vars.len(),
                fresh_binding(types::fields_view(s@), text::texts(scheme.vars@), i as nat, self.supply)
                    == fresh_binding(subst::no_subst(), text::texts(scheme.vars@), 0, old(self).supply),
                self.warnings == old(self).warnings,
                self.cx() == old(self).cx(),
            decreases scheme.vars.len() - i,
        {
            let v = self.new_var();
            subst_put(&mut s, scheme.vars[i].clone(), v);
            i = i + 1;
        }
        apply_subst_type(&s, &scheme.typ)
    }

    /// `k` fresh variables.
    pub fn new_vars(&mut self, k: usize) -> (r: Vec<Type>)
        ensures
            (types::types_view(r@), final(self).supply) == fresh_list(
                Seq::empty(),
                k as nat,
                old(self).supply,
            ),
            r.len() == k,
            final(self).warnings == old(self).warnings,
            final(self).cx() == old(self).cx(),
    {
        let mut out: Vec<Type> = Vec::new();
        assert(types::types_view(out@) =~= Seq::<TypeV>::empty());
        let mut left: usize = k;
        while left > 0
            invariant
                left <= k,
                out.len() == k - left,
                fresh_list(types::types_view(out@), left as nat, self.supply) == fresh_list(
                    Seq::empty(),
                    k as nat,
                    old(self).supply,
                ),
                self.warnings == old(self).warnings,
                self.cx() == old(self).cx(),
            decreases left,
        {
            let ghost before = types::types_view(out@);
            let v = self.new_var();
            out.push(v);
            assert(types::types_view(out@) =~= before.push(v@));
            left = left - 1;
        }
        out
    }

    /// Opens a closed row.
    pub fn open_row(&mut self, t: &Type, Ghost(env): Ghost<EnvV>) -> (r: Type)
        ensures
            (r@, final(self).st(env)) == opened_row(old(self).st(env), t@),
            final(self).warnings == old(self).warnings,
            final(self).cx() == old(self).cx(),
    {
        match t {
            Type::Row(es, tail) => {
                if tail.is_none() {
                    let v = self.new_var();
                    Type::Row(copy_types(es), Some(Box::new(v)))
                } else {
                    t.clone()
                }
            },
            Type::Unit => {
                let v = self.new_var();
                let es: Vec<Type> = Vec::new();
                assert(types::types_view(es@) =~= Seq::<TypeV>::empty());
                Type::Row(es, Some(Box::new(v)))
            },
            _ => t.clone(),
        }
    }
}

// ---------------------------------------------------------------------------
// Placing the arguments of a constructor
// ---------------------------------------------------------------------------

/// Why an argument has no place among the fields of a constructor.
pub enum Misplaced {
    Duplicate,
    Unknown,
    TooMany,
}

/// The first field at or after index `i` of a label, or the number of fields.
pub open spec fn labelled_field(fields: Seq<(Option<Text>, TypeV)>, label: Text, i: nat) -> nat
    decreases fields.len() - i,
{
    if i >= fields.len() {
        fields.len()
    } else if fields[i as int].0 == Some(label) {
        i
    } else {
        labelled_field(fields, label, i + 1)
    }
}

/// The first place at or after index `i` that is free, or the number of places.
pub open spec fn free_place(places: Seq<Option<usize>>, i: nat) -> nat
    decreases places.len() - i,
{
    if i >= places.len() {
        places.len()
    } else if places[i as int] is None {
        i
    } else {
        free_place(places, i + 1)
    }
}

/// The fields that the arguments from index `i` on fill: a labelled argument the field of its
/// label, another one the first free field. A failure comes with the argument it is about.
pub open spec fn placed(
    fields: Seq<(Option<Text>, TypeV)>,
    labels: Seq<Option<Text>>,
    places: Seq<Option<usize>>,
    i: nat,
) -> Result<Seq<Option<usize>>, (Misplaced, nat)>
    decreases labels.len() - i,
{
    if i >= labels.len() {
        Ok(places)
    } else {
        match labels[i as int] {
            Some(l) => {
                let k = labelled_field(fields, l, 0);
                if k >= fields.len() {
                    Err((Misplaced::Unknown, i))
                } else if places[k as int] is Some {
                    Err((Misplaced::Duplicate, i))
                } else {
                    placed(fields, labels, places.update(k as int, Some(i as usize)), i + 1)
                }
            },
            None => {
                let k = free_place(places, 0);
                if k >= places.len() {
                    Err((Misplaced::TooMany, i))
                } else {
                    placed(fields, labels, places.update(k as int, Some(i as usize)), i + 1)
                }
            },
        }
    }
}

/// `n` free places.
pub open spec fn free_places(n: nat) -> Seq<Option<usize>> {
    Seq::new(n, |i: int| None)
}

fn find_labelled_field(fields: &Vec<(Option<String>, Type)>, label: &str) -> (r: usize)
    ensures
        r == labelled_field(ast::ctor_fields(fields@), label@, 0),
        r <= fields.len(),
{
    let ghost fv = ast::ctor_fields(fields@);
    let mut i: usize = 0;
    while i < fields.len()
        invariant
            i <= fields.len(),
            fv == ast::ctor_fields(fields@),
            labelled_field(fv, label@, 0) == labelled_field(fv, label@, i as nat),
        decreases fields.len() - i,
    {
        assert(fv[i as int].0 == types::opt_text(fields@[i as int].0));
        match &fields[i].0 {
            Some(l) => {
                if str_eq(l.as_str(), label) {
                    return i;
                }
            },
            None => {},
        }
        i = i + 1;
    }
    i
}

fn find_free_place(places: &Vec<Option<usize>>) -> (r: usize)
    ensures
        r == free_place(places@, 0),
        r <= places.len(),
{
    let mut i: usize = 0;
    while i < places.len()
        invariant
            i <= places.len(),
            free_place(places@, 0) == free_place(places@, i as nat),
        decreases places.len() - i,
    {
        if places[i].is_none() {
            return i;
        }
        i = i + 1;
    }
    i
}

/// Finds the fields that the arguments of a constructor fill.
pub fn place_args<T>(fields: &Vec<(Option<String>, Type)>, args: &Vec<(Option<String>, T)>) -> (r:
    Result<Vec<Option<usize>>, (Misplaced, usize)>)
    ensures
        match r {
            Ok(p) => {
                &&& placed(
                    ast::ctor_fields(fields@),
                    helpers::raw_labels(args@),
                    free_places(fields@.len()),
                    0,
                ) == Ok::<Seq<Option<usize>>, (Misplaced, nat)>(p@)
                &&& p.len() == fields.len()
                &&& forall|k: int|
                    0 <= k < p.len() ==> (#[trigger] p@[k] matches Some(a) ==> a < args.len())
            },
            Err((m, i)) => {
                &&& placed(
                    ast::ctor_fields(fields@),
                    helpers::raw_labels(args@),
                    free_places(fields@.len()),
                    0,
                ) == Err::<Seq<Option<usize>>, (Misplaced, nat)>((m, i as nat))
                &&& i < args.len()
                &&& m !is TooMany ==> args@[i as int].0 is Some
            },
        },
{
    let ghost fv = ast::ctor_fields(fields@);
    let ghost lv = helpers::raw_labels(args@);
    let mut places: Vec<Option<usize>> = Vec::new();
    let mut k: usize = 0;
    while k < fields.len()
        invariant
            k <= fields.len(),
            places@ == free_places(k as nat),
        decreases fields.len() - k,
    {
        places.push(None);
        k = k + 1;
        assert(places@ =~= free_places(k as nat));
    }
    let mut i: usize = 0;
    while i < args.len()
        invariant
            i <= args.len(),
            fv == ast::ctor_fields(fields@),
            lv == helpers::raw_labels(args@),
            places.len() == fields.len(),
            placed(fv, lv, places@, i as nat) == placed(fv, lv, free_places(fields@.len()), 0),
            forall|k: int|
                0 <= k < places.len() ==> (#[trigger] places@[k] matches Some(a) ==> a
                    < args.len()),
        decreases args.len() - i,
    {
        assert(lv[i as int] == types::opt_text(args@[i as int].0));
        match &args[i].0 {
            Some(l) => {
                let k = find_labelled_field(fields, l.as_str());
                if k >= fields.len() {
                    return Err((Misplaced::Unknown, i));
                }
                if places[k].is_some() {
                    return Err((Misplaced::Duplicate, i));
                }
                places.set(k, Some(i));
            },
            None => {
                let k = find_free_place(&places);
                if k >= places.len() {
                    return Err((Misplaced::TooMany, i));
                }
                places.set(k, Some(i));
            },
        }
        i = i + 1;
    }
    Ok(places)
}

/// The first constructor of a name among the sum types from index `i` on, with its type.
pub open spec fn ctor_in_enums(enums: Seq<(Text, EnumDefV)>, name: Text, i: nat) -> Option<
    (EnumDefV, VariantDefV),
>
    decreases enums.len() - i,
{
    if i >= enums.len() {
        None
    } else {
        match variant_named(enums[i as int].1.variants, name, 0) {
            Some(v) => Some((enums[i as int].1, v)),
            None => ctor_in_enums(enums, name, i + 1),
        }
    }
}

/// The first constructor of a name from index `i` on.
pub open spec fn variant_named(vs: Seq<VariantDefV>, name: Text, i: nat) -> Option<VariantDefV>
    decreases vs.len() - i,
{
    if i >= vs.len() {
        None
    } else if vs[i as int].name == name {
        Some(vs[i as int])
    } else {
        variant_named(vs, name, i + 1)
    }
}

/// Finds the first constructor of a name.
pub fn find_variant<'a>(vs: &'a Vec<VariantDef>, name: &str) -> (r: Option<&'a VariantDef>)
    ensures
        match r {
            Some(v) => variant_named(ast::variants_view(vs@), name@, 0) == Some(v@),
            None => variant_named(ast::variants_view(vs@), name@, 0) is None,
        },
{
    let ghost vv = ast::variants_view(vs@);
    let mut i: usize = 0;
    while i < vs.len()
        invariant
            i <= vs.len(),
            vv == ast::variants_view(vs@),
            variant_named(vv, name@, 0) == variant_named(vv, name@, i as nat),
        decreases vs.len() - i,
    {
        assert(vv[i as int] == vs@[i as int]@);
        if str_eq(vs[i].name.as_str(), name) {
            return Some(&vs[i]);
        }
        i = i + 1;
    }
    None
}

/// Finds the first constructor of a name, with its type.
pub fn find_ctor<'a>(enums: &'a Vec<(String, EnumDef)>, name: &str) -> (r: Option<
    (&'a EnumDef, &'a VariantDef),
>)
    ensures
        match r {
            Some((ed, v)) => ctor_in_enums(env::enums_view(enums@), name@, 0) == Some((ed@, v@)),
            None => ctor_in_enums(env::enums_view(enums@), name@, 0) is None,
        },
{
    let ghost ev = env::enums_view(enums@);
    let mut i: usize = 0;
    while i < enums.len()
        invariant
            i <= enums.len(),
            ev == env::enums_view(enums@),
            ctor_in_enums(ev, name@, 0) == ctor_in_enums(ev, name@, i as nat),
        decreases enums.len() - i,
    {
        assert(ev[i as int].1 == enums@[i as int].1@);
        match find_variant(&enums[i].1.variants, name) {
            Some(v) => {
                return Some((&enums[i].1, v));
            },
            None => {},
        }
        i = i + 1;
    }
    None
}

} // verus!
