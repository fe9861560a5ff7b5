//! Steps of inference before and after the parts of an expression or a statement: placing the
//! arguments of a constructor, joining the cases of a match, assignments, and `raise`.

use crate::ast;
use crate::ast::{Expr, ExprV, Pattern, PatternV};
use crate::text;
use crate::text::{Text, cat2, owned};
use crate::typecheck::env;
use crate::typecheck::env::{EnvV, TypeEnv, TypeError, TypeErrorV, bind_params};
use crate::typecheck::exhaustiveness;
use crate::typecheck::exhaustiveness::check_irrefutable;
use crate::typecheck::helpers;
use crate::typecheck::helpers::{copy_ctor_fields, default_numeric_literals, make_named};
use crate::typecheck::pattern;
use crate::typecheck::rules;
use crate::typecheck::rules::{ctor_count_error, ctor_place_error, find_element_type, strip_linear};
use crate::typecheck::state;
use crate::typecheck::state::{Cx, Infer, InferV, St, find_ctor, place_args};
use crate::typecheck::subst;
use crate::typecheck::subst::{Subst, SubstV, apply_subst_type, compose_subst};
use crate::types;
use crate::types::{Sigil, Span, Spanned, Type, TypeV};
use vstd::prelude::*;

verus! {

// ---------------------------------------------------------------------------
// Constructors
// ---------------------------------------------------------------------------

/// A use of a constructor whose arguments have their places.
pub struct CtorUse {
    pub name: String,
    pub targs: Vec<Type>,
    pub inst: Subst,
    pub fields: Vec<(Option<String>, Type)>,
    pub places: Vec<Option<usize>>,
}

/// The model of a use of a constructor.
pub struct CtorUseV {
    pub name: Text,
    pub targs: Seq<TypeV>,
    pub inst: SubstV,
    pub fields: Seq<(Option<Text>, TypeV)>,
    pub places: Seq<Option<usize>>,
}

impl CtorUse {
    /// The model of this use.
    pub open spec fn view(&self) -> CtorUseV {
        CtorUseV {
            name: self.name@,
            targs: types::types_view(self.targs@),
            inst: types::fields_view(self.inst@),
            fields: ast::ctor_fields(self.fields@),
            places: self.places@,
        }
    }
}

/// A constructor before its arguments are inferred: each argument has its place.
#[verifier::opaque]
pub open spec fn ctor_rule(
    st: St,
    span: Span,
    name: Text,
    args: Seq<(Option<Text>, Spanned<ExprV>)>,
) -> (Result<CtorUseV, TypeErrorV>, St) {
    match state::ctor_in_enums(st.env.enums, name, 0) {
        None => (Err(env::error_at("Unknown ctor "@ + name, span)), st),
        Some((ed, v)) => {
            if v.fields.len() != args.len() {
                (Err(env::error_at(rules::ctor_count_message(name, v.fields, helpers::labels_of(args)), span)), st)
            } else {
                let (targs, n) = state::fresh_list(Seq::empty(), ed.type_params.len(), st.supply);
                let st1 = St { supply: n, ..st };
                match state::placed(v.fields, helpers::labels_of(args), state::free_places(v.fields.len()), 0) {
                    Err((why, i)) => (
                        Err(
                            env::error_at(
                                rules::ctor_place_message(
                                    why,
                                    pattern::label_text(args[i as int].0),
                                    name,
                                    v.fields,
                                    helpers::labels_of(args),
                                ),
                                args[i as int].1.span,
                            ),
                        ),
                        st1,
                    ),
                    Ok(places) => (
                        Ok(
                            CtorUseV {
                                name: ed.name,
                                targs,
                                inst: env::bound_params(ed.type_params, targs),
                                fields: v.fields,
                                places,
                            },
                        ),
                        st1,
                    ),
                }
            }
        },
    }
}

// ---------------------------------------------------------------------------
// Matches
// ---------------------------------------------------------------------------

/// The types of the cases from index `i` on, unified with `t`.
pub open spec fn tails_unified(
    cx: Cx,
    st: St,
    span: Span,
    s: SubstV,
    t: TypeV,
    tails: Seq<TypeV>,
    i: nat,
) -> (InferV, St)
    decreases tails.len() - i,
{
    if i >= tails.len() {
        (Ok((s, t)), st)
    } else {
        match state::st_unify(cx, st, t, tails[i as int]) {
            (Ok(su), st1) => tails_unified(
                cx,
                st1,
                span,
                subst::composed(s, su),
                subst::substituted(su, t),
                tails,
                i + 1,
            ),
            (Err(_), st1) => (
                Err(
                    env::error_at(
                        "Match case type mismatch: all cases must produce the same type"@,
                        span,
                    ),
                ),
                st1,
            ),
        }
    }
}

/// A match after its cases: `rv` are the linear bindings left by the cases that go on, `tails`
/// their types. Where no case goes on, nothing is left to consume.
#[verifier::opaque]
pub open spec fn match_rule(
    cx: Cx,
    st: St,
    span: Span,
    s: SubstV,
    rv: Option<Seq<Text>>,
    tails: Seq<TypeV>,
) -> (InferV, St) {
    let left = match rv {
        Some(v) => v,
        None => Seq::empty(),
    };
    let st1 = state::with_env(st, EnvV { linear_vars: left, ..st.env });
    if tails.len() == 0 {
        (Ok((s, TypeV::Unit)), st1)
    } else {
        tails_unified(cx, st1, span, s, tails[0], tails, 1)
    }
}

/// Whether no linear binding is left twice.
pub open spec fn left_apart(left: Option<Seq<Text>>) -> bool {
    left matches Some(v) ==> v.no_duplicates()
}

/// The model of an optional list of texts.
pub open spec fn opt_texts(o: Option<Vec<String>>) -> Option<Seq<Text>> {
    match o {
        Some(v) => Some(text::texts(v@)),
        None => None,
    }
}

// ---------------------------------------------------------------------------
// Assignments
// ---------------------------------------------------------------------------

/// An assignment to a variable, which must be a reference.
#[verifier::opaque]
pub open spec fn assign_variable_rule(
    cx: Cx,
    st: St,
    span: Span,
    vspan: Span,
    name: Text,
    sigil: Sigil,
    tv: TypeV,
) -> (Result<(), TypeErrorV>, St) {
    if sigil == Sigil::Immutable {
        (Err(env::error_at("Mutating immutable"@, span)), st)
    } else {
        match env::env_get(st.env, sigil.key(name)) {
            None => (Err(env::error_at("Not found"@, span)), st),
            Some(sch) => {
                let (t, st1) = state::instantiated(st, sch);
                match t {
                    TypeV::Ref(i) => match state::st_unify_at(cx, st1, tv, *i, vspan) {
                        (Ok(_), st2) => (Ok(()), st2),
                        (Err(e), st2) => (Err(e), st2),
                    },
                    _ => (Err(env::error_at("Not a ref"@, span)), st1),
                }
            },
        }
    }
}

/// The type of a variable whose element is assigned; it is not consumed.
#[verifier::opaque]
pub open spec fn assigned_array_rule(st: St, span: Span, name: Text, sigil: Sigil) -> (
    Result<TypeV, TypeErrorV>,
    St,
) {
    match env::env_get(st.env, sigil.key(name)) {
        None => (Err(env::error_at("Not found: "@ + sigil.key(name), span)), st),
        Some(sch) => {
            let (t, st1) = state::instantiated(st, sch);
            (Ok(t), st1)
        },
    }
}

/// An assignment to an element of an array of type `ta`.
#[verifier::opaque]
pub open spec fn assign_element_rule(
    cx: Cx,
    st: St,
    aspan: Span,
    vspan: Span,
    ta: TypeV,
    tv: TypeV,
) -> (Result<(), TypeErrorV>, St) {
    match rules::element_type(rules::without_linear(ta)) {
        None => (Err(env::error_at("Not an array"@, aspan)), st),
        Some(t) => match state::st_unify_at(cx, st, tv, t, vspan) {
            (Ok(_), st1) => (Ok(()), st1),
            (Err(e), st1) => (Err(e), st1),
        },
    }
}

// ---------------------------------------------------------------------------
// Other steps
// ---------------------------------------------------------------------------

/// A `raise` after its operand, of type `t` under `s`: the operand is an exception, and the
/// effects that may be thrown hold one.
#[verifier::opaque]
pub open spec fn raise_rule(
    cx: Cx,
    st: St,
    span: Span,
    vspan: Span,
    s: SubstV,
    t: TypeV,
    effs: TypeV,
) -> (InferV, St) {
    match state::st_unify_at(cx, st, t, helpers::named_type(helpers::exn_name()), vspan) {
        (Err(e), st1) => (Err(e), st1),
        (Ok(ss), st1) => {
            let s1 = subst::composed(s, ss);
            let (tail, st2) = state::fresh(st1);
            let row = TypeV::Row(seq![helpers::named_type(helpers::exn_name())], Some(Box::new(tail)));
            match state::st_unify(cx, st2, subst::substituted(s1, effs), row) {
                (Err(_), st3) => (Err(env::error_at("raise requires 'Exn'"@, span)), st3),
                (Ok(se), st3) => {
                    let (v, st4) = state::fresh(st3);
                    (Ok((subst::composed(s1, se), v)), st4)
                },
            }
        },
    }
}

/// A condition of type `t` under `s`.
#[verifier::opaque]
pub open spec fn condition_rule(cx: Cx, st: St, span: Span, s: SubstV, t: TypeV, want: TypeV) -> (
    Result<SubstV, TypeErrorV>,
    St,
) {
    match state::st_unify_at(cx, st, t, want, span) {
        (Err(e), st1) => (Err(e), st1),
        (Ok(su), st1) => (Ok(subst::composed(s, su)), st1),
    }
}

/// A `let` of a pattern whose value has the type `t1` under `s1`.
#[verifier::opaque]
pub open spec fn let_pattern_rule(
    cx: Cx,
    st: St,
    pattern: Spanned<PatternV>,
    s1: SubstV,
    t1: TypeV,
) -> (Result<(), TypeErrorV>, St) {
    let sta = state::with_env(st, env::env_apply(s1, st.env));
    let t = helpers::defaulted(subst::substituted(s1, t1));
    match exhaustiveness::exhaustive(sta.env, cx.cache, t, seq![seq![pattern.node]]) {
        Err(m) => (
            Err(env::error_at("Non-exhaustive destructuring pattern: "@ + m, pattern.span)),
            sta,
        ),
        Ok(()) => match pattern::pattern_bound(cx, sta, pattern, t) {
            (Err(e), stb) => (Err(e), stb),
            (Ok(sp), stb) => (Ok(()), state::with_env(stb, env::env_apply(sp, stb.env))),
        },
    }
}

/// A `return` whose value has the type `t1` under `s1`.
#[verifier::opaque]
pub open spec fn return_rule(cx: Cx, st: St, span: Span, s1: SubstV, t1: TypeV, ret: TypeV) -> (
    Result<(), TypeErrorV>,
    St,
) {
    let sta = state::with_env(st, env::env_apply(s1, st.env));
    match env::unused_error(sta.env, span) {
        Some(e) => (Err(e), sta),
        None => match state::st_unify_at(cx, sta, t1, subst::substituted(s1, ret), span) {
            (Ok(_), stb) => (Ok(()), stb),
            (Err(e), stb) => (Err(e), stb),
        },
    }
}

/// The effects that may be thrown inside a `try`.
pub open spec fn try_effects(effs: TypeV) -> TypeV {
    TypeV::Row(seq![helpers::named_type(helpers::exn_name())], Some(Box::new(effs)))
}

/// Makes a row of the exception effect alone, with a tail.
pub fn make_exn_row(tail: Type) -> (r: Type)
    ensures
        r@ == TypeV::Row(seq![helpers::named_type(helpers::exn_name())], Some(Box::new(tail@))),
{
    let mut es: Vec<Type> = Vec::new();
    es.push(make_named(owned("Exn")));
    assert(types::types_view(es@) =~= seq![helpers::named_type(helpers::exn_name())]);
    Type::Row(es, Some(Box::new(tail)))
}

impl<'a> Infer<'a> {
    /// Infers a constructor before its arguments.
    pub fn begin_ctor(
        &mut self,
        env: &TypeEnv,
        span: &Span,
        name: &str,
        args: &Vec<(Option<String>, Spanned<Expr>)>,
    ) -> (r: Result<CtorUse, TypeError>)
        ensures
            match r {
                Ok(u) => {
                    &&& ctor_rule(old(self).st(env@), *span, name@, ast::ctor_args_view(args@)).0
                        == Ok::<CtorUseV, TypeErrorV>(u@)
                    &&& u.places.len() == u.fields.len()
                    &&& forall|k: int|
                        0 <= k < u.places.len() ==> (#[trigger] u.places@[k] matches Some(a)
                            ==> a < args.len())
                },
                Err(e) => ctor_rule(old(self).st(env@), *span, name@, ast::ctor_args_view(args@)).0
                    == Err::<CtorUseV, TypeErrorV>(e@),
            },
            final(self).st(env@) == ctor_rule(
                old(self).st(env@),
                *span,
                name@,
                ast::ctor_args_view(args@),
            ).1,
            final(self).cx() == old(self).cx(),
    {
        proof {
            reveal(ctor_rule);
        }
        proof {
            assert(helpers::raw_labels(args@) =~= helpers::labels_of(ast::ctor_args_view(args@)));
            assert(ast::ctor_args_view(args@).len() == args.len());
        }
        match find_ctor(&env.enums, name) {
            None => Err(TypeError::new(cat2("Unknown ctor ", name), *span)),
            Some((ed, v)) => {
                assert(v@.fields.len() == v.fields.len());
                if v.fields.len() != args.len() {
                    return Err(ctor_count_error(name, &v.fields, args, *span));
                }
                assert(text::texts(ed.type_params@).len() == ed.type_params.len());
                let targs = self.new_vars(ed.type_params.len());
                let inst = bind_params(&ed.type_params, &targs);
                match place_args(&v.fields, args) {
                    Err((why, i)) => Err(
                        ctor_place_error(
                            why,
                            &args[i].0,
                            name,
                            &v.fields,
                            args,
                            args[i].1.span,
                        ),
                    ),
                    Ok(places) => Ok(
                        CtorUse {
                            name: ed.name.clone(),
                            targs,
                            inst,
                            fields: copy_ctor_fields(&v.fields),
                            places,
                        },
                    ),
                }
            },
        }
    }

    #[verifier::loop_isolation(false)]
    fn unify_tails(&mut self, env: &TypeEnv, span: &Span, s: Subst, tails: &Vec<Type>) -> (r: Result<
        (Subst, Type),
        TypeError,
    >)
        requires
            tails.len() > 0,
        ensures
            state::infer_matches(
                r,
                tails_unified(
                    old(self).cx(),
                    old(self).st(env@),
                    *span,
                    types::fields_view(s@),
                    tails@[0]@,
                    types::types_view(tails@),
                    1,
                ).0,
            ),
            final(self).st(env@) == tails_unified(
                old(self).cx(),
                old(self).st(env@),
                *span,
                types::fields_view(s@),
                tails@[0]@,
                types::types_view(tails@),
                1,
            ).1,
            final(self).cx() == old(self).cx(),
    {
        let ghost tv = types::types_view(tails@);
        let ghost all = tails_unified(
            self.cx(),
            self.st(env@),
            *span,
            types::fields_view(s@),
            tails@[0]@,
            tv,
            1,
        );
        let mut acc = s;
        let mut t = tails[0].clone();
        let mut i: usize = 1;
        while i < tails.len()
            invariant
                i <= tails.len(),
                self.cx() == old(self).cx(),
                tails_unified(
                    self.cx(),
                    self.st(env@),
                    *span,
                    types::fields_view(acc@),
                    t@,
                    tv,
                    i as nat,
                ) == all,
            decreases tails.len() - i,
        {
            assert(tv[i as int] == tails@[i as int]@);
            match self.unify(&t, &tails[i]) {
                Ok(su) => {
                    acc = compose_subst(&acc, &su);
                    t = apply_subst_type(&su, &t);
                },
                Err(_) => {
                    return Err(
                        TypeError::new(
                            owned(
                                "Match case type mismatch: all cases must produce the same type",
                            ),
                            *span,
                        ),
                    );
                },
            }
            i = i + 1;
        }
        Ok((acc, t))
    }

    /// Finishes a match after its cases.
    pub fn finish_match(
        &mut self,
        env: &mut TypeEnv,
        span: &Span,
        s: Subst,
        rv: Option<Vec<String>>,
        tails: &Vec<Type>,
    ) -> (r: Result<(Subst, Type), TypeError>)
        ensures
            state::infer_matches(
                r,
                match_rule(
                    old(self).cx(),
                    old(self).st(old(env)@),
                    *span,
                    types::fields_view(s@),
                    opt_texts(rv),
                    types::types_view(tails@),
                ).0,
            ),
            final(self).st(final(env)@) == match_rule(
                old(self).cx(),
                old(self).st(old(env)@),
                *span,
                types::fields_view(s@),
                opt_texts(rv),
                types::types_view(tails@),
            ).1,
            final(self).cx() == old(self).cx(),
            left_apart(opt_texts(rv)) ==> env::keys_kept(old(env)@, final(env)@),
    {
        proof {
            reveal(match_rule);
        }
        let left = match rv {
            Some(v) => v,
            None => {
                let v: Vec<String> = Vec::new();
                assert(text::texts(v@) =~= Seq::<Text>::empty());
                v
            },
        };
        proof {
            env::lemma_linear_keeps_keys(env@, text::texts(left@));
        }
        env.linear_vars = left;
        assert(types::types_view(tails@).len() == tails.len());
        if tails.len() == 0 {
            Ok((s, Type::Unit))
        } else {
            assert(types::types_view(tails@)[0] == tails@[0]@);
            self.unify_tails(env, span, s, tails)
        }
    }

    /// Infers an assignment to a variable.
    pub fn assign_variable(
        &mut self,
        env: &TypeEnv,
        span: &Span,
        vspan: &Span,
        name: &str,
        sigil: &Sigil,
        tv: &Type,
    ) -> (r: Result<(), TypeError>)
        ensures
            state::unit_matches(
                r,
                assign_variable_rule(
                    old(self).cx(),
                    old(self).st(env@),
                    *span,
                    *vspan,
                    name@,
                    *sigil,
                    tv@,
                ).0,
            ),
            final(self).st(env@) == assign_variable_rule(
                old(self).cx(),
                old(self).st(env@),
                *span,
                *vspan,
                name@,
                *sigil,
                tv@,
            ).1,
            final(self).cx() == old(self).cx(),
    {
        proof {
            reveal(assign_variable_rule);
        }
        if *sigil == Sigil::Immutable {
            return Err(TypeError::new(owned("Mutating immutable"), *span));
        }
        let key = sigil.get_key(name);
        match env.get(key.as_str()) {
            None => Err(TypeError::new(owned("Not found"), *span)),
            Some(sch) => {
                let t = self.instantiate(sch, Ghost(env@));
                match t {
                    Type::Ref(i) => match self.unify_at(tv, &i, vspan, Ghost(env@)) {
                        Ok(_) => Ok(()),
                        Err(e) => Err(e),
                    },
                    _ => Err(TypeError::new(owned("Not a ref"), *span)),
                }
            },
        }
    }

    /// Infers a variable whose element is assigned.
    pub fn assigned_array(&mut self, env: &TypeEnv, span: &Span, name: &str, sigil: &Sigil) -> (r:
        Result<Type, TypeError>)
        ensures
            match r {
                Ok(t) => assigned_array_rule(old(self).st(env@), *span, name@, *sigil).0 == Ok::<
                    TypeV,
                    TypeErrorV,
                >(t@),
                Err(e) => assigned_array_rule(old(self).st(env@), *span, name@, *sigil).0
                    == Err::<TypeV, TypeErrorV>(e@),
            },
            final(self).st(env@) == assigned_array_rule(old(self).st(env@), *span, name@, *sigil).1,
            final(self).cx() == old(self).cx(),
    {
        proof {
            reveal(assigned_array_rule);
        }
        let key = sigil.get_key(name);
        match env.get(key.as_str()) {
            None => Err(TypeError::new(cat2("Not found: ", key.as_str()), *span)),
            Some(sch) => Ok(self.instantiate(sch, Ghost(env@))),
        }
    }

    /// Infers an assignment to an element of an array.
    pub fn assign_element(
        &mut self,
        env: &TypeEnv,
        aspan: &Span,
        vspan: &Span,
        ta: Type,
        tv: &Type,
    ) -> (r: Result<(), TypeError>)
        ensures
            state::unit_matches(
                r,
                assign_element_rule(old(self).cx(), old(self).st(env@), *aspan, *vspan, ta@, tv@).0,
            ),
            final(self).st(env@) == assign_element_rule(
                old(self).cx(),
                old(self).st(env@),
                *aspan,
                *vspan,
                ta@,
                tv@,
            ).1,
            final(self).cx() == old(self).cx(),
    {
        proof {
            reveal(assign_element_rule);
        }
        let arr = strip_linear(ta);
        match find_element_type(&arr) {
            None => Err(TypeError::new(owned("Not an array"), *aspan)),
            Some(t) => match self.unify_at(tv, t, vspan, Ghost(env@)) {
                Ok(_) => Ok(()),
                Err(e) => Err(e),
            },
        }
    }

    /// Finishes a `raise` after its operand.
    pub fn finish_raise(
        &mut self,
        env: &TypeEnv,
        span: &Span,
        vspan: &Span,
        s: &Vec<(String, Type)>,
        t: &Type,
        effs: &Type,
    ) -> (r: Result<(Subst, Type), TypeError>)
        ensures
            state::infer_matches(
                r,
                raise_rule(
                    old(self).cx(),
                    old(self).st(env@),
                    *span,
                    *vspan,
                    types::fields_view(s@),
                    t@,
                    effs@,
                ).0,
            ),
            final(self).st(env@) == raise_rule(
                old(self).cx(),
                old(self).st(env@),
                *span,
                *vspan,
                types::fields_view(s@),
                t@,
                effs@,
            ).1,
            final(self).cx() == old(self).cx(),
    {
        proof {
            reveal(raise_rule);
        }
        let exn = make_named(owned("Exn"));
        let ss = match self.unify_at(t, &exn, vspan, Ghost(env@)) {
            Ok(ss) => ss,
            Err(e) => {
                return Err(e);
            },
        };
        let s1 = compose_subst(s, &ss);
        let tail = self.new_var();
        let row = make_exn_row(tail);
        let have = apply_subst_type(&s1, effs);
        match self.unify(&have, &row) {
            Err(_) => Err(TypeError::new(owned("raise requires 'Exn'"), *span)),
            Ok(se) => {
                let v = self.new_var();
                Ok((compose_subst(&s1, &se), v))
            },
        }
    }

    /// Meets the type of a condition or a bound with the one that is wanted.
    pub fn check_condition(
        &mut self,
        env: &TypeEnv,
        span: &Span,
        s: &Vec<(String, Type)>,
        t: &Type,
        want: &Type,
    ) -> (r: Result<Subst, TypeError>)
        ensures
            state::subst_matches(
                r,
                condition_rule(
                    old(self).cx(),
                    old(self).st(env@),
                    *span,
                    types::fields_view(s@),
                    t@,
                    want@,
                ).0,
            ),
            final(self).st(env@) == condition_rule(
                old(self).cx(),
                old(self).st(env@),
                *span,
                types::fields_view(s@),
                t@,
                want@,
            ).1,
            final(self).cx() == old(self).cx(),
    {
        proof {
            reveal(condition_rule);
        }
        match self.unify_at(t, want, span, Ghost(env@)) {
            Ok(su) => Ok(compose_subst(s, &su)),
            Err(e) => Err(e),
        }
    }

    /// Finishes a `let` of a pattern.
    pub fn finish_let_pattern(
        &mut self,
        env: &mut TypeEnv,
        pattern: &Spanned<Pattern>,
        s1: &Vec<(String, Type)>,
        t1: &Type,
    ) -> (r: Result<(), TypeError>)
        ensures
            state::unit_matches(
                r,
                let_pattern_rule(
                    old(self).cx(),
                    old(self).st(old(env)@),
                    pattern@,
                    types::fields_view(s1@),
                    t1@,
                ).0,
            ),
            final(self).st(final(env)@) == let_pattern_rule(
                old(self).cx(),
                old(self).st(old(env)@),
                pattern@,
                types::fields_view(s1@),
                t1@,
            ).1,
            final(self).cx() == old(self).cx(),
            env::keys_kept(old(env)@, final(env)@),
    {
        proof {
            reveal(let_pattern_rule);
        }
        env.apply(s1);
        let t0 = apply_subst_type(s1, t1);
        let t = default_numeric_literals(&t0);
        match check_irrefutable(env, self.cache, &t, &pattern.node) {
            Err(m) => {
                return Err(
                    TypeError::new(
                        cat2("Non-exhaustive destructuring pattern: ", m.as_str()),
                        pattern.span,
                    ),
                );
            },
            Ok(()) => {},
        }
        match self.bind_pattern(pattern, &t, env) {
            Ok(sp) => {
                env.apply(&sp);
                Ok(())
            },
            Err(e) => Err(e),
        }
    }

    /// Finishes a `return`.
    pub fn finish_return(
        &mut self,
        env: &mut TypeEnv,
        span: &Span,
        s1: &Vec<(String, Type)>,
        t1: &Type,
        ret: &Type,
    ) -> (r: Result<(), TypeError>)
        ensures
            state::unit_matches(
                r,
                return_rule(
                    old(self).cx(),
                    old(self).st(old(env)@),
                    *span,
                    types::fields_view(s1@),
                    t1@,
                    ret@,
                ).0,
            ),
            final(self).st(final(env)@) == return_rule(
                old(self).cx(),
                old(self).st(old(env)@),
                *span,
                types::fields_view(s1@),
                t1@,
                ret@,
            ).1,
            final(self).cx() == old(self).cx(),
            env::keys_kept(old(env)@, final(env)@),
    {
        proof {
            reveal(return_rule);
        }
        env.apply(s1);
        match env.check_unused_linear(span) {
            Ok(()) => {},
            Err(e) => {
                return Err(e);
            },
        }
        let want = apply_subst_type(s1, ret);
        match self.unify_at(t1, &want, span, Ghost(env@)) {
            Ok(_) => Ok(()),
            Err(e) => Err(e),
        }
    }
}

} // verus!
