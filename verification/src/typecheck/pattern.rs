//! Binding the variables of a pattern to the parts of a type.

use crate::ast;
use crate::ast::{Pattern, PatternV};
use crate::table;
use crate::text;
use crate::text::{Text, cat2, cat3, cat4, cat5, list_add, list_has, owned, usize_to_text};
use crate::typecheck::env;
use crate::typecheck::env::{EnvV, TypeEnv, TypeError, TypeErrorV, bind_params, mono_scheme};
use crate::typecheck::exhaustiveness;
use crate::typecheck::exhaustiveness::unwrap_type;
use crate::typecheck::helpers;
use crate::typecheck::helpers::{
    describe_ctor_field, is_auto_droppable, summarize_ctor_args, summarize_ctor_fields,
};
use crate::typecheck::render;
use crate::typecheck::render::type_to_debug;
use crate::typecheck::state;
use crate::typecheck::state::{Cx, Infer, Misplaced, St, find_ctor, place_args};
use crate::typecheck::subst;
use crate::typecheck::subst::{
    Subst, SubstV, apply_subst_type, compose_subst, empty_subst, subst_get, subst_put,
};
use crate::types;
use crate::types::{Literal, LiteralV, Span, Spanned, Type, TypeV, copy_types};
use vstd::prelude::*;

verus! {

/// The type of a literal.
pub open spec fn literal_type(l: LiteralV) -> TypeV {
    match l {
        LiteralV::Int(_) => TypeV::IntLit,
        LiteralV::Float(_) => TypeV::FloatLit,
        LiteralV::Bool(_) => TypeV::Bool,
        LiteralV::Char(_) => TypeV::Char,
        LiteralV::String(_) => TypeV::String,
        LiteralV::Unit => TypeV::Unit,
    }
}

/// The type of a literal.
pub fn type_of_literal(l: &Literal) -> (r: Type)
    ensures
        r@ == literal_type(l@),
{
    match l {
        Literal::Int(_) => Type::IntLit,
        Literal::Float(_) => Type::FloatLit,
        Literal::Bool(_) => Type::Bool,
        Literal::Char(_) => Type::Char,
        Literal::String(_) => Type::String,
        Literal::Unit => Type::Unit,
    }
}

/// What a message about a pattern of a constructor ends with.
pub open spec fn pattern_context(
    fields: Seq<(Option<Text>, TypeV)>,
    labels: Seq<Option<Text>>,
) -> Text {
    "\nExpected fields: "@ + helpers::ctor_fields_summary(fields) + "\nProvided pattern arguments: "@
        + helpers::ctor_args_summary(labels)
}

fn pattern_context_text<T>(
    fields: &Vec<(Option<String>, Type)>,
    args: &Vec<(Option<String>, T)>,
) -> (r: String)
    ensures
        r@ == pattern_context(ast::ctor_fields(fields@), helpers::raw_labels(args@)),
{
    let f = summarize_ctor_fields(fields);
    let a = summarize_ctor_args(args);
    cat4("\nExpected fields: ", f.as_str(), "\nProvided pattern arguments: ", a.as_str())
}

/// The message for a constructor pattern with the wrong number of arguments.
pub open spec fn pattern_count_message(
    name: Text,
    fields: Seq<(Option<Text>, TypeV)>,
    labels: Seq<Option<Text>>,
) -> Text {
    "Arity mismatch in pattern `"@ + name + "`: expected "@ + text::decimal(fields.len())
        + " fields, got "@ + text::decimal(labels.len()) + "."@ + pattern_context(fields, labels)
}

/// The message for an argument of a constructor pattern that has no place.
pub open spec fn pattern_place_message(
    why: Misplaced,
    label: Text,
    name: Text,
    fields: Seq<(Option<Text>, TypeV)>,
    labels: Seq<Option<Text>>,
) -> Text {
    match why {
        Misplaced::Duplicate => "Duplicate labeled pattern argument `"@ + label
            + "` in constructor `"@ + name + "`."@ + pattern_context(fields, labels),
        Misplaced::Unknown => "Unknown label `"@ + label + "` for constructor pattern `"@ + name
            + "`."@ + pattern_context(fields, labels),
        Misplaced::TooMany => "Too many positional pattern arguments for constructor `"@ + name
            + "`."@ + pattern_context(fields, labels),
    }
}

/// The message for a field that a constructor pattern leaves out.
pub open spec fn pattern_missing_message(
    name: Text,
    i: nat,
    fields: Seq<(Option<Text>, TypeV)>,
    labels: Seq<Option<Text>>,
) -> Text {
    "Missing constructor pattern argument for `"@ + name + "` at "@ + helpers::ctor_field_text(
        fields[i as int].0,
        i,
    ) + "."@ + pattern_context(fields, labels) + "\nHint: provide a pattern for every field."@
}

/// The text of an optional label.
pub open spec fn label_text(l: Option<Text>) -> Text {
    match l {
        Some(t) => t,
        None => Seq::empty(),
    }
}

/// The text of an optional label.
pub fn label_or_empty(l: &Option<String>) -> (r: String)
    ensures
        r@ == label_text(types::opt_text(*l)),
{
    match l {
        Some(t) => t.clone(),
        None => String::new(),
    }
}

/// The table `m` extended by the fields from index `i` on, under a substitution.
pub open spec fn field_table(
    m: Seq<(Text, TypeV)>,
    s: SubstV,
    fs: Seq<(Text, TypeV)>,
    i: nat,
) -> Seq<(Text, TypeV)>
    decreases fs.len() - i,
{
    if i >= fs.len() {
        m
    } else {
        field_table(table::store(m, fs[i as int].0, subst::substituted(s, fs[i as int].1)), s, fs, i + 1)
    }
}

/// The table `m` extended by the fields from index `i` on.
pub open spec fn plain_field_table(
    m: Seq<(Text, TypeV)>,
    fs: Seq<(Text, TypeV)>,
    i: nat,
) -> Seq<(Text, TypeV)>
    decreases fs.len() - i,
{
    if i >= fs.len() {
        m
    } else {
        plain_field_table(table::store(m, fs[i as int].0, fs[i as int].1), fs, i + 1)
    }
}

/// The fields of a record type, or of a named record type, by name.
pub open spec fn record_fields(env: EnvV, t: TypeV) -> Result<Seq<(Text, TypeV)>, Text> {
    match t {
        TypeV::Record(fs) => Ok(plain_field_table(Seq::empty(), fs, 0)),
        TypeV::UserDefined(n, args) => match env::env_type(env, n) {
            Some(td) => Ok(
                field_table(
                    Seq::empty(),
                    env::bound_params(td.type_params, args),
                    td.fields,
                    0,
                ),
            ),
            None => Err("Unknown type"@),
        },
        _ => Err("Not record"@),
    }
}

fn table_of_fields(s: &Vec<(String, Type)>, fs: &Vec<(String, Type)>) -> (r: Vec<(String, Type)>)
    ensures
        types::fields_view(r@) == field_table(Seq::empty(), types::fields_view(s@), types::fields_view(fs@), 0),
{
    let mut m = empty_subst();
    let mut i: usize = 0;
    while i < fs.len()
        invariant
            i <= fs.len(),
            field_table(types::fields_view(m@), types::fields_view(s@), types::fields_view(fs@), i as nat)
                == field_table(Seq::empty(), types::fields_view(s@), types::fields_view(fs@), 0),
        decreases fs.len() - i,
    {
        let t = apply_subst_type(s, &fs[i].1);
        subst_put(&mut m, fs[i].0.clone(), t);
        i = i + 1;
    }
    m
}

fn table_of_plain_fields(fs: &Vec<(String, Type)>) -> (r: Vec<(String, Type)>)
    ensures
        types::fields_view(r@) == plain_field_table(Seq::empty(), types::fields_view(fs@), 0),
{
    let mut m = empty_subst();
    let mut i: usize = 0;
    while i < fs.len()
        invariant
            i <= fs.len(),
            plain_field_table(types::fields_view(m@), types::fields_view(fs@), i as nat) == plain_field_table(
                Seq::empty(),
                types::fields_view(fs@),
                0,
            ),
        decreases fs.len() - i,
    {
        subst_put(&mut m, fs[i].0.clone(), fs[i].1.clone());
        i = i + 1;
    }
    m
}

fn find_record_fields(env: &TypeEnv, t: &Type) -> (r: Result<Vec<(String, Type)>, String>)
    ensures
        match r {
            Ok(fs) => record_fields(env@, t@) == Ok::<Seq<(Text, TypeV)>, Text>(types::fields_view(fs@)),
            Err(m) => record_fields(env@, t@) == Err::<Seq<(Text, TypeV)>, Text>(m@),
        },
{
    match t {
        Type::Record(fs) => Ok(table_of_plain_fields(fs)),
        Type::UserDefined(n, args) => match env.get_type(n.as_str()) {
            Some(td) => {
                let s = bind_params(&td.type_params, args);
                Ok(table_of_fields(&s, &td.fields))
            },
            None => Err(owned("Unknown type")),
        },
        _ => Err(owned("Not record")),
    }
}

/// The first key from index `i` on that is not among `matched`.
pub open spec fn unmatched_key(m: Seq<(Text, TypeV)>, matched: Seq<Text>, i: nat) -> Option<Text>
    decreases m.len() - i,
{
    if i >= m.len() {
        None
    } else if text::has_text(matched, m[i as int].0) {
        unmatched_key(m, matched, i + 1)
    } else {
        Some(m[i as int].0)
    }
}

fn find_unmatched(m: &Vec<(String, Type)>, matched: &Vec<String>) -> (r: Option<String>)
    ensures
        types::opt_text(r) == unmatched_key(types::fields_view(m@), text::texts(matched@), 0),
{
    let mut i: usize = 0;
    while i < m.len()
        invariant
            i <= m.len(),
            unmatched_key(types::fields_view(m@), text::texts(matched@), 0) == unmatched_key(
                types::fields_view(m@),
                text::texts(matched@),
                i as nat,
            ),
        decreases m.len() - i,
    {
        if !list_has(matched, m[i].0.as_str()) {
            return Some(m[i].0.clone());
        }
        i = i + 1;
    }
    None
}

/// Binding the variables of a pattern to the parts of a type: the substitution under which the
/// pattern fits, and the state with the variables bound.
#[verifier::opaque]
pub open spec fn pattern_bound(cx: Cx, st: St, p: Spanned<PatternV>, tt: TypeV) -> (
    Result<SubstV, TypeErrorV>,
    St,
)
    decreases p, 0nat,
{
    let t = exhaustiveness::unwrapped(tt);
    match p.node {
        PatternV::Variable(n, sigil) => (
            Ok(subst::no_subst()),
            state::with_env(st, env::env_insert(st.env, sigil.key(n), env::mono(t))),
        ),
        PatternV::Constructor(n, pats) => match state::ctor_in_enums(st.env.enums, n, 0) {
            None => (Err(env::error_at("Unknown ctor "@ + n, p.span)), st),
            Some((ed, v)) => {
                if v.fields.len() != pats.len() {
                    (
                        Err(env::error_at(pattern_count_message(n, v.fields, helpers::labels_of(pats)), p.span)),
                        st,
                    )
                } else {
                    let (targs, n1) = state::fresh_list(Seq::empty(), ed.type_params.len(), st.supply);
                    let st1 = St { supply: n1, ..st };
                    match state::st_unify_at(cx, st1, t, TypeV::UserDefined(ed.name, targs), p.span) {
                        (Err(e), st2) => (Err(e), st2),
                        (Ok(s), st2) => match state::placed(
                            v.fields,
                            helpers::labels_of(pats),
                            state::free_places(v.fields.len()),
                            0,
                        ) {
                            Err((why, i)) => (
                                Err(
                                    env::error_at(
                                        pattern_place_message(
                                            why,
                                            label_text(pats[i as int].0),
                                            n,
                                            v.fields,
                                            helpers::labels_of(pats),
                                        ),
                                        pats[i as int].1.span,
                                    ),
                                ),
                                st2,
                            ),
                            Ok(places) => ctor_pattern_bound(
                                cx,
                                st2,
                                p.span,
                                n,
                                v.fields,
                                env::bound_params(ed.type_params, targs),
                                pats,
                                places,
                                0,
                                s,
                            ),
                        },
                    }
                }
            },
        },
        PatternV::Literal(l) => state::st_unify_at(cx, st, t, literal_type(l), p.span),
        PatternV::Wildcard => {
            if env::has_linear(st.env, t) && !helpers::auto_droppable(t) {
                (
                    Err(
                        env::error_at(
                            "Wildcard pattern '_' cannot discard non-primitive linear value of type "@
                                + render::type_debug(t),
                            p.span,
                        ),
                    ),
                    st,
                )
            } else {
                (Ok(subst::no_subst()), st)
            }
        },
        PatternV::Record(pfs, open) => match record_fields(st.env, t) {
            Err(m) => (Err(env::error_at(m, p.span)), st),
            Ok(tfs) => record_pattern_bound(
                cx,
                st,
                p.span,
                tfs,
                open,
                pfs,
                0,
                subst::no_subst(),
                Seq::empty(),
            ),
        },
    }
}

/// Binding the argument patterns of a constructor to its fields, from index `i` on.
pub open spec fn ctor_pattern_bound(
    cx: Cx,
    st: St,
    span: Span,
    name: Text,
    fields: Seq<(Option<Text>, TypeV)>,
    inst: SubstV,
    pats: Seq<(Option<Text>, Spanned<PatternV>)>,
    places: Seq<Option<usize>>,
    i: nat,
    s: SubstV,
) -> (Result<SubstV, TypeErrorV>, St)
    decreases pats, fields.len() - i,
{
    if i >= fields.len() {
        (Ok(s), st)
    } else {
        match places[i as int] {
            None => (
                Err(
                    env::error_at(pattern_missing_message(name, i, fields, helpers::labels_of(pats)), span),
                ),
                st,
            ),
            Some(k) => {
                if k >= pats.len() {
                    (Ok(s), st)
                } else {
                    match pattern_bound(
                        cx,
                        st,
                        pats[k as int].1,
                        subst::substituted(s, subst::substituted(inst, fields[i as int].1)),
                    ) {
                        (Err(e), st1) => (Err(e), st1),
                        (Ok(sp), st1) => ctor_pattern_bound(
                            cx,
                            st1,
                            span,
                            name,
                            fields,
                            inst,
                            pats,
                            places,
                            i + 1,
                            subst::composed(s, sp),
                        ),
                    }
                }
            },
        }
    }
}

/// Binding the field patterns of a record from index `i` on. A closed pattern names every
/// field.
pub open spec fn record_pattern_bound(
    cx: Cx,
    st: St,
    span: Span,
    tfs: Seq<(Text, TypeV)>,
    open: bool,
    pfs: Seq<(Text, Spanned<PatternV>)>,
    i: nat,
    s: SubstV,
    matched: Seq<Text>,
) -> (Result<SubstV, TypeErrorV>, St)
    decreases pfs, pfs.len() - i,
{
    if i >= pfs.len() {
        if open {
            (Ok(s), st)
        } else {
            match unmatched_key(tfs, matched, 0) {
                Some(k) => (Err(env::error_at("Missing "@ + k, span)), st),
                None => (Ok(s), st),
            }
        }
    } else {
        match table::lookup(tfs, pfs[i as int].0) {
            None => (
                Err(env::error_at("No field "@ + pfs[i as int].0, pfs[i as int].1.span)),
                st,
            ),
            Some(tf) => match pattern_bound(cx, st, pfs[i as int].1, subst::substituted(s, tf)) {
                (Err(e), st1) => (Err(e), st1),
                (Ok(sp), st1) => record_pattern_bound(
                    cx,
                    st1,
                    span,
                    tfs,
                    open,
                    pfs,
                    i + 1,
                    subst::composed(s, sp),
                    text::with_text(matched, pfs[i as int].0),
                ),
            },
        }
    }
}

fn count_error<T>(
    name: &str,
    fields: &Vec<(Option<String>, Type)>,
    args: &Vec<(Option<String>, T)>,
    span: Span,
) -> (r: TypeError)
    ensures
        r@ == env::error_at(
            pattern_count_message(name@, ast::ctor_fields(fields@), helpers::raw_labels(args@)),
            span,
        ),
{
    let e = usize_to_text(fields.len());
    let g = usize_to_text(args.len());
    let c = pattern_context_text(fields, args);
    let head = cat5(
        "Arity mismatch in pattern `",
        name,
        "`: expected ",
        e.as_str(),
        " fields, got ",
    );
    let m = cat4(head.as_str(), g.as_str(), ".", c.as_str());
    assert(ast::ctor_fields(fields@).len() == fields.len());
    assert(helpers::raw_labels(args@).len() == args.len());
    TypeError::new(m, span)
}

fn place_error<T>(
    why: Misplaced,
    label: &Option<String>,
    name: &str,
    fields: &Vec<(Option<String>, Type)>,
    args: &Vec<(Option<String>, T)>,
    span: Span,
) -> (r: TypeError)
    ensures
        r@ == env::error_at(
            pattern_place_message(
                why,
                label_text(types::opt_text(*label)),
                name@,
                ast::ctor_fields(fields@),
                helpers::raw_labels(args@),
            ),
            span,
        ),
{
    let l = label_or_empty(label);
    let c = pattern_context_text(fields, args);
    let m = match why {
        Misplaced::Duplicate => {
            let h = cat5(
                "Duplicate labeled pattern argument `",
                l.as_str(),
                "` in constructor `",
                name,
                "`.",
            );
            cat2(h.as_str(), c.as_str())
        },
        Misplaced::Unknown => {
            let h = cat5(
                "Unknown label `",
                l.as_str(),
                "` for constructor pattern `",
                name,
                "`.",
            );
            cat2(h.as_str(), c.as_str())
        },
        Misplaced::TooMany => cat4(
            "Too many positional pattern arguments for constructor `",
            name,
            "`.",
            c.as_str(),
        ),
    };
    TypeError::new(m, span)
}

fn missing_error<T>(
    name: &str,
    i: usize,
    fields: &Vec<(Option<String>, Type)>,
    args: &Vec<(Option<String>, T)>,
    span: Span,
) -> (r: TypeError)
    requires
        i < fields.len(),
    ensures
        r@ == env::error_at(
            pattern_missing_message(name@, i as nat, ast::ctor_fields(fields@), helpers::raw_labels(args@)),
            span,
        ),
{
    let f = describe_ctor_field(&fields[i].0, i);
    let c = pattern_context_text(fields, args);
    let h = cat5(
        "Missing constructor pattern argument for `",
        name,
        "` at ",
        f.as_str(),
        ".",
    );
    let m = cat3(h.as_str(), c.as_str(), "\nHint: provide a pattern for every field.");
    TypeError::new(m, span)
}

impl<'a> Infer<'a> {
    /// Binds the variables of a pattern to the parts of a type.
    #[verifier::spinoff_prover]
    #[verifier::rlimit(40)]
    pub fn bind_pattern(&mut self, p: &Spanned<Pattern>, tt: &Type, env: &mut TypeEnv) -> (r:
        Result<Subst, TypeError>)
        ensures
            state::subst_matches(r, pattern_bound(old(self).cx(), old(self).st(old(env)@), p@, tt@).0),
            final(self).st(final(env)@) == pattern_bound(
                old(self).cx(),
                old(self).st(old(env)@),
                p@,
                tt@,
            ).1,
            final(self).cx() == old(self).cx(),
            env::keys_kept(old(env)@, final(env)@),
        decreases p, 0nat,
    {
        proof {
            reveal(pattern_bound);
        }
        let t = unwrap_type(tt);
        match &p.node {
            Pattern::Variable(n, sigil) => {
                env.insert(sigil.get_key(n.as_str()), mono_scheme(t.clone()));
                Ok(empty_subst())
            },
            Pattern::Constructor(n, pats) => {
                proof {
                    assert(helpers::raw_labels(pats@) =~= helpers::labels_of(ast::ctor_pats_view(pats@)));
                    assert(ast::ctor_pats_view(pats@).len() == pats.len());
                }
                match find_ctor(&env.enums, n.as_str()) {
                    None => Err(TypeError::new(cat2("Unknown ctor ", n.as_str()), p.span)),
                    Some((ed0, v0)) => {
                        let ed = ed0.clone();
                        let v = v0.clone();
                        assert(v@.fields.len() == v.fields.len());
                        if v.fields.len() != pats.len() {
                            return Err(count_error(n.as_str(), &v.fields, pats, p.span));
                        }
                        assert(text::texts(ed.type_params@).len() == ed.type_params.len());
                        let targs = self.new_vars(ed.type_params.len());
                        let shape = Type::UserDefined(ed.name.clone(), copy_types(&targs));
                        let s = match self.unify_at(t, &shape, &p.span, Ghost(env@)) {
                            Ok(s) => s,
                            Err(e) => {
                                return Err(e);
                            },
                        };
                        let inst = bind_params(&ed.type_params, &targs);
                        match place_args(&v.fields, pats) {
                            Err((why, i)) => Err(
                                place_error(
                                    why,
                                    &pats[i].0,
                                    n.as_str(),
                                    &v.fields,
                                    pats,
                                    pats[i].1.span,
                                ),
                            ),
                            Ok(places) => self.bind_ctor_pattern(
                                &p.span,
                                n.as_str(),
                                &v.fields,
                                &inst,
                                pats,
                                &places,
                                s,
                                env,
                            ),
                        }
                    },
                }
            },
            Pattern::Literal(l) => {
                let tl = type_of_literal(l);
                self.unify_at(t, &tl, &p.span, Ghost(env@))
            },
            Pattern::Wildcard => {
                if env.contains_linear_type(t) && !is_auto_droppable(t) {
                    let d = type_to_debug(t);
                    return Err(
                        TypeError::new(
                            cat2(
                                "Wildcard pattern '_' cannot discard non-primitive linear value of type ",
                                d.as_str(),
                            ),
                            p.span,
                        ),
                    );
                }
                Ok(empty_subst())
            },
            Pattern::Record(pfs, open) => match find_record_fields(env, t) {
                Err(m) => Err(TypeError::new(m, p.span)),
                Ok(tfs) => self.bind_record_pattern(&p.span, &tfs, *open, pfs, env),
            },
        }
    }

    #[verifier::loop_isolation(false)]
    fn bind_ctor_pattern(
        &mut self,
        span: &Span,
        name: &str,
        fields: &Vec<(Option<String>, Type)>,
        inst: &Vec<(String, Type)>,
        pats: &Vec<(Option<String>, Spanned<Pattern>)>,
        places: &Vec<Option<usize>>,
        s: Subst,
        env: &mut TypeEnv,
    ) -> (r: Result<Subst, TypeError>)
        requires
            places.len() == fields.len(),
            forall|k: int|
                0 <= k < places.len() ==> (#[trigger] places@[k] matches Some(a) ==> a
                    < pats.len()),
        ensures
            state::subst_matches(
                r,
                ctor_pattern_bound(
                    old(self).cx(),
                    old(self).st(old(env)@),
                    *span,
                    name@,
                    ast::ctor_fields(fields@),
                    types::fields_view(inst@),
                    ast::ctor_pats_view(pats@),
                    places@,
                    0,
                    types::fields_view(s@),
                ).0,
            ),
            final(self).st(final(env)@) == ctor_pattern_bound(
                old(self).cx(),
                old(self).st(old(env)@),
                *span,
                name@,
                ast::ctor_fields(fields@),
                types::fields_view(inst@),
                ast::ctor_pats_view(pats@),
                places@,
                0,
                types::fields_view(s@),
            ).1,
            final(self).cx() == old(self).cx(),
            env::keys_kept(old(env)@, final(env)@),
        decreases pats, 0nat,
    {
        proof {
            reveal(pattern_bound);
        }
        let ghost fv = ast::ctor_fields(fields@);
        let ghost pv = ast::ctor_pats_view(pats@);
        let ghost all = ctor_pattern_bound(
            self.cx(),
            self.st(env@),
            *span,
            name@,
            fv,
            types::fields_view(inst@),
            pv,
            places@,
            0,
            types::fields_view(s@),
        );
        let mut acc = s;
        let mut i: usize = 0;
        while i < fields.len()
            invariant
                env::keys_kept(old(env)@, env@),
                i <= fields.len(),
                self.cx() == old(self).cx(),
                ctor_pattern_bound(
                    self.cx(),
                    self.st(env@),
                    *span,
                    name@,
                    fv,
                    types::fields_view(inst@),
                    pv,
                    places@,
                    i as nat,
                    types::fields_view(acc@),
                ) == all,
            decreases fields.len() - i,
        {
            assert(fv[i as int] == (types::opt_text(fields@[i as int].0), fields@[i as int].1@));
            match places[i] {
                None => {
                    assert(helpers::raw_labels(pats@) =~= helpers::labels_of(pv));
                    return Err(missing_error(name, i, fields, pats, *span));
                },
                Some(k) => {
                    let t0 = apply_subst_type(inst, &fields[i].1);
                    let t1 = apply_subst_type(&acc, &t0);
                    assert(pv[k as int].1 == pats@[k as int].1@);
                    match self.bind_pattern(&pats[k].1, &t1, env) {
                        Ok(sp) => {
                            acc = compose_subst(&acc, &sp);
                        },
                        Err(e) => {
                            return Err(e);
                        },
                    }
                },
            }
            i = i + 1;
        }
        Ok(acc)
    }

    #[verifier::loop_isolation(false)]
    fn bind_record_pattern(
        &mut self,
        span: &Span,
        tfs: &Vec<(String, Type)>,
        open: bool,
        pfs: &Vec<(String, Spanned<Pattern>)>,
        env: &mut TypeEnv,
    ) -> (r: Result<Subst, TypeError>)
        ensures
            state::subst_matches(
                r,
                record_pattern_bound(
                    old(self).cx(),
                    old(self).st(old(env)@),
                    *span,
                    types::fields_view(tfs@),
                    open,
                    ast::record_pats_view(pfs@),
                    0,
                    subst::no_subst(),
                    Seq::empty(),
                ).0,
            ),
            final(self).st(final(env)@) == record_pattern_bound(
                old(self).cx(),
                old(self).st(old(env)@),
                *span,
                types::fields_view(tfs@),
                open,
                ast::record_pats_view(pfs@),
                0,
                subst::no_subst(),
                Seq::empty(),
            ).1,
            final(self).cx() == old(self).cx(),
            env::keys_kept(old(env)@, final(env)@),
        decreases pfs, 0nat,
    {
        proof {
            reveal(pattern_bound);
        }
        let ghost pv = ast::record_pats_view(pfs@);
        let ghost tv = types::fields_view(tfs@);
        let ghost all = record_pattern_bound(
            self.cx(),
            self.st(env@),
            *span,
            tv,
            open,
            pv,
            0,
            subst::no_subst(),
            Seq::empty(),
        );
        let mut acc = empty_subst();
        let mut matched: Vec<String> = Vec::new();
        assert(text::texts(matched@) =~= Seq::<Text>::empty());
        let mut i: usize = 0;
        while i < pfs.len()
            invariant
                env::keys_kept(old(env)@, env@),
                i <= pfs.len(),
                self.cx() == old(self).cx(),
                record_pattern_bound(
                    self.cx(),
                    self.st(env@),
                    *span,
                    tv,
                    open,
                    pv,
                    i as nat,
                    types::fields_view(acc@),
                    text::texts(matched@),
                ) == all,
            decreases pfs.len() - i,
        {
            assert(pv[i as int] == (pfs@[i as int].0@, pfs@[i as int].1@));
            match subst_get(tfs, pfs[i].0.as_str()) {
                None => {
                    return Err(
                        TypeError::new(
                            cat2("No field ", pfs[i].0.as_str()),
                            pfs[i].1.span,
                        ),
                    );
                },
                Some(tf) => {
                    let t = apply_subst_type(&acc, tf);
                    match self.bind_pattern(&pfs[i].1, &t, env) {
                        Ok(sp) => {
                            acc = compose_subst(&acc, &sp);
                            list_add(&mut matched, pfs[i].0.clone());
                        },
                        Err(e) => {
                            return Err(e);
                        },
                    }
                },
            }
            i = i + 1;
        }
        if !open {
            match find_unmatched(tfs, &matched) {
                Some(k) => {
                    return Err(TypeError::new(cat2("Missing ", k.as_str()), *span));
                },
                None => {},
            }
        }
        Ok(acc)
    }
}

} // verus!
