//! What modules declare: constructors, exceptions, external bindings, and the definitions that
//! an import brings into scope.

use crate::ast;
use crate::ast::{
    EnumDefV, ExceptionDef, ExceptionDefV, FunctionSignature, Import, ImportItem, ImportItemV,
    ParamV, Port, Program, ProgramV, SignatureV, TopLevel, TopLevelV, TypeDef, TypeDefV,
    VariantDefV,
};
use crate::table;
use crate::text;
use crate::text::{
    Text, cat2, cat3, cat4, cat5, copy_texts, join, list_add, list_difference, owned, skip_chars,
    sort_texts, starts_with, str_eq, to_set,
};
use crate::typecheck::env;
use crate::typecheck::env::{
    EnvV, Scheme, SchemeV, TypeEnv, TypeError, TypeErrorV, find_enum, find_module, find_scheme,
    find_typedef, mono_scheme, put_enum, put_module, put_typedef,
};
use crate::typecheck::helpers;
use crate::typecheck::helpers::{
    convert_generic_user_defined_to_var, copy_ctor_fields, exn_enum_def, find_type, make_named,
    normalize_enum_generic_params, normalize_typedef_generic_params,
};
use crate::typecheck::state;
use crate::typecheck::state::find_variant;
use crate::types;
use crate::types::{EnumDef, Span, Spanned, Type, TypeV, VariantDef, copy_tail, copy_types};
use vstd::prelude::*;

verus! {

// ---------------------------------------------------------------------------
// External bindings
// ---------------------------------------------------------------------------

/// `acc` extended by the names in a type that name neither a record nor a sum type. The rows
/// of a function type are left out: their members are ports and effects.
pub open spec fn external_names(env: EnvV, acc: Seq<Text>, t: TypeV) -> Seq<Text>
    decreases t, 0nat,
{
    match t {
        TypeV::UserDefined(name, args) => {
            let inner = external_names_list(env, acc, args, 0);
            if args.len() == 0 && !table::has_key(env.types, name) && !table::has_key(env.enums, name) {
                text::with_text(inner, name)
            } else {
                inner
            }
        },
        TypeV::Arrow(p, r, _, _) => external_names(
            env,
            external_names_fields(env, acc, p, 0),
            *r,
        ),
        TypeV::Ref(i) => external_names(env, acc, *i),
        TypeV::Linear(i) => external_names(env, acc, *i),
        TypeV::Lazy(i) => external_names(env, acc, *i),
        TypeV::Borrow(i) => external_names(env, acc, *i),
        TypeV::Array(i) => external_names(env, acc, *i),
        TypeV::List(i) => external_names(env, acc, *i),
        TypeV::Row(es, tail) => match tail {
            Some(x) => external_names(env, external_names_list(env, acc, es, 0), *x),
            None => external_names_list(env, acc, es, 0),
        },
        TypeV::Record(fs) => external_names_fields(env, acc, fs, 0),
        _ => acc,
    }
}

/// `acc` extended by the external names of the types from index `i` on.
pub open spec fn external_names_list(
    env: EnvV,
    acc: Seq<Text>,
    ts: Seq<TypeV>,
    i: nat,
) -> Seq<Text>
    decreases ts, ts.len() - i,
{
    if i >= ts.len() {
        acc
    } else {
        external_names_list(env, external_names(env, acc, ts[i as int]), ts, i + 1)
    }
}

/// `acc` extended by the external names of the labelled types from index `i` on.
pub open spec fn external_names_fields(
    env: EnvV,
    acc: Seq<Text>,
    fs: Seq<(Text, TypeV)>,
    i: nat,
) -> Seq<Text>
    decreases fs, fs.len() - i,
{
    if i >= fs.len() {
        acc
    } else {
        external_names_fields(env, external_names(env, acc, fs[i as int].1), fs, i + 1)
    }
}

fn collect_external_type_vars(env: &TypeEnv, typ: &Type, out: &mut Vec<String>)
    ensures
        text::texts(final(out)@) == external_names(env@, text::texts(old(out)@), typ@),
    decreases typ,
{
    match typ {
        Type::UserDefined(name, args) => {
            collect_external_list(env, args, out);
            assert(types::types_view(args@).len() == args.len());
            if args.len() == 0 && find_typedef(&env.types, name.as_str()).is_none() && find_enum(
                &env.enums,
                name.as_str(),
            ).is_none() {
                list_add(out, name.clone());
            }
        },
        Type::Arrow(p, r, _, _) => {
            collect_external_fields(env, p, out);
            collect_external_type_vars(env, r, out);
        },
        Type::Ref(i) => collect_external_type_vars(env, i, out),
        Type::Linear(i) => collect_external_type_vars(env, i, out),
        Type::Lazy(i) => collect_external_type_vars(env, i, out),
        Type::Borrow(i) => collect_external_type_vars(env, i, out),
        Type::Array(i) => collect_external_type_vars(env, i, out),
        Type::List(i) => collect_external_type_vars(env, i, out),
        Type::Row(es, tail) => {
            collect_external_list(env, es, out);
            match tail {
                Some(x) => collect_external_type_vars(env, x, out),
                None => {},
            }
        },
        Type::Record(fs) => collect_external_fields(env, fs, out),
        _ => {},
    }
}

fn collect_external_list(env: &TypeEnv, ts: &Vec<Type>, out: &mut Vec<String>)
    ensures
        text::texts(final(out)@) == external_names_list(
            env@,
            text::texts(old(out)@),
            types::types_view(ts@),
            0,
        ),
    decreases ts,
{
    let mut i: usize = 0;
    while i < ts.len()
        invariant
            i <= ts.len(),
            external_names_list(env@, text::texts(out@), types::types_view(ts@), i as nat)
                == external_names_list(env@, text::texts(old(out)@), types::types_view(ts@), 0),
        decreases ts.len() - i,
    {
        collect_external_type_vars(env, &ts[i], out);
        i = i + 1;
    }
}

fn collect_external_fields(env: &TypeEnv, fs: &Vec<(String, Type)>, out: &mut Vec<String>)
    ensures
        text::texts(final(out)@) == external_names_fields(
            env@,
            text::texts(old(out)@),
            types::fields_view(fs@),
            0,
        ),
    decreases fs,
{
    let mut i: usize = 0;
    while i < fs.len()
        invariant
            i <= fs.len(),
            external_names_fields(env@, text::texts(out@), types::fields_view(fs@), i as nat)
                == external_names_fields(env@, text::texts(old(out)@), types::fields_view(fs@), 0),
        decreases fs.len() - i,
    {
        collect_external_type_vars(env, &fs[i].1, out);
        i = i + 1;
    }
}

/// The type variables of an external binding that are not among its type parameters, sorted.
pub open spec fn unintroduced(env: EnvV, type_params: Seq<Text>, t: TypeV) -> Seq<Text> {
    text::sorted_texts(text::difference_texts(external_names(env, Seq::empty(), t), type_params))
}

/// The message for type variables that an external binding does not introduce.
pub open spec fn unintroduced_message(names: Seq<Text>) -> Text {
    "unintroduced type variable(s) in external binding: "@ + text::joined(names, ", "@)
        + ". Add them as explicit type parameters, e.g. <"@ + text::joined(names, ", "@) + ">"@
}

/// Checks that an external binding introduces its type variables.
pub fn check_unintroduced_type_vars(typ: &Type, type_params: &Vec<String>, env: &TypeEnv) -> (r:
    Result<(), String>)
    ensures
        match r {
            Ok(()) => unintroduced(env@, text::texts(type_params@), typ@).len() == 0,
            Err(m) => {
                &&& unintroduced(env@, text::texts(type_params@), typ@).len() > 0
                &&& m@ == unintroduced_message(unintroduced(env@, text::texts(type_params@), typ@))
            },
        },
{
    let mut found: Vec<String> = Vec::new();
    assert(text::texts(found@) =~= Seq::<Text>::empty());
    collect_external_type_vars(env, typ, &mut found);
    let diff = list_difference(&found, type_params);
    let sorted = sort_texts(&diff);
    assert(text::texts(sorted@).len() == sorted.len());
    if sorted.len() == 0 {
        Ok(())
    } else {
        let list = join(&sorted, ", ");
        Err(
            cat5(
                "unintroduced type variable(s) in external binding: ",
                list.as_str(),
                ". Add them as explicit type parameters, e.g. <",
                list.as_str(),
                ">",
            ),
        )
    }
}

/// The scheme of an external binding.
pub open spec fn external_binding(type_params: Seq<Text>, t: TypeV) -> SchemeV {
    SchemeV { vars: type_params, typ: helpers::generic_vars(text::distinct_texts(type_params), t) }
}

/// The scheme of an external binding.
pub fn external_scheme(type_params: &Vec<String>, typ: &Type) -> (r: Scheme)
    ensures
        r@ == external_binding(text::texts(type_params@), typ@),
{
    let vars = to_set(type_params);
    Scheme {
        vars: copy_texts(type_params),
        typ: convert_generic_user_defined_to_var(&vars, typ),
    }
}

// ---------------------------------------------------------------------------
// Constructors and exceptions
// ---------------------------------------------------------------------------

/// The type variables of a list of names.
pub open spec fn param_vars(type_params: Seq<Text>) -> Seq<TypeV> {
    type_params.map_values(|p: Text| TypeV::Var(p))
}

/// An environment in which a constructor without fields is a value.
pub open spec fn with_nullary(
    env: EnvV,
    enum_name: Text,
    type_params: Seq<Text>,
    v: VariantDefV,
) -> EnvV {
    if v.fields.len() == 0 {
        env::env_insert(
            env,
            v.name,
            SchemeV {
                vars: type_params,
                typ: TypeV::UserDefined(enum_name, param_vars(type_params)),
            },
        )
    } else {
        env
    }
}

/// An environment in which those of the constructors from index `i` on that have no fields are
/// values.
pub open spec fn with_nullaries(
    env: EnvV,
    enum_name: Text,
    type_params: Seq<Text>,
    vs: Seq<VariantDefV>,
    i: nat,
) -> EnvV
    decreases vs.len() - i,
{
    if i >= vs.len() {
        env
    } else {
        with_nullaries(
            with_nullary(env, enum_name, type_params, vs[i as int]),
            enum_name,
            type_params,
            vs,
            i + 1,
        )
    }
}

/// Makes a constructor without fields a value.
pub fn register_nullary_variant_constructor(
    env: &mut TypeEnv,
    enum_name: &str,
    type_params: &Vec<String>,
    variant: &VariantDef,
)
    ensures
        final(env)@ == with_nullary(old(env)@, enum_name@, text::texts(type_params@), variant@),
        env::keys_kept(old(env)@, final(env)@),
{
    assert(variant@.fields.len() == variant.fields.len());
    if variant.fields.len() == 0 {
        let mut targs: Vec<Type> = Vec::new();
        let mut i: usize = 0;
        while i < type_params.len()
            invariant
                env::keys_kept(old(env)@, env@),
                i <= type_params.len(),
                targs.len() == i,
                forall|j: int|
                    0 <= j < i ==> (#[trigger] targs@[j])@ == TypeV::Var(type_params@[j]@),
            decreases type_params.len() - i,
        {
            targs.push(Type::Var(type_params[i].clone()));
            i = i + 1;
        }
        assert(types::types_view(targs@) =~= param_vars(text::texts(type_params@)));
        env.insert(
            variant.name.clone(),
            Scheme {
                vars: copy_texts(type_params),
                typ: Type::UserDefined(owned(enum_name), targs),
            },
        );
    }
}

fn register_nullaries(
    env: &mut TypeEnv,
    enum_name: &str,
    type_params: &Vec<String>,
    vs: &Vec<VariantDef>,
)
    ensures
        final(env)@ == with_nullaries(
            old(env)@,
            enum_name@,
            text::texts(type_params@),
            ast::variants_view(vs@),
            0,
        ),
        env::keys_kept(old(env)@, final(env)@),
{
    let ghost vv = ast::variants_view(vs@);
    let mut i: usize = 0;
    while i < vs.len()
        invariant
            env::keys_kept(old(env)@, env@),
            i <= vs.len(),
            vv == ast::variants_view(vs@),
            with_nullaries(env@, enum_name@, text::texts(type_params@), vv, i as nat)
                == with_nullaries(old(env)@, enum_name@, text::texts(type_params@), vv, 0),
        decreases vs.len() - i,
    {
        assert(vv[i as int] == vs@[i as int]@);
        register_nullary_variant_constructor(env, enum_name, type_params, &vs[i]);
        i = i + 1;
    }
}

/// An environment with a sum type of exceptions.
pub open spec fn with_exn(env: EnvV) -> EnvV {
    if table::has_key(env.enums, helpers::exn_name()) {
        env
    } else {
        EnvV { enums: table::store(env.enums, helpers::exn_name(), helpers::exn_enum()), ..env }
    }
}

/// The sum type of exceptions in an environment.
pub open spec fn exn_of(env: EnvV) -> EnumDefV {
    match table::lookup(env.enums, helpers::exn_name()) {
        Some(ed) => ed,
        None => helpers::exn_enum(),
    }
}

/// An environment with an exception; one that is already there stays as it is.
pub open spec fn with_exception(env: EnvV, ex: ExceptionDefV) -> EnvV {
    let e1 = with_exn(env);
    let ed = exn_of(env);
    if state::variant_named(ed.variants, ex.name, 0) is Some {
        e1
    } else {
        let v = VariantDefV { name: ex.name, fields: ex.fields };
        let e2 = with_nullary(e1, helpers::exn_name(), Seq::empty(), v);
        EnvV {
            enums: table::store(
                e2.enums,
                helpers::exn_name(),
                EnumDefV { variants: ed.variants.push(v), ..ed },
            ),
            ..e2
        }
    }
}

/// Adds an exception to an environment.
pub fn register_exception_variant(env: &mut TypeEnv, exception: &ExceptionDef)
    ensures
        final(env)@ == with_exception(old(env)@, exception@),
        env::keys_kept(old(env)@, final(env)@),
{
    let mut ed = match find_enum(&env.enums, "Exn") {
        Some(ed) => ed.clone(),
        None => exn_enum_def(),
    };
    if find_enum(&env.enums, "Exn").is_none() {
        proof {
            env::lemma_enum_keeps_keys(env@, "Exn"@, ed@);
        }
        put_enum(&mut env.enums, owned("Exn"), ed.clone());
    }
    if find_variant(&ed.variants, exception.name.as_str()).is_some() {
        return;
    }
    let variant = VariantDef {
        name: exception.name.clone(),
        fields: copy_ctor_fields(&exception.fields),
    };
    let none: Vec<String> = Vec::new();
    assert(text::texts(none@) =~= Seq::<Text>::empty());
    register_nullary_variant_constructor(env, "Exn", &none, &variant);
    let ghost before = ast::variants_view(ed.variants@);
    let ghost v = variant@;
    ed.variants.push(variant);
    assert(ast::variants_view(ed.variants@) =~= before.push(v));
    proof {
        env::lemma_enum_keeps_keys(env@, "Exn"@, ed@);
    }
    put_enum(&mut env.enums, owned("Exn"), ed);
}

/// The constructors from index `i` on whose names are not among those of `have`, behind `acc`.
pub open spec fn new_variants(
    acc: Seq<VariantDefV>,
    have: Seq<VariantDefV>,
    vs: Seq<VariantDefV>,
    i: nat,
) -> Seq<VariantDefV>
    decreases vs.len() - i,
{
    if i >= vs.len() {
        acc
    } else if state::variant_named(have, vs[i as int].name, 0) is Some {
        new_variants(acc, have, vs, i + 1)
    } else {
        new_variants(acc.push(vs[i as int]), have, vs, i + 1)
    }
}

/// The first sum type from index `i` on with a constructor of a name, under its key.
pub open spec fn enum_with_ctor(enums: Seq<(Text, EnumDefV)>, name: Text, i: nat) -> Option<
    (Text, EnumDefV),
>
    decreases enums.len() - i,
{
    if i >= enums.len() {
        None
    } else if state::variant_named(enums[i as int].1.variants, name, 0) is Some {
        Some(enums[i as int])
    } else {
        enum_with_ctor(enums, name, i + 1)
    }
}

/// An environment with the sum type of a public environment that has a constructor of the given
/// name, merged into the one of the same name; nothing where there is none.
pub open spec fn with_imported_variant(env: EnvV, public_env: EnvV, name: Text) -> Option<EnvV> {
    match enum_with_ctor(public_env.enums, name, 0) {
        None => None,
        Some((key, ed)) => {
            let have = match table::lookup(env.enums, key) {
                Some(e) => e,
                None => EnumDefV { name: key, variants: Seq::empty(), ..ed },
            };
            let extra = new_variants(Seq::empty(), have.variants, ed.variants, 0);
            let e1 = with_nullaries(env, key, ed.type_params, extra, 0);
            Some(
                EnvV {
                    enums: table::store(
                        e1.enums,
                        key,
                        EnumDefV { variants: have.variants + extra, ..have },
                    ),
                    ..e1
                },
            )
        },
    }
}

fn collect_new_variants(have: &Vec<VariantDef>, vs: &Vec<VariantDef>) -> (r: Vec<VariantDef>)
    ensures
        ast::variants_view(r@) == new_variants(
            Seq::empty(),
            ast::variants_view(have@),
            ast::variants_view(vs@),
            0,
        ),
{
    let ghost hv = ast::variants_view(have@);
    let ghost vv = ast::variants_view(vs@);
    let mut out: Vec<VariantDef> = Vec::new();
    assert(ast::variants_view(out@) =~= Seq::<VariantDefV>::empty());
    let mut i: usize = 0;
    while i < vs.len()
        invariant
            i <= vs.len(),
            hv == ast::variants_view(have@),
            vv == ast::variants_view(vs@),
            new_variants(ast::variants_view(out@), hv, vv, i as nat) == new_variants(
                Seq::empty(),
                hv,
                vv,
                0,
            ),
        decreases vs.len() - i,
    {
        assert(vv[i as int] == vs@[i as int]@);
        if find_variant(have, vs[i].name.as_str()).is_none() {
            let ghost before = ast::variants_view(out@);
            out.push(vs[i].clone());
            assert(ast::variants_view(out@) =~= before.push(vv[i as int]));
        }
        i = i + 1;
    }
    out
}

fn find_enum_with_ctor<'a>(enums: &'a Vec<(String, EnumDef)>, name: &str) -> (r: Option<
    &'a (String, EnumDef),
>)
    ensures
        match r {
            Some(e) => enum_with_ctor(env::enums_view(enums@), name@, 0) == Some((e.0@, e.1@)),
            None => enum_with_ctor(env::enums_view(enums@), name@, 0) is None,
        },
{
    let ghost ev = env::enums_view(enums@);
    let mut i: usize = 0;
    while i < enums.len()
        invariant
            i <= enums.len(),
            ev == env::enums_view(enums@),
            enum_with_ctor(ev, name@, 0) == enum_with_ctor(ev, name@, i as nat),
        decreases enums.len() - i,
    {
        assert(ev[i as int] == (enums@[i as int].0@, enums@[i as int].1@));
        if find_variant(&enums[i].1.variants, name).is_some() {
            return Some(&enums[i]);
        }
        i = i + 1;
    }
    None
}

/// Imports the sum type with a constructor of the given name; says whether there is one.
pub fn import_variant_by_name(target_env: &mut TypeEnv, public_env: &TypeEnv, name: &str) -> (r:
    bool)
    ensures
        match with_imported_variant(old(target_env)@, public_env@, name@) {
            Some(e) => r && final(target_env)@ == e,
            None => !r && final(target_env)@ == old(target_env)@,
        },
        env::keys_kept(old(target_env)@, final(target_env)@),
{
    match find_enum_with_ctor(&public_env.enums, name) {
        None => false,
        Some(entry) => {
            let ed = &entry.1;
            let mut have = match find_enum(&target_env.enums, entry.0.as_str()) {
                Some(e) => e.clone(),
                None => {
                    let none: Vec<VariantDef> = Vec::new();
                    assert(ast::variants_view(none@) =~= Seq::<VariantDefV>::empty());
                    EnumDef {
                        name: entry.0.clone(),
                        is_public: ed.is_public,
                        is_opaque: ed.is_opaque,
                        type_params: copy_texts(&ed.type_params),
                        variants: none,
                    }
                },
            };
            let extra = collect_new_variants(&have.variants, &ed.variants);
            register_nullaries(target_env, entry.0.as_str(), &ed.type_params, &extra);
            let ghost hv = ast::variants_view(have.variants@);
            let ghost xv = ast::variants_view(extra@);
            let mut rest = extra;
            have.variants.append(&mut rest);
            assert(ast::variants_view(have.variants@) =~= hv + xv);
            proof {
                env::lemma_enum_keeps_keys(target_env@, entry.0@, have@);
            }
            put_enum(&mut target_env.enums, entry.0.clone(), have);
            true
        },
    }
}

// ---------------------------------------------------------------------------
// Public definitions
// ---------------------------------------------------------------------------

/// An environment with a public sum type. An opaque one is known by its name alone.
pub open spec fn with_public_enum(env: EnvV, ed: EnumDefV) -> EnvV {
    let n = helpers::normalized_enum(ed);
    if ed.is_opaque {
        EnvV {
            enums: table::store(
                env.enums,
                n.name,
                EnumDefV {
                    name: n.name,
                    is_public: true,
                    is_opaque: true,
                    type_params: n.type_params,
                    variants: Seq::empty(),
                },
            ),
            ..env
        }
    } else {
        with_nullaries(
            EnvV { enums: table::store(env.enums, n.name, n), ..env },
            n.name,
            n.type_params,
            n.variants,
            0,
        )
    }
}

fn add_public_enum(env: &mut TypeEnv, ed: &EnumDef)
    ensures
        final(env)@ == with_public_enum(old(env)@, ed@),
        env::keys_kept(old(env)@, final(env)@),
{
    let n = normalize_enum_generic_params(ed);
    if ed.is_opaque {
        let none: Vec<VariantDef> = Vec::new();
        assert(ast::variants_view(none@) =~= Seq::<VariantDefV>::empty());
        let shape = EnumDef {
            name: n.name.clone(),
            is_public: true,
            is_opaque: true,
            type_params: n.type_params,
            variants: none,
        };
        proof {
            env::lemma_enum_keeps_keys(env@, n.name@, shape@);
        }
        put_enum(&mut env.enums, n.name, shape);
    } else {
        proof {
            env::lemma_enum_keeps_keys(env@, n.name@, n@);
        }
        put_enum(&mut env.enums, n.name.clone(), n.clone());
        register_nullaries(env, n.name.as_str(), &n.type_params, &n.variants);
    }
}

/// An environment with a sum type that is declared where it is used.
pub open spec fn with_own_enum(env: EnvV, ed: EnumDefV) -> EnvV {
    let n = helpers::normalized_enum(ed);
    with_nullaries(
        EnvV { enums: table::store(env.enums, n.name, n), ..env },
        n.name,
        n.type_params,
        n.variants,
        0,
    )
}

/// Adds a sum type that is declared where it is used.
pub fn add_own_enum(env: &mut TypeEnv, ed: &EnumDef)
    ensures
        final(env)@ == with_own_enum(old(env)@, ed@),
        env::keys_kept(old(env)@, final(env)@),
{
    let n = normalize_enum_generic_params(ed);
    proof {
        env::lemma_enum_keeps_keys(env@, n.name@, n@);
    }
    put_enum(&mut env.enums, n.name.clone(), n.clone());
    register_nullaries(env, n.name.as_str(), &n.type_params, &n.variants);
}

/// An environment with the public types of the definitions from index `i` on: records, sum
/// types and exceptions.
pub open spec fn with_public_types(env: EnvV, defs: Seq<Spanned<TopLevelV>>, i: nat) -> EnvV
    decreases defs.len() - i,
{
    if i >= defs.len() {
        env
    } else {
        let next = match defs[i as int].node {
            TopLevelV::TypeDef(td) => if td.is_public {
                EnvV {
                    types: table::store(env.types, helpers::normalized_typedef(td).name, helpers::normalized_typedef(td)),
                    ..env
                }
            } else {
                env
            },
            TopLevelV::Enum(ed) => if ed.is_public {
                with_public_enum(env, ed)
            } else {
                env
            },
            TopLevelV::Exception(ex) => if ex.is_public {
                with_exception(env, ex)
            } else {
                env
            },
            _ => env,
        };
        with_public_types(next, defs, i + 1)
    }
}

/// An environment with the public types of the programs from index `i` on.
pub open spec fn with_stdlib_types(env: EnvV, programs: Seq<ProgramV>, i: nat) -> EnvV
    decreases programs.len() - i,
{
    if i >= programs.len() {
        env
    } else {
        with_stdlib_types(
            with_public_types(env, programs[i as int].definitions, 0),
            programs,
            i + 1,
        )
    }
}

/// The models of a list of programs.
pub open spec fn programs_view(v: Seq<Program>) -> Seq<ProgramV> {
    v.map_values(|p: Program| p@)
}

fn register_public_types(env: &mut TypeEnv, program: &Program)
    ensures
        final(env)@ == with_public_types(old(env)@, program@.definitions, 0),
        env::keys_kept(old(env)@, final(env)@),
{
    let ghost defs = program@.definitions;
    let mut i: usize = 0;
    while i < program.definitions.len()
        invariant
            env::keys_kept(old(env)@, env@),
            i <= program.definitions.len(),
            defs == ast::definitions_view(program.definitions@),
            with_public_types(env@, defs, i as nat) == with_public_types(old(env)@, defs, 0),
        decreases program.definitions.len() - i,
    {
        let def = &program.definitions[i];
        assert(defs[i as int] == def@);
        match &def.node {
            TopLevel::TypeDef(td) => {
                if td.is_public {
                    let n = normalize_typedef_generic_params(td);
                    proof {
                        env::lemma_type_keeps_keys(env@, n.name@, n@);
                    }
                    put_typedef(&mut env.types, n.name.clone(), n);
                }
            },
            TopLevel::Enum(ed) => {
                if ed.is_public {
                    add_public_enum(env, ed);
                }
            },
            TopLevel::Exception(ex) => {
                if ex.is_public {
                    register_exception_variant(env, ex);
                }
            },
            _ => {},
        }
        i = i + 1;
    }
}

/// Adds the public types of the standard library, but none of its functions.
pub fn register_stdlib_types(env: &mut TypeEnv, programs: &Vec<Program>)
    ensures
        final(env)@ == with_stdlib_types(old(env)@, programs_view(programs@), 0),
        env::keys_kept(old(env)@, final(env)@),
{
    let ghost pv = programs_view(programs@);
    let mut i: usize = 0;
    while i < programs.len()
        invariant
            env::keys_kept(old(env)@, env@),
            i <= programs.len(),
            pv == programs_view(programs@),
            with_stdlib_types(env@, pv, i as nat) == with_stdlib_types(old(env)@, pv, 0),
        decreases programs.len() - i,
    {
        assert(pv[i as int] == programs@[i as int]@);
        register_public_types(env, &programs[i]);
        i = i + 1;
    }
}

/// The error for a sum type of a reserved name.
pub open spec fn reserved_enum(span: Span) -> TypeErrorV {
    env::error_at("Reserved enum name 'Exn'; use 'exception ...' declarations"@, span)
}

/// Reports a sum type of a reserved name.
pub fn reserved_enum_error(span: Span) -> (r: TypeError)
    ensures
        r@ == reserved_enum(span),
{
    TypeError::new(owned("Reserved enum name 'Exn'; use 'exception ...' declarations"), span)
}

/// An environment with the variables from index `i` on whose names begin with a prefix. `to`
/// takes the place of the prefix.
pub open spec fn with_prefixed(
    env: EnvV,
    vars: Seq<(Text, SchemeV)>,
    prefix: Text,
    to: Text,
    i: nat,
) -> EnvV
    decreases vars.len() - i,
{
    if i >= vars.len() {
        env
    } else if text::begins_with(vars[i as int].0, prefix) {
        with_prefixed(
            env::env_insert(
                env,
                to + vars[i as int].0.skip(prefix.len() as int),
                vars[i as int].1,
            ),
            vars,
            prefix,
            to,
            i + 1,
        )
    } else {
        with_prefixed(env, vars, prefix, to, i + 1)
    }
}

/// Whether the name of a variable from index `i` on begins with a prefix.
pub open spec fn has_prefixed(vars: Seq<(Text, SchemeV)>, prefix: Text, i: nat) -> bool
    decreases vars.len() - i,
{
    i < vars.len() && (text::begins_with(vars[i as int].0, prefix) || has_prefixed(vars, prefix, i + 1))
}

/// Copies the variables whose names begin with a prefix; says whether there is one.
pub fn add_prefixed(env: &mut TypeEnv, vars: &Vec<(String, Scheme)>, prefix: &str, to: &str) -> (r:
    bool)
    ensures
        final(env)@ == with_prefixed(old(env)@, env::schemes_view(vars@), prefix@, to@, 0),
        r == has_prefixed(env::schemes_view(vars@), prefix@, 0),
        env::keys_kept(old(env)@, final(env)@),
{
    let ghost vv = env::schemes_view(vars@);
    let n = prefix.unicode_len();
    let mut found = false;
    let mut i: usize = 0;
    while i < vars.len()
        invariant
            env::keys_kept(old(env)@, env@),
            i <= vars.len(),
            n == prefix@.len(),
            vv == env::schemes_view(vars@),
            with_prefixed(env@, vv, prefix@, to@, i as nat) == with_prefixed(
                old(env)@,
                vv,
                prefix@,
                to@,
                0,
            ),
            has_prefixed(vv, prefix@, 0) == (found || has_prefixed(vv, prefix@, i as nat)),
        decreases vars.len() - i,
    {
        let entry = &vars[i];
        assert(vv[i as int] == (entry.0@, entry.1@));
        if starts_with(entry.0.as_str(), prefix) {
            let rest = skip_chars(entry.0.as_str(), n);
            env.insert(cat2(to, rest.as_str()), entry.1.clone());
            found = true;
        }
        i = i + 1;
    }
    found
}

/// The public environment of a module: `env` is its environment, `pe` what the definitions
/// before index `i` have put into it.
pub open spec fn exported(env: EnvV, pe: EnvV, defs: Seq<Spanned<TopLevelV>>, i: nat) -> Result<
    EnvV,
    TypeErrorV,
>
    decreases defs.len() - i,
{
    if i >= defs.len() {
        Ok(pe)
    } else {
        match defs[i as int].node {
            TopLevelV::TypeDef(td) => {
                let next = if td.is_public {
                    EnvV {
                        types: table::store(
                            pe.types,
                            helpers::normalized_typedef(td).name,
                            helpers::normalized_typedef(td),
                        ),
                        ..pe
                    }
                } else {
                    pe
                };
                exported(env, next, defs, i + 1)
            },
            TopLevelV::Enum(ed) => {
                if ed.is_public && ed.name == helpers::exn_name() {
                    Err(reserved_enum(defs[i as int].span))
                } else if ed.is_public {
                    exported(env, with_public_enum(pe, ed), defs, i + 1)
                } else {
                    exported(env, pe, defs, i + 1)
                }
            },
            TopLevelV::Exception(ex) => {
                let next = if ex.is_public {
                    with_exception(pe, ex)
                } else {
                    pe
                };
                exported(env, next, defs, i + 1)
            },
            TopLevelV::Let(gl) => {
                let next = match table::lookup(env.vars, gl.name) {
                    Some(sch) => if gl.is_public {
                        env::env_insert(pe, gl.name, sch)
                    } else {
                        pe
                    },
                    None => pe,
                };
                exported(env, next, defs, i + 1)
            },
            TopLevelV::Port(port) => {
                let p = port.name + "."@;
                let next = if port.is_public {
                    with_prefixed(pe, env.vars, p, p, 0)
                } else {
                    pe
                };
                exported(env, next, defs, i + 1)
            },
            _ => exported(env, pe, defs, i + 1),
        }
    }
}

/// The public environment of a module that has been checked.
#[verifier::loop_isolation(false)]
pub fn export_definitions(env: &TypeEnv, program: &Program) -> (r: Result<TypeEnv, TypeError>)
    ensures
        match r {
            Ok(pe) => exported(env@, env::empty_env(), program@.definitions, 0) == Ok::<
                EnvV,
                TypeErrorV,
            >(pe@),
            Err(e) => exported(env@, env::empty_env(), program@.definitions, 0) == Err::<
                EnvV,
                TypeErrorV,
            >(e@),
        },
        r matches Ok(pe) ==> env::keys_apart(pe@),
{
    let ghost defs = program@.definitions;
    let ghost all = exported(env@, env::empty_env(), defs, 0);
    let mut pe = TypeEnv::new();
    let mut i: usize = 0;
    while i < program.definitions.len()
        invariant
            i <= program.definitions.len(),
            exported(env@, pe@, defs, i as nat) == all,
            env::keys_apart(pe@),
        decreases program.definitions.len() - i,
    {
        let def = &program.definitions[i];
        assert(defs[i as int] == def@);
        match &def.node {
            TopLevel::TypeDef(td) => {
                if td.is_public {
                    let n = normalize_typedef_generic_params(td);
                    proof {
                        env::lemma_type_keeps_keys(pe@, n.name@, n@);
                    }
                    put_typedef(&mut pe.types, n.name.clone(), n);
                }
            },
            TopLevel::Enum(ed) => {
                if ed.is_public {
                    if str_eq(ed.name.as_str(), "Exn") {
                        return Err(reserved_enum_error(def.span));
                    }
                    add_public_enum(&mut pe, ed);
                }
            },
            TopLevel::Exception(ex) => {
                if ex.is_public {
                    register_exception_variant(&mut pe, ex);
                }
            },
            TopLevel::Let(gl) => {
                if gl.is_public {
                    match find_scheme(&env.vars, gl.name.as_str()) {
                        Some(sch) => pe.insert(gl.name.clone(), sch.clone()),
                        None => {},
                    }
                }
            },
            TopLevel::Port(port) => {
                if port.is_public {
                    let p = cat2(port.name.as_str(), ".");
                    add_prefixed(&mut pe, &env.vars, p.as_str(), p.as_str());
                }
            },
            TopLevel::Import(_) => {},
        }
        i = i + 1;
    }
    Ok(pe)
}

// ---------------------------------------------------------------------------
// Imported names
// ---------------------------------------------------------------------------

/// The name under which an imported name is bound.
pub open spec fn local_name(item: ImportItemV) -> Text {
    match item.alias {
        Some(a) => a,
        None => item.name,
    }
}

/// Whether a public environment has a definition of a name: a variable, a type, or a port.
pub open spec fn exports_name(pe: EnvV, name: Text) -> bool {
    ||| table::lookup(pe.vars, name) is Some
    ||| table::lookup(pe.types, name) is Some
    ||| table::lookup(pe.enums, name) is Some
    ||| has_prefixed(pe.vars, name + "."@, 0)
}

/// The environment with what a public environment has under a name.
pub open spec fn with_item(env: EnvV, pe: EnvV, item: ImportItemV) -> EnvV {
    let local = local_name(item);
    let e1 = match table::lookup(pe.vars, item.name) {
        Some(sch) => env::env_insert(env, local, sch),
        None => env,
    };
    let e2 = match table::lookup(pe.types, item.name) {
        Some(td) => EnvV { types: table::store(e1.types, local, td), ..e1 },
        None => e1,
    };
    let e3 = match table::lookup(pe.enums, item.name) {
        Some(ed) => with_nullaries(
            EnvV { enums: table::store(e2.enums, local, ed), ..e2 },
            ed.name,
            ed.type_params,
            ed.variants,
            0,
        ),
        None => e2,
    };
    with_prefixed(e3, pe.vars, item.name + "."@, local + "."@, 0)
}

/// The record types known to unification, with the one that a public environment has under a
/// name.
pub open spec fn with_item_def(
    defs: Seq<(Text, TypeDefV)>,
    pe: EnvV,
    item: ImportItemV,
) -> Seq<(Text, TypeDefV)> {
    match table::lookup(pe.types, item.name) {
        Some(td) => table::store(defs, local_name(item), td),
        None => defs,
    }
}

/// The names of an import from index `i` on, brought into an environment; a name that the
/// module does not define is an error.
pub open spec fn items_imported(
    env: EnvV,
    defs: Seq<(Text, TypeDefV)>,
    pe: EnvV,
    items: Seq<ImportItemV>,
    i: nat,
    path: Text,
    span: Span,
) -> (Result<(), TypeErrorV>, EnvV, Seq<(Text, TypeDefV)>)
    decreases items.len() - i,
{
    if i >= items.len() {
        (Ok(()), env, defs)
    } else if !exports_name(pe, items[i as int].name) {
        (
            Err(
                env::error_at(
                    "Definition "@ + items[i as int].name + " not found in "@ + path,
                    span,
                ),
            ),
            env,
            defs,
        )
    } else {
        items_imported(
            with_item(env, pe, items[i as int]),
            with_item_def(defs, pe, items[i as int]),
            pe,
            items,
            i + 1,
            path,
            span,
        )
    }
}

fn import_item(
    env: &mut TypeEnv,
    defs: &mut Vec<(String, TypeDef)>,
    pe: &TypeEnv,
    item: &ImportItem,
) -> (r: bool)
    ensures
        r == exports_name(pe@, item@.name),
        r ==> final(env)@ == with_item(old(env)@, pe@, item@),
        r ==> env::typedefs_view(final(defs)@) == with_item_def(
            env::typedefs_view(old(defs)@),
            pe@,
            item@,
        ),
        !r ==> final(env)@ == old(env)@,
        !r ==> env::typedefs_view(final(defs)@) == env::typedefs_view(old(defs)@),
        env::keys_kept(old(env)@, final(env)@),
        table::distinct_keys(env::typedefs_view(old(defs)@)) ==> table::distinct_keys(env::typedefs_view(final(defs)@)),
{
    let local = match &item.alias {
        Some(a) => a.clone(),
        None => item.name.clone(),
    };
    let name = item.name.as_str();
    let mut any = false;
    match find_scheme(&pe.vars, name) {
        Some(sch) => {
            env.insert(local.clone(), sch.clone());
            any = true;
        },
        None => {},
    }
    match find_typedef(&pe.types, name) {
        Some(td) => {
            proof {
                env::lemma_type_keeps_keys(env@, local@, td@);
            }
            put_typedef(&mut env.types, local.clone(), td.clone());
            proof {
                if table::distinct_keys(env::typedefs_view(defs@)) {
                    table::law_store_keeps_keys_distinct(env::typedefs_view(defs@), local@, td@);
                }
            }
            put_typedef(defs, local.clone(), td.clone());
            any = true;
        },
        None => {},
    }
    match find_enum(&pe.enums, name) {
        Some(ed) => {
            proof {
                env::lemma_enum_keeps_keys(env@, local@, ed@);
            }
            put_enum(&mut env.enums, local.clone(), ed.clone());
            register_nullaries(env, ed.name.as_str(), &ed.type_params, &ed.variants);
            any = true;
        },
        None => {},
    }
    let prefix = cat2(name, ".");
    let to = cat2(local.as_str(), ".");
    let ghost e3 = env@;
    let ports = add_prefixed(env, &pe.vars, prefix.as_str(), to.as_str());
    if !ports {
        proof {
            lemma_nothing_prefixed(e3, pe@.vars, prefix@, to@, 0);
        }
    }
    any || ports
}

proof fn lemma_nothing_prefixed(
    env: EnvV,
    vars: Seq<(Text, SchemeV)>,
    prefix: Text,
    to: Text,
    i: nat,
)
    requires
        !has_prefixed(vars, prefix, i),
    ensures
        with_prefixed(env, vars, prefix, to, i) == env,
    decreases vars.len() - i,
{
    if i < vars.len() {
        lemma_nothing_prefixed(env, vars, prefix, to, i + 1);
    }
}

/// Brings the names of an import into an environment.
#[verifier::loop_isolation(false)]
pub fn import_items(
    env: &mut TypeEnv,
    defs: &mut Vec<(String, TypeDef)>,
    pe: &TypeEnv,
    import: &Import,
    span: &Span,
) -> (r: Result<(), TypeError>)
    ensures
        state::unit_matches(
            r,
            items_imported(
                old(env)@,
                env::typedefs_view(old(defs)@),
                pe@,
                import@.items,
                0,
                import@.path,
                *span,
            ).0,
        ),
        final(env)@ == items_imported(
            old(env)@,
            env::typedefs_view(old(defs)@),
            pe@,
            import@.items,
            0,
            import@.path,
            *span,
        ).1,
        env::typedefs_view(final(defs)@) == items_imported(
            old(env)@,
            env::typedefs_view(old(defs)@),
            pe@,
            import@.items,
            0,
            import@.path,
            *span,
        ).2,
        env::keys_kept(old(env)@, final(env)@),
        table::distinct_keys(env::typedefs_view(old(defs)@)) ==> table::distinct_keys(env::typedefs_view(final(defs)@)),
{
    let ghost iv = import@.items;
    let ghost all = items_imported(
        env@,
        env::typedefs_view(defs@),
        pe@,
        iv,
        0,
        import@.path,
        *span,
    );
    let mut i: usize = 0;
    while i < import.items.len()
        invariant
            env::keys_kept(old(env)@, env@),
            table::distinct_keys(env::typedefs_view(old(defs)@)) ==> table::distinct_keys(env::typedefs_view(defs@)),
            i <= import.items.len(),
            items_imported(
                env@,
                env::typedefs_view(defs@),
                pe@,
                iv,
                i as nat,
                import@.path,
                *span,
            ) == all,
        decreases import.items.len() - i,
    {
        assert(iv[i as int] == import.items@[i as int]@);
        if !import_item(env, defs, pe, &import.items[i]) {
            return Err(
                TypeError::new(
                    cat4(
                        "Definition ",
                        import.items[i].name.as_str(),
                        " not found in ",
                        import.path.as_str(),
                    ),
                    *span,
                ),
            );
        }
        i = i + 1;
    }
    Ok(())
}

/// `m` with the entries from index `i` on whose keys it does not have.
pub open spec fn with_missing(
    m: Seq<(Text, EnvV)>,
    extra: Seq<(Text, EnvV)>,
    i: nat,
) -> Seq<(Text, EnvV)>
    decreases extra.len() - i,
{
    if i >= extra.len() {
        m
    } else if table::has_key(m, extra[i as int].0) {
        with_missing(m, extra, i + 1)
    } else {
        with_missing(table::store(m, extra[i as int].0, extra[i as int].1), extra, i + 1)
    }
}

/// Adds the modules whose paths a table does not have.
pub fn add_missing(m: &mut Vec<(String, TypeEnv)>, extra: &Vec<(String, TypeEnv)>)
    ensures
        env::modules_view(final(m)@) == with_missing(env::modules_view(old(m)@), env::modules_view(extra@), 0),
        env::module_table_apart(env::modules_view(old(m)@)) && env::module_table_apart(env::modules_view(extra@))
            ==> env::module_table_apart(env::modules_view(final(m)@)),
{
    let ghost xv = env::modules_view(extra@);
    let mut i: usize = 0;
    while i < extra.len()
        invariant
            i <= extra.len(),
            xv == env::modules_view(extra@),
            env::module_table_apart(env::modules_view(old(m)@)) && env::module_table_apart(xv)
                ==> env::module_table_apart(env::modules_view(m@)),
            with_missing(env::modules_view(m@), xv, i as nat) == with_missing(
                env::modules_view(old(m)@),
                xv,
                0,
            ),
        decreases extra.len() - i,
    {
        assert(xv[i as int] == (extra@[i as int].0@, extra@[i as int].1@));
        if find_module(m, extra[i].0.as_str()).is_none() {
            proof {
                if env::module_table_apart(env::modules_view(m@)) && env::module_table_apart(xv) {
                    assert(env::keys_apart(xv[i as int].1));
                    env::lemma_module_stays_apart(env::modules_view(m@), extra[i as int].0@, extra[i as int].1@);
                }
            }
            put_module(m, extra[i].0.clone(), extra[i].1.clone());
        }
        i = i + 1;
    }
}

// ---------------------------------------------------------------------------
// Ports
// ---------------------------------------------------------------------------

/// The coeffects of a port's function: the port comes first, unless it is among them.
pub open spec fn port_requires(port: Text, reqs: TypeV) -> TypeV {
    match reqs {
        TypeV::Row(es, tail) => {
            if helpers::has_type(es, helpers::named_type(port)) {
                reqs
            } else {
                TypeV::Row(seq![helpers::named_type(port)] + es, tail)
            }
        },
        _ => TypeV::Row(seq![helpers::named_type(port)], Some(Box::new(reqs))),
    }
}

/// The type of a port's function.
pub open spec fn port_function_type(port: Text, sig: SignatureV) -> TypeV {
    TypeV::Arrow(
        sig.params.map_values(|p: ParamV| (p.name, p.typ)),
        Box::new(sig.ret_type),
        Box::new(port_requires(port, sig.requires)),
        Box::new(sig.throws),
    )
}

/// An environment with the functions of a port from index `i` on.
pub open spec fn with_port(env: EnvV, port: Text, sigs: Seq<SignatureV>, i: nat) -> EnvV
    decreases sigs.len() - i,
{
    if i >= sigs.len() {
        env
    } else {
        with_port(
            env::env_insert(
                env,
                port + "."@ + sigs[i as int].name,
                env::mono(port_function_type(port, sigs[i as int])),
            ),
            port,
            sigs,
            i + 1,
        )
    }
}

fn make_port_requires(port: &str, reqs: &Type) -> (r: Type)
    ensures
        r@ == port_requires(port@, reqs@),
{
    let req = make_named(owned(port));
    let mut es: Vec<Type> = Vec::new();
    match reqs {
        Type::Row(items, tail) => {
            assert(types::types_view(items@).len() == items.len());
            if find_type(items, &req).is_some() {
                reqs.clone()
            } else {
                es.push(req);
                let mut rest = copy_types(items);
                let ghost rv = types::types_view(rest@);
                es.append(&mut rest);
                assert(types::types_view(es@) =~= seq![helpers::named_type(port@)] + rv);
                Type::Row(es, copy_tail(tail))
            }
        },
        _ => {
            es.push(req);
            assert(types::types_view(es@) =~= seq![helpers::named_type(port@)]);
            Type::Row(es, Some(Box::new(reqs.clone())))
        },
    }
}

fn make_port_function_type(port: &str, sig: &FunctionSignature) -> (r: Type)
    ensures
        r@ == port_function_type(port@, sig@),
{
    let mut out: Vec<(String, Type)> = Vec::new();
    let mut i: usize = 0;
    while i < sig.params.len()
        invariant
            i <= sig.params.len(),
            out.len() == i,
            forall|j: int|
                0 <= j < i ==> (#[trigger] out@[j]).0@ == sig.params@[j].name@ && out@[j].1@
                    == sig.params@[j].typ@,
        decreases sig.params.len() - i,
    {
        out.push((sig.params[i].name.clone(), sig.params[i].typ.clone()));
        i = i + 1;
    }
    assert(types::fields_view(out@) =~= sig@.params.map_values(|p: ParamV| (p.name, p.typ)));
    Type::Arrow(
        out,
        Box::new(sig.ret_type.clone()),
        Box::new(make_port_requires(port, &sig.requires)),
        Box::new(sig.throws.clone()),
    )
}

/// Adds the functions of a port.
pub fn add_port(env: &mut TypeEnv, port: &Port)
    ensures
        final(env)@ == with_port(old(env)@, port@.name, port@.functions, 0),
        env::keys_kept(old(env)@, final(env)@),
{
    let ghost sv = port@.functions;
    let mut i: usize = 0;
    while i < port.functions.len()
        invariant
            env::keys_kept(old(env)@, env@),
            i <= port.functions.len(),
            sv == port@.functions,
            with_port(env@, port@.name, sv, i as nat) == with_port(
                old(env)@,
                port@.name,
                sv,
                0,
            ),
        decreases port.functions.len() - i,
    {
        let sig = &port.functions[i];
        assert(sv[i as int] == sig@);
        let name = cat3(port.name.as_str(), ".", sig.name.as_str());
        let t = make_port_function_type(port.name.as_str(), sig);
        env.insert(name, mono_scheme(t));
        i = i + 1;
    }
}

} // verus!
