//! What a module shows to others, and what an import takes from it.

use crate::ast::{EnumDefV, ExceptionDefV, ImportItemV, TopLevelV, TypeDefV, VariantDefV};
use crate::table;
use crate::text;
use crate::text::Text;
use crate::typecheck::env;
use crate::typecheck::env::{EnvV, SchemeV};
use crate::typecheck::helpers;
use crate::typecheck::modules;
use crate::types::{Span, Spanned, TypeV};
use vstd::prelude::*;

verus! {

// ---------------------------------------------------------------------------
// What is exported
// ---------------------------------------------------------------------------

/// Whether a definition shows a value of a name to other modules: a public binding, a
/// constructor without fields of a public sum type that is not opaque, a public exception
/// without fields, or a function of a public port.
pub open spec fn shows_value(def: TopLevelV, name: Text) -> bool {
    match def {
        TopLevelV::Let(gl) => gl.is_public && gl.name == name,
        TopLevelV::Enum(ed) => ed.is_public && !ed.is_opaque && exists|i: int|
            0 <= i < ed.variants.len() && (#[trigger] ed.variants[i]).name == name
                && ed.variants[i].fields.len() == 0,
        TopLevelV::Exception(ex) => ex.is_public && ex.name == name && ex.fields.len() == 0,
        TopLevelV::Port(pt) => pt.is_public && exists|rest: Text|
            name == #[trigger] (pt.name + "."@ + rest),
        _ => false,
    }
}

/// Whether a definition shows a record type of a name to other modules.
pub open spec fn shows_type(def: TopLevelV, name: Text) -> bool {
    match def {
        TopLevelV::TypeDef(td) => td.is_public && td.name == name,
        _ => false,
    }
}

/// Whether a definition shows a sum type of a name to other modules. Exceptions are constructors
/// of one.
pub open spec fn shows_enum(def: TopLevelV, name: Text) -> bool {
    match def {
        TopLevelV::Enum(ed) => ed.is_public && ed.name == name,
        TopLevelV::Exception(ex) => ex.is_public && name == "Exn"@,
        _ => false,
    }
}

/// What an insertion does to the bindings, and to the definitions of types.
proof fn lemma_inserted(env: EnvV, name: Text, s: SchemeV, other: Text)
    ensures
        table::lookup(env::env_insert(env, name, s).vars, name) == Some(s),
        other != name ==> table::lookup(env::env_insert(env, name, s).vars, other) == table::lookup(env.vars, other),
        env::env_insert(env, name, s).types == env.types,
        env::env_insert(env, name, s).enums == env.enums,
{
    reveal(env::env_insert);
    table::law_lookup_after_store(env.vars, name, s, other);
}

proof fn lemma_nullaries(
    env: EnvV,
    en: Text,
    tp: Seq<Text>,
    vs: Seq<VariantDefV>,
    i: nat,
    name: Text,
)
    ensures
        ({
            let out = modules::with_nullaries(env, en, tp, vs, i);
            &&& out.types == env.types
            &&& out.enums == env.enums
            &&& table::lookup(out.vars, name) is Some <==> table::lookup(env.vars, name) is Some || exists|j: int|
                i <= j < vs.len() && (#[trigger] vs[j]).name == name && vs[j].fields.len() == 0
            &&& (forall|j: int|
                i <= j < vs.len() ==> !((#[trigger] vs[j]).name == name && vs[j].fields.len() == 0))
                ==> table::lookup(out.vars, name) == table::lookup(env.vars, name)
        }),
    decreases vs.len() - i,
{
    if i < vs.len() {
        let v = vs[i as int];
        let s = SchemeV { vars: tp, typ: TypeV::UserDefined(en, modules::param_vars(tp)) };
        lemma_inserted(env, v.name, s, name);
        lemma_nullaries(modules::with_nullary(env, en, tp, v), en, tp, vs, i + 1, name);
    }
}

proof fn lemma_prefixed(
    env: EnvV,
    vars: Seq<(Text, SchemeV)>,
    prefix: Text,
    to: Text,
    i: nat,
    name: Text,
)
    ensures
        ({
            let out = modules::with_prefixed(env, vars, prefix, to, i);
            &&& out.types == env.types
            &&& out.enums == env.enums
            &&& table::lookup(env.vars, name) is Some ==> table::lookup(out.vars, name) is Some
            &&& !(exists|rest: Text| name == #[trigger] (to + rest)) ==> table::lookup(out.vars, name)
                == table::lookup(env.vars, name)
        }),
    decreases vars.len() - i,
{
    if i < vars.len() {
        let (key, s) = vars[i as int];
        if text::begins_with(key, prefix) {
            let moved = to + key.skip(prefix.len() as int);
            lemma_inserted(env, moved, s, name);
            lemma_prefixed(env::env_insert(env, moved, s), vars, prefix, to, i + 1, name);
        } else {
            lemma_prefixed(env, vars, prefix, to, i + 1, name);
        }
    }
}

proof fn lemma_with_exception(env: EnvV, ex: ExceptionDefV, name: Text)
    ensures
        ({
            let out = modules::with_exception(env, ex);
            &&& out.types == env.types
            &&& table::lookup(env.vars, name) is Some ==> table::lookup(out.vars, name) is Some
            &&& !(ex.name == name && ex.fields.len() == 0) ==> table::lookup(out.vars, name) == table::lookup(
                env.vars,
                name,
            )
            &&& table::lookup(out.enums, name) is Some <==> table::lookup(env.enums, name) is Some || name
                == "Exn"@
            &&& name != "Exn"@ ==> table::lookup(out.enums, name) == table::lookup(env.enums, name)
        }),
{
    let e1 = modules::with_exn(env);
    let ed = modules::exn_of(env);
    let v = VariantDefV { name: ex.name, fields: ex.fields };
    let s = SchemeV {
        vars: Seq::empty(),
        typ: TypeV::UserDefined(helpers::exn_name(), modules::param_vars(Seq::empty())),
    };
    table::law_lookup_after_store(env.enums, helpers::exn_name(), helpers::exn_enum(), name);
    lemma_inserted(e1, ex.name, s, name);
    let e2 = modules::with_nullary(e1, helpers::exn_name(), Seq::empty(), v);
    table::law_lookup_after_store(
        e2.enums,
        helpers::exn_name(),
        EnumDefV { variants: ed.variants.push(v), ..ed },
        name,
    );
    lemma_lookup_is_key(env.enums, helpers::exn_name());
}

proof fn lemma_lookup_is_key<A>(m: Seq<(Text, A)>, k: Text)
    ensures
        table::lookup(m, k) is Some <==> table::has_key(m, k),
{
}

/// What one public sum type adds.
proof fn lemma_public_enum(pe: EnvV, ed: EnumDefV, name: Text)
    requires
        ed.is_public,
    ensures
        ({
            let out = modules::with_public_enum(pe, ed);
            &&& out.types == pe.types
            &&& table::lookup(pe.vars, name) is Some ==> table::lookup(out.vars, name) is Some
            &&& !shows_value(TopLevelV::Enum(ed), name) ==> table::lookup(out.vars, name) == table::lookup(
                pe.vars,
                name,
            )
            &&& table::lookup(out.enums, name) is Some <==> table::lookup(pe.enums, name) is Some || name
                == ed.name
            &&& name != ed.name ==> table::lookup(out.enums, name) == table::lookup(pe.enums, name)
            &&& name == ed.name && ed.is_opaque ==> (table::lookup(out.enums, name) matches Some(e)
                && e.variants.len() == 0)
        }),
{
    let n = helpers::normalized_enum(ed);
    if ed.is_opaque {
        let hidden = EnumDefV {
            name: n.name,
            is_public: true,
            is_opaque: true,
            type_params: n.type_params,
            variants: Seq::empty(),
        };
        table::law_lookup_after_store(pe.enums, n.name, hidden, name);
    } else {
        table::law_lookup_after_store(pe.enums, n.name, n, name);
        let e1 = EnvV { enums: table::store(pe.enums, n.name, n), ..pe };
        lemma_nullaries(e1, n.name, n.type_params, n.variants, 0, name);
        if !shows_value(TopLevelV::Enum(ed), name) {
            assert forall|j: int| 0 <= j < n.variants.len() implies !((
            #[trigger] n.variants[j]).name == name && n.variants[j].fields.len() == 0) by {
                assert(ed.variants[j].name == n.variants[j].name);
                assert(ed.variants[j].fields.len() == n.variants[j].fields.len());
            }
        }
    }
}

/// What the definitions from index `i` on add to what a module shows.
#[verifier::spinoff_prover]
#[verifier::rlimit(40)]
proof fn lemma_exported(
    env: EnvV,
    pe: EnvV,
    defs: Seq<Spanned<TopLevelV>>,
    i: nat,
    name: Text,
)
    ensures
        modules::exported(env, pe, defs, i) matches Ok(out) ==> {
            &&& table::lookup(out.types, name) is Some <==> table::lookup(pe.types, name) is Some || exists|
                j: int,
            |
                i <= j < defs.len() && shows_type((#[trigger] defs[j]).node, name)
            &&& table::lookup(out.enums, name) is Some <==> table::lookup(pe.enums, name) is Some || exists|
                j: int,
            |
                i <= j < defs.len() && shows_enum((#[trigger] defs[j]).node, name)
            &&& table::lookup(pe.vars, name) is Some ==> table::lookup(out.vars, name) is Some
            &&& table::lookup(out.vars, name) is Some ==> table::lookup(pe.vars, name) is Some || exists|j: int|
                i <= j < defs.len() && shows_value((#[trigger] defs[j]).node, name)
            &&& table::lookup(env.vars, name) is Some && (exists|j: int|
                i <= j < defs.len() && ((#[trigger] defs[j]).node matches TopLevelV::Let(gl)
                    && gl.is_public && gl.name == name)) ==> table::lookup(out.vars, name) is Some
            &&& (table::lookup(pe.vars, name) is Some ==> table::lookup(pe.vars, name) == table::lookup(env.vars, name))
                && (forall|j: int|
                i <= j < defs.len() && shows_value((#[trigger] defs[j]).node, name)
                    ==> defs[j].node is Let) && table::lookup(out.vars, name) is Some ==> table::lookup(
                out.vars,
                name,
            ) == table::lookup(env.vars, name)
            &&& (table::lookup(pe.enums, name) matches Some(e) ==> e.variants.len() == 0) && (forall|
                j: int,
            |
                i <= j < defs.len() && shows_enum((#[trigger] defs[j]).node, name) ==> (
                defs[j].node matches TopLevelV::Enum(ed) && ed.is_opaque)) ==> (table::lookup(
                out.enums,
                name,
            ) matches Some(e) ==> e.variants.len() == 0)
        },
    decreases defs.len() - i,
{
    if i < defs.len() {
        let def = defs[i as int].node;
        match def {
            TopLevelV::TypeDef(td) => {
                let next = if td.is_public {
                    EnvV {
                        types: table::store(pe.types, td.name, helpers::normalized_typedef(td)),
                        ..pe
                    }
                } else {
                    pe
                };
                table::law_lookup_after_store(pe.types, td.name, helpers::normalized_typedef(td), name);
                lemma_exported(env, next, defs, i + 1, name);
            },
            TopLevelV::Enum(ed) => {
                if ed.is_public {
                    lemma_public_enum(pe, ed, name);
                    lemma_exported(env, modules::with_public_enum(pe, ed), defs, i + 1, name);
                } else {
                    lemma_exported(env, pe, defs, i + 1, name);
                }
            },
            TopLevelV::Exception(ex) => {
                if ex.is_public {
                    lemma_with_exception(pe, ex, name);
                    lemma_exported(env, modules::with_exception(pe, ex), defs, i + 1, name);
                } else {
                    lemma_exported(env, pe, defs, i + 1, name);
                }
            },
            TopLevelV::Let(gl) => {
                match table::lookup(env.vars, gl.name) {
                    Some(sch) => {
                        if gl.is_public {
                            lemma_inserted(pe, gl.name, sch, name);
                            lemma_exported(env, env::env_insert(pe, gl.name, sch), defs, i + 1, name);
                        } else {
                            lemma_exported(env, pe, defs, i + 1, name);
                        }
                    },
                    None => lemma_exported(env, pe, defs, i + 1, name),
                }
            },
            TopLevelV::Port(port) => {
                let p = port.name + "."@;
                if port.is_public {
                    lemma_prefixed(pe, env.vars, p, p, 0, name);
                    lemma_exported(env, modules::with_prefixed(pe, env.vars, p, p, 0), defs, i + 1, name);
                } else {
                    lemma_exported(env, pe, defs, i + 1, name);
                }
            },
            _ => lemma_exported(env, pe, defs, i + 1, name),
        }
    }
}

/// A module shows the record types and the sum types that it defines as public, and no others;
/// of values it shows nothing but those of public definitions, and each public binding that it
/// has.
pub proof fn law_private_definitions_stay_inside(
    env: EnvV,
    pe: EnvV,
    defs: Seq<Spanned<TopLevelV>>,
    name: Text,
)
    requires
        table::lookup(pe.vars, name) is None,
        table::lookup(pe.types, name) is None,
        table::lookup(pe.enums, name) is None,
    ensures
        modules::exported(env, pe, defs, 0) matches Ok(out) ==> {
            &&& table::lookup(out.types, name) is Some <==> exists|j: int|
                0 <= j < defs.len() && shows_type((#[trigger] defs[j]).node, name)
            &&& table::lookup(out.enums, name) is Some <==> exists|j: int|
                0 <= j < defs.len() && shows_enum((#[trigger] defs[j]).node, name)
            &&& table::lookup(out.vars, name) is Some ==> exists|j: int|
                0 <= j < defs.len() && shows_value((#[trigger] defs[j]).node, name)
            &&& table::lookup(env.vars, name) is Some && (exists|j: int|
                0 <= j < defs.len() && ((#[trigger] defs[j]).node matches TopLevelV::Let(gl)
                    && gl.is_public && gl.name == name)) ==> table::lookup(out.vars, name) is Some
        },
{
    lemma_exported(env, pe, defs, 0, name);
}

/// What a module shows under the name of a public binding is what it has under that name itself,
/// where only bindings show that name.
pub proof fn law_exported_binding_is_the_own_one(
    env: EnvV,
    pe: EnvV,
    defs: Seq<Spanned<TopLevelV>>,
    name: Text,
)
    requires
        table::lookup(pe.vars, name) is None,
        forall|j: int|
            0 <= j < defs.len() && shows_value((#[trigger] defs[j]).node, name)
                ==> defs[j].node is Let,
    ensures
        modules::exported(env, pe, defs, 0) matches Ok(out) ==> (table::lookup(out.vars, name) is Some ==> table::lookup(
            out.vars,
            name,
        ) == table::lookup(env.vars, name)),
{
    lemma_exported(env, pe, defs, 0, name);
}

/// An opaque sum type shows its name and none of its constructors.
pub proof fn law_opaque_types_hide_their_constructors(
    env: EnvV,
    pe: EnvV,
    defs: Seq<Spanned<TopLevelV>>,
    name: Text,
)
    requires
        table::lookup(pe.enums, name) is None,
        forall|j: int|
            0 <= j < defs.len() && shows_enum((#[trigger] defs[j]).node, name) ==> (
            defs[j].node matches TopLevelV::Enum(ed) && ed.is_opaque),
    ensures
        modules::exported(env, pe, defs, 0) matches Ok(out) ==> (table::lookup(out.enums, name) matches Some(e)
            ==> e.variants.len() == 0),
{
    lemma_exported(env, pe, defs, 0, name);
}

// ---------------------------------------------------------------------------
// What is imported
// ---------------------------------------------------------------------------

/// A name is no item of a module of that name.
proof fn lemma_not_under(name: Text)
    ensures
        !(exists|rest: Text| name == #[trigger] (name + "."@ + rest)),
{
    reveal_strlit(".");
    if exists|rest: Text| name == #[trigger] (name + "."@ + rest) {
        let rest = choose|rest: Text| name == #[trigger] (name + "."@ + rest);
        assert((name + "."@ + rest).len() == name.len() + 1 + rest.len());
    }
}

/// An imported item is bound under its alias, or else under its own name, to what the module
/// shows under its name: its value, its record type and its sum type; and other names stay as
/// they are.
#[verifier::spinoff_prover]
#[verifier::rlimit(40)]
pub proof fn law_imported_item_is_bound(
    env: EnvV,
    pe: EnvV,
    item: ImportItemV,
    local: Text,
    other: Text,
)
    requires
        item.alias == Some(local) || (item.alias is None && item.name == local),
    ensures
        ({
            let out = modules::with_item(env, pe, item);
            &&& table::lookup(pe.types, item.name) is Some ==> table::lookup(out.types, local) == table::lookup(
                pe.types,
                item.name,
            )
            &&& table::lookup(pe.enums, item.name) is Some ==> table::lookup(out.enums, local) == table::lookup(
                pe.enums,
                item.name,
            )
            &&& table::lookup(pe.vars, item.name) is Some && table::lookup(pe.enums, item.name) is None
                ==> table::lookup(out.vars, local) == table::lookup(pe.vars, item.name)
            &&& other != local ==> table::lookup(out.types, other) == table::lookup(env.types, other) && table::lookup(
                out.enums,
                other,
            ) == table::lookup(env.enums, other)
            &&& other != local && table::lookup(pe.enums, item.name) is None && !stands_under(
                other,
                local,
            ) ==> table::lookup(out.vars, other) == table::lookup(
                env.vars,
                other,
            )
        }),
{
    assert(local == modules::local_name(item));
    let e1 = match table::lookup(pe.vars, item.name) {
        Some(sch) => env::env_insert(env, local, sch),
        None => env,
    };
    match table::lookup(pe.vars, item.name) {
        Some(sch) => {
            lemma_inserted(env, local, sch, local);
            lemma_inserted(env, local, sch, other);
        },
        None => {},
    }
    let e2 = match table::lookup(pe.types, item.name) {
        Some(td) => EnvV { types: table::store(e1.types, local, td), ..e1 },
        None => e1,
    };
    match table::lookup(pe.types, item.name) {
        Some(td) => {
            table::law_lookup_after_store(e1.types, local, td, other);
        },
        None => {},
    }
    let e3 = match table::lookup(pe.enums, item.name) {
        Some(ed) => modules::with_nullaries(
            EnvV { enums: table::store(e2.enums, local, ed), ..e2 },
            ed.name,
            ed.type_params,
            ed.variants,
            0,
        ),
        None => e2,
    };
    match table::lookup(pe.enums, item.name) {
        Some(ed) => {
            table::law_lookup_after_store(e2.enums, local, ed, other);
            let base = EnvV { enums: table::store(e2.enums, local, ed), ..e2 };
            lemma_nullaries(base, ed.name, ed.type_params, ed.variants, 0, local);
            lemma_nullaries(base, ed.name, ed.type_params, ed.variants, 0, other);
        },
        None => {},
    }
    lemma_not_under(local);
    lemma_prefixed(e3, pe.vars, item.name + "."@, local + "."@, 0, local);
    lemma_prefixed(e3, pe.vars, item.name + "."@, local + "."@, 0, other);
}

/// Whether a module shows a name: as a value, as a type, or as what items stand under.
pub open spec fn module_shows(pe: EnvV, name: Text) -> bool {
    ||| table::lookup(pe.vars, name) is Some
    ||| table::lookup(pe.types, name) is Some
    ||| table::lookup(pe.enums, name) is Some
    ||| exists|i: int| 0 <= i < pe.vars.len() && stands_under((#[trigger] pe.vars[i]).0, name)
}

/// Whether a name is that of an item of another one.
pub open spec fn stands_under(key: Text, name: Text) -> bool {
    exists|rest: Text| key == #[trigger] (name + "."@ + rest)
}

proof fn lemma_has_prefixed(vars: Seq<(Text, SchemeV)>, prefix: Text, i: nat)
    ensures
        modules::has_prefixed(vars, prefix, i) <==> exists|j: int|
            i <= j < vars.len() && text::begins_with((#[trigger] vars[j]).0, prefix),
    decreases vars.len() - i,
{
    if i < vars.len() {
        lemma_has_prefixed(vars, prefix, i + 1);
    }
}

/// An import of items succeeds exactly where the module shows each of their names.
pub proof fn law_import_needs_what_the_module_shows(
    env: EnvV,
    defs: Seq<(Text, TypeDefV)>,
    pe: EnvV,
    items: Seq<ImportItemV>,
    i: nat,
    path: Text,
    span: Span,
)
    ensures
        modules::items_imported(env, defs, pe, items, i, path, span).0 is Ok <==> forall|j: int|
            i <= j < items.len() ==> module_shows(pe, (#[trigger] items[j]).name),
    decreases items.len() - i,
{
    if i < items.len() {
        let item = items[i as int];
        let p = item.name + "."@;
        lemma_has_prefixed(pe.vars, p, 0);
        if modules::has_prefixed(pe.vars, p, 0) {
            let j = choose|j: int| 0 <= j < pe.vars.len() && text::begins_with((#[trigger] pe.vars[j]).0, p);
            let key = pe.vars[j].0;
            assert(key =~= p + key.skip(p.len() as int));
            assert(stands_under(pe.vars[j].0, item.name));
        }
        if exists|j: int|
            0 <= j < pe.vars.len() && stands_under((#[trigger] pe.vars[j]).0, item.name) {
            let j = choose|j: int|
                0 <= j < pe.vars.len() && stands_under((#[trigger] pe.vars[j]).0, item.name);
            let rest = choose|rest: Text| pe.vars[j].0 == #[trigger] (item.name + "."@ + rest);
            assert(pe.vars[j].0.take(p.len() as int) =~= p);
            assert(text::begins_with(pe.vars[j].0, p));
        }
        assert(modules::exports_name(pe, item.name) <==> module_shows(pe, item.name));
        law_import_needs_what_the_module_shows(
            modules::with_item(env, pe, item),
            modules::with_item_def(defs, pe, item),
            pe,
            items,
            i + 1,
            path,
            span,
        );
    }
}

} // verus!
