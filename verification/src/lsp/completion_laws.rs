//! What is offered to complete a name.

use crate::ast::{EnumDefV, Function, TypeDefV, VariantDefV};
use crate::lsp::completion;
use crate::lsp::completion::CompletionV;
use crate::lsp::symbols;
use crate::text;
use crate::text::Text;
use crate::typecheck::env::{EnvV, SchemeV};
use crate::typecheck::lint_laws;
use crate::typecheck::render;
use vstd::prelude::*;

verus! {

/// Whether an item offers a binding that is not internal: a function where its type is one.
pub open spec fn offers_binding(env: EnvV, c: CompletionV) -> bool {
    exists|i: int|
        0 <= i < env.vars.len() && !text::begins_with((#[trigger] env.vars[i]).0, "__"@) && c.label
            == env.vars[i].0 && c.detail == Some(render::type_text(env.vars[i].1.typ)) && (c.kind
            is Function <==> env.vars[i].1.typ is Arrow) && (c.kind is Variable <==> !(
        env.vars[i].1.typ is Arrow))
}

/// Whether an item offers a record type.
pub open spec fn offers_type(env: EnvV, c: CompletionV) -> bool {
    exists|i: int|
        0 <= i < env.types.len() && c.label == (#[trigger] env.types[i]).0 && c.kind is Struct
            && c.detail == symbols::params_detail(env.types[i].1.type_params)
}

/// Whether an item offers a sum type or one of its constructors.
pub open spec fn offers_enum(enums: Seq<(Text, EnumDefV)>, i: nat, c: CompletionV) -> bool {
    exists|j: int| i <= j < enums.len() && offers_of_enum(#[trigger] enums[j], c)
}

/// Whether an item offers one sum type or one of its constructors.
pub open spec fn offers_of_enum(e: (Text, EnumDefV), c: CompletionV) -> bool {
    ||| c.label == e.0 && c.kind is Enum && c.detail is None
    ||| exists|k: int|
        0 <= k < e.1.variants.len() && c.label == (#[trigger] e.1.variants[k]).name && c.kind
            is EnumMember && c.detail == Some(e.0)
}

/// Whether an item offers what a module holds, under the name of the module.
pub open spec fn offers_member(modules: Seq<(Text, EnvV)>, i: nat, c: CompletionV) -> bool {
    exists|j: int| i <= j < modules.len() && offers_of_module(#[trigger] modules[j], c)
}

/// Whether an item offers what one module holds.
pub open spec fn offers_of_module(m: (Text, EnvV), c: CompletionV) -> bool {
    exists|k: int|
        0 <= k < m.1.vars.len() && c.label == m.0 + "."@ + (#[trigger] m.1.vars[k]).0 && c.kind
            is Function && c.detail == Some(render::type_text(m.1.vars[k].1.typ))
}

proof fn lemma_in_both<A>(a: Seq<A>, b: Seq<A>, x: A)
    ensures
        (a + b).contains(x) <==> a.contains(x) || b.contains(x),
{
    let all = a + b;
    if a.contains(x) {
        let j = choose|j: int| 0 <= j < a.len() && a[j] == x;
        assert(all[j] == x);
    }
    if b.contains(x) {
        let j = choose|j: int| 0 <= j < b.len() && b[j] == x;
        assert(all[a.len() + j] == x);
    }
    if all.contains(x) {
        let j = choose|j: int| 0 <= j < all.len() && all[j] == x;
        if j < a.len() {
            assert(a[j] == x);
        } else {
            assert(b[j - a.len()] == x);
        }
    }
}

proof fn lemma_bindings_offered(
    acc: Seq<CompletionV>,
    vars: Seq<(Text, SchemeV)>,
    i: nat,
    c: CompletionV,
)
    ensures
        completion::with_bindings(acc, vars, i).contains(c) <==> acc.contains(c) || exists|j: int|
            i <= j < vars.len() && !text::begins_with((#[trigger] vars[j]).0, "__"@) && c == completion::binding_item(
                vars[j].0,
                vars[j].1,
            ),
    decreases vars.len() - i,
{
    if i < vars.len() {
        let item = completion::binding_item(vars[i as int].0, vars[i as int].1);
        lint_laws::lemma_after_push(acc, item, c);
        lemma_bindings_offered(acc, vars, i + 1, c);
        lemma_bindings_offered(acc.push(item), vars, i + 1, c);
    }
}

proof fn lemma_enums_offered(
    acc: Seq<CompletionV>,
    enums: Seq<(Text, EnumDefV)>,
    i: nat,
    c: CompletionV,
)
    ensures
        completion::with_enums(acc, enums, i).contains(c) <==> acc.contains(c) || offers_enum(enums, i, c),
    decreases enums.len() - i,
{
    if i < enums.len() {
        let e = enums[i as int];
        let name = e.0;
        let members = e.1.variants.map_values(|v: VariantDefV| completion::variant_item(v, name));
        let next = acc.push(completion::enum_item(name)) + members;
        lint_laws::lemma_after_push(acc, completion::enum_item(name), c);
        lemma_in_both(acc.push(completion::enum_item(name)), members, c);
        lemma_enums_offered(next, enums, i + 1, c);
        assert(c == completion::enum_item(name) || members.contains(c) <==> offers_of_enum(e, c)) by {
            if members.contains(c) {
                let k = choose|k: int| 0 <= k < members.len() && members[k] == c;
                assert(e.1.variants[k].name == c.label);
            }
            if exists|k: int|
                0 <= k < e.1.variants.len() && c.label == (#[trigger] e.1.variants[k]).name && c.kind
                    is EnumMember && c.detail == Some(e.0) {
                let k = choose|k: int|
                    0 <= k < e.1.variants.len() && c.label == (#[trigger] e.1.variants[k]).name
                        && c.kind is EnumMember && c.detail == Some(e.0);
                assert(members[k] == c);
            }
        }
    }
}

proof fn lemma_members_offered(
    acc: Seq<CompletionV>,
    modules: Seq<(Text, EnvV)>,
    i: nat,
    c: CompletionV,
)
    ensures
        completion::with_members(acc, modules, i).contains(c) <==> acc.contains(c) || offers_member(
            modules,
            i,
            c,
        ),
    decreases modules.len() - i,
{
    if i < modules.len() {
        let m = modules[i as int];
        let module = m.0;
        let members = m.1.vars.map_values(|e: (Text, SchemeV)| completion::member_item(module, e.0, e.1));
        lemma_in_both(acc, members, c);
        lemma_members_offered(acc + members, modules, i + 1, c);
        assert(members.contains(c) <==> offers_of_module(m, c)) by {
            if members.contains(c) {
                let k = choose|k: int| 0 <= k < members.len() && members[k] == c;
                assert(c.label == m.0 + "."@ + m.1.vars[k].0);
            }
            if offers_of_module(m, c) {
                let k = choose|k: int|
                    0 <= k < m.1.vars.len() && c.label == m.0 + "."@ + (#[trigger] m.1.vars[k]).0
                        && c.kind is Function && c.detail == Some(render::type_text(m.1.vars[k].1.typ));
                assert(members[k] == c);
            }
        }
    }
}

/// What is offered are the keywords, the bindings that are not internal, the record types, the
/// sum types with their constructors, and what the modules hold under their names: all of these
/// and nothing else.
#[verifier::spinoff_prover]
#[verifier::rlimit(40)]
pub proof fn law_completions_are_what_is_in_scope(env: EnvV, c: CompletionV)
    ensures
        completion::completions_of(Some(env)).contains(c) <==> (completion::keyword_texts().contains(c.label) && c.kind
            is Keyword && c.detail is None) || offers_binding(env, c) || offers_type(env, c)
            || offers_enum(env.enums, 0, c) || offers_member(env.modules, 0, c),
{
    let words = completion::keyword_texts().map_values(|w: Text| completion::keyword_item(w));
    let bound = completion::with_bindings(words, env.vars, 0);
    let types = env.types.map_values(|e: (Text, TypeDefV)| completion::type_item(e.0, e.1));
    let typed = bound + types;
    let summed = completion::with_enums(typed, env.enums, 0);
    lemma_bindings_offered(words, env.vars, 0, c);
    lemma_in_both(bound, types, c);
    lemma_enums_offered(typed, env.enums, 0, c);
    lemma_members_offered(summed, env.modules, 0, c);
    assert(words.contains(c) <==> completion::keyword_texts().contains(c.label) && c.kind is Keyword
        && c.detail is None) by {
        if words.contains(c) {
            let k = choose|k: int| 0 <= k < words.len() && words[k] == c;
            assert(completion::keyword_texts()[k] == c.label);
        }
        if completion::keyword_texts().contains(c.label) && c.kind is Keyword && c.detail is None {
            let k = choose|k: int| 0 <= k < completion::keyword_texts().len() && completion::keyword_texts()[k] == c.label;
            assert(words[k] == c);
        }
    }
    assert(types.contains(c) <==> offers_type(env, c)) by {
        if types.contains(c) {
            let k = choose|k: int| 0 <= k < types.len() && types[k] == c;
            assert(c.label == env.types[k].0);
        }
        if offers_type(env, c) {
            let k = choose|k: int|
                0 <= k < env.types.len() && c.label == (#[trigger] env.types[k]).0 && c.kind
                    is Struct && c.detail == symbols::params_detail(env.types[k].1.type_params);
            assert(types[k] == c);
        }
    }
    if offers_binding(env, c) {
        let k = choose|k: int|
            0 <= k < env.vars.len() && !text::begins_with((#[trigger] env.vars[k]).0, "__"@) && c.label
                == env.vars[k].0 && c.detail == Some(render::type_text(env.vars[k].1.typ)) && (c.kind
                is Function <==> env.vars[k].1.typ is Arrow) && (c.kind is Variable <==> !(
            env.vars[k].1.typ is Arrow));
        assert(c == completion::binding_item(env.vars[k].0, env.vars[k].1));
    }
}

} // verus!
