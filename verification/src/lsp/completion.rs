//! What can be completed at a cursor.

use crate::ast;
use crate::ast::{EnumDefV, Function, TypeDef, TypeDefV, VariantDefV};
use crate::lsp::symbols;
use crate::lsp::symbols::params_to_detail;
use crate::text;
use crate::text::{Text, cat3, owned, starts_with};
use crate::typecheck::env;
use crate::typecheck::env::{EnvV, Scheme, SchemeV, TypeEnv};
use crate::typecheck::render;
use crate::typecheck::render::type_to_text;
use crate::types;
use crate::types::{EnumDef, Type, VariantDef};
use vstd::prelude::*;

verus! {

/// What a completion stands for.
#[derive(Debug, Clone, Copy, PartialEq, Eq, Structural)]
pub enum CompletionKind {
    Keyword,
    Function,
    Variable,
    Struct,
    Enum,
    EnumMember,
}

/// One completion.
#[derive(Debug)]
pub struct CompletionItem {
    pub label: String,
    pub kind: CompletionKind,
    pub detail: Option<String>,
}

/// The model of a completion.
pub struct CompletionV {
    pub label: Text,
    pub kind: CompletionKind,
    pub detail: Option<Text>,
}

impl CompletionItem {
    /// The model of this completion.
    pub open spec fn view(&self) -> CompletionV {
        CompletionV { label: self.label@, kind: self.kind, detail: types::opt_text(self.detail) }
    }
}

/// The models of a list of completions.
pub open spec fn completions_view(v: Seq<CompletionItem>) -> Seq<CompletionV> {
    v.map_values(|c: CompletionItem| c@)
}

/// The keywords of the language.
pub open spec fn keyword_texts() -> Seq<Text> {
    seq![
        "let"@,
        "fn"@,
        "do"@,
        "end"@,
        "return"@,
        "if"@,
        "then"@,
        "else"@,
        "match"@,
        "case"@,
        "type"@,
        "enum"@,
        "port"@,
        "import"@,
        "from"@,
        "export"@,
        "require"@,
        "throws"@,
        "raise"@,
        "try"@,
        "catch"@,
        "handler"@,
        "inject"@,
        "exception"@,
        "external"@,
        "while"@,
        "for"@,
        "task"@,
        "conc"@,
        "true"@,
        "false"@,
        "borrow"@,
    ]
}

/// The keywords of the language.
pub fn keywords() -> (r: Vec<String>)
    ensures
        text::texts(r@) == keyword_texts(),
{
    let mut v: Vec<String> = Vec::new();
    v.push(owned("let"));
    v.push(owned("fn"));
    v.push(owned("do"));
    v.push(owned("end"));
    v.push(owned("return"));
    v.push(owned("if"));
    v.push(owned("then"));
    v.push(owned("else"));
    v.push(owned("match"));
    v.push(owned("case"));
    v.push(owned("type"));
    v.push(owned("enum"));
    v.push(owned("port"));
    v.push(owned("import"));
    v.push(owned("from"));
    v.push(owned("export"));
    v.push(owned("require"));
    v.push(owned("throws"));
    v.push(owned("raise"));
    v.push(owned("try"));
    v.push(owned("catch"));
    v.push(owned("handler"));
    v.push(owned("inject"));
    v.push(owned("exception"));
    v.push(owned("external"));
    v.push(owned("while"));
    v.push(owned("for"));
    v.push(owned("task"));
    v.push(owned("conc"));
    v.push(owned("true"));
    v.push(owned("false"));
    v.push(owned("borrow"));
    assert(text::texts(v@) =~= keyword_texts());
    v
}

/// The completion of a keyword.
pub open spec fn keyword_item(k: Text) -> CompletionV {
    CompletionV { label: k, kind: CompletionKind::Keyword, detail: None }
}

/// Whether a name is one that programs do not write.
pub open spec fn is_internal(name: Text) -> bool {
    text::begins_with(name, "__"@)
}

/// The completion of a binding.
pub open spec fn binding_item(name: Text, s: SchemeV) -> CompletionV {
    CompletionV {
        label: name,
        kind: if s.typ is Arrow {
            CompletionKind::Function
        } else {
            CompletionKind::Variable
        },
        detail: Some(render::type_text(s.typ)),
    }
}

/// `acc` with the completions of the bindings from index `i` on, without the internal names.
pub open spec fn with_bindings(
    acc: Seq<CompletionV>,
    vars: Seq<(Text, SchemeV)>,
    i: nat,
) -> Seq<CompletionV>
    decreases vars.len() - i,
{
    if i >= vars.len() {
        acc
    } else if is_internal(vars[i as int].0) {
        with_bindings(acc, vars, i + 1)
    } else {
        with_bindings(acc.push(binding_item(vars[i as int].0, vars[i as int].1)), vars, i + 1)
    }
}

/// The completion of a record type.
pub open spec fn type_item(name: Text, d: TypeDefV) -> CompletionV {
    CompletionV {
        label: name,
        kind: CompletionKind::Struct,
        detail: symbols::params_detail(d.type_params),
    }
}

/// The completion of a sum type.
pub open spec fn enum_item(name: Text) -> CompletionV {
    CompletionV { label: name, kind: CompletionKind::Enum, detail: None }
}

/// The completion of a constructor.
pub open spec fn variant_item(v: VariantDefV, name: Text) -> CompletionV {
    CompletionV { label: v.name, kind: CompletionKind::EnumMember, detail: Some(name) }
}

/// `acc` with the completions of the sum types from index `i` on, each followed by those of its
/// constructors.
pub open spec fn with_enums(
    acc: Seq<CompletionV>,
    enums: Seq<(Text, EnumDefV)>,
    i: nat,
) -> Seq<CompletionV>
    decreases enums.len() - i,
{
    if i >= enums.len() {
        acc
    } else {
        let name = enums[i as int].0;
        with_enums(
            acc.push(enum_item(name)) + enums[i as int].1.variants.map_values(
                |v: VariantDefV| variant_item(v, name),
            ),
            enums,
            i + 1,
        )
    }
}

/// The completion of a member of a module.
pub open spec fn member_item(module: Text, name: Text, s: SchemeV) -> CompletionV {
    CompletionV {
        label: module + "."@ + name,
        kind: CompletionKind::Function,
        detail: Some(render::type_text(s.typ)),
    }
}

/// `acc` with the completions of the members of the modules from index `i` on.
pub open spec fn with_members(
    acc: Seq<CompletionV>,
    modules: Seq<(Text, EnvV)>,
    i: nat,
) -> Seq<CompletionV>
    decreases modules.len() - i,
{
    if i >= modules.len() {
        acc
    } else {
        let module = modules[i as int].0;
        with_members(
            acc + modules[i as int].1.vars.map_values(
                |e: (Text, SchemeV)| member_item(module, e.0, e.1),
            ),
            modules,
            i + 1,
        )
    }
}

/// The completions of an environment behind those of `acc`: bindings, record types, sum types
/// with their constructors, and members of modules.
pub open spec fn with_env_items(acc: Seq<CompletionV>, env: EnvV) -> Seq<CompletionV> {
    let bound = with_bindings(acc, env.vars, 0);
    let typed = bound + env.types.map_values(|e: (Text, TypeDefV)| type_item(e.0, e.1));
    with_members(with_enums(typed, env.enums, 0), env.modules, 0)
}

/// The completions for an environment: the keywords, then what the environment holds.
pub open spec fn completions_of(env: Option<EnvV>) -> Seq<CompletionV> {
    let words = keyword_texts().map_values(|k: Text| keyword_item(k));
    match env {
        Some(e) => with_env_items(words, e),
        None => words,
    }
}

fn push_item(out: &mut Vec<CompletionItem>, item: CompletionItem)
    ensures
        completions_view(final(out)@) == completions_view(old(out)@).push(item@),
{
    let ghost before = completions_view(out@);
    let ghost iv = item@;
    out.push(item);
    assert(completions_view(out@) =~= before.push(iv));
}

fn keyword_items() -> (r: Vec<CompletionItem>)
    ensures
        completions_view(r@) == keyword_texts().map_values(|k: Text| keyword_item(k)),
{
    let words = keywords();
    let mut out: Vec<CompletionItem> = Vec::new();
    let mut i: usize = 0;
    while i < words.len()
        invariant
            i <= words.len(),
            out.len() == i,
            text::texts(words@) == keyword_texts(),
            forall|j: int| 0 <= j < i ==> (#[trigger] out@[j])@ == keyword_item(words@[j]@),
        decreases words.len() - i,
    {
        out.push(
            CompletionItem {
                label: words[i].clone(),
                kind: CompletionKind::Keyword,
                detail: None,
            },
        );
        i = i + 1;
    }
    proof {
        assert forall|j: int| 0 <= j < words.len() implies keyword_texts()[j] == words@[j]@ by {
            assert(text::texts(words@)[j] == words@[j]@);
        }
        assert(text::texts(words@).len() == words.len());
        assert(completions_view(out@) =~= keyword_texts().map_values(|k: Text| keyword_item(k)));
    }
    out
}

fn add_bindings(out: &mut Vec<CompletionItem>, vars: &Vec<(String, Scheme)>)
    ensures
        completions_view(final(out)@) == with_bindings(
            completions_view(old(out)@),
            env::schemes_view(vars@),
            0,
        ),
{
    let ghost vv = env::schemes_view(vars@);
    let mut i: usize = 0;
    while i < vars.len()
        invariant
            i <= vars.len(),
            vv == env::schemes_view(vars@),
            with_bindings(completions_view(out@), vv, i as nat) == with_bindings(
                completions_view(old(out)@),
                vv,
                0,
            ),
        decreases vars.len() - i,
    {
        let e = &vars[i];
        assert(vv[i as int] == (e.0@, e.1@));
        if !starts_with(e.0.as_str(), "__") {
            let kind = match &e.1.typ {
                Type::Arrow(_, _, _, _) => CompletionKind::Function,
                _ => CompletionKind::Variable,
            };
            let detail = type_to_text(&e.1.typ);
            push_item(out, CompletionItem { label: e.0.clone(), kind, detail: Some(detail) });
        }
        i = i + 1;
    }
}

fn add_types(out: &mut Vec<CompletionItem>, types: &Vec<(String, TypeDef)>)
    ensures
        completions_view(final(out)@) == completions_view(old(out)@) + env::typedefs_view(
            types@,
        ).map_values(|e: (Text, TypeDefV)| type_item(e.0, e.1)),
{
    let ghost all = env::typedefs_view(types@).map_values(|e: (Text, TypeDefV)| type_item(e.0, e.1));
    let mut i: usize = 0;
    assert(completions_view(out@) + all.take(0) =~= completions_view(out@));
    while i < types.len()
        invariant
            i <= types.len(),
            all == env::typedefs_view(types@).map_values(
                |e: (Text, TypeDefV)| type_item(e.0, e.1),
            ),
            completions_view(out@) == completions_view(old(out)@) + all.take(i as int),
        decreases types.len() - i,
    {
        let e = &types[i];
        let detail = params_to_detail(&e.1.type_params);
        let ghost before = completions_view(out@);
        push_item(
            out,
            CompletionItem { label: e.0.clone(), kind: CompletionKind::Struct, detail },
        );
        i = i + 1;
        assert(all.take(i as int) =~= all.take(i - 1).push(all[i - 1]));
        assert(completions_view(out@) =~= completions_view(old(out)@) + all.take(i as int));
    }
    assert(all.take(i as int) =~= all);
}

fn add_variants(out: &mut Vec<CompletionItem>, variants: &Vec<VariantDef>, name: &String)
    ensures
        completions_view(final(out)@) == completions_view(old(out)@) + ast::variants_view(
            variants@,
        ).map_values(|v: VariantDefV| variant_item(v, name@)),
{
    let ghost all = ast::variants_view(variants@).map_values(|v: VariantDefV| variant_item(v, name@));
    let mut i: usize = 0;
    assert(completions_view(out@) + all.take(0) =~= completions_view(out@));
    while i < variants.len()
        invariant
            i <= variants.len(),
            all == ast::variants_view(variants@).map_values(
                |v: VariantDefV| variant_item(v, name@),
            ),
            completions_view(out@) == completions_view(old(out)@) + all.take(i as int),
        decreases variants.len() - i,
    {
        push_item(
            out,
            CompletionItem {
                label: variants[i].name.clone(),
                kind: CompletionKind::EnumMember,
                detail: Some(name.clone()),
            },
        );
        i = i + 1;
        assert(all.take(i as int) =~= all.take(i - 1).push(all[i - 1]));
        assert(completions_view(out@) =~= completions_view(old(out)@) + all.take(i as int));
    }
    assert(all.take(i as int) =~= all);
}

fn add_enums(out: &mut Vec<CompletionItem>, enums: &Vec<(String, EnumDef)>)
    ensures
        completions_view(final(out)@) == with_enums(
            completions_view(old(out)@),
            env::enums_view(enums@),
            0,
        ),
{
    let ghost ev = env::enums_view(enums@);
    let mut i: usize = 0;
    while i < enums.len()
        invariant
            i <= enums.len(),
            ev == env::enums_view(enums@),
            with_enums(completions_view(out@), ev, i as nat) == with_enums(
                completions_view(old(out)@),
                ev,
                0,
            ),
        decreases enums.len() - i,
    {
        let e = &enums[i];
        assert(ev[i as int] == (e.0@, e.1@));
        push_item(
            out,
            CompletionItem { label: e.0.clone(), kind: CompletionKind::Enum, detail: None },
        );
        add_variants(out, &e.1.variants, &e.0);
        i = i + 1;
    }
}

fn add_module(out: &mut Vec<CompletionItem>, module: &String, vars: &Vec<(String, Scheme)>)
    ensures
        completions_view(final(out)@) == completions_view(old(out)@) + env::schemes_view(
            vars@,
        ).map_values(|e: (Text, SchemeV)| member_item(module@, e.0, e.1)),
{
    let ghost all = env::schemes_view(vars@).map_values(
        |e: (Text, SchemeV)| member_item(module@, e.0, e.1),
    );
    let mut i: usize = 0;
    assert(completions_view(out@) + all.take(0) =~= completions_view(out@));
    while i < vars.len()
        invariant
            i <= vars.len(),
            all == env::schemes_view(vars@).map_values(
                |e: (Text, SchemeV)| member_item(module@, e.0, e.1),
            ),
            completions_view(out@) == completions_view(old(out)@) + all.take(i as int),
        decreases vars.len() - i,
    {
        let e = &vars[i];
        let detail = type_to_text(&e.1.typ);
        push_item(
            out,
            CompletionItem {
                label: cat3(module.as_str(), ".", e.0.as_str()),
                kind: CompletionKind::Function,
                detail: Some(detail),
            },
        );
        i = i + 1;
        assert(all.take(i as int) =~= all.take(i - 1).push(all[i - 1]));
        assert(completions_view(out@) =~= completions_view(old(out)@) + all.take(i as int));
    }
    assert(all.take(i as int) =~= all);
}

fn add_members(out: &mut Vec<CompletionItem>, modules: &Vec<(String, TypeEnv)>)
    ensures
        completions_view(final(out)@) == with_members(
            completions_view(old(out)@),
            env::modules_view(modules@),
            0,
        ),
{
    let ghost mv = env::modules_view(modules@);
    let mut i: usize = 0;
    while i < modules.len()
        invariant
            i <= modules.len(),
            mv == env::modules_view(modules@),
            with_members(completions_view(out@), mv, i as nat) == with_members(
                completions_view(old(out)@),
                mv,
                0,
            ),
        decreases modules.len() - i,
    {
        let e = &modules[i];
        assert(mv[i as int] == (e.0@, e.1@));
        add_module(out, &e.0, &e.1.vars);
        i = i + 1;
    }
}

/// Lists the completions: the keywords, and what a typing environment holds.
pub fn completions(env: Option<&TypeEnv>) -> (r: Vec<CompletionItem>)
    ensures
        match env {
            Some(e) => completions_view(r@) == completions_of(Some(e@)),
            None => completions_view(r@) == completions_of(None),
        },
{
    let mut out = keyword_items();
    if let Some(e) = env {
        add_bindings(&mut out, &e.vars);
        add_types(&mut out, &e.types);
        add_enums(&mut out, &e.enums);
        add_members(&mut out, &e.modules);
    }
    out
}

proof fn lemma_bindings_kept(acc: Seq<CompletionV>, vars: Seq<(Text, SchemeV)>, i: nat, j: int)
    ensures
        acc.len() <= with_bindings(acc, vars, i).len(),
        forall|a: int|
            0 <= a < acc.len() ==> #[trigger] with_bindings(acc, vars, i)[a] == acc[a],
        i <= j < vars.len() && !is_internal(vars[j].0) ==> with_bindings(acc, vars, i).contains(
            binding_item(vars[j].0, vars[j].1),
        ),
    decreases vars.len() - i,
{
    if i < vars.len() {
        let item = binding_item(vars[i as int].0, vars[i as int].1);
        if is_internal(vars[i as int].0) {
            lemma_bindings_kept(acc, vars, i + 1, j);
        } else {
            lemma_bindings_kept(acc.push(item), vars, i + 1, j);
            let all = with_bindings(acc, vars, i);
            assert forall|a: int| 0 <= a < acc.len() implies #[trigger] all[a] == acc[a] by {
                assert(acc.push(item)[a] == acc[a]);
            }
            assert(all[acc.len() as int] == acc.push(item)[acc.len() as int]);
        }
    }
}

proof fn lemma_enums_kept(acc: Seq<CompletionV>, enums: Seq<(Text, EnumDefV)>, i: nat)
    ensures
        acc.len() <= with_enums(acc, enums, i).len(),
        forall|a: int| 0 <= a < acc.len() ==> #[trigger] with_enums(acc, enums, i)[a] == acc[a],
    decreases enums.len() - i,
{
    if i < enums.len() {
        let name = enums[i as int].0;
        let next = acc.push(enum_item(name)) + enums[i as int].1.variants.map_values(
            |v: VariantDefV| variant_item(v, name),
        );
        lemma_enums_kept(next, enums, i + 1);
        assert forall|a: int| 0 <= a < acc.len() implies #[trigger] with_enums(
            acc,
            enums,
            i,
        )[a] == acc[a] by {
            assert(next[a] == acc[a]);
        }
    }
}

proof fn lemma_members_kept(acc: Seq<CompletionV>, modules: Seq<(Text, EnvV)>, i: nat)
    ensures
        acc.len() <= with_members(acc, modules, i).len(),
        forall|a: int|
            0 <= a < acc.len() ==> #[trigger] with_members(acc, modules, i)[a] == acc[a],
    decreases modules.len() - i,
{
    if i < modules.len() {
        let module = modules[i as int].0;
        let next = acc + modules[i as int].1.vars.map_values(
            |e: (Text, SchemeV)| member_item(module, e.0, e.1),
        );
        lemma_members_kept(next, modules, i + 1);
        assert forall|a: int| 0 <= a < acc.len() implies #[trigger] with_members(
            acc,
            modules,
            i,
        )[a] == acc[a] by {
            assert(next[a] == acc[a]);
        }
    }
}

/// Every keyword can be completed, and every binding of the environment that is not internal.
pub proof fn law_completions_offer_bindings(env: EnvV, k: int, j: int)
    requires
        0 <= k < keyword_texts().len(),
        0 <= j < env.vars.len(),
        !is_internal(env.vars[j].0),
    ensures
        completions_of(Some(env)).contains(keyword_item(keyword_texts()[k])),
        completions_of(Some(env)).contains(binding_item(env.vars[j].0, env.vars[j].1)),
{
    let words = keyword_texts().map_values(|w: Text| keyword_item(w));
    let bound = with_bindings(words, env.vars, 0);
    let typed = bound + env.types.map_values(|e: (Text, TypeDefV)| type_item(e.0, e.1));
    let summed = with_enums(typed, env.enums, 0);
    let all = completions_of(Some(env));
    lemma_bindings_kept(words, env.vars, 0, j);
    lemma_enums_kept(typed, env.enums, 0);
    lemma_members_kept(summed, env.modules, 0);
    let b = choose|b: int|
        0 <= b < bound.len() && bound[b] == binding_item(env.vars[j].0, env.vars[j].1);
    assert(words[k] == keyword_item(keyword_texts()[k]));
    assert(bound[k] == words[k]);
    assert(typed[k] == bound[k]);
    assert(summed[k] == typed[k]);
    assert(all[k] == summed[k]);
    assert(typed[b] == bound[b]);
    assert(summed[b] == typed[b]);
    assert(all[b] == summed[b]);
}

} // verus!
