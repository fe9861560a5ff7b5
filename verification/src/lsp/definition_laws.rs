//! Where a name leads: from the cursor to the definition that binds it.

use crate::ast::{
    EnumDefV, ExprV, ImportItemV, ImportV, MatchCaseV, ProgramV, StmtV, TopLevelV, VariantDefV,
};
use crate::lexer::{KindV, TokenV};
use crate::lsp::hover;
use crate::lsp::references;
use crate::text::Text;
use crate::types::{Span, Spanned};
use vstd::prelude::*;

verus! {

// ---------------------------------------------------------------------------
// Definitions at the top level
// ---------------------------------------------------------------------------

/// The names of an enumeration: its own and those of its constructors.
pub open spec fn enum_names(d: EnumDefV) -> Set<Text> {
    d.variants.map_values(|v: VariantDefV| v.name).to_set().insert(d.name)
}

/// The names of an import: its alias, and the names and aliases of its items.
pub open spec fn import_name_set(d: ImportV) -> Set<Text> {
    Set::new(
        |n: Text|
            d.alias == Some(n) || d.items.map_values(|i: ImportItemV| i.name).contains(n)
                || d.items.map_values(|i: ImportItemV| i.alias).contains(Some(n)),
    )
}

/// The names that a definition binds.
pub open spec fn own_names(def: TopLevelV) -> Set<Text> {
    match def {
        TopLevelV::Let(d) => set![d.name],
        TopLevelV::TypeDef(d) => set![d.name],
        TopLevelV::Enum(d) => enum_names(d),
        TopLevelV::Exception(d) => set![d.name],
        TopLevelV::Port(d) => set![d.name],
        TopLevelV::Import(d) => import_name_set(d),
    }
}

/// A definition is taken for one of exactly the names that it binds.
pub proof fn law_definition_defines_its_own_names(def: TopLevelV, name: Text)
    ensures
        hover::defines(def, name) <==> own_names(def).contains(name),
{
    match def {
        TopLevelV::Enum(d) => {
            let names = d.variants.map_values(|v: VariantDefV| v.name);
            if hover::variant_has_name(d.variants, name) {
                let j = choose|j: int| 0 <= j < d.variants.len() && #[trigger] d.variants[j].name == name;
                assert(names[j] == name);
            }
            if names.to_set().contains(name) {
                let j = choose|j: int| 0 <= j < names.len() && names[j] == name;
                assert(d.variants[j].name == name);
            }
        },
        TopLevelV::Import(d) => {
            let names = d.items.map_values(|i: ImportItemV| i.name);
            let aliases = d.items.map_values(|i: ImportItemV| i.alias);
            if d.alias != Some(name) && hover::import_has_name(d, name) {
                let j = choose|j: int|
                    0 <= j < d.items.len() && #[trigger] hover::item_has_name(d.items[j], name);
                assert(names[j] == d.items[j].name);
                assert(aliases[j] == d.items[j].alias);
            }
            if names.contains(name) {
                let j = choose|j: int| 0 <= j < names.len() && names[j] == name;
                assert(hover::item_has_name(d.items[j], name));
            }
            if aliases.contains(Some(name)) {
                let j = choose|j: int| 0 <= j < aliases.len() && aliases[j] == Some(name);
                assert(hover::item_has_name(d.items[j], name));
            }
        },
        _ => {},
    }
}

/// The definition of a name is the first one at the top level that binds it, whatever kind of
/// definition that is.
pub proof fn law_name_leads_to_its_first_definition(program: ProgramV, name: Text, k: int)
    requires
        0 <= k < program.definitions.len(),
        own_names(program.definitions[k].node).contains(name),
        forall|j: int|
            0 <= j < k ==> !own_names((#[trigger] program.definitions[j]).node).contains(name),
    ensures
        hover::definition_of(program, name) == Some(program.definitions[k].span),
{
    law_definition_defines_its_own_names(program.definitions[k].node, name);
    assert forall|j: int| 0 <= j < k implies !hover::defines(
        (#[trigger] program.definitions[j]).node,
        name,
    ) by {
        law_definition_defines_its_own_names(program.definitions[j].node, name);
    }
    hover::law_first_definition_is_found(program, name, k);
}

/// Each kind of definition is found by its name where nothing before it binds that name.
pub proof fn law_each_kind_of_definition_is_found(program: ProgramV, name: Text, k: int)
    requires
        0 <= k < program.definitions.len(),
        forall|j: int|
            0 <= j < k ==> !own_names((#[trigger] program.definitions[j]).node).contains(name),
        match program.definitions[k].node {
            TopLevelV::Let(d) => d.name == name,
            TopLevelV::TypeDef(d) => d.name == name,
            TopLevelV::Enum(d) => d.name == name || exists|i: int|
                0 <= i < d.variants.len() && (#[trigger] d.variants[i]).name == name,
            TopLevelV::Exception(d) => d.name == name,
            TopLevelV::Port(d) => d.name == name,
            TopLevelV::Import(d) => d.alias == Some(name) || exists|i: int|
                0 <= i < d.items.len() && ((#[trigger] d.items[i]).name == name
                    || d.items[i].alias == Some(name)),
        },
    ensures
        hover::definition_of(program, name) == Some(program.definitions[k].span),
{
    let def = program.definitions[k].node;
    match def {
        TopLevelV::Enum(d) => {
            if d.name != name {
                let i = choose|i: int|
                    0 <= i < d.variants.len() && (#[trigger] d.variants[i]).name == name;
                assert(hover::variant_has_name(d.variants, name));
            }
        },
        TopLevelV::Import(d) => {
            if d.alias != Some(name) {
                let i = choose|i: int|
                    0 <= i < d.items.len() && ((#[trigger] d.items[i]).name == name
                        || d.items[i].alias == Some(name));
                assert(hover::item_has_name(d.items[i], name));
            }
        },
        _ => {},
    }
    law_definition_defines_its_own_names(def, name);
    law_name_leads_to_its_first_definition(program, name, k);
}

// ---------------------------------------------------------------------------
// Local definitions
// ---------------------------------------------------------------------------

/// The bodies of the branches of an `if` or a `match` that stands as a statement.
pub open spec fn branch_bodies(s: StmtV) -> Seq<Seq<Spanned<StmtV>>> {
    match s {
        StmtV::Expr(e) => match e.node {
            ExprV::If { cond: _, then_branch, else_branch } => match else_branch {
                Some(b) => seq![then_branch, b],
                None => seq![then_branch],
            },
            ExprV::Match { target: _, cases } => cases.map_values(|c: MatchCaseV| c.body),
            _ => Seq::empty(),
        },
        _ => Seq::empty(),
    }
}

/// Whether a statement is the `let` of a name.
pub open spec fn is_let_of(s: StmtV, name: Text) -> bool {
    match s {
        StmtV::Let { name: n, sigil: _, typ: _, value: _ } => n == name,
        _ => false,
    }
}

/// Whether the `let` of a name stands at a span among statements, `d` branches deep.
pub open spec fn let_stands(ss: Seq<Spanned<StmtV>>, name: Text, span: Span, d: nat) -> bool
    decreases d,
{
    if d == 0 {
        exists|i: int|
            0 <= i < ss.len() && is_let_of((#[trigger] ss[i]).node, name) && ss[i].span == span
    } else {
        exists|i: int, j: int|
            0 <= i < ss.len() && 0 <= j < branch_bodies(ss[i].node).len() && let_stands(
                #[trigger] branch_bodies(ss[i].node)[j],
                name,
                span,
                (d - 1) as nat,
            )
    }
}

/// Whether the `let` of a name stands at a span among statements or in their branches.
pub open spec fn let_anywhere(ss: Seq<Spanned<StmtV>>, name: Text, span: Span) -> bool {
    exists|d: nat| #[trigger] let_stands(ss, name, span, d)
}

/// What stands in a branch stands among the statements that it belongs to.
proof fn lemma_let_in_branch(ss: Seq<Spanned<StmtV>>, i: int, j: int, name: Text, span: Span)
    requires
        0 <= i < ss.len(),
        0 <= j < branch_bodies(ss[i].node).len(),
        let_anywhere(branch_bodies(ss[i].node)[j], name, span),
    ensures
        let_anywhere(ss, name, span),
{
    let d = choose|d: nat| #[trigger] let_stands(branch_bodies(ss[i].node)[j], name, span, d);
    assert(let_stands(ss, name, span, d + 1));
}

/// The search among statements finds a `let` of the name where there is one, and only then.
#[verifier::spinoff_prover]
#[verifier::rlimit(40)]
proof fn lemma_let_in_stmts(ss: Seq<Spanned<StmtV>>, name: Text, i: nat)
    ensures
        hover::let_in_stmts(ss, name, i) matches Some(span) ==> let_anywhere(ss, name, span),
        hover::let_in_stmts(ss, name, i) is None ==> forall|k: int|
            i <= k < ss.len() ==> hover::let_in_stmt(#[trigger] ss[k], name) is None,
    decreases ss, ss.len() - i,
{
    if i < ss.len() {
        let s = ss[i as int];
        lemma_let_in_stmts(ss, name, i + 1);
        let found = hover::let_in_stmt(s, name);
        assert(hover::let_in_stmts(ss, name, i) == match found {
            Some(span) => Some(span),
            None => hover::let_in_stmts(ss, name, i + 1),
        });
        match s.node {
            StmtV::Let { name: n, sigil: _, typ: _, value: _ } => {
                if n == name {
                    assert(let_stands(ss, name, s.span, 0));
                }
            },
            StmtV::Expr(e) => match e.node {
                ExprV::If { cond: _, then_branch, else_branch } => {
                    assert(found == hover::let_in_branches(e.node, name));
                    lemma_let_in_stmts(then_branch, name, 0);
                    let bodies = branch_bodies(s.node);
                    assert(bodies[0] == then_branch);
                    match hover::let_in_stmts(then_branch, name, 0) {
                        Some(span) => lemma_let_in_branch(ss, i as int, 0, name, span),
                        None => match else_branch {
                            Some(b) => {
                                lemma_let_in_stmts(b, name, 0);
                                assert(bodies[1] == b);
                                match hover::let_in_stmts(b, name, 0) {
                                    Some(span) => lemma_let_in_branch(ss, i as int, 1, name, span),
                                    None => {},
                                }
                            },
                            None => {},
                        },
                    }
                },
                ExprV::Match { target: _, cases } => {
                    assert(found == hover::let_in_branches(e.node, name));
                    lemma_let_in_cases(cases, name, 0);
                    match hover::let_in_cases(cases, name, 0) {
                        Some(span) => {
                            let j = choose|j: int|
                                0 <= j < cases.len() && let_anywhere(
                                    (#[trigger] cases[j]).body,
                                    name,
                                    span,
                                );
                            assert(branch_bodies(s.node)[j] == cases[j].body);
                            lemma_let_in_branch(ss, i as int, j, name, span);
                        },
                        None => {},
                    }
                },
                _ => {},
            },
            _ => {},
        }
    }
}

proof fn lemma_let_in_cases(cases: Seq<MatchCaseV>, name: Text, i: nat)
    ensures
        hover::let_in_cases(cases, name, i) matches Some(span) ==> exists|j: int|
            0 <= j < cases.len() && let_anywhere((#[trigger] cases[j]).body, name, span),
        hover::let_in_cases(cases, name, i) is None ==> forall|j: int|
            i <= j < cases.len() ==> hover::let_in_stmts((#[trigger] cases[j]).body, name, 0) is None,
    decreases cases, cases.len() - i,
{
    if i < cases.len() {
        lemma_let_in_stmts(cases[i as int].body, name, 0);
        lemma_let_in_cases(cases, name, i + 1);
    }
}

/// Where a `let` of the name stands, the search among the statements finds one.
proof fn lemma_let_is_found(ss: Seq<Spanned<StmtV>>, name: Text, span: Span, d: nat)
    requires
        let_stands(ss, name, span, d),
    ensures
        hover::let_in_stmts(ss, name, 0) is Some,
    decreases d,
{
    lemma_let_in_stmts(ss, name, 0);
    if d == 0 {
        let i = choose|i: int|
            0 <= i < ss.len() && is_let_of((#[trigger] ss[i]).node, name) && ss[i].span == span;
        assert(hover::let_in_stmt(ss[i], name) is Some);
    } else {
        let (i, j) = choose|i: int, j: int|
            0 <= i < ss.len() && 0 <= j < branch_bodies(ss[i].node).len() && let_stands(
                #[trigger] branch_bodies(ss[i].node)[j],
                name,
                span,
                (d - 1) as nat,
            );
        lemma_let_is_found(branch_bodies(ss[i].node)[j], name, span, (d - 1) as nat);
        match ss[i].node {
            StmtV::Expr(e) => match e.node {
                ExprV::Match { target: _, cases } => {
                    lemma_let_in_cases(cases, name, 0);
                    assert(branch_bodies(ss[i].node)[j] == cases[j].body);
                },
                _ => {},
            },
            _ => {},
        }
        assert(hover::let_in_stmt(ss[i], name) is Some);
    }
}

/// Whether a definition is a function with a `let` of a name at a span of its body.
pub open spec fn function_has_let(def: TopLevelV, name: Text, span: Span) -> bool {
    match def {
        TopLevelV::Let(gl) => match gl.value.node {
            ExprV::Lambda {
                type_params: _,
                params: _,
                ret_type: _,
                requires: _,
                throws: _,
                body,
            } => let_anywhere(body, name, span),
            _ => false,
        },
        _ => false,
    }
}

/// A local `let` of a name is found in a function that has one, and only there.
proof fn lemma_let_in_function(def: TopLevelV, name: Text)
    ensures
        hover::let_in_function(def, name) matches Some(span) ==> function_has_let(def, name, span),
        hover::let_in_function(def, name) is None ==> forall|span: Span|
            !#[trigger] function_has_let(def, name, span),
{
    match def {
        TopLevelV::Let(gl) => match gl.value.node {
            ExprV::Lambda {
                type_params: _,
                params: _,
                ret_type: _,
                requires: _,
                throws: _,
                body,
            } => {
                lemma_let_in_stmts(body, name, 0);
                if hover::let_in_stmts(body, name, 0) is None {
                    assert forall|span: Span| !#[trigger] function_has_let(def, name, span) by {
                        if function_has_let(def, name, span) {
                            let d = choose|d: nat| #[trigger] let_stands(body, name, span, d);
                            lemma_let_is_found(body, name, span, d);
                        }
                    }
                }
            },
            _ => {},
        },
        _ => {},
    }
}

proof fn lemma_local_definition(defs: Seq<Spanned<TopLevelV>>, name: Text, i: nat)
    ensures
        hover::local_definition(defs, name, i) matches Some(span) ==> exists|k: int|
            i <= k < defs.len() && function_has_let((#[trigger] defs[k]).node, name, span) && forall|
                j: int,
                other: Span,
            |
                i <= j < k ==> !#[trigger] function_has_let(defs[j].node, name, other),
        hover::local_definition(defs, name, i) is None ==> forall|k: int, span: Span|
            i <= k < defs.len() ==> !#[trigger] function_has_let(defs[k].node, name, span),
    decreases defs.len() - i,
{
    if i < defs.len() {
        lemma_let_in_function(defs[i as int].node, name);
        lemma_local_definition(defs, name, i + 1);
        match hover::let_in_function(defs[i as int].node, name) {
            Some(span) => {
                assert(function_has_let(defs[i as int].node, name, span));
            },
            None => match hover::local_definition(defs, name, i + 1) {
                Some(span) => {
                    let k = choose|k: int|
                        i + 1 <= k < defs.len() && function_has_let(
                            (#[trigger] defs[k]).node,
                            name,
                            span,
                        ) && forall|j: int, other: Span|
                            i + 1 <= j < k ==> !#[trigger] function_has_let(
                                defs[j].node,
                                name,
                                other,
                            );
                    assert forall|j: int, other: Span| i <= j < k implies !#[trigger] function_has_let(
                        defs[j].node,
                        name,
                        other,
                    ) by {}
                },
                None => {},
            },
        }
    }
}

/// A name that nothing at the top level binds leads to a `let` of it in the first function that
/// has one, in the function's body or in the branches of its statements; and nowhere, where no
/// function has one.
pub proof fn law_local_name_leads_to_a_let(program: ProgramV, name: Text)
    requires
        forall|j: int|
            0 <= j < program.definitions.len() ==> !own_names(
                (#[trigger] program.definitions[j]).node,
            ).contains(name),
    ensures
        hover::definition_of(program, name) matches Some(span) ==> exists|k: int|
            0 <= k < program.definitions.len() && function_has_let(
                (#[trigger] program.definitions[k]).node,
                name,
                span,
            ) && forall|j: int, other: Span|
                0 <= j < k ==> !#[trigger] function_has_let(
                    program.definitions[j].node,
                    name,
                    other,
                ),
        hover::definition_of(program, name) is None ==> forall|k: int, span: Span|
            0 <= k < program.definitions.len() ==> !#[trigger] function_has_let(
                program.definitions[k].node,
                name,
                span,
            ),
{
    let defs = program.definitions;
    lemma_no_top_definition(defs, name, 0);
    lemma_local_definition(defs, name, 0);
}

proof fn lemma_no_top_definition(defs: Seq<Spanned<TopLevelV>>, name: Text, i: nat)
    requires
        forall|j: int|
            0 <= j < defs.len() ==> !own_names((#[trigger] defs[j]).node).contains(name),
    ensures
        hover::top_definition(defs, name, i) is None,
    decreases defs.len() - i,
{
    if i < defs.len() {
        law_definition_defines_its_own_names(defs[i as int].node, name);
        assert(!own_names(defs[i as int].node).contains(name));
        lemma_no_top_definition(defs, name, i + 1);
    }
}

proof fn lemma_let_comes_first(ss: Seq<Spanned<StmtV>>, name: Text, i: nat, k: int)
    requires
        i <= k < ss.len(),
        is_let_of(ss[k].node, name),
        forall|j: int|
            i <= j < k ==> !is_let_of((#[trigger] ss[j]).node, name) && branch_bodies(
                ss[j].node,
            ).len() == 0,
    ensures
        hover::let_in_stmts(ss, name, i) == Some(ss[k].span),
    decreases k - i,
{
    if i < k {
        let s = ss[i as int];
        assert(!is_let_of(s.node, name) && branch_bodies(s.node).len() == 0);
        assert(hover::let_in_stmt(s, name) is None) by {
            match s.node {
                StmtV::Expr(e) => {
                    assert(hover::let_in_stmt(s, name) == hover::let_in_branches(e.node, name));
                    match e.node {
                        ExprV::Match { target: _, cases } => {
                            assert(cases.len() == 0);
                            assert(hover::let_in_cases(cases, name, 0) is None);
                        },
                        _ => {},
                    }
                },
                _ => {},
            }
        }
        lemma_let_comes_first(ss, name, i + 1, k);
    } else {
        assert(hover::let_in_stmt(ss[k], name) == Some(ss[k].span));
    }
}

/// Of two `let` statements of a name in a function's body the first is found, where no branch
/// stands before it.
pub proof fn law_first_let_is_found(def: TopLevelV, name: Text, k: int)
    requires
        def matches TopLevelV::Let(gl) && gl.value.node matches ExprV::Lambda {
            type_params: _,
            params: _,
            ret_type: _,
            requires: _,
            throws: _,
            body,
        } && 0 <= k < body.len() && is_let_of(body[k].node, name) && forall|j: int|
            0 <= j < k ==> !is_let_of((#[trigger] body[j]).node, name) && branch_bodies(
                body[j].node,
            ).len() == 0,
    ensures
        def matches TopLevelV::Let(gl) && gl.value.node matches ExprV::Lambda {
            type_params: _,
            params: _,
            ret_type: _,
            requires: _,
            throws: _,
            body,
        } && hover::let_in_function(def, name) == Some(body[k].span),
{
    match def {
        TopLevelV::Let(gl) => match gl.value.node {
            ExprV::Lambda {
                type_params: _,
                params: _,
                ret_type: _,
                requires: _,
                throws: _,
                body,
            } => lemma_let_comes_first(body, name, 0, k),
            _ => {},
        },
        _ => {},
    }
}

// ---------------------------------------------------------------------------
// The name under a cursor
// ---------------------------------------------------------------------------

/// Whether a cursor is inside an identifier.
pub open spec fn inside_identifier(t: TokenV, offset: usize) -> bool {
    t.kind is Ident && t.span.start <= offset < t.span.end
}

/// Whether a cursor is right behind an identifier.
pub open spec fn behind_identifier(t: TokenV, offset: usize) -> bool {
    t.kind is Ident && t.span.end == offset
}

proof fn lemma_name_covering(toks: Seq<TokenV>, offset: usize, i: nat)
    ensures
        hover::name_covering(toks, offset, i) matches Some(s) ==> exists|k: int|
            i <= k < toks.len() && inside_identifier(#[trigger] toks[k], offset) && toks[k].kind
                == KindV::Ident(s) && forall|j: int|
                i <= j < k ==> !inside_identifier(#[trigger] toks[j], offset),
        hover::name_covering(toks, offset, i) is None ==> forall|k: int|
            i <= k < toks.len() ==> !inside_identifier(#[trigger] toks[k], offset),
    decreases toks.len() - i,
{
    if i < toks.len() {
        lemma_name_covering(toks, offset, i + 1);
        if inside_identifier(toks[i as int], offset) {
            assert(hover::name_covering(toks, offset, i) == references::token_name(toks[i as int]));
        } else {
            assert(hover::name_covering(toks, offset, i) == hover::name_covering(toks, offset, i + 1));
            match hover::name_covering(toks, offset, i + 1) {
                Some(s) => {
                    let k = choose|k: int|
                        i + 1 <= k < toks.len() && inside_identifier(#[trigger] toks[k], offset)
                            && toks[k].kind == KindV::Ident(s) && forall|j: int|
                            i + 1 <= j < k ==> !inside_identifier(#[trigger] toks[j], offset);
                    assert forall|j: int| i <= j < k implies !inside_identifier(
                        #[trigger] toks[j],
                        offset,
                    ) by {}
                },
                None => {},
            }
        }
    }
}

proof fn lemma_name_ending(toks: Seq<TokenV>, offset: usize, i: nat)
    ensures
        hover::name_ending(toks, offset, i) matches Some(s) ==> exists|k: int|
            i <= k < toks.len() && behind_identifier(#[trigger] toks[k], offset) && toks[k].kind
                == KindV::Ident(s),
        hover::name_ending(toks, offset, i) is None ==> forall|k: int|
            i <= k < toks.len() ==> !behind_identifier(#[trigger] toks[k], offset),
    decreases toks.len() - i,
{
    if i < toks.len() {
        lemma_name_ending(toks, offset, i + 1);
        if behind_identifier(toks[i as int], offset) {
            assert(hover::name_ending(toks, offset, i) == references::token_name(toks[i as int]));
        } else {
            assert(hover::name_ending(toks, offset, i) == hover::name_ending(toks, offset, i + 1));
        }
    }
}

/// The name under a cursor is that of an identifier that it is inside, the first one; failing
/// that, past the start of the text, that of an identifier that it is right behind; and there
/// is one wherever there is such an identifier.
pub proof fn law_cursor_is_on_an_identifier(toks: Seq<TokenV>, offset: usize)
    ensures
        hover::hovered_name(toks, offset) matches Some(s) ==> exists|k: int|
            0 <= k < toks.len() && (#[trigger] toks[k]).kind == KindV::Ident(s) && (
            inside_identifier(toks[k], offset) || (behind_identifier(toks[k], offset) && forall|
                j: int,
            |
                0 <= j < toks.len() ==> !inside_identifier(#[trigger] toks[j], offset))),
        forall|k: int|
            0 <= k < toks.len() && #[trigger] inside_identifier(toks[k], offset) && (forall|j: int|
                0 <= j < k ==> !#[trigger] inside_identifier(toks[j], offset)) ==> toks[k].kind
                == KindV::Ident(hover::hovered_name(toks, offset)->0) && hover::hovered_name(
                toks,
                offset,
            ) is Some,
        hover::hovered_name(toks, offset) is None && offset > 0 ==> forall|k: int|
            0 <= k < toks.len() ==> !#[trigger] behind_identifier(toks[k], offset),
{
    lemma_name_covering(toks, offset, 0);
    lemma_name_ending(toks, offset, 0);
}

/// A cursor inside a name leads to the first definition that binds the name.
pub proof fn law_cursor_leads_to_the_definition(
    toks: Seq<TokenV>,
    offset: usize,
    program: ProgramV,
    name: Text,
    i: int,
    k: int,
)
    requires
        0 <= i < toks.len(),
        toks[i].kind == KindV::Ident(name),
        toks[i].span.start <= offset < toks[i].span.end,
        forall|j: int| 0 <= j < i ==> !inside_identifier(#[trigger] toks[j], offset),
        0 <= k < program.definitions.len(),
        own_names(program.definitions[k].node).contains(name),
        forall|j: int|
            0 <= j < k ==> !own_names((#[trigger] program.definitions[j]).node).contains(name),
    ensures
        hover::definition_in(Ok(toks), offset, program) == Some(program.definitions[k].span),
{
    law_cursor_is_on_an_identifier(toks, offset);
    assert(inside_identifier(toks[i], offset));
    law_name_leads_to_its_first_definition(program, name, k);
}

} // verus!
