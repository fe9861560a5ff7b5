//! What stands under a cursor, and where it is defined.

use crate::ast;
use crate::ast::{
    EnumDefV, Expr, ExprV, GlobalLet, GlobalLetV, Import, ImportItemV, ImportV, MatchCase,
    MatchCaseV, Program, ProgramV, Stmt, StmtV, TopLevel, TopLevelV, TypeDef, TypeDefV,
    VariantDefV,
};
use crate::lexer;
use crate::lexer::{LexErrorV, Token, TokenV, tokenize};
use crate::lsp::references;
use crate::lsp::references::name_in_token;
use crate::lsp::symbols;
use crate::lsp::symbols::{format_arrow_sig, params_to_detail};
use crate::text;
use crate::text::{Text, cat2, cat3, cat4, cat5, join, str_eq};
use crate::typecheck::env;
use crate::typecheck::env::{EnvV, Scheme, SchemeV, TypeEnv};
use crate::typecheck::render;
use crate::typecheck::render::type_to_text;
use crate::types;
use crate::types::{EnumDef, Span, Spanned, Type, TypeV, VariantDef};
use vstd::prelude::*;

verus! {

// ---------------------------------------------------------------------------
// The name under a cursor
// ---------------------------------------------------------------------------

/// The first name from index `i` on that an offset lies in.
pub open spec fn name_covering(toks: Seq<TokenV>, offset: usize, i: nat) -> Option<Text>
    decreases toks.len() - i,
{
    if i >= toks.len() {
        None
    } else if toks[i as int].span.covers(offset) && references::token_name(toks[i as int]) is Some {
        references::token_name(toks[i as int])
    } else {
        name_covering(toks, offset, i + 1)
    }
}

/// The first name from index `i` on that ends at an offset.
pub open spec fn name_ending(toks: Seq<TokenV>, offset: usize, i: nat) -> Option<Text>
    decreases toks.len() - i,
{
    if i >= toks.len() {
        None
    } else if toks[i as int].span.end == offset && references::token_name(toks[i as int]) is Some {
        references::token_name(toks[i as int])
    } else {
        name_ending(toks, offset, i + 1)
    }
}

/// The name under a cursor: the one it is inside, or else the one it is right behind.
pub open spec fn hovered_name(toks: Seq<TokenV>, offset: usize) -> Option<Text> {
    match name_covering(toks, offset, 0) {
        Some(s) => Some(s),
        None => {
            if offset > 0 {
                name_ending(toks, offset, 0)
            } else {
                None
            }
        },
    }
}

/// The name under a cursor in a text that the lexer accepts.
pub open spec fn hovered_in(
    lexed: Result<Seq<TokenV>, Seq<LexErrorV>>,
    offset: usize,
) -> Option<Text> {
    match lexed {
        Ok(toks) => hovered_name(toks, offset),
        Err(_) => None,
    }
}

/// Finds the name under a cursor among tokens.
pub fn find_ident_among(toks: &Vec<Token>, offset: usize) -> (r: Option<String>)
    ensures
        types::opt_text(r) == hovered_name(lexer::tokens_view(toks@), offset),
{
    let ghost tv = lexer::tokens_view(toks@);
    let mut i: usize = 0;
    while i < toks.len()
        invariant
            i <= toks.len(),
            tv == lexer::tokens_view(toks@),
            name_covering(tv, offset, 0) == name_covering(tv, offset, i as nat),
        decreases toks.len() - i,
    {
        assert(tv[i as int] == toks@[i as int]@);
        if toks[i].span.contains(offset) {
            if let Some(name) = name_in_token(&toks[i]) {
                return Some(name.clone());
            }
        }
        i = i + 1;
    }
    if offset > 0 {
        let mut j: usize = 0;
        while j < toks.len()
            invariant
                j <= toks.len(),
                tv == lexer::tokens_view(toks@),
                offset > 0,
                name_covering(tv, offset, 0) is None,
                name_ending(tv, offset, 0) == name_ending(tv, offset, j as nat),
            decreases toks.len() - j,
        {
            assert(tv[j as int] == toks@[j as int]@);
            if toks[j].span.end == offset {
                if let Some(name) = name_in_token(&toks[j]) {
                    return Some(name.clone());
                }
            }
            j = j + 1;
        }
    }
    None
}

fn find_ident_at(source: &str, offset: usize) -> (r: Option<String>)
    requires
        lexer::literals_fit(source@),
    ensures
        types::opt_text(r) == hovered_in(lexer::source_tokens(source@, lexer::classes(source@)), offset),
{
    match tokenize(source) {
        Ok(toks) => find_ident_among(&toks, offset),
        Err(_) => None,
    }
}

// ---------------------------------------------------------------------------
// Descriptions
// ---------------------------------------------------------------------------

/// Source text set off as a code block.
pub open spec fn code_block(body: Text) -> Text {
    "```nexus\n"@ + body + "\n```"@
}

fn to_code_block(body: &str) -> (r: String)
    ensures
        r@ == code_block(body@),
{
    cat3("```nexus\n", body, "\n```")
}

/// The variables that a scheme is general in, in angle brackets.
pub open spec fn quantifier_text(vars: Seq<Text>) -> Text {
    if vars.len() == 0 {
        Seq::empty()
    } else {
        "<"@ + text::joined(vars, ", "@) + "> "@
    }
}

/// The description of a binding.
pub open spec fn scheme_hover(name: Text, s: SchemeV) -> Text {
    code_block(quantifier_text(s.vars) + name + ": "@ + render::type_text(s.typ))
}

fn hover_scheme(name: &str, s: &Scheme) -> (r: String)
    ensures
        r@ == scheme_hover(name@, s@),
{
    assert(text::texts(s.vars@).len() == s.vars.len());
    let qual = if s.vars.len() == 0 {
        String::new()
    } else {
        let vars = join(&s.vars, ", ");
        cat3("<", vars.as_str(), "> ")
    };
    proof {
        if s.vars.len() == 0 {
            assert(qual@ =~= Seq::<char>::empty());
        }
    }
    let ty = type_to_text(&s.typ);
    let body = cat4(qual.as_str(), name, ": ", ty.as_str());
    to_code_block(body.as_str())
}

/// Type parameters in angle brackets; nothing where there are none.
pub open spec fn params_text(params: Seq<Text>) -> Text {
    match symbols::params_detail(params) {
        Some(t) => t,
        None => Seq::empty(),
    }
}

fn params_to_text(params: &Vec<String>) -> (r: String)
    ensures
        r@ == params_text(text::texts(params@)),
{
    match params_to_detail(params) {
        Some(t) => t,
        None => {
            let r = String::new();
            assert(r@ =~= Seq::<char>::empty());
            r
        },
    }
}

/// Fields as indented lines `name: type`.
pub open spec fn field_lines(fields: Seq<(Text, TypeV)>) -> Seq<Text> {
    fields.map_values(|f: (Text, TypeV)| "  "@ + f.0 + ": "@ + render::type_text(f.1))
}

fn fields_to_lines(fields: &Vec<(String, Type)>) -> (r: Vec<String>)
    ensures
        text::texts(r@) == field_lines(types::fields_view(fields@)),
{
    let mut out: Vec<String> = Vec::new();
    let mut i: usize = 0;
    while i < fields.len()
        invariant
            i <= fields.len(),
            out.len() == i,
            forall|j: int|
                0 <= j < i ==> (#[trigger] out@[j])@ == "  "@ + fields@[j].0@ + ": "@ + render::type_text(
                    fields@[j].1@,
                ),
        decreases fields.len() - i,
    {
        let t = type_to_text(&fields[i].1);
        out.push(cat4("  ", fields[i].0.as_str(), ": ", t.as_str()));
        i = i + 1;
    }
    assert(text::texts(out@) =~= field_lines(types::fields_view(fields@)));
    out
}

/// A definition that spans lines: its heading, its lines, and `end`.
pub open spec fn definition_text(word: Text, name: Text, params: Seq<Text>, lines: Seq<Text>) -> Text {
    code_block(word + name + params_text(params) + "\n"@ + text::joined(lines, "\n"@) + "\nend"@)
}

fn to_definition_text(
    word: &str,
    name: &str,
    params: &Vec<String>,
    lines: &Vec<String>,
) -> (r: String)
    ensures
        r@ == definition_text(word@, name@, text::texts(params@), text::texts(lines@)),
{
    let p = params_to_text(params);
    let body = join(lines, "\n");
    let mut s = cat5(word, name, p.as_str(), "\n", body.as_str());
    s.append("\nend");
    to_code_block(s.as_str())
}

/// The description of a record type.
pub open spec fn type_hover(name: Text, d: TypeDefV) -> Text {
    definition_text("type "@, name, d.type_params, field_lines(d.fields))
}

fn hover_type(name: &str, d: &TypeDef) -> (r: String)
    ensures
        r@ == type_hover(name@, d@),
{
    let lines = fields_to_lines(&d.fields);
    to_definition_text("type ", name, &d.type_params, &lines)
}

/// A field of a constructor, with its label where it has one.
pub open spec fn labelled_field_text(f: (Option<Text>, TypeV)) -> Text {
    match f.0 {
        Some(n) => n + ": "@ + render::type_text(f.1),
        None => render::type_text(f.1),
    }
}

/// A constructor as an indented line.
pub open spec fn variant_line(v: VariantDefV) -> Text {
    if v.fields.len() == 0 {
        "  | "@ + v.name
    } else {
        "  | "@ + v.name + "("@ + text::joined(
            v.fields.map_values(|f: (Option<Text>, TypeV)| labelled_field_text(f)),
            ", "@,
        ) + ")"@
    }
}

/// Constructors as indented lines.
pub open spec fn variant_lines(variants: Seq<VariantDefV>) -> Seq<Text> {
    variants.map_values(|v: VariantDefV| variant_line(v))
}

fn variant_to_line(v: &VariantDef) -> (r: String)
    ensures
        r@ == variant_line(v@),
{
    assert(v@.fields.len() == v.fields.len());
    if v.fields.len() == 0 {
        return cat2("  | ", v.name.as_str());
    }
    let mut parts: Vec<String> = Vec::new();
    let mut i: usize = 0;
    while i < v.fields.len()
        invariant
            i <= v.fields.len(),
            parts.len() == i,
            forall|j: int|
                0 <= j < i ==> (#[trigger] parts@[j])@ == labelled_field_text(v@.fields[j]),
        decreases v.fields.len() - i,
    {
        let f = &v.fields[i];
        assert(v@.fields[i as int] == (types::opt_text(f.0), f.1@));
        let t = type_to_text(&f.1);
        match &f.0 {
            Some(n) => {
                parts.push(cat3(n.as_str(), ": ", t.as_str()));
            },
            None => {
                parts.push(t);
            },
        }
        i = i + 1;
    }
    assert(text::texts(parts@) =~= v@.fields.map_values(
        |f: (Option<Text>, TypeV)| labelled_field_text(f),
    ));
    let list = join(&parts, ", ");
    cat5("  | ", v.name.as_str(), "(", list.as_str(), ")")
}

/// The description of a sum type.
pub open spec fn enum_hover(name: Text, d: EnumDefV) -> Text {
    definition_text("enum "@, name, d.type_params, variant_lines(d.variants))
}

fn hover_enum(name: &str, d: &EnumDef) -> (r: String)
    ensures
        r@ == enum_hover(name@, d@),
{
    let mut lines: Vec<String> = Vec::new();
    let mut i: usize = 0;
    while i < d.variants.len()
        invariant
            i <= d.variants.len(),
            lines.len() == i,
            forall|j: int|
                0 <= j < i ==> (#[trigger] lines@[j])@ == variant_line(d.variants@[j]@),
        decreases d.variants.len() - i,
    {
        lines.push(variant_to_line(&d.variants[i]));
        i = i + 1;
    }
    assert(text::texts(lines@) =~= variant_lines(d@.variants));
    to_definition_text("enum ", name, &d.type_params, &lines)
}

/// The description of a top-level binding by its syntax.
pub open spec fn let_hover(gl: GlobalLetV) -> Text {
    match gl.value.node {
        ExprV::Lambda { type_params: _, params, ret_type, requires: _, throws: _, body: _ } => {
            code_block("fn "@ + gl.name + symbols::arrow_signature(params, ret_type))
        },
        _ => match gl.typ {
            Some(t) => code_block(gl.name + ": "@ + render::type_text(t)),
            None => code_block("let "@ + gl.name),
        },
    }
}

fn format_global_let(gl: &GlobalLet) -> (r: String)
    ensures
        r@ == let_hover(gl@),
{
    match &gl.value.node {
        Expr::Lambda { type_params: _, params, ret_type, requires: _, throws: _, body: _ } => {
            let sig = format_arrow_sig(params, ret_type);
            let body = cat3("fn ", gl.name.as_str(), sig.as_str());
            to_code_block(body.as_str())
        },
        _ => match &gl.typ {
            Some(t) => {
                let ty = type_to_text(t);
                let body = cat3(gl.name.as_str(), ": ", ty.as_str());
                to_code_block(body.as_str())
            },
            None => {
                let body = cat2("let ", gl.name.as_str());
                to_code_block(body.as_str())
            },
        },
    }
}

/// The description of the first top-level binding of a name from index `i` on.
pub open spec fn binding_hover(defs: Seq<Spanned<TopLevelV>>, name: Text, i: nat) -> Option<Text>
    decreases defs.len() - i,
{
    if i >= defs.len() {
        None
    } else {
        match defs[i as int].node {
            TopLevelV::Let(gl) => {
                if gl.name == name {
                    Some(let_hover(gl))
                } else {
                    binding_hover(defs, name, i + 1)
                }
            },
            _ => binding_hover(defs, name, i + 1),
        }
    }
}

fn find_definition_type_in_ast(program: &Program, name: &str) -> (r: Option<String>)
    ensures
        types::opt_text(r) == binding_hover(program@.definitions, name@, 0),
{
    let ghost defs = program@.definitions;
    let mut i: usize = 0;
    while i < program.definitions.len()
        invariant
            i <= program.definitions.len(),
            defs == ast::definitions_view(program.definitions@),
            binding_hover(defs, name@, 0) == binding_hover(defs, name@, i as nat),
        decreases program.definitions.len() - i,
    {
        assert(defs[i as int] == program.definitions@[i as int]@);
        if let TopLevel::Let(gl) = &program.definitions[i].node {
            if str_eq(gl.name.as_str(), name) {
                return Some(format_global_let(gl));
            }
        }
        i = i + 1;
    }
    None
}

/// The description of a name: as a binding, a record type or a sum type of the environment, or
/// else as a top-level binding of the program.
pub open spec fn name_hover(name: Text, program: ProgramV, env: EnvV) -> Option<Text> {
    match env::env_get(env, name) {
        Some(s) => Some(scheme_hover(name, s)),
        None => match env::env_type(env, name) {
            Some(d) => Some(type_hover(name, d)),
            None => match env::env_enum(env, name) {
                Some(d) => Some(enum_hover(name, d)),
                None => binding_hover(program.definitions, name, 0),
            },
        },
    }
}

/// Describes a name.
pub fn hover_name(name: &str, program: &Program, env: &TypeEnv) -> (r: Option<String>)
    ensures
        types::opt_text(r) == name_hover(name@, program@, env@),
{
    if let Some(s) = env.get(name) {
        return Some(hover_scheme(name, s));
    }
    if let Some(d) = env.get_type(name) {
        return Some(hover_type(name, d));
    }
    if let Some(d) = env.get_enum(name) {
        return Some(hover_enum(name, d));
    }
    find_definition_type_in_ast(program, name)
}

/// What to show for the name under a cursor.
pub open spec fn hover_of(
    lexed: Result<Seq<TokenV>, Seq<LexErrorV>>,
    offset: usize,
    program: ProgramV,
    env: EnvV,
) -> Option<Text> {
    match hovered_in(lexed, offset) {
        Some(name) => name_hover(name, program, env),
        None => None,
    }
}

/// Describes the name at a byte offset.
pub fn hover_at(source: &str, offset: usize, program: &Program, env: &TypeEnv) -> (r: Option<
    String,
>)
    requires
        lexer::literals_fit(source@),
    ensures
        types::opt_text(r) == hover_of(
            lexer::source_tokens(source@, lexer::classes(source@)),
            offset,
            program@,
            env@,
        ),
{
    match find_ident_at(source, offset) {
        Some(name) => hover_name(name.as_str(), program, env),
        None => None,
    }
}

// ---------------------------------------------------------------------------
// Definitions
// ---------------------------------------------------------------------------

/// Whether an imported item is bound under a name, or comes from one of that name.
pub open spec fn item_has_name(item: ImportItemV, name: Text) -> bool {
    item.name == name || item.alias == Some(name)
}

/// Whether an import has a name, as its alias or through one of its items.
pub open spec fn import_has_name(im: ImportV, name: Text) -> bool {
    im.alias == Some(name) || exists|i: int|
        0 <= i < im.items.len() && #[trigger] item_has_name(im.items[i], name)
}

/// Whether one of the constructors has a name.
pub open spec fn variant_has_name(variants: Seq<VariantDefV>, name: Text) -> bool {
    exists|i: int| 0 <= i < variants.len() && #[trigger] variants[i].name == name
}

/// Whether a definition defines a name.
pub open spec fn defines(def: TopLevelV, name: Text) -> bool {
    match def {
        TopLevelV::Let(gl) => gl.name == name,
        TopLevelV::TypeDef(td) => td.name == name,
        TopLevelV::Enum(ed) => ed.name == name || variant_has_name(ed.variants, name),
        TopLevelV::Exception(x) => x.name == name,
        TopLevelV::Port(p) => p.name == name,
        TopLevelV::Import(im) => import_has_name(im, name),
    }
}

fn opt_is(o: &Option<String>, name: &str) -> (r: bool)
    ensures
        r == (types::opt_text(*o) == Some(name@)),
{
    match o {
        Some(s) => str_eq(s.as_str(), name),
        None => false,
    }
}

fn import_names(im: &Import, name: &str) -> (r: bool)
    ensures
        r == import_has_name(im@, name@),
{
    if opt_is(&im.alias, name) {
        return true;
    }
    let mut i: usize = 0;
    while i < im.items.len()
        invariant
            i <= im.items.len(),
            im@.alias != Some(name@),
            forall|j: int| 0 <= j < i ==> !#[trigger] item_has_name(im@.items[j], name@),
        decreases im.items.len() - i,
    {
        assert(im@.items[i as int] == im.items@[i as int]@);
        if str_eq(im.items[i].name.as_str(), name) || opt_is(&im.items[i].alias, name) {
            assert(item_has_name(im@.items[i as int], name@));
            return true;
        }
        i = i + 1;
    }
    assert(im@.items.len() == im.items.len());
    false
}

fn variants_name(variants: &Vec<VariantDef>, name: &str) -> (r: bool)
    ensures
        r == variant_has_name(ast::variants_view(variants@), name@),
{
    let ghost vv = ast::variants_view(variants@);
    let mut i: usize = 0;
    while i < variants.len()
        invariant
            i <= variants.len(),
            vv == ast::variants_view(variants@),
            forall|j: int| 0 <= j < i ==> #[trigger] vv[j].name != name@,
        decreases variants.len() - i,
    {
        assert(vv[i as int] == variants@[i as int]@);
        if str_eq(variants[i].name.as_str(), name) {
            assert(vv[i as int].name == name@);
            return true;
        }
        i = i + 1;
    }
    false
}

fn is_definition_of(def: &TopLevel, name: &str) -> (r: bool)
    ensures
        r == defines(def@, name@),
{
    match def {
        TopLevel::Let(gl) => str_eq(gl.name.as_str(), name),
        TopLevel::TypeDef(td) => str_eq(td.name.as_str(), name),
        TopLevel::Enum(ed) => str_eq(ed.name.as_str(), name) || variants_name(
            &ed.variants,
            name,
        ),
        TopLevel::Exception(x) => str_eq(x.name.as_str(), name),
        TopLevel::Port(p) => str_eq(p.name.as_str(), name),
        TopLevel::Import(im) => import_names(im, name),
    }
}

/// The place of the first definition of a name from index `i` on.
pub open spec fn top_definition(defs: Seq<Spanned<TopLevelV>>, name: Text, i: nat) -> Option<Span>
    decreases defs.len() - i,
{
    if i >= defs.len() {
        None
    } else if defines(defs[i as int].node, name) {
        Some(defs[i as int].span)
    } else {
        top_definition(defs, name, i + 1)
    }
}

/// The place of the first `let` of a name among the statements from index `i` on, looking into
/// the branches of `if` and `match`.
pub open spec fn let_in_stmts(ss: Seq<Spanned<StmtV>>, name: Text, i: nat) -> Option<Span>
    decreases ss, ss.len() - i,
{
    if i >= ss.len() {
        None
    } else {
        match let_in_stmt(ss[i as int], name) {
            Some(span) => Some(span),
            None => let_in_stmts(ss, name, i + 1),
        }
    }
}

/// The place of the first `let` of a name in a statement.
pub open spec fn let_in_stmt(s: Spanned<StmtV>, name: Text) -> Option<Span>
    decreases s, 0nat,
{
    match s.node {
        StmtV::Let { name: n, sigil: _, typ: _, value: _ } => {
            if n == name {
                Some(s.span)
            } else {
                None
            }
        },
        StmtV::Expr(e) => let_in_branches(e.node, name),
        _ => None,
    }
}

/// The place of the first `let` of a name in the branches of an expression.
pub open spec fn let_in_branches(e: ExprV, name: Text) -> Option<Span>
    decreases e, 0nat,
{
    match e {
        ExprV::If { cond: _, then_branch, else_branch } => match let_in_stmts(
            then_branch,
            name,
            0,
        ) {
            Some(span) => Some(span),
            None => match else_branch {
                Some(b) => let_in_stmts(b, name, 0),
                None => None,
            },
        },
        ExprV::Match { target: _, cases } => let_in_cases(cases, name, 0),
        _ => None,
    }
}

/// The place of the first `let` of a name in the cases from index `i` on.
pub open spec fn let_in_cases(cases: Seq<MatchCaseV>, name: Text, i: nat) -> Option<Span>
    decreases cases, cases.len() - i,
{
    if i >= cases.len() {
        None
    } else {
        match let_in_stmts(cases[i as int].body, name, 0) {
            Some(span) => Some(span),
            None => let_in_cases(cases, name, i + 1),
        }
    }
}

/// The place of the first local `let` of a name in the functions from index `i` on.
pub open spec fn local_definition(
    defs: Seq<Spanned<TopLevelV>>,
    name: Text,
    i: nat,
) -> Option<Span>
    decreases defs.len() - i,
{
    if i >= defs.len() {
        None
    } else {
        match let_in_function(defs[i as int].node, name) {
            Some(span) => Some(span),
            None => local_definition(defs, name, i + 1),
        }
    }
}

/// The place of the first local `let` of a name in a definition, if that is a function.
pub open spec fn let_in_function(def: TopLevelV, name: Text) -> Option<Span> {
    match def {
        TopLevelV::Let(gl) => match gl.value.node {
            ExprV::Lambda { type_params: _, params: _, ret_type: _, requires: _, throws: _, body }
            => let_in_stmts(body, name, 0),
            _ => None,
        },
        _ => None,
    }
}

/// The place of the definition of a name: at the top level, or else local to a function.
pub open spec fn definition_of(program: ProgramV, name: Text) -> Option<Span> {
    match top_definition(program.definitions, name, 0) {
        Some(span) => Some(span),
        None => local_definition(program.definitions, name, 0),
    }
}

/// The place of the definition of the name under a cursor.
pub open spec fn definition_in(
    lexed: Result<Seq<TokenV>, Seq<LexErrorV>>,
    offset: usize,
    program: ProgramV,
) -> Option<Span> {
    match hovered_in(lexed, offset) {
        Some(name) => definition_of(program, name),
        None => None,
    }
}

fn find_let_in_stmts(stmts: &Vec<Spanned<Stmt>>, name: &str) -> (r: Option<Span>)
    ensures
        r == let_in_stmts(ast::stmts_view(stmts@), name@, 0),
    decreases stmts, 0nat,
{
    let ghost ss = ast::stmts_view(stmts@);
    let mut i: usize = 0;
    while i < stmts.len()
        invariant
            i <= stmts.len(),
            ss == ast::stmts_view(stmts@),
            let_in_stmts(ss, name@, 0) == let_in_stmts(ss, name@, i as nat),
        decreases stmts.len() - i,
    {
        assert(ss[i as int] == stmts@[i as int]@);
        if let Some(span) = find_let_in_stmt(&stmts[i], name) {
            return Some(span);
        }
        i = i + 1;
    }
    None
}

fn find_let_in_stmt(s: &Spanned<Stmt>, name: &str) -> (r: Option<Span>)
    ensures
        r == let_in_stmt(s@, name@),
    decreases s, 0nat,
{
    match &s.node {
        Stmt::Let { name: n, sigil: _, typ: _, value: _ } => {
            if str_eq(n.as_str(), name) {
                Some(s.span)
            } else {
                None
            }
        },
        Stmt::Expr(e) => find_let_in_branches(&e.node, name),
        _ => None,
    }
}

fn find_let_in_branches(e: &Expr, name: &str) -> (r: Option<Span>)
    ensures
        r == let_in_branches(e@, name@),
    decreases e, 0nat,
{
    match e {
        Expr::If { cond: _, then_branch, else_branch } => {
            if let Some(span) = find_let_in_stmts(then_branch, name) {
                return Some(span);
            }
            match else_branch {
                Some(b) => find_let_in_stmts(b, name),
                None => None,
            }
        },
        Expr::Match { target: _, cases } => find_let_in_cases(cases, name),
        _ => None,
    }
}

fn find_let_in_cases(cases: &Vec<MatchCase>, name: &str) -> (r: Option<Span>)
    ensures
        r == let_in_cases(ast::cases_view(cases@), name@, 0),
    decreases cases, 0nat,
{
    let ghost cv = ast::cases_view(cases@);
    let mut i: usize = 0;
    while i < cases.len()
        invariant
            i <= cases.len(),
            cv == ast::cases_view(cases@),
            let_in_cases(cv, name@, 0) == let_in_cases(cv, name@, i as nat),
        decreases cases.len() - i,
    {
        assert(cv[i as int].body == ast::stmts_view(cases@[i as int].body@));
        if let Some(span) = find_let_in_stmts(&cases[i].body, name) {
            return Some(span);
        }
        i = i + 1;
    }
    None
}

fn find_let_in_function(def: &TopLevel, name: &str) -> (r: Option<Span>)
    ensures
        r == let_in_function(def@, name@),
{
    match def {
        TopLevel::Let(gl) => match &gl.value.node {
            Expr::Lambda { type_params: _, params: _, ret_type: _, requires: _, throws: _, body }
            => find_let_in_stmts(body, name),
            _ => None,
        },
        _ => None,
    }
}

/// Finds the place of the definition of a name.
pub fn find_definition_of(program: &Program, name: &str) -> (r: Option<Span>)
    ensures
        r == definition_of(program@, name@),
{
    let ghost defs = program@.definitions;
    let mut i: usize = 0;
    while i < program.definitions.len()
        invariant
            i <= program.definitions.len(),
            defs == ast::definitions_view(program.definitions@),
            top_definition(defs, name@, 0) == top_definition(defs, name@, i as nat),
        decreases program.definitions.len() - i,
    {
        assert(defs[i as int] == program.definitions@[i as int]@);
        if is_definition_of(&program.definitions[i].node, name) {
            return Some(program.definitions[i].span);
        }
        i = i + 1;
    }
    let mut j: usize = 0;
    while j < program.definitions.len()
        invariant
            j <= program.definitions.len(),
            defs == ast::definitions_view(program.definitions@),
            top_definition(defs, name@, 0) is None,
            local_definition(defs, name@, 0) == local_definition(defs, name@, j as nat),
        decreases program.definitions.len() - j,
    {
        assert(defs[j as int] == program.definitions@[j as int]@);
        if let Some(span) = find_let_in_function(&program.definitions[j].node, name) {
            return Some(span);
        }
        j = j + 1;
    }
    None
}

/// Finds the place of the definition of the name at a byte offset.
pub fn find_definition(program: &Program, source: &str, offset: usize) -> (r: Option<Span>)
    requires
        lexer::literals_fit(source@),
    ensures
        r == definition_in(lexer::source_tokens(source@, lexer::classes(source@)), offset, program@),
{
    match find_ident_at(source, offset) {
        Some(name) => find_definition_of(program, name.as_str()),
        None => None,
    }
}

proof fn lemma_top_definition(defs: Seq<Spanned<TopLevelV>>, name: Text, i: nat, k: int)
    requires
        i <= k < defs.len(),
        defines(defs[k].node, name),
        forall|j: int| i <= j < k ==> !defines((#[trigger] defs[j]).node, name),
    ensures
        top_definition(defs, name, i) == Some(defs[k].span),
    decreases k - i,
{
    if i < k {
        assert(!defines(defs[i as int].node, name));
        lemma_top_definition(defs, name, i + 1, k);
    }
}

/// The definition of a name is the first one at the top level that defines it.
pub proof fn law_first_definition_is_found(program: ProgramV, name: Text, k: int)
    requires
        0 <= k < program.definitions.len(),
        defines(program.definitions[k].node, name),
        forall|j: int|
            0 <= j < k ==> !defines((#[trigger] program.definitions[j]).node, name),
    ensures
        definition_of(program, name) == Some(program.definitions[k].span),
{
    lemma_top_definition(program.definitions, name, 0, k);
}

} // verus!
