//! The text of a program, and that reading it gives the program back.

use crate::ast::{
    EnumDefV, ExceptionDefV, ExprV, GlobalLetV, Import, ImportItemV, ImportV, Port, PortV,
    SignatureV, TopLevelV, TypeDefV, VariantDefV,
};
use crate::lexer::{KindV, TokenKind, TokenV};
use crate::parser::cursor;
use crate::parser::cursor::ParseErrorV;
use crate::parser::expr_syntax;
use crate::parser::reading_laws;
use crate::parser::spelling;
use crate::parser::top_level;
use crate::parser::type_reading;
use crate::parser::type_syntax;
use crate::text::Text;
use crate::types::{Spanned, Type, TypeV};
use vstd::prelude::*;

verus! {

// ---------------------------------------------------------------------------
// The text of a definition
// ---------------------------------------------------------------------------

/// The word before a definition that other modules see.
pub open spec fn spell_export(is_public: bool) -> Seq<KindV> {
    if is_public {
        spelling::mark(TokenKind::Export)
    } else {
        Seq::empty()
    }
}

/// The text of the fields of a constructor; where there are none, none is needed.
pub open spec fn spell_payload(fs: Seq<(Option<Text>, TypeV)>) -> Seq<KindV> {
    if fs.len() == 0 {
        Seq::empty()
    } else {
        spelling::mark(TokenKind::LParen) + (type_reading::spell_variant_fields(fs, 0) + spelling::mark(TokenKind::RParen))
    }
}

/// The text of the constructors of a sum type from index `i` on, a bar between them.
pub open spec fn spell_variants(vs: Seq<VariantDefV>, i: nat) -> Seq<KindV>
    decreases vs.len() - i,
{
    if i >= vs.len() {
        Seq::empty()
    } else {
        (if i > 0 {
            spelling::mark(TokenKind::Pipe)
        } else {
            Seq::empty()
        }) + (spelling::word(vs[i as int].name) + (spell_payload(vs[i as int].fields) + spell_variants(
            vs,
            i + 1,
        )))
    }
}

/// The text of imported items from index `i` on.
pub open spec fn spell_items(xs: Seq<ImportItemV>, i: nat) -> Seq<KindV>
    decreases xs.len() - i,
{
    if i >= xs.len() {
        Seq::empty()
    } else {
        spelling::comma_before(i) + (spelling::word(xs[i as int].name) + (spell_alias(xs[i as int].alias)
            + spell_items(xs, i + 1)))
    }
}

/// The text of the alias of an imported item.
pub open spec fn spell_alias(a: Option<Text>) -> Seq<KindV> {
    match a {
        Some(name) => spelling::word("as"@) + spelling::word(name),
        None => Seq::empty(),
    }
}

/// The text of the signatures of a port from index `i` on.
pub open spec fn spell_signatures(xs: Seq<SignatureV>, i: nat) -> Seq<KindV>
    decreases xs.len() - i,
{
    if i >= xs.len() {
        Seq::empty()
    } else {
        spelling::mark(TokenKind::Fn) + (spelling::word(xs[i as int].name) + (type_reading::spell_signature(
            xs[i as int].params,
            xs[i as int].ret_type,
            xs[i as int].requires,
            xs[i as int].throws,
        ) + spell_signatures(xs, i + 1)))
    }
}

/// The text of what an import names behind its first word.
pub open spec fn spell_import(d: ImportV) -> Seq<KindV> {
    if d.is_external {
        spelling::mark(TokenKind::External) + seq![KindV::StringLit(d.path)]
    } else {
        match d.alias {
            Some(alias) => if d.items.len() == 0 {
                spelling::mark(TokenKind::Star) + (spelling::word("as"@) + (spelling::word(alias) + (spelling::mark(TokenKind::From)
                    + seq![KindV::StringLit(d.path)])))
            } else {
                spelling::mark(TokenKind::LBrace) + (spell_items(d.items, 0) + (spelling::mark(TokenKind::RBrace) + (
                spelling::mark(TokenKind::Comma) + (spelling::mark(TokenKind::Star) + (spelling::word("as"@) + (spelling::word(alias) + (
                spelling::mark(TokenKind::From) + seq![KindV::StringLit(d.path)])))))))
            },
            None => spelling::mark(TokenKind::LBrace) + (spell_items(d.items, 0) + (spelling::mark(TokenKind::RBrace)
                + (spelling::mark(TokenKind::From) + seq![KindV::StringLit(d.path)]))),
        }
    }
}

/// The text of the head of a type definition.
pub open spec fn spell_type_head(name: Text, type_params: Seq<Text>, body: Seq<KindV>) -> Seq<
    KindV,
> {
    spelling::mark(TokenKind::Type) + (spelling::word(name) + (type_reading::spell_type_params(type_params) + (spelling::mark(TokenKind::Eq)
        + body)))
}

/// The text of a definition behind the word that makes it public.
pub open spec fn spell_private(d: TopLevelV) -> Seq<KindV> {
    match d {
        TopLevelV::TypeDef(td) => spell_type_head(
            td.name,
            td.type_params,
            spelling::mark(TokenKind::LBrace) + (type_reading::spell_fields(td.fields, 0) + spelling::mark(TokenKind::RBrace)),
        ),
        TopLevelV::Enum(ed) => (if ed.is_opaque {
            spelling::word("opaque"@)
        } else {
            Seq::empty()
        }) + spell_type_head(ed.name, ed.type_params, spell_variants(ed.variants, 0)),
        TopLevelV::Exception(x) => spelling::mark(TokenKind::Exception) + (spelling::word(x.name) + spell_payload(
            x.fields,
        )),
        TopLevelV::Import(im) => spelling::mark(TokenKind::Import) + spell_import(im),
        TopLevelV::Port(pt) => spelling::mark(TokenKind::Port) + (spelling::word(pt.name) + (spelling::mark(TokenKind::Do) + (
        spell_signatures(pt.functions, 0) + spelling::mark(TokenKind::End)))),
        TopLevelV::Let(gl) => match gl.value.node {
            ExprV::External(symbol, type_params, t) => spelling::mark(TokenKind::External) + (spelling::word(gl.name)
                + (spelling::mark(TokenKind::Eq) + (seq![KindV::StringLit(symbol)] + (spelling::mark(TokenKind::Colon)
                + (type_reading::spell_type_params(type_params) + type_reading::spell_type(t)))))),
            _ => spelling::mark(TokenKind::Let) + (spelling::word(gl.name) + (spelling::spell_annotation(gl.typ) + (spelling::mark(
                TokenKind::Eq,
            ) + spelling::spell_expr(gl.value.node)))),
        },
    }
}

/// Whether other modules see a definition.
pub open spec fn seen_outside(d: TopLevelV) -> bool {
    match d {
        TopLevelV::TypeDef(td) => td.is_public,
        TopLevelV::Enum(ed) => ed.is_public,
        TopLevelV::Exception(x) => x.is_public,
        TopLevelV::Import(_) => false,
        TopLevelV::Port(pt) => pt.is_public,
        TopLevelV::Let(gl) => gl.is_public,
    }
}

/// The text of a definition.
pub open spec fn spell_definition(d: TopLevelV) -> Seq<KindV> {
    spell_export(seen_outside(d)) + spell_private(d)
}

/// The text of definitions from index `i` on.
pub open spec fn spell_definitions(ds: Seq<Spanned<TopLevelV>>, i: nat) -> Seq<KindV>
    decreases ds.len() - i,
{
    if i >= ds.len() {
        Seq::empty()
    } else {
        spell_definition(ds[i as int].node) + spell_definitions(ds, i + 1)
    }
}

/// Whether a definition can be written.
pub open spec fn definition_written(d: TopLevelV) -> bool {
    match d {
        TopLevelV::TypeDef(td) => !cursor::reserved(td.name) && type_reading::names_written(td.type_params)
            && type_reading::fields_written(td.fields),
        TopLevelV::Enum(ed) => !cursor::reserved(ed.name) && type_reading::names_written(ed.type_params)
            && ed.variants.len() > 0 && variants_written(ed.variants),
        TopLevelV::Exception(x) => !cursor::reserved(x.name) && cursor::begins_uppercase(x.name)
            && type_reading::variant_fields_written(x.fields),
        TopLevelV::Import(im) => if im.is_external {
            im.alias is None && im.items.len() == 0
        } else {
            items_written(im.items) && spelling::label_written(im.alias)
        },
        TopLevelV::Port(pt) => !cursor::reserved(pt.name) && signatures_written(pt.functions),
        TopLevelV::Let(gl) => !cursor::reserved(gl.name) && match gl.value.node {
            ExprV::External(symbol, type_params, t) => gl.typ == Some(t) && type_reading::names_written(
                type_params,
            ) && type_reading::type_written(t),
            _ => spelling::expr_written(gl.value.node) && match gl.typ {
                Some(t) => type_reading::type_written(t),
                None => true,
            },
        },
    }
}

/// Whether constructors can be written.
pub open spec fn variants_written(vs: Seq<VariantDefV>) -> bool {
    forall|i: int|
        0 <= i < vs.len() ==> !cursor::reserved((#[trigger] vs[i]).name) && type_reading::variant_fields_written(
            vs[i].fields,
        )
}

/// Whether imported items can be written.
pub open spec fn items_written(xs: Seq<ImportItemV>) -> bool {
    forall|i: int|
        0 <= i < xs.len() ==> !cursor::reserved((#[trigger] xs[i]).name) && spelling::label_written(xs[i].alias)
}

/// Whether the signatures of a port can be written.
pub open spec fn signatures_written(xs: Seq<SignatureV>) -> bool {
    forall|i: int|
        0 <= i < xs.len() ==> !cursor::reserved((#[trigger] xs[i]).name) && type_reading::signature_written(
            xs[i].params,
            xs[i].ret_type,
            xs[i].requires,
            xs[i].throws,
        )
}

/// A definition without the places in its value.
pub open spec fn bare_definition(d: TopLevelV) -> TopLevelV {
    match d {
        TopLevelV::Let(gl) => TopLevelV::Let(
            (GlobalLetV {
                value: Spanned { node: spelling::bare_expr(gl.value.node), span: spelling::nowhere() },
                ..gl
            }),
        ),
        _ => d,
    }
}

/// Definitions without their places.
pub open spec fn bare_definitions(ds: Seq<Spanned<TopLevelV>>) -> Seq<TopLevelV> {
    ds.map_values(|d: Spanned<TopLevelV>| bare_definition(d.node))
}

// ---------------------------------------------------------------------------
// Reading definitions
// ---------------------------------------------------------------------------

/// Whether a definition or the end of the source begins with a token.
pub open spec fn starts_definition(k: KindV) -> bool {
    match k {
        KindV::Plain(m) => m is Export || m is Type || m is Exception || m is Import || m is Port
            || m is External || m is Let || m is Eof,
        KindV::Ident(s) => s == "opaque"@,
        _ => false,
    }
}

/// Whether a definition ends at a position.
pub open spec fn definition_ends_at(toks: Seq<TokenV>, p: nat) -> bool {
    p < toks.len() && starts_definition(toks[p as int].kind)
}

/// A string stands where it is spelled.
proof fn lemma_last_string(toks: Seq<TokenV>, p: nat, s: Text)
    requires
        spelling::spells(toks, p, seq![KindV::StringLit(s)]),
    ensures
        cursor::string_at(toks, p) == Some(s),
        p < toks.len(),
{
    assert(seq![KindV::StringLit(s)][0] == KindV::StringLit(s));
    assert(toks[p + 0int].kind == KindV::StringLit(s));
}

/// The fields of a constructor read as the fields.
#[verifier::spinoff_prover]
proof fn lemma_payload_reads(toks: Seq<TokenV>, p: nat, fs: Seq<(Option<Text>, TypeV)>)
    requires
        type_reading::variant_fields_written(fs),
        spelling::spells(toks, p, spell_payload(fs)),
        fs.len() == 0 ==> !cursor::is_at(toks, p, TokenKind::LParen),
    ensures
        type_syntax::variant_fields_at(toks, p) == Ok::<(Seq<(Option<Text>, TypeV)>, nat), ParseErrorV>(
            (fs, p + spell_payload(fs).len()),
        ),
{
    reveal(type_syntax::variant_fields_at);
    if fs.len() == 0 {
        assert(fs =~= Seq::empty());
    } else {
        let inner = type_reading::spell_variant_fields(fs, 0);
        spelling::lemma_mark(toks, p, TokenKind::LParen, inner + spelling::mark(TokenKind::RParen));
        spelling::lemma_spells_both(toks, p + 1, inner, spelling::mark(TokenKind::RParen));
        spelling::lemma_last_mark(toks, p + 1 + inner.len(), TokenKind::RParen);
        type_reading::lemma_variant_items_read(toks, p + 1, fs, 0);
    }
}

/// The constructors of a sum type read as the constructors.
#[verifier::spinoff_prover]
#[verifier::rlimit(60)]
proof fn lemma_variants_read(toks: Seq<TokenV>, p: nat, vs: Seq<VariantDefV>, i: nat)
    requires
        i <= vs.len(),
        vs.len() > 0,
        variants_written(vs),
        spelling::spells(toks, p, spell_variants(vs, i)),
        definition_ends_at(toks, p + spell_variants(vs, i).len()),
    ensures
        i == 0 ==> top_level::variants_at(toks, p, None) == Ok::<(Seq<VariantDefV>, nat), ParseErrorV>(
            (vs, p + spell_variants(vs, i).len()),
        ),
        i > 0 ==> top_level::variants_rest_at(toks, p, vs.take(i as int)) == Ok::<
            (Seq<VariantDefV>, nat),
            ParseErrorV,
        >((vs, p + spell_variants(vs, i).len())),
        i > 0 ==> !cursor::is_at(toks, p, TokenKind::LParen),
        i == 0 ==> !cursor::is_at(toks, p, TokenKind::LBrace),
    decreases vs.len() - i,
{
    reveal(cursor::kind_is);
    reveal(top_level::variant_def_at);
    if i == vs.len() {
        assert(vs.take(i as int) =~= vs);
    } else {
        let v = vs[i as int];
        let more = spell_variants(vs, i + 1);
        let bar = if i > 0 {
            spelling::mark(TokenKind::Pipe)
        } else {
            Seq::empty()
        };
        let t2 = spell_payload(v.fields) + more;
        spelling::lemma_spells_both(toks, p, bar, spelling::word(v.name) + t2);
        let p1 = p + bar.len();
        if i > 0 {
            assert(toks[p + 0int].kind == bar[0]);
        }
        spelling::lemma_word(toks, p1, v.name, t2);
        spelling::lemma_spells_both(toks, p1 + 1, spell_payload(v.fields), more);
        let p2 = p1 + 1 + spell_payload(v.fields).len();
        lemma_variants_read(toks, p2, vs, i + 1);
        lemma_payload_reads(toks, p1 + 1, v.fields);
        assert(cursor::ident_at(toks, p1) == Ok::<(Text, nat), ParseErrorV>((v.name, p1 + 1)));
        assert(top_level::variant_def_at(toks, p1) == Ok::<(VariantDefV, nat), ParseErrorV>((v, p2)));
        assert(vs.take(i as int + 1) =~= vs.take(i as int).push(v));
        if i == 0 {
            assert(vs.take(1) =~= seq![v]);
        }
    }
}

/// The head of a type definition reads as its name and its parameters.
#[verifier::spinoff_prover]
proof fn lemma_type_head_reads(
    toks: Seq<TokenV>,
    p: nat,
    name: Text,
    type_params: Seq<Text>,
    body: Seq<KindV>,
) -> (q: nat)
    requires
        !cursor::reserved(name),
        type_reading::names_written(type_params),
        spelling::spells(toks, p, spell_type_head(name, type_params, body)),
    ensures
        top_level::type_head_at(toks, p) == Ok::<((Text, Seq<Text>), nat), ParseErrorV>(
            ((name, type_params), q),
        ),
        cursor::is_at(toks, p, TokenKind::Type),
        p < q,
        spelling::spells(toks, q, body),
        q + body.len() == p + spell_type_head(name, type_params, body).len(),
{
    reveal(cursor::kind_is);
    reveal(top_level::type_head_at);
    let tp = type_reading::spell_type_params(type_params);
    let t3 = spelling::mark(TokenKind::Eq) + body;
    let t2 = tp + t3;
    spelling::lemma_mark(toks, p, TokenKind::Type, spelling::word(name) + t2);
    spelling::lemma_word(toks, p + 1, name, t2);
    spelling::lemma_spells_both(toks, p + 2, tp, t3);
    let p1 = p + 2 + tp.len();
    spelling::lemma_mark(toks, p1, TokenKind::Eq, body);
    type_reading::lemma_type_params_read(toks, p + 2, type_params);
    assert(cursor::ident_at(toks, p + 1) == Ok::<(Text, nat), ParseErrorV>((name, p + 2)));
    p1 + 1
}

/// A type definition reads as the definition.
#[verifier::spinoff_prover]
#[verifier::rlimit(40)]
proof fn lemma_type_def_reads(toks: Seq<TokenV>, p: nat, td: TypeDefV, is_opaque: bool)
    requires
        definition_written(TopLevelV::TypeDef(td)),
        spelling::spells(toks, p, spell_private(TopLevelV::TypeDef(td))),
    ensures
        top_level::type_def_at(toks, p, td.is_public, is_opaque) == Ok::<(TopLevelV, nat), ParseErrorV>(
            (TopLevelV::TypeDef(td), p + spell_private(TopLevelV::TypeDef(td)).len()),
        ),
        cursor::is_at(toks, p, TokenKind::Type),
{
    reveal(top_level::type_def_at);
    reveal(top_level::record_body_at);
    let inner = type_reading::spell_fields(td.fields, 0);
    let body = spelling::mark(TokenKind::LBrace) + (inner + spelling::mark(TokenKind::RBrace));
    let q = lemma_type_head_reads(toks, p, td.name, td.type_params, body);
    spelling::lemma_mark(toks, q, TokenKind::LBrace, inner + spelling::mark(TokenKind::RBrace));
    spelling::lemma_spells_both(toks, q + 1, inner, spelling::mark(TokenKind::RBrace));
    spelling::lemma_last_mark(toks, q + 1 + inner.len(), TokenKind::RBrace);
    type_reading::lemma_named_fields_read(toks, q + 1, td.fields, 0);
    assert(top_level::record_body_at(toks, q) == Ok::<(Seq<(Text, TypeV)>, nat), ParseErrorV>(
        (td.fields, q + body.len()),
    ));
}

/// A sum type reads as the definition, from its first word behind `opaque` on.
#[verifier::spinoff_prover]
#[verifier::rlimit(40)]
proof fn lemma_enum_def_reads(toks: Seq<TokenV>, p: nat, ed: EnumDefV)
    requires
        definition_written(TopLevelV::Enum(ed)),
        spelling::spells(
            toks,
            p,
            spell_type_head(ed.name, ed.type_params, spell_variants(ed.variants, 0)),
        ),
        definition_ends_at(
            toks,
            p + spell_type_head(
                ed.name,
                ed.type_params,
                spell_variants(ed.variants, 0),
            ).len(),
        ),
    ensures
        top_level::type_def_at(toks, p, ed.is_public, ed.is_opaque) == Ok::<(TopLevelV, nat), ParseErrorV>(
            (
                TopLevelV::Enum(ed),
                p + spell_type_head(
                    ed.name,
                    ed.type_params,
                    spell_variants(ed.variants, 0),
                ).len(),
            ),
        ),
        cursor::is_at(toks, p, TokenKind::Type),
{
    reveal(top_level::type_def_at);
    let body = spell_variants(ed.variants, 0);
    let q = lemma_type_head_reads(toks, p, ed.name, ed.type_params, body);
    lemma_variants_read(toks, q, ed.variants, 0);
}

/// An exception reads as the definition.
#[verifier::spinoff_prover]
proof fn lemma_exception_reads(toks: Seq<TokenV>, p: nat, x: ExceptionDefV)
    requires
        definition_written(TopLevelV::Exception(x)),
        spelling::spells(toks, p, spell_private(TopLevelV::Exception(x))),
        definition_ends_at(toks, p + spell_private(TopLevelV::Exception(x)).len()),
    ensures
        top_level::exception_def_at(toks, p, x.is_public) == Ok::<(TopLevelV, nat), ParseErrorV>(
            (TopLevelV::Exception(x), p + spell_private(TopLevelV::Exception(x)).len()),
        ),
        cursor::is_at(toks, p, TokenKind::Exception),
{
    reveal(cursor::kind_is);
    reveal(top_level::exception_def_at);
    spelling::lemma_mark(toks, p, TokenKind::Exception, spelling::word(x.name) + spell_payload(x.fields));
    spelling::lemma_word(toks, p + 1, x.name, spell_payload(x.fields));
    if x.fields.len() == 0 {
        assert(spell_payload(x.fields).len() == 0);
    }
    lemma_payload_reads(toks, p + 2, x.fields);
    assert(cursor::ident_at(toks, p + 1) == Ok::<(Text, nat), ParseErrorV>((x.name, p + 2)));
}

/// Imported items read as the items.
#[verifier::spinoff_prover]
#[verifier::rlimit(40)]
proof fn lemma_items_read(toks: Seq<TokenV>, p: nat, xs: Seq<ImportItemV>, i: nat)
    requires
        i <= xs.len(),
        items_written(xs),
        spelling::spells(toks, p, spell_items(xs, i)),
        cursor::is_at(toks, p + spell_items(xs, i).len(), TokenKind::RBrace),
    ensures
        i == 0 ==> top_level::import_items_at(toks, p) == Ok::<(Seq<ImportItemV>, nat), ParseErrorV>(
            (xs, p + spell_items(xs, i).len()),
        ),
        i > 0 ==> top_level::import_items_rest_at(toks, p, xs.take(i as int)) == Ok::<
            (Seq<ImportItemV>, nat),
            ParseErrorV,
        >((xs, p + spell_items(xs, i).len())),
        i > 0 ==> !cursor::is_word(toks, p, "as"@),
    decreases xs.len() - i,
{
    reveal(cursor::kind_is);
    reveal(top_level::import_item_at);
    if i == xs.len() {
        assert(xs.take(i as int) =~= xs);
        if i == 0 {
            assert(xs =~= Seq::empty());
        }
    } else {
        let x = xs[i as int];
        let more = spell_items(xs, i + 1);
        let t2 = spell_alias(x.alias) + more;
        spelling::lemma_spells_both(toks, p, spelling::comma_before(i), spelling::word(x.name) + t2);
        let p1 = p + spelling::comma_before(i).len();
        if i > 0 {
            assert(toks[p + 0int].kind == spelling::comma_before(i)[0]);
        }
        spelling::lemma_word(toks, p1, x.name, t2);
        spelling::lemma_spells_both(toks, p1 + 1, spell_alias(x.alias), more);
        let p2 = p1 + 1 + spell_alias(x.alias).len();
        lemma_items_read(toks, p2, xs, i + 1);
        assert(cursor::ident_at(toks, p1) == Ok::<(Text, nat), ParseErrorV>((x.name, p1 + 1)));
        match x.alias {
            Some(alias) => {
                spelling::lemma_word(toks, p1 + 1, "as"@, spelling::word(alias));
                spelling::lemma_last_word(toks, p1 + 2, alias);
                assert(cursor::ident_at(toks, p1 + 2) == Ok::<(Text, nat), ParseErrorV>((alias, p1 + 3)));
            },
            None => {
                assert(spell_alias(x.alias).len() == 0);
            },
        }
        assert(top_level::import_item_at(toks, p1) == Ok::<(ImportItemV, nat), ParseErrorV>((x, p2)));
        assert(xs.take(i as int + 1) =~= xs.take(i as int).push(x));
        if i == 0 {
            assert(xs.take(1) =~= seq![x]);
        }
    }
}

/// An import reads as the definition.
#[verifier::spinoff_prover]
#[verifier::rlimit(60)]
proof fn lemma_import_reads(toks: Seq<TokenV>, p: nat, im: ImportV)
    requires
        definition_written(TopLevelV::Import(im)),
        spelling::spells(toks, p, spell_private(TopLevelV::Import(im))),
    ensures
        top_level::import_def_at(toks, p) == Ok::<(TopLevelV, nat), ParseErrorV>(
            (TopLevelV::Import(im), p + spell_private(TopLevelV::Import(im)).len()),
        ),
        cursor::is_at(toks, p, TokenKind::Import),
{
    reveal(cursor::kind_is);
    reveal(top_level::import_def_at);
    spelling::lemma_mark(toks, p, TokenKind::Import, spell_import(im));
    let path = seq![KindV::StringLit(im.path)];
    let p0 = p + 1;
    if im.is_external {
        reveal(top_level::import_external_at);
        spelling::lemma_mark(toks, p0, TokenKind::External, path);
        lemma_last_string(toks, p0 + 1, im.path);
        assert(im.items =~= Seq::empty());
        assert(top_level::import_external_at(toks, p0) == Ok::<(TopLevelV, nat), ParseErrorV>(
            (TopLevelV::Import(im), p0 + 2),
        ));
    } else if im.alias is Some && im.items.len() == 0 {
        reveal(top_level::import_all_at);
        let alias = im.alias->0;
        let t3 = spelling::mark(TokenKind::From) + path;
        let t2 = spelling::word(alias) + t3;
        spelling::lemma_mark(toks, p0, TokenKind::Star, spelling::word("as"@) + t2);
        spelling::lemma_word(toks, p0 + 1, "as"@, t2);
        spelling::lemma_word(toks, p0 + 2, alias, t3);
        spelling::lemma_mark(toks, p0 + 3, TokenKind::From, path);
        lemma_last_string(toks, p0 + 4, im.path);
        assert(cursor::ident_at(toks, p0 + 2) == Ok::<(Text, nat), ParseErrorV>((alias, p0 + 3)));
        assert(im.items =~= Seq::empty());
        assert(top_level::import_all_at(toks, p0) == Ok::<(TopLevelV, nat), ParseErrorV>(
            (TopLevelV::Import(im), p0 + 5),
        ));
    } else {
        reveal(top_level::import_names_at);
        let inner = spell_items(im.items, 0);
        match im.alias {
            Some(alias) => {
                let t6 = spelling::mark(TokenKind::From) + path;
                let t5 = spelling::word(alias) + t6;
                let t4 = spelling::word("as"@) + t5;
                let t3 = spelling::mark(TokenKind::Star) + t4;
                let t2 = spelling::mark(TokenKind::Comma) + t3;
                let t1 = spelling::mark(TokenKind::RBrace) + t2;
                spelling::lemma_mark(toks, p0, TokenKind::LBrace, inner + t1);
                spelling::lemma_spells_both(toks, p0 + 1, inner, t1);
                let p1 = p0 + 1 + inner.len();
                spelling::lemma_mark(toks, p1, TokenKind::RBrace, t2);
                spelling::lemma_mark(toks, p1 + 1, TokenKind::Comma, t3);
                spelling::lemma_mark(toks, p1 + 2, TokenKind::Star, t4);
                spelling::lemma_word(toks, p1 + 3, "as"@, t5);
                spelling::lemma_word(toks, p1 + 4, alias, t6);
                spelling::lemma_mark(toks, p1 + 5, TokenKind::From, path);
                lemma_last_string(toks, p1 + 6, im.path);
                lemma_items_read(toks, p0 + 1, im.items, 0);
                assert(cursor::ident_at(toks, p1 + 4) == Ok::<(Text, nat), ParseErrorV>((alias, p1 + 5)));
                assert(top_level::import_names_at(toks, p0) == Ok::<(TopLevelV, nat), ParseErrorV>(
                    (TopLevelV::Import(im), p1 + 7),
                ));
            },
            None => {
                let t2 = spelling::mark(TokenKind::From) + path;
                let t1 = spelling::mark(TokenKind::RBrace) + t2;
                spelling::lemma_mark(toks, p0, TokenKind::LBrace, inner + t1);
                spelling::lemma_spells_both(toks, p0 + 1, inner, t1);
                let p1 = p0 + 1 + inner.len();
                spelling::lemma_mark(toks, p1, TokenKind::RBrace, t2);
                spelling::lemma_mark(toks, p1 + 1, TokenKind::From, path);
                lemma_last_string(toks, p1 + 2, im.path);
                lemma_items_read(toks, p0 + 1, im.items, 0);
                assert(top_level::import_names_at(toks, p0) == Ok::<(TopLevelV, nat), ParseErrorV>(
                    (TopLevelV::Import(im), p1 + 3),
                ));
            },
        }
    }
}

/// The signatures of a port read as the signatures.
#[verifier::spinoff_prover]
#[verifier::rlimit(40)]
proof fn lemma_signatures_read(toks: Seq<TokenV>, p: nat, xs: Seq<SignatureV>, i: nat)
    requires
        i <= xs.len(),
        signatures_written(xs),
        spelling::spells(toks, p, spell_signatures(xs, i)),
        cursor::is_at(toks, p + spell_signatures(xs, i).len(), TokenKind::End),
    ensures
        top_level::port_functions_at(toks, p, xs.take(i as int)) == Ok::<
            (Seq<SignatureV>, nat),
            ParseErrorV,
        >((xs, p + spell_signatures(xs, i).len())),
        cursor::is_at(toks, p, TokenKind::Fn) || cursor::is_at(toks, p, TokenKind::End),
    decreases xs.len() - i,
{
    reveal(cursor::kind_is);
    reveal(top_level::port_function_at);
    if i == xs.len() {
        assert(xs.take(i as int) =~= xs);
    } else {
        let x = xs[i as int];
        let more = spell_signatures(xs, i + 1);
        let sig = type_reading::spell_signature(x.params, x.ret_type, x.requires, x.throws);
        spelling::lemma_mark(toks, p, TokenKind::Fn, spelling::word(x.name) + (sig + more));
        spelling::lemma_word(toks, p + 1, x.name, sig + more);
        spelling::lemma_spells_both(toks, p + 2, sig, more);
        let p1 = p + 2 + sig.len();
        lemma_signatures_read(toks, p1, xs, i + 1);
        type_reading::lemma_signature_reads(toks, p + 2, x.params, x.ret_type, x.requires, x.throws);
        assert(cursor::ident_at(toks, p + 1) == Ok::<(Text, nat), ParseErrorV>((x.name, p + 2)));
        assert(top_level::port_function_at(toks, p) == Ok::<(SignatureV, nat), ParseErrorV>((x, p1)));
        assert(xs.take(i as int + 1) =~= xs.take(i as int).push(x));
    }
}

/// A port reads as the definition.
#[verifier::spinoff_prover]
proof fn lemma_port_reads(toks: Seq<TokenV>, p: nat, pt: PortV)
    requires
        definition_written(TopLevelV::Port(pt)),
        spelling::spells(toks, p, spell_private(TopLevelV::Port(pt))),
    ensures
        top_level::port_def_at(toks, p, pt.is_public) == Ok::<(TopLevelV, nat), ParseErrorV>(
            (TopLevelV::Port(pt), p + spell_private(TopLevelV::Port(pt)).len()),
        ),
        cursor::is_at(toks, p, TokenKind::Port),
{
    reveal(cursor::kind_is);
    reveal(top_level::port_def_at);
    let inner = spell_signatures(pt.functions, 0);
    let t3 = inner + spelling::mark(TokenKind::End);
    let t2 = spelling::mark(TokenKind::Do) + t3;
    spelling::lemma_mark(toks, p, TokenKind::Port, spelling::word(pt.name) + t2);
    spelling::lemma_word(toks, p + 1, pt.name, t2);
    spelling::lemma_mark(toks, p + 2, TokenKind::Do, t3);
    spelling::lemma_spells_both(toks, p + 3, inner, spelling::mark(TokenKind::End));
    spelling::lemma_last_mark(toks, p + 3 + inner.len(), TokenKind::End);
    assert(pt.functions.take(0) =~= Seq::empty());
    lemma_signatures_read(toks, p + 3, pt.functions, 0);
    assert(cursor::ident_at(toks, p + 1) == Ok::<(Text, nat), ParseErrorV>((pt.name, p + 2)));
}

/// A token that starts a definition ends an expression, a type and a list of constructors.
proof fn lemma_definition_ends(toks: Seq<TokenV>, q: nat)
    requires
        definition_ends_at(toks, q),
    ensures
        spelling::ends_at(toks, q),
        toks[q as int].kind != KindV::Plain(TokenKind::Lt),
        toks[q as int].kind != KindV::Plain(TokenKind::Require),
        toks[q as int].kind != KindV::Plain(TokenKind::Throws),
        !cursor::is_at(toks, q, TokenKind::Colon),
{
    reveal(cursor::kind_is);
}

/// A binding reads as the definition.
#[verifier::spinoff_prover]
#[verifier::rlimit(60)]
proof fn lemma_global_let_reads(toks: Seq<TokenV>, p: nat, gl: GlobalLetV)
    requires
        !(gl.value.node is External),
        definition_written(TopLevelV::Let(gl)),
        spelling::spells(toks, p, spell_private(TopLevelV::Let(gl))),
        definition_ends_at(toks, p + spell_private(TopLevelV::Let(gl)).len()),
    ensures
        top_level::global_let_at(toks, p, gl.is_public) matches Ok((v, q)) && q == p + spell_private(
            TopLevelV::Let(gl),
        ).len() && bare_definition(v) == bare_definition(TopLevelV::Let(gl)),
        cursor::is_at(toks, p, TokenKind::Let),
{
    reveal(cursor::kind_is);
    reveal(top_level::global_let_at);
    let q = p + spell_private(TopLevelV::Let(gl)).len();
    let v = spelling::spell_expr(gl.value.node);
    let a = spelling::spell_annotation(gl.typ);
    let t3 = spelling::mark(TokenKind::Eq) + v;
    let t2 = a + t3;
    spelling::lemma_mark(toks, p, TokenKind::Let, spelling::word(gl.name) + t2);
    spelling::lemma_word(toks, p + 1, gl.name, t2);
    spelling::lemma_spells_both(toks, p + 2, a, t3);
    let p1 = p + 2 + a.len();
    spelling::lemma_mark(toks, p1, TokenKind::Eq, v);
    lemma_definition_ends(toks, q);
    reading_laws::lemma_expr_reads(toks, p1 + 1, gl.value.node);
    let got = expr_syntax::expr_at(toks, p1 + 1)->Ok_0.0;
    assert(cursor::ident_at(toks, p + 1) == Ok::<(Text, nat), ParseErrorV>((gl.name, p + 2)));
    match gl.typ {
        Some(t) => {
            spelling::lemma_mark(toks, p + 2, TokenKind::Colon, type_reading::spell_type(t));
            type_reading::lemma_type_reads(toks, p + 3, t);
        },
        None => {
            assert(a.len() == 0);
        },
    }
    assert(top_level::global_let_at(toks, p, gl.is_public) == Ok::<(TopLevelV, nat), ParseErrorV>(
        (TopLevelV::Let((GlobalLetV { value: got, ..gl })), q),
    ));
}

/// A binding of a foreign function reads as the definition.
#[verifier::spinoff_prover]
#[verifier::rlimit(60)]
proof fn lemma_external_reads(toks: Seq<TokenV>, p: nat, gl: GlobalLetV)
    requires
        gl.value.node is External,
        definition_written(TopLevelV::Let(gl)),
        spelling::spells(toks, p, spell_private(TopLevelV::Let(gl))),
        definition_ends_at(toks, p + spell_private(TopLevelV::Let(gl)).len()),
    ensures
        top_level::external_def_at(toks, p, gl.is_public) matches Ok((v, q)) && q == p + spell_private(
            TopLevelV::Let(gl),
        ).len() && bare_definition(v) == bare_definition(TopLevelV::Let(gl)),
        cursor::is_at(toks, p, TokenKind::External),
{
    reveal(cursor::kind_is);
    reveal(top_level::external_def_at);
    let q = p + spell_private(TopLevelV::Let(gl)).len();
    match gl.value.node {
        ExprV::External(symbol, type_params, t) => {
            let tp = type_reading::spell_type_params(type_params);
            let name = seq![KindV::StringLit(symbol)];
            let t5 = tp + type_reading::spell_type(t);
            let t4 = spelling::mark(TokenKind::Colon) + t5;
            let t3 = name + t4;
            let t2 = spelling::mark(TokenKind::Eq) + t3;
            spelling::lemma_mark(toks, p, TokenKind::External, spelling::word(gl.name) + t2);
            spelling::lemma_word(toks, p + 1, gl.name, t2);
            spelling::lemma_mark(toks, p + 2, TokenKind::Eq, t3);
            spelling::lemma_spells_both(toks, p + 3, name, t4);
            lemma_last_string(toks, p + 3, symbol);
            spelling::lemma_mark(toks, p + 4, TokenKind::Colon, t5);
            spelling::lemma_spells_both(toks, p + 5, tp, type_reading::spell_type(t));
            let p1 = p + 5 + tp.len();
            lemma_definition_ends(toks, q);
            type_reading::lemma_type_reads(toks, p1, t);
            type_reading::lemma_type_begins(toks, p1, t);
            type_reading::lemma_type_params_read(toks, p + 5, type_params);
            assert(cursor::ident_at(toks, p + 1) == Ok::<(Text, nat), ParseErrorV>((gl.name, p + 2)));
            assert(top_level::external_def_at(toks, p, gl.is_public) matches Ok((v, r)) && r == q && v
                == TopLevelV::Let(
                (GlobalLetV { value: Spanned { node: gl.value.node, span: v->Let_0.value.span }, ..gl
                }),
            ));
        },
        _ => {},
    }
}

/// The text of a definition reads as the definition.
#[verifier::spinoff_prover]
#[verifier::rlimit(80)]
proof fn lemma_definition_reads(toks: Seq<TokenV>, p: nat, d: TopLevelV)
    requires
        definition_written(d),
        spelling::spells(toks, p, spell_definition(d)),
        definition_ends_at(toks, p + spell_definition(d).len()),
    ensures
        top_level::top_level_at(toks, p) matches Ok((v, q)) && q == p + spell_definition(d).len()
            && bare_definition(v) == bare_definition(d),
        spell_definition(d).len() > 0,
        p < toks.len(),
        starts_definition(toks[p as int].kind),
        !cursor::is_at(toks, p, TokenKind::Eof),
{
    reveal(cursor::kind_is);
    reveal(top_level::top_level_at);
    reveal(top_level::exported_at);
    let public = seen_outside(d);
    spelling::lemma_spells_both(toks, p, spell_export(public), spell_private(d));
    let p1 = p + spell_export(public).len();
    if public {
        spelling::lemma_last_mark(toks, p, TokenKind::Export);
    } else {
        assert(p1 == p);
    }
    match d {
        TopLevelV::TypeDef(td) => {
            lemma_type_def_reads(toks, p1, td, false);
        },
        TopLevelV::Enum(ed) => {
            let head = spell_type_head(ed.name, ed.type_params, spell_variants(ed.variants, 0));
            let first = if ed.is_opaque {
                spelling::word("opaque"@)
            } else {
                Seq::empty()
            };
            spelling::lemma_spells_both(toks, p1, first, head);
            if ed.is_opaque {
                spelling::lemma_last_word(toks, p1, "opaque"@);
                lemma_enum_def_reads(toks, p1 + 1, ed);
            } else {
                lemma_enum_def_reads(toks, p1, ed);
            }
        },
        TopLevelV::Exception(x) => {
            lemma_exception_reads(toks, p1, x);
        },
        TopLevelV::Import(im) => {
            lemma_import_reads(toks, p1, im);
        },
        TopLevelV::Port(pt) => {
            lemma_port_reads(toks, p1, pt);
        },
        TopLevelV::Let(gl) => {
            if gl.value.node is External {
                lemma_external_reads(toks, p1, gl);
            } else {
                lemma_global_let_reads(toks, p1, gl);
            }
        },
    }
}

/// The text of definitions reads as the definitions.
#[verifier::spinoff_prover]
#[verifier::rlimit(60)]
proof fn lemma_definitions_read(
    toks: Seq<TokenV>,
    p: nat,
    ds: Seq<Spanned<TopLevelV>>,
    i: nat,
    acc: Seq<Spanned<TopLevelV>>,
)
    requires
        i <= ds.len(),
        forall|j: int| 0 <= j < ds.len() ==> definition_written((#[trigger] ds[j]).node),
        spelling::spells(toks, p, spell_definitions(ds, i)),
        cursor::is_at(toks, p + spell_definitions(ds, i).len(), TokenKind::Eof),
        bare_definitions(acc) == bare_definitions(ds).take(i as int),
    ensures
        top_level::definitions_at(toks, p, acc) matches Ok((v, q)) && bare_definitions(v) == bare_definitions(
            ds,
        ),
        definition_ends_at(toks, p),
    decreases ds.len() - i,
{
    reveal(cursor::kind_is);
    reveal(top_level::definition_at);
    let all = bare_definitions(ds);
    assert(acc.len() == i) by {
        assert(bare_definitions(acc).len() == acc.len());
        assert(all.take(i as int).len() == i);
    }
    if i == ds.len() {
        assert(all.take(i as int) =~= all);
    } else {
        let d = ds[i as int].node;
        let more = spell_definitions(ds, i + 1);
        spelling::lemma_spells_both(toks, p, spell_definition(d), more);
        let p1 = p + spell_definition(d).len();
        assert(definition_written(ds[i as int].node));
        lemma_next_definition(toks, p1, ds, i + 1);
        lemma_definition_reads(toks, p, d);
        let got = top_level::definition_at(toks, p)->Ok_0.0;
        let next = acc.push(got);
        assert(bare_definitions(next) =~= all.take(i as int + 1)) by {
            assert forall|j: int| 0 <= j < next.len() implies #[trigger] bare_definitions(next)[j]
                == all.take(i as int + 1)[j] by {
                if j < i {
                    assert(bare_definitions(acc)[j] == all.take(i as int)[j]);
                    assert(next[j] == acc[j]);
                }
            }
        }
        lemma_definitions_read(toks, p1, ds, i + 1, next);
        assert(top_level::definitions_at(toks, p, acc) == top_level::definitions_at(toks, p1, next));
    }
}

/// What stands behind a definition starts another one, or is the end of the source.
proof fn lemma_next_definition(
    toks: Seq<TokenV>,
    p: nat,
    ds: Seq<Spanned<TopLevelV>>,
    i: nat,
)
    requires
        i <= ds.len(),
        spelling::spells(toks, p, spell_definitions(ds, i)),
        cursor::is_at(toks, p + spell_definitions(ds, i).len(), TokenKind::Eof),
    ensures
        definition_ends_at(toks, p),
{
    reveal(cursor::kind_is);
    if i < ds.len() {
        let d = ds[i as int].node;
        let ks = spell_definition(d);
        spelling::lemma_spells_both(toks, p, ks, spell_definitions(ds, i + 1));
        spelling::lemma_spells_both(toks, p, spell_export(seen_outside(d)), spell_private(d));
        assert(spell_private(d).len() > 0);
        assert(ks.len() > 0);
        assert(toks[p + 0int].kind == ks[0]);
        if seen_outside(d) {
            assert(ks[0] == KindV::Plain(TokenKind::Export));
        } else {
            assert(ks =~= spell_private(d));
            match d {
                TopLevelV::Enum(ed) => {
                    if ed.is_opaque {
                        assert(ks[0] == KindV::Ident("opaque"@));
                    } else {
                        assert(ks[0] == KindV::Plain(TokenKind::Type));
                    }
                },
                _ => {},
            }
        }
    }
}

/// The tokens of a program, up to the end of the source, read as its definitions in their order,
/// places aside: each kind of definition with its names, its parameters, its types and whether
/// other modules see it.
pub proof fn law_program_reads_back(toks: Seq<TokenV>, ds: Seq<Spanned<TopLevelV>>)
    requires
        forall|j: int| 0 <= j < ds.len() ==> definition_written((#[trigger] ds[j]).node),
        spelling::spells(toks, 0, spell_definitions(ds, 0)),
        cursor::is_at(toks, spell_definitions(ds, 0).len(), TokenKind::Eof),
    ensures
        top_level::definitions_at(toks, 0, Seq::empty()) matches Ok((v, q)) && bare_definitions(v)
            == bare_definitions(ds),
{
    let none = Seq::<Spanned<TopLevelV>>::empty();
    assert(bare_definitions(none) =~= bare_definitions(ds).take(0));
    lemma_definitions_read(toks, 0, ds, 0, none);
}

} // verus!
