//! The text of a type, and that reading it gives the type back.

use crate::ast::ParamV;
use crate::lexer::{KindV, TokenKind, TokenV};
use crate::parser::cursor;
use crate::parser::cursor::ParseErrorV;
use crate::parser::reading_laws;
use crate::parser::spelling;
use crate::parser::type_syntax;
use crate::text::Text;
use crate::typecheck::helpers;
use crate::types::TypeV;
use vstd::prelude::*;

verus! {

// ---------------------------------------------------------------------------
// The text of a type
// ---------------------------------------------------------------------------

/// Whether the text of a type can go on with clauses: that of a function type, at its end.
pub open spec fn open_ended(t: TypeV) -> bool
    decreases t,
{
    match t {
        TypeV::Arrow(_, _, _, _) => true,
        TypeV::Borrow(i) => open_ended(*i),
        TypeV::Linear(i) => open_ended(*i),
        _ => false,
    }
}

/// The text of a type.
pub open spec fn spell_type(t: TypeV) -> Seq<KindV>
    decreases t, 0nat,
{
    match t {
        TypeV::I32 => spelling::word("i32"@),
        TypeV::I64 => spelling::word("i64"@),
        TypeV::F32 => spelling::word("f32"@),
        TypeV::F64 => spelling::word("f64"@),
        TypeV::Bool => spelling::word("bool"@),
        TypeV::Char => spelling::word("char"@),
        TypeV::String => spelling::word("string"@),
        TypeV::Unit => spelling::word("unit"@),
        TypeV::UserDefined(n, args) => if args.len() == 0 {
            spelling::word(n)
        } else {
            spelling::word(n) + (spelling::mark(TokenKind::Lt) + (spell_types(args, 0) + spelling::mark(TokenKind::Gt)))
        },
        TypeV::Ref(i) => spelling::word("ref"@) + (spelling::mark(TokenKind::LParen) + (spell_type(*i) + spelling::mark(
            TokenKind::RParen,
        ))),
        TypeV::Linear(i) => spelling::mark(TokenKind::Percent) + spell_type(*i),
        TypeV::Borrow(i) => spelling::mark(TokenKind::Ampersand) + spell_type(*i),
        TypeV::Array(i) => spelling::mark(TokenKind::LBracketPipe) + (spell_type(*i) + spelling::mark(
            TokenKind::RBracketPipe,
        )),
        TypeV::List(i) => spelling::mark(TokenKind::LBracket) + (spell_type(*i) + spelling::mark(TokenKind::RBracket)),
        TypeV::Handler(n, _) => spelling::mark(TokenKind::Handler) + spelling::word(n),
        TypeV::Record(fs) => spelling::mark(TokenKind::LBrace) + (spell_fields(fs, 0) + spelling::mark(
            TokenKind::RBrace,
        )),
        TypeV::Row(es, tail) => spelling::mark(TokenKind::LBrace) + (spell_types(es, 0) + match tail {
            Some(x) => spelling::mark(TokenKind::Pipe) + (spell_type(*x) + spelling::mark(TokenKind::RBrace)),
            None => spelling::mark(TokenKind::RBrace),
        }),
        TypeV::Arrow(ps, r, q, e) => spelling::mark(TokenKind::LParen) + (spell_fields(ps, 0) + (spelling::mark(
            TokenKind::RParen,
        ) + (spelling::mark(TokenKind::Arrow) + (spell_type(*r) + (spell_clause(TokenKind::Require, *q)
            + spell_clause(TokenKind::Throws, *e)))))),
        _ => Seq::empty(),
    }
}

/// The text of a clause of a function type. An empty row needs none.
pub open spec fn spell_clause(k: TokenKind, t: TypeV) -> Seq<KindV>
    decreases t, 1nat,
{
    if t == helpers::empty_row() {
        Seq::empty()
    } else {
        spelling::mark(k) + spell_type(t)
    }
}

/// The text of types from index `i` on.
pub open spec fn spell_types(ts: Seq<TypeV>, i: nat) -> Seq<KindV>
    decreases ts, ts.len() - i,
{
    if i >= ts.len() {
        Seq::empty()
    } else {
        spelling::comma_before(i) + (spell_type(ts[i as int]) + spell_types(ts, i + 1))
    }
}

/// The text of labelled types from index `i` on.
pub open spec fn spell_fields(fs: Seq<(Text, TypeV)>, i: nat) -> Seq<KindV>
    decreases fs, fs.len() - i,
{
    if i >= fs.len() {
        Seq::empty()
    } else {
        spelling::comma_before(i) + (spelling::spell_label(Some(fs[i as int].0)) + (spell_type(fs[i as int].1)
            + spell_fields(fs, i + 1)))
    }
}

/// The text of the fields of a constructor from index `i` on.
pub open spec fn spell_variant_fields(fs: Seq<(Option<Text>, TypeV)>, i: nat) -> Seq<KindV>
    decreases fs.len() - i,
{
    if i >= fs.len() {
        Seq::empty()
    } else {
        spelling::comma_before(i) + (spelling::spell_label(fs[i as int].0) + (spell_type(fs[i as int].1)
            + spell_variant_fields(fs, i + 1)))
    }
}

/// The text of parameters from index `i` on.
pub open spec fn spell_params(ps: Seq<ParamV>, i: nat) -> Seq<KindV>
    decreases ps.len() - i,
{
    if i >= ps.len() {
        Seq::empty()
    } else {
        spelling::comma_before(i) + ((spelling::spell_sigil(ps[i as int].sigil) + (spelling::word(ps[i as int].name) + spelling::mark(
            TokenKind::Colon,
        ))) + (spell_type(ps[i as int].typ) + spell_params(ps, i + 1)))
    }
}

/// The text of a signature: its parameters, its result and its clauses.
pub open spec fn spell_signature(
    ps: Seq<ParamV>,
    ret: TypeV,
    reqs: TypeV,
    throws: TypeV,
) -> Seq<KindV> {
    spelling::mark(TokenKind::LParen) + (spell_params(ps, 0) + (spelling::mark(TokenKind::RParen) + (spelling::mark(
        TokenKind::Arrow,
    ) + (spell_type(ret) + (spell_clause(TokenKind::Require, reqs) + spell_clause(
        TokenKind::Throws,
        throws,
    ))))))
}

/// The text of type parameters; where there are none, none is needed.
pub open spec fn spell_type_params(ns: Seq<Text>) -> Seq<KindV> {
    if ns.len() == 0 {
        Seq::empty()
    } else {
        spelling::mark(TokenKind::Lt) + (spelling::spell_names(ns, 0) + spelling::mark(TokenKind::Gt))
    }
}

// ---------------------------------------------------------------------------
// Types that have a text
// ---------------------------------------------------------------------------

/// Whether a type can be written. A row has a member, or it would read as a record; the result
/// of a function type does not end in clauses of its own.
pub open spec fn type_written(t: TypeV) -> bool
    decreases t, 0nat,
{
    match t {
        TypeV::I32 => true,
        TypeV::I64 => true,
        TypeV::F32 => true,
        TypeV::F64 => true,
        TypeV::Bool => true,
        TypeV::Char => true,
        TypeV::String => true,
        TypeV::Unit => true,
        TypeV::UserDefined(n, args) => !cursor::reserved(n) && type_syntax::builtin_type(n) is None && n != "ref"@
            && types_written(args),
        TypeV::Ref(i) => type_written(*i),
        TypeV::Linear(i) => type_written(*i),
        TypeV::Borrow(i) => type_written(*i),
        TypeV::Array(i) => type_written(*i),
        TypeV::List(i) => type_written(*i),
        TypeV::Handler(n, q) => !cursor::reserved(n) && *q == helpers::empty_row(),
        TypeV::Record(fs) => fields_written(fs),
        TypeV::Row(es, tail) => es.len() > 0 && types_written(es) && match tail {
            Some(x) => type_written(*x),
            None => true,
        },
        TypeV::Arrow(ps, r, q, e) => fields_written(ps) && type_written(*r) && !open_ended(*r)
            && clause_written(*q) && !open_ended(*q) && clause_written(*e),
        _ => false,
    }
}

/// Whether a clause can be written: a record would read as a row.
pub open spec fn clause_written(t: TypeV) -> bool
    decreases t, 1nat,
{
    t == helpers::empty_row() || (type_written(t) && !(t is Record))
}

/// Whether types can be written.
pub open spec fn types_written(ts: Seq<TypeV>) -> bool
    decreases ts, 0nat,
{
    forall|i: int| 0 <= i < ts.len() ==> type_written(#[trigger] ts[i])
}

/// Whether labelled types can be written.
pub open spec fn fields_written(fs: Seq<(Text, TypeV)>) -> bool
    decreases fs, 0nat,
{
    forall|i: int| 0 <= i < fs.len() ==> !cursor::reserved((#[trigger] fs[i]).0) && type_written(fs[i].1)
}

/// Whether the fields of a constructor can be written.
pub open spec fn variant_fields_written(fs: Seq<(Option<Text>, TypeV)>) -> bool {
    forall|i: int|
        0 <= i < fs.len() ==> spelling::label_written((#[trigger] fs[i]).0) && type_written(fs[i].1)
}

/// Whether parameters can be written.
pub open spec fn params_written(ps: Seq<ParamV>) -> bool {
    forall|i: int|
        0 <= i < ps.len() ==> !cursor::reserved((#[trigger] ps[i]).name) && type_written(ps[i].typ)
}

/// Whether a signature can be written.
pub open spec fn signature_written(
    ps: Seq<ParamV>,
    ret: TypeV,
    reqs: TypeV,
    throws: TypeV,
) -> bool {
    params_written(ps) && type_written(ret) && !open_ended(ret) && clause_written(reqs)
        && !open_ended(reqs) && clause_written(throws)
}

/// Whether names can be written.
pub open spec fn names_written(ns: Seq<Text>) -> bool {
    forall|i: int| 0 <= i < ns.len() ==> !cursor::reserved(#[trigger] ns[i])
}

// ---------------------------------------------------------------------------
// Reading types
// ---------------------------------------------------------------------------

/// Whether a type ends at a position.
pub open spec fn type_ends_at(toks: Seq<TokenV>, p: nat, t: TypeV) -> bool {
    &&& p < toks.len()
    &&& toks[p as int].kind != KindV::Plain(TokenKind::Lt)
    &&& open_ended(t) ==> toks[p as int].kind != KindV::Plain(TokenKind::Require)
        && toks[p as int].kind != KindV::Plain(TokenKind::Throws)
}

/// The names of the built-in types.
proof fn lemma_builtin_names()
    ensures
        type_syntax::builtin_type("i32"@) == Some(TypeV::I32),
        type_syntax::builtin_type("i64"@) == Some(TypeV::I64),
        type_syntax::builtin_type("f32"@) == Some(TypeV::F32),
        type_syntax::builtin_type("f64"@) == Some(TypeV::F64),
        type_syntax::builtin_type("bool"@) == Some(TypeV::Bool),
        type_syntax::builtin_type("char"@) == Some(TypeV::Char),
        type_syntax::builtin_type("string"@) == Some(TypeV::String),
        type_syntax::builtin_type("unit"@) == Some(TypeV::Unit),
        type_syntax::builtin_type("ref"@) is None,
{
    reveal_strlit("i32");
    reveal_strlit("i64");
    reveal_strlit("f32");
    reveal_strlit("f64");
    reveal_strlit("float");
    reveal_strlit("bool");
    reveal_strlit("char");
    reveal_strlit("string");
    reveal_strlit("unit");
    reveal_strlit("ref");
    let a = "i32"@;
    let b = "i64"@;
    let c = "f32"@;
    let d = "f64"@;
    assert(a[0] == 'i' && b[0] == 'i' && c[0] == 'f' && d[0] == 'f');
    assert(a[1] == '3' && b[1] == '6' && c[1] == '3' && d[1] == '6');
    assert("bool"@[0] == 'b' && "char"@[0] == 'c' && "string"@[0] == 's' && "unit"@[0] == 'u'
        && "ref"@[0] == 'r' && "float"@.len() == 5);
}

/// How the text of a type begins.
#[verifier::spinoff_prover]
#[verifier::rlimit(60)]
pub proof fn lemma_type_begins(toks: Seq<TokenV>, p: nat, t: TypeV)
    requires
        type_written(t),
        spelling::spells(toks, p, spell_type(t)),
        type_ends_at(toks, p + spell_type(t).len(), t),
        !cursor::is_at(toks, p + spell_type(t).len(), TokenKind::Colon),
    ensures
        spell_type(t).len() > 0,
        p < toks.len(),
        toks[p as int].kind == spell_type(t)[0],
        type_syntax::labelled_at(toks, p) is None,
        !cursor::is_at(toks, p, TokenKind::RParen),
        !cursor::is_at(toks, p, TokenKind::RBrace),
        !cursor::is_at(toks, p, TokenKind::Gt),
        cursor::is_at(toks, p, TokenKind::LBrace) <==> t is Record || t is Row,
        cursor::is_at(toks, p, TokenKind::LParen) <==> t is Arrow,
        !cursor::is_at(toks, p, TokenKind::Lt),
{
    reveal(cursor::kind_is);
    let ks = spell_type(t);
    assert(ks.len() > 0);
    assert(toks[p + 0int].kind == ks[0]);
    match t {
        TypeV::UserDefined(n, args) => {
            if args.len() > 0 {
                let rest = spell_types(args, 0) + spelling::mark(TokenKind::Gt);
                spelling::lemma_word(toks, p, n, spelling::mark(TokenKind::Lt) + rest);
                spelling::lemma_mark(toks, p + 1, TokenKind::Lt, rest);
            } else {
                spelling::lemma_last_word(toks, p, n);
            }
        },
        TypeV::Ref(i) => {
            let rest = spell_type(*i) + spelling::mark(TokenKind::RParen);
            spelling::lemma_word(toks, p, "ref"@, spelling::mark(TokenKind::LParen) + rest);
            spelling::lemma_mark(toks, p + 1, TokenKind::LParen, rest);
        },
        _ => {},
    }
}

/// The text of a type reads as the type.
#[verifier::spinoff_prover]
#[verifier::rlimit(80)]
pub proof fn lemma_type_reads(toks: Seq<TokenV>, p: nat, t: TypeV)
    requires
        type_written(t),
        spelling::spells(toks, p, spell_type(t)),
        type_ends_at(toks, p + spell_type(t).len(), t),
        !cursor::is_at(toks, p + spell_type(t).len(), TokenKind::Colon),
    ensures
        type_syntax::type_at(toks, p) == Ok::<(TypeV, nat), ParseErrorV>((t, p + spell_type(t).len())),
    decreases t, 3nat,
{
    reveal(cursor::kind_is);
    reveal(type_syntax::type_at);
    lemma_type_begins(toks, p, t);
    if t is Arrow {
        lemma_arrow_reads(toks, p, t);
    } else {
        lemma_type_atom_reads(toks, p, t);
    }
}

#[verifier::spinoff_prover]
#[verifier::rlimit(80)]
proof fn lemma_type_atom_reads(toks: Seq<TokenV>, p: nat, t: TypeV)
    requires
        type_written(t),
        !(t is Arrow),
        spelling::spells(toks, p, spell_type(t)),
        type_ends_at(toks, p + spell_type(t).len(), t),
        !cursor::is_at(toks, p + spell_type(t).len(), TokenKind::Colon),
    ensures
        type_syntax::type_atom_at(toks, p) == Ok::<(TypeV, nat), ParseErrorV>((t, p + spell_type(t).len())),
    decreases t, 2nat,
{
    reveal(cursor::kind_is);
    lemma_builtin_names();
    lemma_type_begins(toks, p, t);
    let q = p + spell_type(t).len();
    match t {
        TypeV::UserDefined(n, args) => {
            if args.len() > 0 {
                let inner = spell_types(args, 0);
                let rest = inner + spelling::mark(TokenKind::Gt);
                spelling::lemma_word(toks, p, n, spelling::mark(TokenKind::Lt) + rest);
                spelling::lemma_mark(toks, p + 1, TokenKind::Lt, rest);
                spelling::lemma_spells_both(toks, p + 2, inner, spelling::mark(TokenKind::Gt));
                spelling::lemma_last_mark(toks, p + 2 + inner.len(), TokenKind::Gt);
                lemma_type_items_read(toks, p + 2, args, 0);
                assert(type_syntax::generic_args_at(toks, p + 1) == Ok::<(Seq<TypeV>, nat), ParseErrorV>(
                    (args, q),
                ));
                assert(type_syntax::user_type_at(toks, p) == Ok::<(TypeV, nat), ParseErrorV>((t, q)));
            } else {
                spelling::lemma_last_word(toks, p, n);
                assert(args =~= Seq::empty());
                assert(type_syntax::user_type_at(toks, p) == Ok::<(TypeV, nat), ParseErrorV>((t, q)));
            }
        },
        TypeV::Ref(i) => {
            let inner = spell_type(*i);
            let rest = inner + spelling::mark(TokenKind::RParen);
            spelling::lemma_word(toks, p, "ref"@, spelling::mark(TokenKind::LParen) + rest);
            spelling::lemma_mark(toks, p + 1, TokenKind::LParen, rest);
            spelling::lemma_spells_both(toks, p + 2, inner, spelling::mark(TokenKind::RParen));
            spelling::lemma_last_mark(toks, p + 2 + inner.len(), TokenKind::RParen);
            lemma_type_reads(toks, p + 2, *i);
            assert(type_syntax::ref_type_at(toks, p) == Ok::<(TypeV, nat), ParseErrorV>((t, q)));
        },
        TypeV::Linear(i) => {
            spelling::lemma_mark(toks, p, TokenKind::Percent, spell_type(*i));
            lemma_type_reads(toks, p + 1, *i);
            lemma_type_begins(toks, p + 1, *i);
            assert(type_syntax::linear_type_at(toks, p) == Ok::<(TypeV, nat), ParseErrorV>((t, q)));
        },
        TypeV::Borrow(i) => {
            spelling::lemma_mark(toks, p, TokenKind::Ampersand, spell_type(*i));
            lemma_type_reads(toks, p + 1, *i);
            lemma_type_begins(toks, p + 1, *i);
            assert(type_syntax::borrow_type_at(toks, p) == Ok::<(TypeV, nat), ParseErrorV>((t, q)));
        },
        TypeV::Array(i) => {
            let inner = spell_type(*i);
            spelling::lemma_mark(toks, p, TokenKind::LBracketPipe, inner + spelling::mark(TokenKind::RBracketPipe));
            spelling::lemma_spells_both(toks, p + 1, inner, spelling::mark(TokenKind::RBracketPipe));
            spelling::lemma_last_mark(toks, p + 1 + inner.len(), TokenKind::RBracketPipe);
            lemma_type_reads(toks, p + 1, *i);
            assert(type_syntax::array_type_at(toks, p) == Ok::<(TypeV, nat), ParseErrorV>((t, q)));
        },
        TypeV::List(i) => {
            let inner = spell_type(*i);
            spelling::lemma_mark(toks, p, TokenKind::LBracket, inner + spelling::mark(TokenKind::RBracket));
            spelling::lemma_spells_both(toks, p + 1, inner, spelling::mark(TokenKind::RBracket));
            spelling::lemma_last_mark(toks, p + 1 + inner.len(), TokenKind::RBracket);
            lemma_type_reads(toks, p + 1, *i);
            assert(type_syntax::list_type_at(toks, p) == Ok::<(TypeV, nat), ParseErrorV>((t, q)));
        },
        TypeV::Handler(n, reqs) => {
            spelling::lemma_mark(toks, p, TokenKind::Handler, spelling::word(n));
            spelling::lemma_last_word(toks, p + 1, n);
            assert(type_syntax::handler_type_at(toks, p) == Ok::<(TypeV, nat), ParseErrorV>((t, q)));
        },
        TypeV::Record(fs) => {
            let inner = spell_fields(fs, 0);
            spelling::lemma_mark(toks, p, TokenKind::LBrace, inner + spelling::mark(TokenKind::RBrace));
            spelling::lemma_spells_both(toks, p + 1, inner, spelling::mark(TokenKind::RBrace));
            spelling::lemma_last_mark(toks, p + 1 + inner.len(), TokenKind::RBrace);
            lemma_named_fields_read(toks, p + 1, fs, 0);
            assert(type_syntax::record_type_at(toks, p) == Ok::<(TypeV, nat), ParseErrorV>((t, q)));
        },
        TypeV::Row(es, tail) => {
            lemma_row_reads(toks, p, t);
            assert(type_syntax::record_type_at(toks, p) is Err);
        },
        _ => {
            spelling::lemma_last_word(toks, p, spell_type(t)[0]->Ident_0);
        },
    }
}

/// A row reads as the row, and not as a record.
#[verifier::spinoff_prover]
#[verifier::rlimit(80)]
proof fn lemma_row_reads(toks: Seq<TokenV>, p: nat, t: TypeV)
    requires
        t is Row,
        type_written(t),
        spelling::spells(toks, p, spell_type(t)),
    ensures
        type_syntax::row_type_at(toks, p) == Ok::<(TypeV, nat), ParseErrorV>((t, p + spell_type(t).len())),
        type_syntax::record_type_at(toks, p) is Err,
    decreases t, 1nat,
{
    reveal(cursor::kind_is);
    let q = p + spell_type(t).len();
    match t {
        TypeV::Row(es, tail) => {
            let inner = spell_types(es, 0);
            let close = match tail {
                Some(x) => spelling::mark(TokenKind::Pipe) + (spell_type(*x) + spelling::mark(TokenKind::RBrace)),
                None => spelling::mark(TokenKind::RBrace),
            };
            spelling::lemma_mark(toks, p, TokenKind::LBrace, inner + close);
            spelling::lemma_spells_both(toks, p + 1, inner, close);
            let p1 = p + 1 + inner.len();
            match tail {
                Some(x) => {
                    let last = spell_type(*x);
                    spelling::lemma_mark(toks, p1, TokenKind::Pipe, last + spelling::mark(TokenKind::RBrace));
                    spelling::lemma_spells_both(toks, p1 + 1, last, spelling::mark(TokenKind::RBrace));
                    spelling::lemma_last_mark(toks, p1 + 1 + last.len(), TokenKind::RBrace);
                    lemma_type_reads(toks, p1 + 1, *x);
                },
                None => {
                    spelling::lemma_last_mark(toks, p1, TokenKind::RBrace);
                },
            }
            lemma_row_items_read(toks, p + 1, es, 0);
            assert(type_syntax::row_items_at(toks, p + 1) == Ok::<(Seq<TypeV>, nat), ParseErrorV>((es, p1)));
            assert(type_syntax::labelled_at(toks, p + 1) is None);
            assert(type_syntax::named_field_at(toks, p + 1) is Err);
            assert(type_syntax::named_fields_at(toks, p + 1) is Err);
        },
        _ => {},
    }
}

/// A function type reads as the function type.
#[verifier::spinoff_prover]
#[verifier::rlimit(80)]
proof fn lemma_arrow_reads(toks: Seq<TokenV>, p: nat, t: TypeV)
    requires
        t is Arrow,
        type_written(t),
        spelling::spells(toks, p, spell_type(t)),
        type_ends_at(toks, p + spell_type(t).len(), t),
        !cursor::is_at(toks, p + spell_type(t).len(), TokenKind::Colon),
    ensures
        type_syntax::arrow_type_at(toks, p) == Ok::<(TypeV, nat), ParseErrorV>((t, p + spell_type(t).len())),
    decreases t, 2nat,
{
    reveal(cursor::kind_is);
    match t {
        TypeV::Arrow(ps, r, reqs, throws) => {
            let inner = spell_fields(ps, 0);
            let ret = spell_type(*r);
            let c1 = spell_clause(TokenKind::Require, *reqs);
            let c2 = spell_clause(TokenKind::Throws, *throws);
            let t3 = ret + (c1 + c2);
            let t2 = spelling::mark(TokenKind::Arrow) + t3;
            let t1 = spelling::mark(TokenKind::RParen) + t2;
            spelling::lemma_mark(toks, p, TokenKind::LParen, inner + t1);
            spelling::lemma_spells_both(toks, p + 1, inner, t1);
            let p1 = p + 1 + inner.len();
            spelling::lemma_mark(toks, p1, TokenKind::RParen, t2);
            spelling::lemma_mark(toks, p1 + 1, TokenKind::Arrow, t3);
            spelling::lemma_spells_both(toks, p1 + 2, ret, c1 + c2);
            let p2 = p1 + 2 + ret.len();
            spelling::lemma_spells_both(toks, p2, c1, c2);
            lemma_arrow_params_read(toks, p + 1, ps, 0);
            lemma_clause_ends(toks, p2, *reqs, *throws);
            if *throws != helpers::empty_row() {
                spelling::lemma_mark(toks, p2 + c1.len(), TokenKind::Throws, spell_type(*throws));
                lemma_clause_reads(toks, p2 + c1.len() + 1, *throws);
            }
            if *reqs != helpers::empty_row() {
                spelling::lemma_mark(toks, p2, TokenKind::Require, spell_type(*reqs));
                lemma_clause_reads(toks, p2 + 1, *reqs);
            }
            assert(type_syntax::require_clause_at(toks, p2) == Ok::<(TypeV, nat), ParseErrorV>(
                (*reqs, p2 + c1.len()),
            ));
            assert(type_syntax::throws_clause_at(toks, p2 + c1.len()) == Ok::<(TypeV, nat), ParseErrorV>(
                (*throws, p2 + c1.len() + c2.len()),
            ));
            lemma_type_reads(toks, p1 + 2, *r);
            lemma_type_begins(toks, p1 + 2, *r);
            assert(type_syntax::arrow_params_at(toks, p + 1) == Ok::<(Seq<(Text, TypeV)>, nat), ParseErrorV>(
                (ps, p1),
            ));
        },
        _ => {},
    }
}

/// What stands where the clauses of a function type begin, and behind the first.
proof fn lemma_clause_ends(toks: Seq<TokenV>, p: nat, reqs: TypeV, throws: TypeV)
    requires
        spelling::spells(
            toks,
            p,
            spell_clause(TokenKind::Require, reqs) + spell_clause(TokenKind::Throws, throws),
        ),
        signature_ends_at(
            toks,
            p + spell_clause(TokenKind::Require, reqs).len() + spell_clause(
                TokenKind::Throws,
                throws,
            ).len(),
        ),
    ensures
        p < toks.len(),
        toks[p as int].kind != KindV::Plain(TokenKind::Lt),
        !cursor::is_at(toks, p, TokenKind::Colon),
        ({
            let p1 = p + spell_clause(TokenKind::Require, reqs).len();
            &&& p1 < toks.len()
            &&& toks[p1 as int].kind != KindV::Plain(TokenKind::Lt)
            &&& !cursor::is_at(toks, p1, TokenKind::Colon)
            &&& !cursor::is_at(toks, p1, TokenKind::Require)
            &&& cursor::is_at(toks, p1, TokenKind::Throws) <==> throws != helpers::empty_row()
        }),
        cursor::is_at(toks, p, TokenKind::Require) <==> reqs != helpers::empty_row(),
{
    reveal(cursor::kind_is);
    let c1 = spell_clause(TokenKind::Require, reqs);
    let c2 = spell_clause(TokenKind::Throws, throws);
    spelling::lemma_spells_both(toks, p, c1, c2);
    if throws != helpers::empty_row() {
        spelling::lemma_mark(toks, p + c1.len(), TokenKind::Throws, spell_type(throws));
    }
    if reqs != helpers::empty_row() {
        spelling::lemma_mark(toks, p, TokenKind::Require, spell_type(reqs));
    }
}

/// A clause reads as the clause.
#[verifier::spinoff_prover]
#[verifier::rlimit(60)]
proof fn lemma_clause_reads(toks: Seq<TokenV>, p: nat, t: TypeV)
    requires
        t != helpers::empty_row(),
        clause_written(t),
        spelling::spells(toks, p, spell_type(t)),
        type_ends_at(toks, p + spell_type(t).len(), t),
        !cursor::is_at(toks, p + spell_type(t).len(), TokenKind::Colon),
    ensures
        type_syntax::row_or_type_at(toks, p) == Ok::<(TypeV, nat), ParseErrorV>((t, p + spell_type(t).len())),
    decreases t, 4nat,
{
    reveal(cursor::kind_is);
    lemma_type_begins(toks, p, t);
    if t is Row {
        lemma_row_reads(toks, p, t);
    } else {
        lemma_type_reads(toks, p, t);
    }
}

/// The clauses of a function type read as the clauses.
#[verifier::spinoff_prover]
#[verifier::rlimit(60)]
proof fn lemma_clauses_read(toks: Seq<TokenV>, p: nat, reqs: TypeV, throws: TypeV)
    requires
        clause_written(reqs),
        !open_ended(reqs),
        clause_written(throws),
        spelling::spells(
            toks,
            p,
            spell_clause(TokenKind::Require, reqs) + spell_clause(TokenKind::Throws, throws),
        ),
        ({
            let q = p + spell_clause(TokenKind::Require, reqs).len() + spell_clause(
                TokenKind::Throws,
                throws,
            ).len();
            &&& q < toks.len()
            &&& !cursor::is_at(toks, q, TokenKind::Lt)
            &&& !cursor::is_at(toks, q, TokenKind::Require)
            &&& !cursor::is_at(toks, q, TokenKind::Throws)
            &&& !cursor::is_at(toks, q, TokenKind::Colon)
        }),
    ensures
        type_syntax::require_clause_at(toks, p) == Ok::<(TypeV, nat), ParseErrorV>(
            (reqs, p + spell_clause(TokenKind::Require, reqs).len()),
        ),
        type_syntax::throws_clause_at(toks, p + spell_clause(TokenKind::Require, reqs).len()) == Ok::<
            (TypeV, nat),
            ParseErrorV,
        >(
            (
                throws,
                p + spell_clause(TokenKind::Require, reqs).len() + spell_clause(
                    TokenKind::Throws,
                    throws,
                ).len(),
            ),
        ),
        p < toks.len(),
        toks[p as int].kind != KindV::Plain(TokenKind::Lt),
        !cursor::is_at(toks, p, TokenKind::Colon),
{
    lemma_clause_ends(toks, p, reqs, throws);
    let c1 = spell_clause(TokenKind::Require, reqs);
    let c2 = spell_clause(TokenKind::Throws, throws);
    spelling::lemma_spells_both(toks, p, c1, c2);
    let p1 = p + c1.len();
    let q = p1 + c2.len();
    reveal(cursor::kind_is);
    if throws == helpers::empty_row() {
        assert(c2.len() == 0);
    } else {
        spelling::lemma_mark(toks, p1, TokenKind::Throws, spell_type(throws));
        lemma_clause_reads(toks, p1 + 1, throws);
    }
    if reqs == helpers::empty_row() {
        assert(c1.len() == 0);
    } else {
        spelling::lemma_mark(toks, p, TokenKind::Require, spell_type(reqs));
        lemma_clause_reads(toks, p + 1, reqs);
    }
}

/// The text of the items of a list reads as the items.
#[verifier::spinoff_prover]
#[verifier::rlimit(60)]
proof fn lemma_type_items_read(toks: Seq<TokenV>, p: nat, xs: Seq<TypeV>, i: nat)
    requires
        i <= xs.len(),
        types_written(xs),
        spelling::spells(toks, p, spell_types(xs, i)),
        cursor::is_at(toks, p + spell_types(xs, i).len(), TokenKind::Gt),
    ensures
        i == 0 && (xs.len() > 0 || true) ==> type_syntax::type_items_at(toks, p) == Ok::<(Seq<TypeV>, nat), ParseErrorV>(
            (xs, p + spell_types(xs, i).len()),
        ),
        i > 0 ==> type_syntax::type_items_rest_at(toks, p, xs.take(i as int)) == Ok::<(Seq<TypeV>, nat), ParseErrorV>(
            (xs, p + spell_types(xs, i).len()),
        ),
    decreases xs, xs.len() - i,
{
    reveal(cursor::kind_is);
    if i == xs.len() {
        assert(xs.take(i as int) =~= xs);
        if i == 0 {
            assert(xs =~= Seq::empty());
        }
    } else {
        let x = xs[i as int];
        let more = spell_types(xs, i + 1);
        let p1 = p + spelling::comma_before(i).len();
        let body = spell_type(x) + more;
        spelling::lemma_spells_both(toks, p, spelling::comma_before(i), body);
        let p2 = p1;
        spelling::lemma_spells_both(toks, p2, spell_type(x), more);
        let p3 = p2 + spell_type(x).len();
        if i > 0 {
            assert(toks[p + 0int].kind == spelling::comma_before(i)[0]);
        }
        if i + 1 < xs.len() {
            assert(spelling::comma_before(i + 1) == spelling::mark(TokenKind::Comma));
            assert(more[0] == spelling::comma_before(i + 1)[0]);
            assert(toks[p3 + 0int].kind == more[0]);
        } else {
            assert(more.len() == 0);
        }
        lemma_type_begins(toks, p2, x);
        lemma_type_reads(toks, p2, x);
        lemma_type_items_read(toks, p3, xs, i + 1);
        assert(xs.take(i as int + 1) =~= xs.take(i as int).push(x));
        if i == 0 {
            assert(xs.take(1) =~= seq![x]);
            assert(!cursor::is_at(toks, p, TokenKind::Gt));
            assert(type_syntax::type_items_at(toks, p) == type_syntax::type_items_rest_at(toks, p3, xs.take(1)));
        } else {
            assert(!cursor::is_at(toks, p + 1, TokenKind::Gt));
            assert(type_syntax::type_items_rest_at(toks, p, xs.take(i as int)) == type_syntax::type_items_rest_at(
                toks,
                p3,
                xs.take(i as int + 1),
            ));
        }
    }
}

/// The text of the items of a list reads as the items.
#[verifier::spinoff_prover]
#[verifier::rlimit(60)]
proof fn lemma_row_items_read(toks: Seq<TokenV>, p: nat, xs: Seq<TypeV>, i: nat)
    requires
        i <= xs.len(),
        types_written(xs),
        spelling::spells(toks, p, spell_types(xs, i)),
        (cursor::is_at(toks, p + spell_types(xs, i).len(), TokenKind::RBrace) || cursor::is_at(toks, p + spell_types(xs, i).len(), TokenKind::Pipe)),
    ensures
        i == 0 && (xs.len() > 0 || false) ==> type_syntax::row_items_at(toks, p) == Ok::<(Seq<TypeV>, nat), ParseErrorV>(
            (xs, p + spell_types(xs, i).len()),
        ),
        i > 0 ==> type_syntax::row_items_rest_at(toks, p, xs.take(i as int)) == Ok::<(Seq<TypeV>, nat), ParseErrorV>(
            (xs, p + spell_types(xs, i).len()),
        ),
        i == 0 && xs.len() > 0 ==> type_syntax::labelled_at(toks, p) is None && !cursor::is_at(toks, p, TokenKind::RBrace),
    decreases xs, xs.len() - i,
{
    reveal(cursor::kind_is);
    if i == xs.len() {
        assert(xs.take(i as int) =~= xs);
        if i == 0 {
            assert(xs =~= Seq::empty());
        }
    } else {
        let x = xs[i as int];
        let more = spell_types(xs, i + 1);
        let p1 = p + spelling::comma_before(i).len();
        let body = spell_type(x) + more;
        spelling::lemma_spells_both(toks, p, spelling::comma_before(i), body);
        let p2 = p1;
        spelling::lemma_spells_both(toks, p2, spell_type(x), more);
        let p3 = p2 + spell_type(x).len();
        if i > 0 {
            assert(toks[p + 0int].kind == spelling::comma_before(i)[0]);
        }
        if i + 1 < xs.len() {
            assert(spelling::comma_before(i + 1) == spelling::mark(TokenKind::Comma));
            assert(more[0] == spelling::comma_before(i + 1)[0]);
            assert(toks[p3 + 0int].kind == more[0]);
        } else {
            assert(more.len() == 0);
        }
        lemma_type_begins(toks, p2, x);
        lemma_type_reads(toks, p2, x);
        lemma_row_items_read(toks, p3, xs, i + 1);
        assert(xs.take(i as int + 1) =~= xs.take(i as int).push(x));
        if i == 0 {
            assert(xs.take(1) =~= seq![x]);
            
            assert(type_syntax::row_items_at(toks, p) == type_syntax::row_items_rest_at(toks, p3, xs.take(1)));
        } else {
            assert(!cursor::is_at(toks, p + 1, TokenKind::RBrace));
            assert(type_syntax::row_items_rest_at(toks, p, xs.take(i as int)) == type_syntax::row_items_rest_at(
                toks,
                p3,
                xs.take(i as int + 1),
            ));
        }
    }
}

/// The text of the items of a list reads as the items.
#[verifier::spinoff_prover]
#[verifier::rlimit(60)]
pub proof fn lemma_named_fields_read(toks: Seq<TokenV>, p: nat, xs: Seq<(Text, TypeV)>, i: nat)
    requires
        i <= xs.len(),
        fields_written(xs),
        spelling::spells(toks, p, spell_fields(xs, i)),
        cursor::is_at(toks, p + spell_fields(xs, i).len(), TokenKind::RBrace),
    ensures
        i == 0 && (xs.len() > 0 || true) ==> type_syntax::named_fields_at(toks, p) == Ok::<(Seq<(Text, TypeV)>, nat), ParseErrorV>(
            (xs, p + spell_fields(xs, i).len()),
        ),
        i > 0 ==> type_syntax::named_fields_rest_at(toks, p, xs.take(i as int)) == Ok::<(Seq<(Text, TypeV)>, nat), ParseErrorV>(
            (xs, p + spell_fields(xs, i).len()),
        ),
    decreases xs, xs.len() - i,
{
    reveal(cursor::kind_is);
    if i == xs.len() {
        assert(xs.take(i as int) =~= xs);
        if i == 0 {
            assert(xs =~= Seq::empty());
        }
    } else {
        let x = xs[i as int];
        let more = spell_fields(xs, i + 1);
        let p1 = p + spelling::comma_before(i).len();
        let label = spelling::spell_label(Some(x.0));
        let body = spell_type(x.1) + more;
        spelling::lemma_spells_both(toks, p, spelling::comma_before(i), label + body);
        spelling::lemma_spells_both(toks, p1, label, body);
        let p2 = p1 + label.len();
        spelling::lemma_spells_both(toks, p2, spell_type(x.1), more);
        let p3 = p2 + spell_type(x.1).len();
        if i > 0 {
            assert(toks[p + 0int].kind == spelling::comma_before(i)[0]);
        }
        if i + 1 < xs.len() {
            assert(spelling::comma_before(i + 1) == spelling::mark(TokenKind::Comma));
            assert(more[0] == spelling::comma_before(i + 1)[0]);
            assert(toks[p3 + 0int].kind == more[0]);
        } else {
            assert(more.len() == 0);
        }
        lemma_type_begins(toks, p2, x.1);
        lemma_type_reads(toks, p2, x.1);
        spelling::lemma_word(toks, p1, x.0, spelling::mark(TokenKind::Colon));
        spelling::lemma_last_mark(toks, p1 + 1, TokenKind::Colon);
        assert(type_syntax::named_field_at(toks, p1) == Ok::<((Text, TypeV), nat), ParseErrorV>((x, p3)));
        lemma_named_fields_read(toks, p3, xs, i + 1);
        assert(xs.take(i as int + 1) =~= xs.take(i as int).push(x));
        if i == 0 {
            assert(xs.take(1) =~= seq![x]);
            assert(!cursor::is_at(toks, p, TokenKind::RBrace));
            assert(type_syntax::named_fields_at(toks, p) == type_syntax::named_fields_rest_at(toks, p3, xs.take(1)));
        } else {
            assert(!cursor::is_at(toks, p + 1, TokenKind::RBrace));
            assert(type_syntax::named_fields_rest_at(toks, p, xs.take(i as int)) == type_syntax::named_fields_rest_at(
                toks,
                p3,
                xs.take(i as int + 1),
            ));
        }
    }
}

/// The text of the items of a list reads as the items.
#[verifier::spinoff_prover]
#[verifier::rlimit(60)]
proof fn lemma_arrow_params_read(toks: Seq<TokenV>, p: nat, xs: Seq<(Text, TypeV)>, i: nat)
    requires
        i <= xs.len(),
        fields_written(xs),
        spelling::spells(toks, p, spell_fields(xs, i)),
        cursor::is_at(toks, p + spell_fields(xs, i).len(), TokenKind::RParen),
    ensures
        i == 0 && (xs.len() > 0 || true) ==> type_syntax::arrow_params_at(toks, p) == Ok::<(Seq<(Text, TypeV)>, nat), ParseErrorV>(
            (xs, p + spell_fields(xs, i).len()),
        ),
        i > 0 ==> type_syntax::arrow_params_rest_at(toks, p, xs.take(i as int)) == Ok::<(Seq<(Text, TypeV)>, nat), ParseErrorV>(
            (xs, p + spell_fields(xs, i).len()),
        ),
    decreases xs, xs.len() - i,
{
    reveal(cursor::kind_is);
    if i == xs.len() {
        assert(xs.take(i as int) =~= xs);
        if i == 0 {
            assert(xs =~= Seq::empty());
        }
    } else {
        let x = xs[i as int];
        let more = spell_fields(xs, i + 1);
        let p1 = p + spelling::comma_before(i).len();
        let label = spelling::spell_label(Some(x.0));
        let body = spell_type(x.1) + more;
        spelling::lemma_spells_both(toks, p, spelling::comma_before(i), label + body);
        spelling::lemma_spells_both(toks, p1, label, body);
        let p2 = p1 + label.len();
        spelling::lemma_spells_both(toks, p2, spell_type(x.1), more);
        let p3 = p2 + spell_type(x.1).len();
        if i > 0 {
            assert(toks[p + 0int].kind == spelling::comma_before(i)[0]);
        }
        if i + 1 < xs.len() {
            assert(spelling::comma_before(i + 1) == spelling::mark(TokenKind::Comma));
            assert(more[0] == spelling::comma_before(i + 1)[0]);
            assert(toks[p3 + 0int].kind == more[0]);
        } else {
            assert(more.len() == 0);
        }
        lemma_type_begins(toks, p2, x.1);
        lemma_type_reads(toks, p2, x.1);
        spelling::lemma_word(toks, p1, x.0, spelling::mark(TokenKind::Colon));
        spelling::lemma_last_mark(toks, p1 + 1, TokenKind::Colon);
        assert(type_syntax::arrow_param_at(toks, p1) == Ok::<((Text, TypeV), nat), ParseErrorV>((x, p3)));
        lemma_arrow_params_read(toks, p3, xs, i + 1);
        assert(xs.take(i as int + 1) =~= xs.take(i as int).push(x));
        if i == 0 {
            assert(xs.take(1) =~= seq![x]);
            assert(!cursor::is_at(toks, p, TokenKind::RParen));
            assert(type_syntax::arrow_params_at(toks, p) == type_syntax::arrow_params_rest_at(toks, p3, xs.take(1)));
        } else {
            assert(!cursor::is_at(toks, p + 1, TokenKind::RParen));
            assert(type_syntax::arrow_params_rest_at(toks, p, xs.take(i as int)) == type_syntax::arrow_params_rest_at(
                toks,
                p3,
                xs.take(i as int + 1),
            ));
        }
    }
}

/// The text of the items of a list reads as the items.
#[verifier::spinoff_prover]
#[verifier::rlimit(60)]
pub proof fn lemma_variant_items_read(toks: Seq<TokenV>, p: nat, xs: Seq<(Option<Text>, TypeV)>, i: nat)
    requires
        i <= xs.len(),
        variant_fields_written(xs),
        spelling::spells(toks, p, spell_variant_fields(xs, i)),
        cursor::is_at(toks, p + spell_variant_fields(xs, i).len(), TokenKind::RParen),
    ensures
        i == 0 && (xs.len() > 0 || true) ==> type_syntax::variant_items_at(toks, p) == Ok::<(Seq<(Option<Text>, TypeV)>, nat), ParseErrorV>(
            (xs, p + spell_variant_fields(xs, i).len()),
        ),
        i > 0 ==> type_syntax::variant_items_rest_at(toks, p, xs.take(i as int)) == Ok::<(Seq<(Option<Text>, TypeV)>, nat), ParseErrorV>(
            (xs, p + spell_variant_fields(xs, i).len()),
        ),
    decreases xs.len() - i,
{
    reveal(cursor::kind_is);
    if i == xs.len() {
        assert(xs.take(i as int) =~= xs);
        if i == 0 {
            assert(xs =~= Seq::empty());
        }
    } else {
        let x = xs[i as int];
        let more = spell_variant_fields(xs, i + 1);
        let p1 = p + spelling::comma_before(i).len();
        let label = spelling::spell_label(x.0);
        let body = spell_type(x.1) + more;
        spelling::lemma_spells_both(toks, p, spelling::comma_before(i), label + body);
        spelling::lemma_spells_both(toks, p1, label, body);
        let p2 = p1 + label.len();
        spelling::lemma_spells_both(toks, p2, spell_type(x.1), more);
        let p3 = p2 + spell_type(x.1).len();
        if i > 0 {
            assert(toks[p + 0int].kind == spelling::comma_before(i)[0]);
        }
        if i + 1 < xs.len() {
            assert(spelling::comma_before(i + 1) == spelling::mark(TokenKind::Comma));
            assert(more[0] == spelling::comma_before(i + 1)[0]);
            assert(toks[p3 + 0int].kind == more[0]);
        } else {
            assert(more.len() == 0);
        }
        lemma_type_begins(toks, p2, x.1);
        lemma_type_reads(toks, p2, x.1);
        match x.0 {
            Some(name) => {
                spelling::lemma_word(toks, p1, name, spelling::mark(TokenKind::Colon));
                spelling::lemma_last_mark(toks, p1 + 1, TokenKind::Colon);
                assert(type_syntax::labelled_at(toks, p1) == Some(name));
            },
            None => {
                assert(p1 == p2);
            },
        }
        assert(type_syntax::variant_field_at(toks, p1) == Ok::<((Option<Text>, TypeV), nat), ParseErrorV>((x, p3)));
        lemma_variant_items_read(toks, p3, xs, i + 1);
        assert(xs.take(i as int + 1) =~= xs.take(i as int).push(x));
        if i == 0 {
            assert(xs.take(1) =~= seq![x]);
            assert(!cursor::is_at(toks, p, TokenKind::RParen));
            assert(type_syntax::variant_items_at(toks, p) == type_syntax::variant_items_rest_at(toks, p3, xs.take(1)));
        } else {
            assert(!cursor::is_at(toks, p + 1, TokenKind::RParen));
            assert(type_syntax::variant_items_rest_at(toks, p, xs.take(i as int)) == type_syntax::variant_items_rest_at(
                toks,
                p3,
                xs.take(i as int + 1),
            ));
        }
    }
}

/// The text of the items of a list reads as the items.
#[verifier::spinoff_prover]
#[verifier::rlimit(60)]
pub proof fn lemma_param_items_read(toks: Seq<TokenV>, p: nat, xs: Seq<ParamV>, i: nat)
    requires
        i <= xs.len(),
        params_written(xs),
        spelling::spells(toks, p, spell_params(xs, i)),
        cursor::is_at(toks, p + spell_params(xs, i).len(), TokenKind::RParen),
    ensures
        i == 0 && (xs.len() > 0 || true) ==> type_syntax::param_items_at(toks, p) == Ok::<(Seq<ParamV>, nat), ParseErrorV>(
            (xs, p + spell_params(xs, i).len()),
        ),
        i > 0 ==> type_syntax::param_items_rest_at(toks, p, xs.take(i as int)) == Ok::<(Seq<ParamV>, nat), ParseErrorV>(
            (xs, p + spell_params(xs, i).len()),
        ),
    decreases xs.len() - i,
{
    reveal(cursor::kind_is);
    if i == xs.len() {
        assert(xs.take(i as int) =~= xs);
        if i == 0 {
            assert(xs =~= Seq::empty());
        }
    } else {
        let x = xs[i as int];
        let more = spell_params(xs, i + 1);
        let p1 = p + spelling::comma_before(i).len();
        let label = (spelling::spell_sigil(x.sigil) + (spelling::word(x.name) + spelling::mark(TokenKind::Colon)));
        let body = spell_type(x.typ) + more;
        spelling::lemma_spells_both(toks, p, spelling::comma_before(i), label + body);
        spelling::lemma_spells_both(toks, p1, label, body);
        let p2 = p1 + label.len();
        spelling::lemma_spells_both(toks, p2, spell_type(x.typ), more);
        let p3 = p2 + spell_type(x.typ).len();
        if i > 0 {
            assert(toks[p + 0int].kind == spelling::comma_before(i)[0]);
        }
        if i + 1 < xs.len() {
            assert(spelling::comma_before(i + 1) == spelling::mark(TokenKind::Comma));
            assert(more[0] == spelling::comma_before(i + 1)[0]);
            assert(toks[p3 + 0int].kind == more[0]);
        } else {
            assert(more.len() == 0);
        }
        lemma_type_begins(toks, p2, x.typ);
        lemma_type_reads(toks, p2, x.typ);
        reveal(type_syntax::param_at);
        reading_laws::lemma_sigil(toks, p1, x.sigil, x.name, spelling::mark(TokenKind::Colon));
        spelling::lemma_last_mark(toks, p1 + spelling::spell_sigil(x.sigil).len() + 1, TokenKind::Colon);
        if !(x.sigil is Immutable) {
            assert(label[0] == spelling::spell_sigil(x.sigil)[0]);
            assert(toks[p1 + 0int].kind == label[0]);
        }
        assert(type_syntax::param_at(toks, p1) == Ok::<(ParamV, nat), ParseErrorV>((x, p3)));
        lemma_param_items_read(toks, p3, xs, i + 1);
        assert(xs.take(i as int + 1) =~= xs.take(i as int).push(x));
        if i == 0 {
            assert(xs.take(1) =~= seq![x]);
            assert(!cursor::is_at(toks, p, TokenKind::RParen));
            assert(type_syntax::param_items_at(toks, p) == type_syntax::param_items_rest_at(toks, p3, xs.take(1)));
        } else {
            assert(!cursor::is_at(toks, p + 1, TokenKind::RParen));
            assert(type_syntax::param_items_rest_at(toks, p, xs.take(i as int)) == type_syntax::param_items_rest_at(
                toks,
                p3,
                xs.take(i as int + 1),
            ));
        }
    }
}

// ---------------------------------------------------------------------------
// Signatures
// ---------------------------------------------------------------------------

/// Whether a signature ends at a position.
pub open spec fn signature_ends_at(toks: Seq<TokenV>, q: nat) -> bool {
    &&& q < toks.len()
    &&& !cursor::is_at(toks, q, TokenKind::Lt)
    &&& !cursor::is_at(toks, q, TokenKind::Require)
    &&& !cursor::is_at(toks, q, TokenKind::Throws)
    &&& !cursor::is_at(toks, q, TokenKind::Colon)
}

/// The text of a signature reads as the signature.
#[verifier::spinoff_prover]
#[verifier::rlimit(60)]
pub proof fn lemma_signature_reads(
    toks: Seq<TokenV>,
    p: nat,
    ps: Seq<ParamV>,
    ret: TypeV,
    reqs: TypeV,
    throws: TypeV,
)
    requires
        signature_written(ps, ret, reqs, throws),
        spelling::spells(toks, p, spell_signature(ps, ret, reqs, throws)),
        signature_ends_at(toks, p + spell_signature(ps, ret, reqs, throws).len()),
    ensures
        type_syntax::signature_at(toks, p) == Ok::<((Seq<ParamV>, TypeV, TypeV, TypeV), nat), ParseErrorV>(
            ((ps, ret, reqs, throws), p + spell_signature(ps, ret, reqs, throws).len()),
        ),
{
    reveal(cursor::kind_is);
    reveal(type_syntax::signature_at);
    reveal(type_syntax::params_at);
    let inner = spell_params(ps, 0);
    let r = spell_type(ret);
    let c1 = spell_clause(TokenKind::Require, reqs);
    let c2 = spell_clause(TokenKind::Throws, throws);
    let t3 = r + (c1 + c2);
    let t2 = spelling::mark(TokenKind::Arrow) + t3;
    let t1 = spelling::mark(TokenKind::RParen) + t2;
    spelling::lemma_mark(toks, p, TokenKind::LParen, inner + t1);
    spelling::lemma_spells_both(toks, p + 1, inner, t1);
    let p1 = p + 1 + inner.len();
    spelling::lemma_mark(toks, p1, TokenKind::RParen, t2);
    spelling::lemma_mark(toks, p1 + 1, TokenKind::Arrow, t3);
    spelling::lemma_spells_both(toks, p1 + 2, r, c1 + c2);
    let p2 = p1 + 2 + r.len();
    spelling::lemma_spells_both(toks, p2, c1, c2);
    lemma_param_items_read(toks, p + 1, ps, 0);
    lemma_clauses_read(toks, p2, reqs, throws);
    lemma_type_reads(toks, p1 + 2, ret);
    assert(type_syntax::params_at(toks, p) == Ok::<(Seq<ParamV>, nat), ParseErrorV>((ps, p1 + 1)));
}

/// What a handler requires reads as it, before the mark that opens the handler.
pub proof fn lemma_require_reads(toks: Seq<TokenV>, p: nat, reqs: TypeV)
    requires
        clause_written(reqs),
        spelling::spells(toks, p, spell_clause(TokenKind::Require, reqs)),
        cursor::is_at(toks, p + spell_clause(TokenKind::Require, reqs).len(), TokenKind::Do),
    ensures
        type_syntax::require_clause_at(toks, p) == Ok::<(TypeV, nat), ParseErrorV>(
            (reqs, p + spell_clause(TokenKind::Require, reqs).len()),
        ),
{
    reveal(cursor::kind_is);
    if reqs == helpers::empty_row() {
        assert(spell_clause(TokenKind::Require, reqs).len() == 0);
    } else {
        spelling::lemma_mark(toks, p, TokenKind::Require, spell_type(reqs));
        lemma_clause_reads(toks, p + 1, reqs);
    }
}

/// The text of type parameters reads as the parameters.
pub proof fn lemma_type_params_read(toks: Seq<TokenV>, p: nat, ns: Seq<Text>)
    requires
        names_written(ns),
        spelling::spells(toks, p, spell_type_params(ns)),
        ns.len() == 0 ==> !cursor::is_at(toks, p, TokenKind::Lt),
    ensures
        type_syntax::type_params_at(toks, p) == Ok::<(Seq<Text>, nat), ParseErrorV>(
            (ns, p + spell_type_params(ns).len()),
        ),
{
    reveal(cursor::kind_is);
    reveal(type_syntax::type_params_at);
    if ns.len() == 0 {
        assert(ns =~= Seq::empty());
    } else {
        let inner = spelling::spell_names(ns, 0);
        spelling::lemma_mark(toks, p, TokenKind::Lt, inner + spelling::mark(TokenKind::Gt));
        spelling::lemma_spells_both(toks, p + 1, inner, spelling::mark(TokenKind::Gt));
        spelling::lemma_last_mark(toks, p + 1 + inner.len(), TokenKind::Gt);
        lemma_plain_names_read(toks, p + 1, ns, 0);
    }
}

/// The text of names reads as the names.
proof fn lemma_plain_names_read(toks: Seq<TokenV>, p: nat, ns: Seq<Text>, i: nat)
    requires
        i <= ns.len(),
        ns.len() > 0,
        names_written(ns),
        spelling::spells(toks, p, spelling::spell_names(ns, i)),
        cursor::is_at(toks, p + spelling::spell_names(ns, i).len(), TokenKind::Gt),
    ensures
        i == 0 ==> type_syntax::names_at(toks, p) == Ok::<(Seq<Text>, nat), ParseErrorV>(
            (ns, p + spelling::spell_names(ns, i).len()),
        ),
        i > 0 ==> type_syntax::names_rest_at(toks, p, ns.take(i as int)) == Ok::<(Seq<Text>, nat), ParseErrorV>(
            (ns, p + spelling::spell_names(ns, i).len()),
        ),
    decreases ns.len() - i,
{
    reveal(cursor::kind_is);
    if i == ns.len() {
        assert(ns.take(i as int) =~= ns);
    } else {
        let name = ns[i as int];
        let more = spelling::spell_names(ns, i + 1);
        spelling::lemma_spells_both(toks, p, spelling::comma_before(i), spelling::word(name) + more);
        let p1 = p + spelling::comma_before(i).len();
        if i > 0 {
            assert(toks[p + 0int].kind == spelling::comma_before(i)[0]);
        }
        spelling::lemma_word(toks, p1, name, more);
        assert(cursor::ident_at(toks, p1) == Ok::<(Text, nat), ParseErrorV>((name, p1 + 1)));
        lemma_plain_names_read(toks, p1 + 1, ns, i + 1);
        assert(ns.take(i as int + 1) =~= ns.take(i as int).push(name));
        if i == 0 {
            assert(ns.take(1) =~= seq![name]);
        }
    }
}

// ---------------------------------------------------------------------------
// The laws
// ---------------------------------------------------------------------------

/// The tokens of a type, where nothing follows that would go on with it, read as the type.
pub proof fn law_type_reads_back(toks: Seq<TokenV>, p: nat, t: TypeV)
    requires
        type_written(t),
        spelling::spells(toks, p, spell_type(t)),
        type_ends_at(toks, p + spell_type(t).len(), t),
        !cursor::is_at(toks, p + spell_type(t).len(), TokenKind::Colon),
    ensures
        type_syntax::type_at(toks, p) == Ok::<(TypeV, nat), ParseErrorV>((t, p + spell_type(t).len())),
{
    lemma_type_reads(toks, p, t);
}

/// The tokens of a signature read as its parameters, its result and its clauses.
pub proof fn law_signature_reads_back(
    toks: Seq<TokenV>,
    p: nat,
    ps: Seq<ParamV>,
    ret: TypeV,
    reqs: TypeV,
    throws: TypeV,
)
    requires
        signature_written(ps, ret, reqs, throws),
        spelling::spells(toks, p, spell_signature(ps, ret, reqs, throws)),
        signature_ends_at(toks, p + spell_signature(ps, ret, reqs, throws).len()),
    ensures
        type_syntax::signature_at(toks, p) == Ok::<((Seq<ParamV>, TypeV, TypeV, TypeV), nat), ParseErrorV>(
            ((ps, ret, reqs, throws), p + spell_signature(ps, ret, reqs, throws).len()),
        ),
{
    lemma_signature_reads(toks, p, ps, ret, reqs, throws);
}

} // verus!
