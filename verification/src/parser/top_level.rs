//! Definitions and programs.

use crate::ast;
use crate::ast::{
    EnumDefV, ExceptionDef, ExceptionDefV, Expr, ExprV, FunctionSignature, GlobalLet, GlobalLetV,
    Import, ImportItem, ImportItemV, ImportV, Port, PortV, SignatureV, TopLevel, TopLevelV,
    TypeDef, TypeDefV, VariantDefV,
};
use crate::lexer;
use crate::lexer::{Token, TokenKind, TokenV};
use crate::parser::cursor;
use crate::parser::cursor::{
    ParseError, ParseErrorV, Parsed, at_word, expect, expect_contextual, expect_ident,
    is_uppercase_ident, next_is, next_string, unexpected_error,
};
use crate::parser::expr_syntax;
use crate::parser::expr_syntax::parse_expr;
use crate::parser::type_syntax;
use crate::parser::type_syntax::{
    add_also_tried, parse_named_fields, parse_signature, parse_type, parse_type_params,
    parse_variant_fields,
};
use crate::text;
use crate::text::{Text, owned};
use crate::types;
use crate::types::{EnumDef, Span, Spanned, Type, TypeV, VariantDef};
use vstd::prelude::*;

verus! {

/// The models of a list of imported names.
pub open spec fn import_items_view(v: Seq<ImportItem>) -> Seq<ImportItemV> {
    v.map_values(|i: ImportItem| i@)
}

/// The models of a list of signatures.
pub open spec fn signatures_view(v: Seq<FunctionSignature>) -> Seq<SignatureV> {
    v.map_values(|s: FunctionSignature| s@)
}

/// A constructor and its fields.
#[verifier::opaque]
pub open spec fn variant_def_at(toks: Seq<TokenV>, p: nat) -> Parsed<VariantDefV> {
    match cursor::ident_at(toks, p) {
        Err(e) => Err(e),
        Ok((name, q1)) => {
            match type_syntax::variant_fields_at(toks, q1) {
                Err(e) => Err(e),
                Ok((fields, q2)) => {
                    Ok((VariantDefV { name, fields }, q2))
                },
            }
        },
    }
}

/// The fields of a record type, in braces.
#[verifier::opaque]
pub open spec fn record_body_at(toks: Seq<TokenV>, p: nat) -> Parsed<Seq<(Text, TypeV)>> {
    match cursor::expected(toks, p, TokenKind::LBrace) {
        Err(e) => Err(e),
        Ok(q1) => {
            match type_syntax::named_fields_at(toks, q1) {
                Err(e) => Err(e),
                Ok((fields, q2)) => {
                    match cursor::expected(toks, q2, TokenKind::RBrace) {
                        Err(e) => Err(e),
                        Ok(q3) => {
                            Ok((fields, q3))
                        },
                    }
                },
            }
        },
    }
}

/// The constructors behind the first ones, `acc`, each behind a bar.
pub open spec fn variants_rest_at(toks: Seq<TokenV>, p: nat, acc: Seq<VariantDefV>) -> Parsed<
    Seq<VariantDefV>,
>
    decreases cursor::left(toks, p),
{
    if cursor::is_at(toks, p, TokenKind::Pipe) {
        match variant_def_at(toks, p + 1) {
            Err(e) => Err(e),
            Ok((v, r)) => variants_rest_at(toks, cursor::ahead(p, r), acc.push(v)),
        }
    } else {
        Ok((acc, p))
    }
}

/// The constructors of a sum type. Where a record was tried before, the report about the first
/// of them says so.
pub open spec fn variants_at(toks: Seq<TokenV>, p: nat, tried: Option<ParseErrorV>) -> Parsed<
    Seq<VariantDefV>,
> {
    match variant_def_at(toks, p) {
        Err(e) => match tried {
            Some(a) => Err(type_syntax::also_tried(e, "record type"@, a)),
            None => Err(e),
        },
        Ok((v, r)) => variants_rest_at(toks, cursor::ahead(p, r), seq![v]),
    }
}

/// A type definition: a record, or a sum type.
#[verifier::opaque]
pub open spec fn type_def_at(toks: Seq<TokenV>, p: nat, is_public: bool, is_opaque: bool) -> Parsed<
    TopLevelV,
> {
    match type_head_at(toks, p) {
        Err(e) => Err(e),
        Ok(((name, type_params), q)) => {
            let body = if cursor::is_at(toks, q, TokenKind::LBrace) {
                record_body_at(toks, q)
            } else {
                Err(cursor::parse_error(Seq::empty(), cursor::span_at(toks, q)))
            };
            match body {
                Ok((fields, r)) => Ok(
                    (
                        TopLevelV::TypeDef(
                            TypeDefV { name, is_public, type_params, fields },
                        ),
                        r,
                    ),
                ),
                Err(a) => {
                    let tried = if cursor::is_at(toks, q, TokenKind::LBrace) {
                        Some(a)
                    } else {
                        None
                    };
                    match variants_at(toks, q, tried) {
                        Err(e) => Err(e),
                        Ok((variants, r)) => Ok(
                            (
                                TopLevelV::Enum(
                                    EnumDefV {
                                        name,
                                        is_public,
                                        is_opaque,
                                        type_params,
                                        variants,
                                    },
                                ),
                                r,
                            ),
                        ),
                    }
                },
            }
        },
    }
}

/// The name and the type parameters of a type definition, up to its body.
#[verifier::opaque]
pub open spec fn type_head_at(toks: Seq<TokenV>, p: nat) -> Parsed<(Text, Seq<Text>)> {
    match cursor::expected(toks, p, TokenKind::Type) {
        Err(e) => Err(e),
        Ok(q1) => {
            match cursor::ident_at(toks, q1) {
                Err(e) => Err(e),
                Ok((name, q2)) => {
                    match type_syntax::type_params_at(toks, q2) {
                        Err(e) => Err(e),
                        Ok((type_params, q3)) => {
                            match cursor::expected(toks, q3, TokenKind::Eq) {
                                Err(e) => Err(e),
                                Ok(q4) => {
                                    Ok(((name, type_params), q4))
                                },
                            }
                        },
                    }
                },
            }
        },
    }
}

/// The model of an optional report.
pub open spec fn opt_error(o: Option<ParseError>) -> Option<ParseErrorV> {
    match o {
        Some(e) => Some(e@),
        None => None,
    }
}

/// An exception, whose name begins with an uppercase letter.
#[verifier::opaque]
pub open spec fn exception_def_at(toks: Seq<TokenV>, p: nat, is_public: bool) -> Parsed<TopLevelV> {
    match cursor::expected(toks, p, TokenKind::Exception) {
        Err(e) => Err(e),
        Ok(q1) => {
            let at = cursor::span_at(toks, q1);
            match cursor::ident_at(toks, q1) {
                Err(e) => Err(e),
                Ok((name, q2)) => {
                    if cursor::begins_uppercase(name) {
                        match type_syntax::variant_fields_at(toks, q2) {
                            Err(e) => Err(e),
                            Ok((fields, q3)) => {
                                Ok((TopLevelV::Exception(ExceptionDefV { name, is_public, fields }), q3))
                            },
                        }
                    } else {
                        Err(cursor::parse_error("exception constructor must start with uppercase letter"@, at))
                    }
                },
            }
        },
    }
}

/// The path of an import, a string literal.
pub open spec fn import_path_at(toks: Seq<TokenV>, p: nat) -> Parsed<Text> {
    match cursor::string_at(toks, p) {
        Some(s) => Ok((s, p + 1)),
        None => Err(
            cursor::parse_error(
                "expected quoted import path (e.g. \"stdlib/foo.nx\")"@,
                cursor::span_at(toks, p),
            ),
        ),
    }
}

/// The symbol of an external binding, a string literal.
pub open spec fn symbol_name_at(toks: Seq<TokenV>, p: nat) -> Parsed<Text> {
    match cursor::string_at(toks, p) {
        Some(s) => Ok((s, p + 1)),
        None => Err(
            cursor::parse_error("expected string literal for external symbol"@, cursor::span_at(toks, p)),
        ),
    }
}

/// An imported name, with the name it gets here.
#[verifier::opaque]
pub open spec fn import_item_at(toks: Seq<TokenV>, p: nat) -> Parsed<ImportItemV> {
    match cursor::ident_at(toks, p) {
        Err(e) => Err(e),
        Ok((name, q1)) => {
            if cursor::is_word(toks, q1, "as"@) {
                let q2: nat = q1 + 1;
                match cursor::ident_at(toks, q2) {
                    Err(e) => Err(e),
                    Ok((alias, q3)) => {
                        Ok((ImportItemV { name, alias: Some(alias) }, q3))
                    },
                }
            } else {
                Ok((ImportItemV { name, alias: None }, q1))
            }
        },
    }
}

/// Imported names, separated by commas, up to a closing brace.
pub open spec fn import_items_at(toks: Seq<TokenV>, p: nat) -> Parsed<Seq<ImportItemV>> {
    if cursor::is_at(toks, p, TokenKind::RBrace) {
        Ok((Seq::empty(), p))
    } else {
        match import_item_at(toks, p) {
            Err(e) => Err(e),
            Ok((v, r)) => import_items_rest_at(toks, cursor::ahead(p, r), seq![v]),
        }
    }
}

/// What follows the first items of such a list, `acc`.
pub open spec fn import_items_rest_at(toks: Seq<TokenV>, p: nat, acc: Seq<ImportItemV>) -> Parsed<Seq<ImportItemV>>
    decreases cursor::left(toks, p),
{
    if cursor::is_at(toks, p, TokenKind::Comma) {
        if cursor::is_at(toks, p + 1, TokenKind::RBrace) {
            Ok((acc, p + 1))
        } else {
            match import_item_at(toks, p + 1) {
                Err(e) => Err(e),
                Ok((v, r)) => import_items_rest_at(toks, cursor::ahead(p, r), acc.push(v)),
            }
        }
    } else {
        Ok((acc, p))
    }
}

/// An import of an external module.
#[verifier::opaque]
pub open spec fn import_external_at(toks: Seq<TokenV>, p: nat) -> Parsed<TopLevelV> {
    match cursor::expected(toks, p, TokenKind::External) {
        Err(e) => Err(e),
        Ok(q1) => {
            match import_path_at(toks, q1) {
                Err(e) => Err(e),
                Ok((path, q2)) => {
                    let none = Seq::<ImportItemV>::empty();
                    Ok((TopLevelV::Import(ImportV { path, alias: None, items: none, is_external: true }), q2))
                },
            }
        },
    }
}

/// An import of names, and of the module under an alias.
#[verifier::opaque]
pub open spec fn import_names_at(toks: Seq<TokenV>, p: nat) -> Parsed<TopLevelV> {
    match cursor::expected(toks, p, TokenKind::LBrace) {
        Err(e) => Err(e),
        Ok(q1) => {
            match import_items_at(toks, q1) {
                Err(e) => Err(e),
                Ok((items, q2)) => {
                    match cursor::expected(toks, q2, TokenKind::RBrace) {
                        Err(e) => Err(e),
                        Ok(q3) => {
                            if cursor::is_at(toks, q3, TokenKind::Comma) {
                                let q4: nat = q3 + 1;
                                match cursor::expected(toks, q4, TokenKind::Star) {
                                    Err(e) => Err(e),
                                    Ok(q5) => {
                                        match cursor::word_expected(toks, q5, "as"@) {
                                            Err(e) => Err(e),
                                            Ok(q6) => {
                                                match cursor::ident_at(toks, q6) {
                                                    Err(e) => Err(e),
                                                    Ok((alias, q7)) => {
                                                        match cursor::expected(toks, q7, TokenKind::From) {
                                                            Err(e) => Err(e),
                                                            Ok(q8) => {
                                                                match import_path_at(toks, q8) {
                                                                    Err(e) => Err(e),
                                                                    Ok((path, q9)) => {
                                                                        Ok((TopLevelV::Import(ImportV { path, alias: Some(alias), items: items, is_external: false }), q9))
                                                                    },
                                                                }
                                                            },
                                                        }
                                                    },
                                                }
                                            },
                                        }
                                    },
                                }
                            } else {
                                match cursor::expected(toks, q3, TokenKind::From) {
                                    Err(e) => Err(e),
                                    Ok(q10) => {
                                        match import_path_at(toks, q10) {
                                            Err(e) => Err(e),
                                            Ok((path, q11)) => {
                                                Ok((TopLevelV::Import(ImportV { path, alias: None, items: items, is_external: false }), q11))
                                            },
                                        }
                                    },
                                }
                            }
                        },
                    }
                },
            }
        },
    }
}

/// An import of a module under an alias.
#[verifier::opaque]
pub open spec fn import_all_at(toks: Seq<TokenV>, p: nat) -> Parsed<TopLevelV> {
    match cursor::expected(toks, p, TokenKind::Star) {
        Err(e) => Err(e),
        Ok(q1) => {
            match cursor::word_expected(toks, q1, "as"@) {
                Err(e) => Err(e),
                Ok(q2) => {
                    match cursor::ident_at(toks, q2) {
                        Err(e) => Err(e),
                        Ok((alias, q3)) => {
                            match cursor::expected(toks, q3, TokenKind::From) {
                                Err(e) => Err(e),
                                Ok(q4) => {
                                    match import_path_at(toks, q4) {
                                        Err(e) => Err(e),
                                        Ok((path, q5)) => {
                                            let none = Seq::<ImportItemV>::empty();
                                            Ok((TopLevelV::Import(ImportV { path, alias: Some(alias), items: none, is_external: false }), q5))
                                        },
                                    }
                                },
                            }
                        },
                    }
                },
            }
        },
    }
}

/// An import.
#[verifier::opaque]
pub open spec fn import_def_at(toks: Seq<TokenV>, p: nat) -> Parsed<TopLevelV> {
    match cursor::expected(toks, p, TokenKind::Import) {
        Err(e) => Err(e),
        Ok(q1) => {
            if cursor::is_at(toks, q1, TokenKind::External) {
                import_external_at(toks, q1)
            } else {
                if cursor::is_at(toks, q1, TokenKind::LBrace) {
                    import_names_at(toks, q1)
                } else {
                    if cursor::is_at(toks, q1, TokenKind::Star) {
                        import_all_at(toks, q1)
                    } else {
                        Err(cursor::parse_error(cursor::unexpected(toks, q1, "import form"@).message, cursor::span_at(toks, q1)))
                    }
                }
            }
        },
    }
}

/// A function of a port.
#[verifier::opaque]
pub open spec fn port_function_at(toks: Seq<TokenV>, p: nat) -> Parsed<SignatureV> {
    match cursor::expected(toks, p, TokenKind::Fn) {
        Err(e) => Err(e),
        Ok(q1) => {
            match cursor::ident_at(toks, q1) {
                Err(e) => Err(e),
                Ok((name, q2)) => {
                    match type_syntax::signature_at(toks, q2) {
                        Err(e) => Err(e),
                        Ok(((params, ret_type, reqs, throws), q3)) => {
                            Ok((SignatureV { name, params, ret_type, requires: reqs, throws }, q3))
                        },
                    }
                },
            }
        },
    }
}

/// The functions of a port, behind those of `acc`.
pub open spec fn port_functions_at(toks: Seq<TokenV>, p: nat, acc: Seq<SignatureV>) -> Parsed<Seq<SignatureV>>
    decreases cursor::left(toks, p),
{
    if cursor::is_at(toks, p, TokenKind::Fn) {
        match port_function_at(toks, p) {
            Err(e) => Err(e),
            Ok((v, r)) => port_functions_at(toks, cursor::ahead(p, r), acc.push(v)),
        }
    } else {
        Ok((acc, p))
    }
}

/// A port and its functions.
#[verifier::opaque]
pub open spec fn port_def_at(toks: Seq<TokenV>, p: nat, is_public: bool) -> Parsed<TopLevelV> {
    match cursor::expected(toks, p, TokenKind::Port) {
        Err(e) => Err(e),
        Ok(q1) => {
            match cursor::ident_at(toks, q1) {
                Err(e) => Err(e),
                Ok((name, q2)) => {
                    match cursor::expected(toks, q2, TokenKind::Do) {
                        Err(e) => Err(e),
                        Ok(q3) => {
                            match port_functions_at(toks, q3, Seq::empty()) {
                                Err(e) => Err(e),
                                Ok((functions, q4)) => {
                                    match cursor::expected(toks, q4, TokenKind::End) {
                                        Err(e) => Err(e),
                                        Ok(q5) => {
                                            Ok((TopLevelV::Port(PortV { name, is_public, functions }), q5))
                                        },
                                    }
                                },
                            }
                        },
                    }
                },
            }
        },
    }
}

/// An external binding: its symbol and its type.
#[verifier::opaque]
pub open spec fn external_def_at(toks: Seq<TokenV>, p: nat, is_public: bool) -> Parsed<TopLevelV> {
    let start = cursor::start_at(toks, p);
    match cursor::expected(toks, p, TokenKind::External) {
        Err(e) => Err(e),
        Ok(q1) => {
            match cursor::ident_at(toks, q1) {
                Err(e) => Err(e),
                Ok((name, q2)) => {
                    match cursor::expected(toks, q2, TokenKind::Eq) {
                        Err(e) => Err(e),
                        Ok(q3) => {
                            match symbol_name_at(toks, q3) {
                                Err(e) => Err(e),
                                Ok((symbol, q4)) => {
                                    match cursor::expected(toks, q4, TokenKind::Colon) {
                                        Err(e) => Err(e),
                                        Ok(q5) => {
                                            match type_syntax::type_params_at(toks, q5) {
                                                Err(e) => Err(e),
                                                Ok((type_params, q6)) => {
                                                    match type_syntax::type_at(toks, q6) {
                                                        Err(e) => Err(e),
                                                        Ok((typ, q7)) => {
                                                            let end = cursor::end_before(toks, q7);
                                                            Ok((TopLevelV::Let(GlobalLetV { name, is_public, typ: Some(typ), value: Spanned { node: ExprV::External(symbol, type_params, typ), span: cursor::span_between(start, end) } }), q7))
                                                        },
                                                    }
                                                },
                                            }
                                        },
                                    }
                                },
                            }
                        },
                    }
                },
            }
        },
    }
}

/// A binding.
#[verifier::opaque]
pub open spec fn global_let_at(toks: Seq<TokenV>, p: nat, is_public: bool) -> Parsed<TopLevelV> {
    match cursor::expected(toks, p, TokenKind::Let) {
        Err(e) => Err(e),
        Ok(q1) => {
            match cursor::ident_at(toks, q1) {
                Err(e) => Err(e),
                Ok((name, q2)) => {
                    if cursor::is_at(toks, q2, TokenKind::Colon) {
                        let q3: nat = q2 + 1;
                        match type_syntax::type_at(toks, q3) {
                            Err(e) => Err(e),
                            Ok((typ, q4)) => {
                                match cursor::expected(toks, q4, TokenKind::Eq) {
                                    Err(e) => Err(e),
                                    Ok(q5) => {
                                        match expr_syntax::expr_at(toks, q5) {
                                            Err(e) => Err(e),
                                            Ok((value, q6)) => {
                                                Ok((TopLevelV::Let(GlobalLetV { name, is_public, typ: Some(typ), value }), q6))
                                            },
                                        }
                                    },
                                }
                            },
                        }
                    } else {
                        match cursor::expected(toks, q2, TokenKind::Eq) {
                            Err(e) => Err(e),
                            Ok(q7) => {
                                match expr_syntax::expr_at(toks, q7) {
                                    Err(e) => Err(e),
                                    Ok((value, q8)) => {
                                        Ok((TopLevelV::Let(GlobalLetV { name, is_public, typ: None, value }), q8))
                                    },
                                }
                            },
                        }
                    }
                },
            }
        },
    }
}

/// A public definition, behind its `export`.
#[verifier::opaque]
pub open spec fn exported_at(toks: Seq<TokenV>, p: nat) -> Parsed<TopLevelV> {
    if cursor::is_word(toks, p, "opaque"@) {
        let q1: nat = p + 1;
        type_def_at(toks, q1, true, true)
    } else {
        if cursor::is_at(toks, p, TokenKind::Type) {
            type_def_at(toks, p, true, false)
        } else {
            if cursor::is_at(toks, p, TokenKind::Exception) {
                exception_def_at(toks, p, true)
            } else {
                if cursor::is_at(toks, p, TokenKind::Port) {
                    port_def_at(toks, p, true)
                } else {
                    if cursor::is_at(toks, p, TokenKind::External) {
                        external_def_at(toks, p, true)
                    } else {
                        if cursor::is_at(toks, p, TokenKind::Let) {
                            global_let_at(toks, p, true)
                        } else {
                            Err(cursor::parse_error(cursor::unexpected(toks, p, "definition after 'export'"@).message, cursor::span_at(toks, p)))
                        }
                    }
                }
            }
        }
    }
}

/// A definition.
#[verifier::opaque]
pub open spec fn top_level_at(toks: Seq<TokenV>, p: nat) -> Parsed<TopLevelV> {
    if cursor::is_at(toks, p, TokenKind::Export) {
        let q1: nat = p + 1;
        exported_at(toks, q1)
    } else {
        if cursor::is_word(toks, p, "opaque"@) {
            let q2: nat = p + 1;
            type_def_at(toks, q2, false, true)
        } else {
            if cursor::is_at(toks, p, TokenKind::Type) {
                type_def_at(toks, p, false, false)
            } else {
                if cursor::is_at(toks, p, TokenKind::Exception) {
                    exception_def_at(toks, p, false)
                } else {
                    if cursor::is_at(toks, p, TokenKind::Import) {
                        import_def_at(toks, p)
                    } else {
                        if cursor::is_at(toks, p, TokenKind::Port) {
                            port_def_at(toks, p, false)
                        } else {
                            if cursor::is_at(toks, p, TokenKind::External) {
                                external_def_at(toks, p, false)
                            } else {
                                if cursor::is_at(toks, p, TokenKind::Let) {
                                    global_let_at(toks, p, false)
                                } else {
                                    Err(cursor::parse_error(cursor::unexpected(toks, p, "top-level definition"@).message, cursor::span_at(toks, p)))
                                }
                            }
                        }
                    }
                }
            }
        }
    }
}

/// A definition and its place.
#[verifier::opaque]
pub open spec fn definition_at(toks: Seq<TokenV>, p: nat) -> Parsed<Spanned<TopLevelV>> {
    let start = cursor::start_at(toks, p);
    match top_level_at(toks, p) {
        Err(e) => Err(e),
        Ok((node, q1)) => {
            let end = cursor::end_before(toks, q1);
            Ok((Spanned { node, span: cursor::span_between(start, end) }, q1))
        },
    }
}

/// The definitions of a program up to the end of the source, behind those of `acc`.
pub open spec fn definitions_at(toks: Seq<TokenV>, p: nat, acc: Seq<Spanned<TopLevelV>>) -> Parsed<Seq<Spanned<TopLevelV>>>
    decreases cursor::left(toks, p),
{
    if p < toks.len() && !cursor::is_at(toks, p, TokenKind::Eof) {
        match definition_at(toks, p) {
            Err(e) => Err(e),
            Ok((v, r)) => definitions_at(toks, cursor::ahead(p, r), acc.push(v)),
        }
    } else {
        Ok((acc, p))
    }
}

/// Whether tokens come one behind the other.
pub open spec fn tokens_in_order(toks: Seq<TokenV>) -> bool {
    &&& forall|i: int|
        0 <= i < toks.len() ==> (#[trigger] toks[i]).span.start <= toks[i].span.end
    &&& forall|i: int, j: int|
        0 <= i < j < toks.len() ==> (#[trigger] toks[i]).span.end <= (#[trigger] toks[j]).span.start
}

/// Whether definitions come one behind the other, all before an offset.
pub open spec fn definitions_in_order(defs: Seq<Spanned<TopLevelV>>, end: nat) -> bool {
    &&& forall|i: int|
        0 <= i < defs.len() ==> (#[trigger] defs[i]).span.start <= defs[i].span.end <= end
    &&& forall|i: int, j: int|
        0 <= i < j < defs.len() ==> (#[trigger] defs[i]).span.end <= (#[trigger] defs[j]).span.start
}

proof fn lemma_definition_in_order(
    toks: Seq<TokenV>,
    p: nat,
    q: nat,
    acc: Seq<Spanned<TopLevelV>>,
    def: Spanned<TopLevelV>,
)
    requires
        p < q < toks.len(),
        definition_at(toks, p) == Ok::<(Spanned<TopLevelV>, nat), ParseErrorV>((def, q)),
        tokens_in_order(toks),
        definitions_in_order(acc, toks[p as int].span.start as nat),
    ensures
        definitions_in_order(acc.push(def), toks[q as int].span.start as nat),
{
    reveal(definition_at);
    let last = toks[q - 1];
    assert(toks[p as int].span.start <= last.span.end) by {
        if p < q - 1 {
            assert(toks[p as int].span.end <= last.span.start);
        }
    }
    assert(last.span.end <= toks[q as int].span.start);
    let all = acc.push(def);
    assert(def.span.start == toks[p as int].span.start && def.span.end == last.span.end);
    assert forall|i: int| 0 <= i < all.len() implies (#[trigger] all[i]).span.start
        <= all[i].span.end <= toks[q as int].span.start by {
        if i < acc.len() {
            assert(all[i] == acc[i]);
        }
    }
    assert forall|i: int, j: int| 0 <= i < j < all.len() implies (#[trigger] all[i]).span.end
        <= (#[trigger] all[j]).span.start by {
        assert(all[i] == acc[i]);
        if j < acc.len() {
            assert(all[j] == acc[j]);
        }
    }
}

// ---------------------------------------------------------------------------
// Reading definitions
// ---------------------------------------------------------------------------

fn parse_variant_def(toks: &Vec<Token>, p: usize) -> (r: Result<(VariantDef, usize), ParseError>)
    requires
        lexer::well_ended(toks@),
        p < toks.len(),
    ensures
        match r {
            Ok((v, q)) => {
                &&& variant_def_at(lexer::tokens_view(toks@), p as nat) == Ok::<
                    (VariantDefV, nat),
                    ParseErrorV,
                >((v@, q as nat))
                &&& p < q < toks.len()
            },
            Err(e) => variant_def_at(lexer::tokens_view(toks@), p as nat) == Err::<
                (VariantDefV, nat),
                ParseErrorV,
            >(e@),
        },
{
    proof {
        reveal(variant_def_at);
    }
    let (name, p) = expect_ident(toks, p)?;
    let (fields, p) = parse_variant_fields(toks, p)?;
    Ok((VariantDef { name, fields }, p))
}

fn try_parse_record_body(toks: &Vec<Token>, p: usize) -> (r: Result<(Vec<(String, Type)>, usize), ParseError>)
    requires
        lexer::well_ended(toks@),
        p < toks.len(),
    ensures
        match r {
            Ok((v, q)) => {
                &&& record_body_at(lexer::tokens_view(toks@), p as nat) == Ok::<
                    (Seq<(Text, TypeV)>, nat),
                    ParseErrorV,
                >((types::fields_view(v@), q as nat))
                &&& p < q < toks.len()
            },
            Err(e) => record_body_at(lexer::tokens_view(toks@), p as nat) == Err::<
                (Seq<(Text, TypeV)>, nat),
                ParseErrorV,
            >(e@),
        },
{
    proof {
        reveal(record_body_at);
    }
    let p = expect(toks, p, &TokenKind::LBrace)?;
    let (fields, p) = parse_named_fields(toks, p)?;
    let p = expect(toks, p, &TokenKind::RBrace)?;
    Ok((fields, p))
}

fn parse_type_head(toks: &Vec<Token>, p: usize) -> (r: Result<((String, Vec<String>), usize), ParseError>)
    requires
        lexer::well_ended(toks@),
        p < toks.len(),
    ensures
        match r {
            Ok((v, q)) => {
                &&& type_head_at(lexer::tokens_view(toks@), p as nat) == Ok::<
                    ((Text, Seq<Text>), nat),
                    ParseErrorV,
                >(((v.0@, text::texts(v.1@)), q as nat))
                &&& p < q < toks.len()
            },
            Err(e) => type_head_at(lexer::tokens_view(toks@), p as nat) == Err::<
                ((Text, Seq<Text>), nat),
                ParseErrorV,
            >(e@),
        },
{
    proof {
        reveal(type_head_at);
    }
    let p = expect(toks, p, &TokenKind::Type)?;
    let (name, p) = expect_ident(toks, p)?;
    let (type_params, p) = parse_type_params(toks, p)?;
    let p = expect(toks, p, &TokenKind::Eq)?;
    Ok(((name, type_params), p))
}

#[verifier::loop_isolation(false)]
fn parse_variants(toks: &Vec<Token>, p: usize, tried: &Option<ParseError>) -> (r: Result<(Vec<VariantDef>, usize), ParseError>)
    requires
        lexer::well_ended(toks@),
        p < toks.len(),
    ensures
        match r {
            Ok((v, q)) => {
                &&& variants_at(lexer::tokens_view(toks@), p as nat, opt_error(*tried)) == Ok::<
                    (Seq<VariantDefV>, nat),
                    ParseErrorV,
                >((ast::variants_view(v@), q as nat))
                &&& p < q < toks.len()
            },
            Err(e) => variants_at(lexer::tokens_view(toks@), p as nat, opt_error(*tried)) == Err::<
                (Seq<VariantDefV>, nat),
                ParseErrorV,
            >(e@),
        },
{
    let ghost tv = lexer::tokens_view(toks@);
    let ghost all = variants_at(tv, p as nat, opt_error(*tried));
    match parse_variant_def(toks, p) {
        Err(e) => match tried {
            Some(a) => Err(add_also_tried(e, "record type", a)),
            None => Err(e),
        },
        Ok((first, next)) => {
            let mut acc: Vec<VariantDef> = Vec::new();
            let ghost fv = first@;
            acc.push(first);
            assert(ast::variants_view(acc@) =~= seq![fv]);
            let mut at: usize = next;
            while next_is(toks, at, &TokenKind::Pipe)
                invariant
                    p < at < toks.len(),
                    variants_rest_at(tv, at as nat, ast::variants_view(acc@)) == all,
                decreases toks.len() - at,
            {
                let (item, after) = parse_variant_def(toks, at + 1)?;
                let ghost before = ast::variants_view(acc@);
                let ghost iv = item@;
                acc.push(item);
                assert(ast::variants_view(acc@) =~= before.push(iv));
                at = after;
            }
            Ok((acc, at))
        },
    }
}

fn parse_type_def(toks: &Vec<Token>, p: usize, is_public: bool, is_opaque: bool) -> (r: Result<(TopLevel, usize), ParseError>)
    requires
        lexer::well_ended(toks@),
        p < toks.len(),
    ensures
        match r {
            Ok((v, q)) => {
                &&& type_def_at(lexer::tokens_view(toks@), p as nat, is_public, is_opaque) == Ok::<
                    (TopLevelV, nat),
                    ParseErrorV,
                >((v@, q as nat))
                &&& p < q < toks.len()
            },
            Err(e) => type_def_at(lexer::tokens_view(toks@), p as nat, is_public, is_opaque) == Err::<
                (TopLevelV, nat),
                ParseErrorV,
            >(e@),
        },
{
    proof {
        reveal(type_def_at);
    }
    let ((name, type_params), q) = parse_type_head(toks, p)?;
    let mut tried: Option<ParseError> = None;
    if next_is(toks, q, &TokenKind::LBrace) {
        match try_parse_record_body(toks, q) {
            Ok((fields, r)) => {
                return Ok((TopLevel::TypeDef(TypeDef { name, is_public, type_params, fields }), r));
            },
            Err(a) => {
                tried = Some(a);
            },
        }
    }
    let (variants, r) = parse_variants(toks, q, &tried)?;
    Ok((TopLevel::Enum(EnumDef { name, is_public, is_opaque, type_params, variants }), r))
}

fn parse_exception_def(toks: &Vec<Token>, p: usize, is_public: bool) -> (r: Result<(TopLevel, usize), ParseError>)
    requires
        lexer::well_ended(toks@),
        p < toks.len(),
    ensures
        match r {
            Ok((v, q)) => {
                &&& exception_def_at(lexer::tokens_view(toks@), p as nat, is_public) == Ok::<
                    (TopLevelV, nat),
                    ParseErrorV,
                >((v@, q as nat))
                &&& p < q < toks.len()
            },
            Err(e) => exception_def_at(lexer::tokens_view(toks@), p as nat, is_public) == Err::<
                (TopLevelV, nat),
                ParseErrorV,
            >(e@),
        },
{
    proof {
        reveal(exception_def_at);
    }
    let p = expect(toks, p, &TokenKind::Exception)?;
    let at = toks[p].span;
    let (name, p) = expect_ident(toks, p)?;
    if is_uppercase_ident(name.as_str()) {
        let (fields, p) = parse_variant_fields(toks, p)?;
        Ok((TopLevel::Exception(ExceptionDef { name, is_public, fields }), p))
    } else {
        Err(ParseError { message: owned("exception constructor must start with uppercase letter"), span: at })
    }
}

fn parse_import_path(toks: &Vec<Token>, p: usize) -> (r: Result<(String, usize), ParseError>)
    requires
        lexer::well_ended(toks@),
        p < toks.len(),
    ensures
        match r {
            Ok((v, q)) => {
                &&& import_path_at(lexer::tokens_view(toks@), p as nat) == Ok::<
                    (Text, nat),
                    ParseErrorV,
                >((v@, q as nat))
                &&& p < q < toks.len()
            },
            Err(e) => import_path_at(lexer::tokens_view(toks@), p as nat) == Err::<
                (Text, nat),
                ParseErrorV,
            >(e@),
        },
{
    match next_string(toks, p) {
        Some(s) => Ok((s, p + 1)),
        None => Err(
            ParseError {
                message: owned("expected quoted import path (e.g. \"stdlib/foo.nx\")"),
                span: toks[p].span,
            },
        ),
    }
}

fn parse_symbol_name(toks: &Vec<Token>, p: usize) -> (r: Result<(String, usize), ParseError>)
    requires
        lexer::well_ended(toks@),
        p < toks.len(),
    ensures
        match r {
            Ok((v, q)) => {
                &&& symbol_name_at(lexer::tokens_view(toks@), p as nat) == Ok::<
                    (Text, nat),
                    ParseErrorV,
                >((v@, q as nat))
                &&& p < q < toks.len()
            },
            Err(e) => symbol_name_at(lexer::tokens_view(toks@), p as nat) == Err::<
                (Text, nat),
                ParseErrorV,
            >(e@),
        },
{
    match next_string(toks, p) {
        Some(s) => Ok((s, p + 1)),
        None => Err(
            ParseError {
                message: owned("expected string literal for external symbol"),
                span: toks[p].span,
            },
        ),
    }
}

fn parse_import_item(toks: &Vec<Token>, p: usize) -> (r: Result<(ImportItem, usize), ParseError>)
    requires
        lexer::well_ended(toks@),
        p < toks.len(),
    ensures
        match r {
            Ok((v, q)) => {
                &&& import_item_at(lexer::tokens_view(toks@), p as nat) == Ok::<
                    (ImportItemV, nat),
                    ParseErrorV,
                >((v@, q as nat))
                &&& p < q < toks.len()
            },
            Err(e) => import_item_at(lexer::tokens_view(toks@), p as nat) == Err::<
                (ImportItemV, nat),
                ParseErrorV,
            >(e@),
        },
{
    proof {
        reveal(import_item_at);
    }
    let (name, p) = expect_ident(toks, p)?;
    if at_word(toks, p, "as") {
        let p: usize = p + 1;
        let (alias, p) = expect_ident(toks, p)?;
        Ok((ImportItem { name, alias: Some(alias) }, p))
    } else {
        Ok((ImportItem { name, alias: None }, p))
    }
}

#[verifier::loop_isolation(false)]
fn parse_import_items(toks: &Vec<Token>, p: usize) -> (r: Result<(Vec<ImportItem>, usize), ParseError>)
    requires
        lexer::well_ended(toks@),
        p < toks.len(),
    ensures
        match r {
            Ok((v, q)) => {
                &&& import_items_at(lexer::tokens_view(toks@), p as nat) == Ok::<
                    (Seq<ImportItemV>, nat),
                    ParseErrorV,
                >((import_items_view(v@), q as nat))
                &&& p <= q < toks.len()
            },
            Err(e) => import_items_at(lexer::tokens_view(toks@), p as nat) == Err::<
                (Seq<ImportItemV>, nat),
                ParseErrorV,
            >(e@),
        },

{
    let ghost tv = lexer::tokens_view(toks@);
    let ghost all = import_items_at(tv, p as nat);
    if next_is(toks, p, &TokenKind::RBrace) {
        let none: Vec<ImportItem> = Vec::new();
        assert(import_items_view(none@) =~= Seq::<ImportItemV>::empty());
        return Ok((none, p));
    }
    let (first, next) = parse_import_item(toks, p)?;
    let mut acc: Vec<ImportItem> = Vec::new();
    let ghost fv = first@;
    acc.push(first);
    assert(import_items_view(acc@) =~= seq![fv]);
    let mut at: usize = next;
    while next_is(toks, at, &TokenKind::Comma)
        invariant
            p < at < toks.len(),
            import_items_rest_at(tv, at as nat, import_items_view(acc@)) == all,
        decreases toks.len() - at,
    {
        if next_is(toks, at + 1, &TokenKind::RBrace) {
            return Ok((acc, at + 1));
        }
        let (item, after) = parse_import_item(toks, at + 1)?;
        let ghost before = import_items_view(acc@);
        let ghost iv = item@;
        acc.push(item);
        assert(import_items_view(acc@) =~= before.push(iv));
        at = after;
    }
    Ok((acc, at))
}

fn parse_import_external(toks: &Vec<Token>, p: usize) -> (r: Result<(TopLevel, usize), ParseError>)
    requires
        lexer::well_ended(toks@),
        p < toks.len(),
    ensures
        match r {
            Ok((v, q)) => {
                &&& import_external_at(lexer::tokens_view(toks@), p as nat) == Ok::<
                    (TopLevelV, nat),
                    ParseErrorV,
                >((v@, q as nat))
                &&& p < q < toks.len()
            },
            Err(e) => import_external_at(lexer::tokens_view(toks@), p as nat) == Err::<
                (TopLevelV, nat),
                ParseErrorV,
            >(e@),
        },
{
    proof {
        reveal(import_external_at);
    }
    let p = expect(toks, p, &TokenKind::External)?;
    let (path, p) = parse_import_path(toks, p)?;
    let none: Vec<ImportItem> = Vec::new();
    assert(import_items_view(none@) =~= Seq::<ImportItemV>::empty());
    Ok((TopLevel::Import(Import { path, alias: None, items: none, is_external: true }), p))
}

fn parse_import_names(toks: &Vec<Token>, p: usize) -> (r: Result<(TopLevel, usize), ParseError>)
    requires
        lexer::well_ended(toks@),
        p < toks.len(),
    ensures
        match r {
            Ok((v, q)) => {
                &&& import_names_at(lexer::tokens_view(toks@), p as nat) == Ok::<
                    (TopLevelV, nat),
                    ParseErrorV,
                >((v@, q as nat))
                &&& p < q < toks.len()
            },
            Err(e) => import_names_at(lexer::tokens_view(toks@), p as nat) == Err::<
                (TopLevelV, nat),
                ParseErrorV,
            >(e@),
        },
{
    proof {
        reveal(import_names_at);
    }
    let p = expect(toks, p, &TokenKind::LBrace)?;
    let (items, p) = parse_import_items(toks, p)?;
    let p = expect(toks, p, &TokenKind::RBrace)?;
    if next_is(toks, p, &TokenKind::Comma) {
        let p: usize = p + 1;
        let p = expect(toks, p, &TokenKind::Star)?;
        let p = expect_contextual(toks, p, "as")?;
        let (alias, p) = expect_ident(toks, p)?;
        let p = expect(toks, p, &TokenKind::From)?;
        let (path, p) = parse_import_path(toks, p)?;
        Ok((TopLevel::Import(Import { path, alias: Some(alias), items: items, is_external: false }), p))
    } else {
        let p = expect(toks, p, &TokenKind::From)?;
        let (path, p) = parse_import_path(toks, p)?;
        Ok((TopLevel::Import(Import { path, alias: None, items: items, is_external: false }), p))
    }
}

fn parse_import_all(toks: &Vec<Token>, p: usize) -> (r: Result<(TopLevel, usize), ParseError>)
    requires
        lexer::well_ended(toks@),
        p < toks.len(),
    ensures
        match r {
            Ok((v, q)) => {
                &&& import_all_at(lexer::tokens_view(toks@), p as nat) == Ok::<
                    (TopLevelV, nat),
                    ParseErrorV,
                >((v@, q as nat))
                &&& p < q < toks.len()
            },
            Err(e) => import_all_at(lexer::tokens_view(toks@), p as nat) == Err::<
                (TopLevelV, nat),
                ParseErrorV,
            >(e@),
        },
{
    proof {
        reveal(import_all_at);
    }
    let p = expect(toks, p, &TokenKind::Star)?;
    let p = expect_contextual(toks, p, "as")?;
    let (alias, p) = expect_ident(toks, p)?;
    let p = expect(toks, p, &TokenKind::From)?;
    let (path, p) = parse_import_path(toks, p)?;
    let none: Vec<ImportItem> = Vec::new();
    assert(import_items_view(none@) =~= Seq::<ImportItemV>::empty());
    Ok((TopLevel::Import(Import { path, alias: Some(alias), items: none, is_external: false }), p))
}

fn parse_import_def(toks: &Vec<Token>, p: usize) -> (r: Result<(TopLevel, usize), ParseError>)
    requires
        lexer::well_ended(toks@),
        p < toks.len(),
    ensures
        match r {
            Ok((v, q)) => {
                &&& import_def_at(lexer::tokens_view(toks@), p as nat) == Ok::<
                    (TopLevelV, nat),
                    ParseErrorV,
                >((v@, q as nat))
                &&& p < q < toks.len()
            },
            Err(e) => import_def_at(lexer::tokens_view(toks@), p as nat) == Err::<
                (TopLevelV, nat),
                ParseErrorV,
            >(e@),
        },
{
    proof {
        reveal(import_def_at);
    }
    let p = expect(toks, p, &TokenKind::Import)?;
    if next_is(toks, p, &TokenKind::External) {
        parse_import_external(toks, p)
    } else {
        if next_is(toks, p, &TokenKind::LBrace) {
            parse_import_names(toks, p)
        } else {
            if next_is(toks, p, &TokenKind::Star) {
                parse_import_all(toks, p)
            } else {
                Err(ParseError { message: unexpected_error(toks, p, "import form").message, span: toks[p].span })
            }
        }
    }
}

fn parse_port_function(toks: &Vec<Token>, p: usize) -> (r: Result<(FunctionSignature, usize), ParseError>)
    requires
        lexer::well_ended(toks@),
        p < toks.len(),
    ensures
        match r {
            Ok((v, q)) => {
                &&& port_function_at(lexer::tokens_view(toks@), p as nat) == Ok::<
                    (SignatureV, nat),
                    ParseErrorV,
                >((v@, q as nat))
                &&& p < q < toks.len()
            },
            Err(e) => port_function_at(lexer::tokens_view(toks@), p as nat) == Err::<
                (SignatureV, nat),
                ParseErrorV,
            >(e@),
        },
{
    proof {
        reveal(port_function_at);
    }
    let p = expect(toks, p, &TokenKind::Fn)?;
    let (name, p) = expect_ident(toks, p)?;
    let ((params, ret_type, reqs, throws), p) = parse_signature(toks, p)?;
    Ok((FunctionSignature { name, params, ret_type, requires: reqs, throws }, p))
}

#[verifier::loop_isolation(false)]
fn parse_port_functions(toks: &Vec<Token>, p: usize) -> (r: Result<(Vec<FunctionSignature>, usize), ParseError>)
    requires
        lexer::well_ended(toks@),
        p < toks.len(),
    ensures
        match r {
            Ok((v, q)) => {
                &&& port_functions_at(lexer::tokens_view(toks@), p as nat, Seq::empty()) == Ok::<
                    (Seq<SignatureV>, nat),
                    ParseErrorV,
                >((signatures_view(v@), q as nat))
                &&& p <= q < toks.len()
            },
            Err(e) => port_functions_at(lexer::tokens_view(toks@), p as nat, Seq::empty()) == Err::<
                (Seq<SignatureV>, nat),
                ParseErrorV,
            >(e@),
        },
{
    let ghost tv = lexer::tokens_view(toks@);
    let ghost all = port_functions_at(tv, p as nat, Seq::empty());
    let mut acc: Vec<FunctionSignature> = Vec::new();
    assert(signatures_view(acc@) =~= Seq::<SignatureV>::empty());
    let mut at: usize = p;
    while next_is(toks, at, &TokenKind::Fn)
        invariant
            p <= at < toks.len(),
            port_functions_at(tv, at as nat, signatures_view(acc@)) == all,
        decreases toks.len() - at,
    {
        let (item, after) = parse_port_function(toks, at)?;
        let ghost before = signatures_view(acc@);
        let ghost iv = item@;
        acc.push(item);
        assert(signatures_view(acc@) =~= before.push(iv));
        at = after;
    }
    Ok((acc, at))
}

fn parse_port_def(toks: &Vec<Token>, p: usize, is_public: bool) -> (r: Result<(TopLevel, usize), ParseError>)
    requires
        lexer::well_ended(toks@),
        p < toks.len(),
    ensures
        match r {
            Ok((v, q)) => {
                &&& port_def_at(lexer::tokens_view(toks@), p as nat, is_public) == Ok::<
                    (TopLevelV, nat),
                    ParseErrorV,
                >((v@, q as nat))
                &&& p < q < toks.len()
            },
            Err(e) => port_def_at(lexer::tokens_view(toks@), p as nat, is_public) == Err::<
                (TopLevelV, nat),
                ParseErrorV,
            >(e@),
        },
{
    proof {
        reveal(port_def_at);
    }
    let p = expect(toks, p, &TokenKind::Port)?;
    let (name, p) = expect_ident(toks, p)?;
    let p = expect(toks, p, &TokenKind::Do)?;
    let (functions, p) = parse_port_functions(toks, p)?;
    let p = expect(toks, p, &TokenKind::End)?;
    Ok((TopLevel::Port(Port { name, is_public, functions }), p))
}

fn parse_external_def(toks: &Vec<Token>, p: usize, is_public: bool) -> (r: Result<(TopLevel, usize), ParseError>)
    requires
        lexer::well_ended(toks@),
        p < toks.len(),
    ensures
        match r {
            Ok((v, q)) => {
                &&& external_def_at(lexer::tokens_view(toks@), p as nat, is_public) == Ok::<
                    (TopLevelV, nat),
                    ParseErrorV,
                >((v@, q as nat))
                &&& p < q < toks.len()
            },
            Err(e) => external_def_at(lexer::tokens_view(toks@), p as nat, is_public) == Err::<
                (TopLevelV, nat),
                ParseErrorV,
            >(e@),
        },
{
    proof {
        reveal(external_def_at);
    }
    let start = toks[p].span.start;
    let p = expect(toks, p, &TokenKind::External)?;
    let (name, p) = expect_ident(toks, p)?;
    let p = expect(toks, p, &TokenKind::Eq)?;
    let (symbol, p) = parse_symbol_name(toks, p)?;
    let p = expect(toks, p, &TokenKind::Colon)?;
    let (type_params, p) = parse_type_params(toks, p)?;
    let (typ, p) = parse_type(toks, p)?;
    let end = toks[p - 1].span.end;
    Ok((TopLevel::Let(GlobalLet { name, is_public, typ: Some(typ.clone()), value: Spanned { node: Expr::External(symbol, type_params, typ), span: Span { start, end } } }), p))
}

fn parse_global_let(toks: &Vec<Token>, p: usize, is_public: bool) -> (r: Result<(TopLevel, usize), ParseError>)
    requires
        lexer::well_ended(toks@),
        p < toks.len(),
    ensures
        match r {
            Ok((v, q)) => {
                &&& global_let_at(lexer::tokens_view(toks@), p as nat, is_public) == Ok::<
                    (TopLevelV, nat),
                    ParseErrorV,
                >((v@, q as nat))
                &&& p < q < toks.len()
            },
            Err(e) => global_let_at(lexer::tokens_view(toks@), p as nat, is_public) == Err::<
                (TopLevelV, nat),
                ParseErrorV,
            >(e@),
        },
{
    proof {
        reveal(global_let_at);
    }
    let p = expect(toks, p, &TokenKind::Let)?;
    let (name, p) = expect_ident(toks, p)?;
    if next_is(toks, p, &TokenKind::Colon) {
        let p: usize = p + 1;
        let (typ, p) = parse_type(toks, p)?;
        let p = expect(toks, p, &TokenKind::Eq)?;
        let (value, p) = parse_expr(toks, p)?;
        Ok((TopLevel::Let(GlobalLet { name, is_public, typ: Some(typ), value }), p))
    } else {
        let p = expect(toks, p, &TokenKind::Eq)?;
        let (value, p) = parse_expr(toks, p)?;
        Ok((TopLevel::Let(GlobalLet { name, is_public, typ: None, value }), p))
    }
}

fn parse_top_level_pub(toks: &Vec<Token>, p: usize) -> (r: Result<(TopLevel, usize), ParseError>)
    requires
        lexer::well_ended(toks@),
        p < toks.len(),
    ensures
        match r {
            Ok((v, q)) => {
                &&& exported_at(lexer::tokens_view(toks@), p as nat) == Ok::<
                    (TopLevelV, nat),
                    ParseErrorV,
                >((v@, q as nat))
                &&& p < q < toks.len()
            },
            Err(e) => exported_at(lexer::tokens_view(toks@), p as nat) == Err::<
                (TopLevelV, nat),
                ParseErrorV,
            >(e@),
        },
{
    proof {
        reveal(exported_at);
    }
    if at_word(toks, p, "opaque") {
        let p: usize = p + 1;
        parse_type_def(toks, p, true, true)
    } else {
        if next_is(toks, p, &TokenKind::Type) {
            parse_type_def(toks, p, true, false)
        } else {
            if next_is(toks, p, &TokenKind::Exception) {
                parse_exception_def(toks, p, true)
            } else {
                if next_is(toks, p, &TokenKind::Port) {
                    parse_port_def(toks, p, true)
                } else {
                    if next_is(toks, p, &TokenKind::External) {
                        parse_external_def(toks, p, true)
                    } else {
                        if next_is(toks, p, &TokenKind::Let) {
                            parse_global_let(toks, p, true)
                        } else {
                            Err(ParseError { message: unexpected_error(toks, p, "definition after 'export'").message, span: toks[p].span })
                        }
                    }
                }
            }
        }
    }
}

fn parse_top_level(toks: &Vec<Token>, p: usize) -> (r: Result<(TopLevel, usize), ParseError>)
    requires
        lexer::well_ended(toks@),
        p < toks.len(),
    ensures
        match r {
            Ok((v, q)) => {
                &&& top_level_at(lexer::tokens_view(toks@), p as nat) == Ok::<
                    (TopLevelV, nat),
                    ParseErrorV,
                >((v@, q as nat))
                &&& p < q < toks.len()
            },
            Err(e) => top_level_at(lexer::tokens_view(toks@), p as nat) == Err::<
                (TopLevelV, nat),
                ParseErrorV,
            >(e@),
        },
{
    proof {
        reveal(top_level_at);
    }
    if next_is(toks, p, &TokenKind::Export) {
        let p: usize = p + 1;
        parse_top_level_pub(toks, p)
    } else {
        if at_word(toks, p, "opaque") {
            let p: usize = p + 1;
            parse_type_def(toks, p, false, true)
        } else {
            if next_is(toks, p, &TokenKind::Type) {
                parse_type_def(toks, p, false, false)
            } else {
                if next_is(toks, p, &TokenKind::Exception) {
                    parse_exception_def(toks, p, false)
                } else {
                    if next_is(toks, p, &TokenKind::Import) {
                        parse_import_def(toks, p)
                    } else {
                        if next_is(toks, p, &TokenKind::Port) {
                            parse_port_def(toks, p, false)
                        } else {
                            if next_is(toks, p, &TokenKind::External) {
                                parse_external_def(toks, p, false)
                            } else {
                                if next_is(toks, p, &TokenKind::Let) {
                                    parse_global_let(toks, p, false)
                                } else {
                                    Err(ParseError { message: unexpected_error(toks, p, "top-level definition").message, span: toks[p].span })
                                }
                            }
                        }
                    }
                }
            }
        }
    }
}

fn parse_definition(toks: &Vec<Token>, p: usize) -> (r: Result<(Spanned<TopLevel>, usize), ParseError>)
    requires
        lexer::well_ended(toks@),
        p < toks.len(),
    ensures
        match r {
            Ok((v, q)) => {
                &&& definition_at(lexer::tokens_view(toks@), p as nat) == Ok::<
                    (Spanned<TopLevelV>, nat),
                    ParseErrorV,
                >((v@, q as nat))
                &&& p < q < toks.len()
            },
            Err(e) => definition_at(lexer::tokens_view(toks@), p as nat) == Err::<
                (Spanned<TopLevelV>, nat),
                ParseErrorV,
            >(e@),
        },
{
    proof {
        reveal(definition_at);
    }
    let start = toks[p].span.start;
    let (node, p) = parse_top_level(toks, p)?;
    let end = toks[p - 1].span.end;
    Ok((Spanned { node, span: Span { start, end } }, p))
}

#[verifier::loop_isolation(false)]
pub fn parse_definitions(toks: &Vec<Token>, p: usize) -> (r: Result<(Vec<Spanned<TopLevel>>, usize), ParseError>)
    requires
        lexer::well_ended(toks@),
        p < toks.len(),
    ensures
        match r {
            Ok((v, q)) => {
                &&& definitions_at(lexer::tokens_view(toks@), p as nat, Seq::empty()) == Ok::<
                    (Seq<Spanned<TopLevelV>>, nat),
                    ParseErrorV,
                >((ast::definitions_view(v@), q as nat))
                &&& p <= q < toks.len()
                &&& tokens_in_order(lexer::tokens_view(toks@)) ==> definitions_in_order(
                    ast::definitions_view(v@),
                    lexer::tokens_view(toks@).last().span.end as nat,
                )
            },
            Err(e) => definitions_at(lexer::tokens_view(toks@), p as nat, Seq::empty()) == Err::<
                (Seq<Spanned<TopLevelV>>, nat),
                ParseErrorV,
            >(e@),
        },
{
    let ghost tv = lexer::tokens_view(toks@);
    let ghost all = definitions_at(tv, p as nat, Seq::empty());
    let mut acc: Vec<Spanned<TopLevel>> = Vec::new();
    assert(ast::definitions_view(acc@) =~= Seq::<Spanned<TopLevelV>>::empty());
    let mut at: usize = p;
    while !next_is(toks, at, &TokenKind::Eof)
        invariant
            p <= at < toks.len(),
            definitions_at(tv, at as nat, ast::definitions_view(acc@)) == all,
            tokens_in_order(tv) ==> definitions_in_order(
                ast::definitions_view(acc@),
                tv[at as int].span.start as nat,
            ),
        decreases toks.len() - at,
    {
        let (item, after) = parse_definition(toks, at)?;
        let ghost before = ast::definitions_view(acc@);
        let ghost iv = item@;
        acc.push(item);
        assert(ast::definitions_view(acc@) =~= before.push(iv));
        proof {
            if tokens_in_order(tv) {
                lemma_definition_in_order(tv, at as nat, after as nat, before, iv);
            }
        }
        at = after;
    }
    proof {
        if tokens_in_order(tv) {
            let last = tv.len() - 1;
            assert(tv[at as int].span.start <= tv[last].span.end) by {
                if at < last {
                    assert(tv[at as int].span.end <= tv[last].span.start);
                }
            }
        }
    }
    Ok((acc, at))
}

} // verus!
