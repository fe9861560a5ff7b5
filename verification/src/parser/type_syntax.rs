//! Types and signatures.

use crate::ast;
use crate::ast::{Param, ParamV};
use crate::lexer;
use crate::lexer::{Token, TokenKind, TokenV};
use crate::parser::cursor;
use crate::parser::cursor::{
    ParseError, ParseErrorV, Parsed, copy_word, expect, expect_contextual, expect_ident, next_is,
    next_is_name, parse_sigil, unexpected_error,
};
use crate::text;
use crate::text::{Text, cat3, cat4, owned, str_eq};
use crate::typecheck::helpers;
use crate::typecheck::helpers::make_empty_row;
use crate::types;
use crate::types::{Type, TypeV};
use vstd::prelude::*;

verus! {

/// A named field: `name: type`.
pub open spec fn named_field_at(toks: Seq<TokenV>, p: nat) -> Parsed<(Text, TypeV)>
    decreases cursor::left(toks, p), 0nat,
{
    match cursor::ident_at(toks, p) {
        Err(e) => Err(e),
        Ok((name, q1)) => {
            match cursor::expected(toks, q1, TokenKind::Colon) {
                Err(e) => Err(e),
                Ok(q2) => {
                    match type_at(toks, q2) {
                        Err(e) => Err(e),
                        Ok((typ, r3)) => {
                            let q4 = cursor::ahead(p, r3);
                            Ok(((name, typ), q4))
                        },
                    }
                },
            }
        },
    }
}

/// Named fields, separated by commas, up to a closing brace.
pub open spec fn named_fields_at(toks: Seq<TokenV>, p: nat) -> Parsed<Seq<(Text, TypeV)>>
    decreases cursor::left(toks, p), 1nat,
{
    if cursor::is_at(toks, p, TokenKind::RBrace) {
        Ok((Seq::empty(), p))
    } else {
        match named_field_at(toks, p) {
            Err(e) => Err(e),
            Ok((v, r)) => named_fields_rest_at(toks, cursor::ahead(p, r), seq![v]),
        }
    }
}

/// What follows the first items of such a list, `acc`.
pub open spec fn named_fields_rest_at(toks: Seq<TokenV>, p: nat, acc: Seq<(Text, TypeV)>) -> Parsed<Seq<(Text, TypeV)>>
    decreases cursor::left(toks, p), 0nat,
{
    if cursor::is_at(toks, p, TokenKind::Comma) {
        if cursor::is_at(toks, p + 1, TokenKind::RBrace) {
            Ok((acc, p + 1))
        } else {
            match named_field_at(toks, p + 1) {
                Err(e) => Err(e),
                Ok((v, r)) => named_fields_rest_at(toks, cursor::ahead(p, r), acc.push(v)),
            }
        }
    } else {
        Ok((acc, p))
    }
}

/// A record type.
pub open spec fn record_type_at(toks: Seq<TokenV>, p: nat) -> Parsed<TypeV>
    decreases cursor::left(toks, p), 0nat,
{
    match cursor::expected(toks, p, TokenKind::LBrace) {
        Err(e) => Err(e),
        Ok(q1) => {
            match named_fields_at(toks, q1) {
                Err(e) => Err(e),
                Ok((fields, r2)) => {
                    let q3 = cursor::ahead(p, r2);
                    match cursor::expected(toks, q3, TokenKind::RBrace) {
                        Err(e) => Err(e),
                        Ok(q4) => {
                            Ok((TypeV::Record(fields), q4))
                        },
                    }
                },
            }
        },
    }
}

/// The members of a row, separated by commas, up to a closing brace or a tail.
pub open spec fn row_items_at(toks: Seq<TokenV>, p: nat) -> Parsed<Seq<TypeV>>
    decreases cursor::left(toks, p), 3nat,
{
    if cursor::is_at(toks, p, TokenKind::RBrace) {
        Ok((Seq::empty(), p))
    } else {
        match type_at(toks, p) {
            Err(e) => Err(e),
            Ok((v, r)) => row_items_rest_at(toks, cursor::ahead(p, r), seq![v]),
        }
    }
}

/// What follows the first items of such a list, `acc`.
pub open spec fn row_items_rest_at(toks: Seq<TokenV>, p: nat, acc: Seq<TypeV>) -> Parsed<Seq<TypeV>>
    decreases cursor::left(toks, p), 0nat,
{
    if cursor::is_at(toks, p, TokenKind::Comma) {
        if cursor::is_at(toks, p + 1, TokenKind::RBrace) {
            Ok((acc, p + 1))
        } else {
            match type_at(toks, p + 1) {
                Err(e) => Err(e),
                Ok((v, r)) => row_items_rest_at(toks, cursor::ahead(p, r), acc.push(v)),
            }
        }
    } else {
        Ok((acc, p))
    }
}

/// A row: its members, and a tail behind a bar.
pub open spec fn row_type_at(toks: Seq<TokenV>, p: nat) -> Parsed<TypeV>
    decreases cursor::left(toks, p), 0nat,
{
    match cursor::expected(toks, p, TokenKind::LBrace) {
        Err(e) => Err(e),
        Ok(q1) => {
            match row_items_at(toks, q1) {
                Err(e) => Err(e),
                Ok((items, r2)) => {
                    let q3 = cursor::ahead(p, r2);
                    if cursor::is_at(toks, q3, TokenKind::Pipe) {
                        let q4: nat = q3 + 1;
                        match type_at(toks, q4) {
                            Err(e) => Err(e),
                            Ok((tail, r5)) => {
                                let q6 = cursor::ahead(p, r5);
                                match cursor::expected(toks, q6, TokenKind::RBrace) {
                                    Err(e) => Err(e),
                                    Ok(q7) => {
                                        Ok((TypeV::Row(items, Some(Box::new(tail))), q7))
                                    },
                                }
                            },
                        }
                    } else {
                        match cursor::expected(toks, q3, TokenKind::RBrace) {
                            Err(e) => Err(e),
                            Ok(q8) => {
                                Ok((TypeV::Row(items, None), q8))
                            },
                        }
                    }
                },
            }
        },
    }
}

/// A row, or another type.
pub open spec fn row_or_type_at(toks: Seq<TokenV>, p: nat) -> Parsed<TypeV>
    decreases cursor::left(toks, p), 3nat,
{
    if cursor::is_at(toks, p, TokenKind::LBrace) {
        row_type_at(toks, p)
    } else {
        type_at(toks, p)
    }
}

/// The coeffects of a signature; none is the empty row.
pub open spec fn require_clause_at(toks: Seq<TokenV>, p: nat) -> Parsed<TypeV>
    decreases cursor::left(toks, p), 4nat,
{
    if cursor::is_at(toks, p, TokenKind::Require) {
        let q1: nat = p + 1;
        row_or_type_at(toks, q1)
    } else {
        Ok((helpers::empty_row(), p))
    }
}

/// The effects of a signature; none is the empty row.
pub open spec fn throws_clause_at(toks: Seq<TokenV>, p: nat) -> Parsed<TypeV>
    decreases cursor::left(toks, p), 4nat,
{
    if cursor::is_at(toks, p, TokenKind::Throws) {
        let q1: nat = p + 1;
        row_or_type_at(toks, q1)
    } else {
        Ok((helpers::empty_row(), p))
    }
}

/// A parameter of a function type: `name: type`, or a type alone, whose name is `_`.
pub open spec fn arrow_param_at(toks: Seq<TokenV>, p: nat) -> Parsed<(Text, TypeV)>
    decreases cursor::left(toks, p), 4nat,
{
    match cursor::ident_at(toks, p) {
        Ok((name, q)) => {
            if cursor::is_at(toks, q, TokenKind::Colon) {
                match type_at(toks, q + 1) {
                    Err(e) => Err(e),
                    Ok((typ, r)) => Ok(((name, typ), r)),
                }
            } else {
                unnamed_param_at(toks, p)
            }
        },
        Err(_) => unnamed_param_at(toks, p),
    }
}

/// A parameter of a function type without a name.
pub open spec fn unnamed_param_at(toks: Seq<TokenV>, p: nat) -> Parsed<(Text, TypeV)>
    decreases cursor::left(toks, p), 3nat,
{
    match type_at(toks, p) {
        Err(e) => Err(e),
        Ok((typ, r)) => Ok((("_"@, typ), r)),
    }
}

/// The parameters of a function type, up to a closing parenthesis.
pub open spec fn arrow_params_at(toks: Seq<TokenV>, p: nat) -> Parsed<Seq<(Text, TypeV)>>
    decreases cursor::left(toks, p), 5nat,
{
    if cursor::is_at(toks, p, TokenKind::RParen) {
        Ok((Seq::empty(), p))
    } else {
        match arrow_param_at(toks, p) {
            Err(e) => Err(e),
            Ok((v, r)) => arrow_params_rest_at(toks, cursor::ahead(p, r), seq![v]),
        }
    }
}

/// What follows the first items of such a list, `acc`.
pub open spec fn arrow_params_rest_at(toks: Seq<TokenV>, p: nat, acc: Seq<(Text, TypeV)>) -> Parsed<Seq<(Text, TypeV)>>
    decreases cursor::left(toks, p), 0nat,
{
    if cursor::is_at(toks, p, TokenKind::Comma) {
        if cursor::is_at(toks, p + 1, TokenKind::RParen) {
            Ok((acc, p + 1))
        } else {
            match arrow_param_at(toks, p + 1) {
                Err(e) => Err(e),
                Ok((v, r)) => arrow_params_rest_at(toks, cursor::ahead(p, r), acc.push(v)),
            }
        }
    } else {
        Ok((acc, p))
    }
}

/// A function type: `(params) -> type`, with its coeffects and its effects.
pub open spec fn arrow_type_at(toks: Seq<TokenV>, p: nat) -> Parsed<TypeV>
    decreases cursor::left(toks, p), 0nat,
{
    match cursor::expected(toks, p, TokenKind::LParen) {
        Err(e) => Err(e),
        Ok(q1) => {
            match arrow_params_at(toks, q1) {
                Err(e) => Err(e),
                Ok((params, r2)) => {
                    let q3 = cursor::ahead(p, r2);
                    match cursor::expected(toks, q3, TokenKind::RParen) {
                        Err(e) => Err(e),
                        Ok(q4) => {
                            match cursor::expected(toks, q4, TokenKind::Arrow) {
                                Err(e) => Err(e),
                                Ok(q5) => {
                                    match type_at(toks, q5) {
                                        Err(e) => Err(e),
                                        Ok((ret, r6)) => {
                                            let q7 = cursor::ahead(p, r6);
                                            match require_clause_at(toks, q7) {
                                                Err(e) => Err(e),
                                                Ok((reqs, r8)) => {
                                                    let q9 = cursor::ahead(p, r8);
                                                    match throws_clause_at(toks, q9) {
                                                        Err(e) => Err(e),
                                                        Ok((throws, r10)) => {
                                                            let q11 = cursor::ahead(p, r10);
                                                            Ok((TypeV::Arrow(params, Box::new(ret), Box::new(reqs), Box::new(throws)), q11))
                                                        },
                                                    }
                                                },
                                            }
                                        },
                                    }
                                },
                            }
                        },
                    }
                },
            }
        },
    }
}

/// A report that names what else was tried.
pub open spec fn also_tried(e: ParseErrorV, what: Text, other: ParseErrorV) -> ParseErrorV {
    cursor::parse_error(
        e.message + " (also tried as "@ + what + ": "@ + other.message + ")"@,
        e.span,
    )
}

/// A type: a function type, or another one.
#[verifier::opaque]
pub open spec fn type_at(toks: Seq<TokenV>, p: nat) -> Parsed<TypeV>
    decreases cursor::left(toks, p), 2nat,
{
    if cursor::is_at(toks, p, TokenKind::LParen) {
        match arrow_type_at(toks, p) {
            Ok(v) => Ok(v),
            Err(a) => match type_atom_at(toks, p) {
                Ok(v) => Ok(v),
                Err(e) => Err(also_tried(e, "arrow type"@, a)),
            },
        }
    } else {
        type_atom_at(toks, p)
    }
}

/// The built-in type of a name.
pub open spec fn builtin_type(s: Text) -> Option<TypeV> {
    if s == "i32"@ {
        Some(TypeV::I32)
    } else if s == "i64"@ {
        Some(TypeV::I64)
    } else if s == "f32"@ {
        Some(TypeV::F32)
    } else if s == "f64"@ {
        Some(TypeV::F64)
    } else if s == "float"@ {
        Some(TypeV::F64)
    } else if s == "bool"@ {
        Some(TypeV::Bool)
    } else if s == "char"@ {
        Some(TypeV::Char)
    } else if s == "string"@ {
        Some(TypeV::String)
    } else if s == "unit"@ {
        Some(TypeV::Unit)
    } else {
        None
    }
}

/// A type that is not a function type.
pub open spec fn type_atom_at(toks: Seq<TokenV>, p: nat) -> Parsed<TypeV>
    decreases cursor::left(toks, p), 1nat,
{
    if cursor::is_name(toks, p) {
        let s = cursor::word_text(toks, p);
        match builtin_type(s) {
            Some(t) => Ok((t, p + 1)),
            None => if s == "ref"@ {
                ref_type_at(toks, p)
            } else {
                user_type_at(toks, p)
            },
        }
    } else if cursor::is_at(toks, p, TokenKind::Handler) {
        handler_type_at(toks, p)
    } else if cursor::is_at(toks, p, TokenKind::Ampersand) {
        borrow_type_at(toks, p)
    } else if cursor::is_at(toks, p, TokenKind::Percent) {
        linear_type_at(toks, p)
    } else if cursor::is_at(toks, p, TokenKind::LBrace) {
        match record_type_at(toks, p) {
            Ok(v) => Ok(v),
            Err(a) => match row_type_at(toks, p) {
                Ok(v) => Ok(v),
                Err(e) => Err(also_tried(e, "record type"@, a)),
            },
        }
    } else if cursor::is_at(toks, p, TokenKind::LBracket) {
        list_type_at(toks, p)
    } else if cursor::is_at(toks, p, TokenKind::LBracketPipe) {
        array_type_at(toks, p)
    } else {
        Err(cursor::unexpected(toks, p, "type"@))
    }
}

/// A reference type: `ref(type)`.
pub open spec fn ref_type_at(toks: Seq<TokenV>, p: nat) -> Parsed<TypeV>
    decreases cursor::left(toks, p), 0nat,
{
    match cursor::word_expected(toks, p, "ref"@) {
        Err(e) => Err(e),
        Ok(q1) => {
            match cursor::expected(toks, q1, TokenKind::LParen) {
                Err(e) => Err(e),
                Ok(q2) => {
                    match type_at(toks, q2) {
                        Err(e) => Err(e),
                        Ok((inner, r3)) => {
                            let q4 = cursor::ahead(p, r3);
                            match cursor::expected(toks, q4, TokenKind::RParen) {
                                Err(e) => Err(e),
                                Ok(q5) => {
                                    Ok((TypeV::Ref(Box::new(inner)), q5))
                                },
                            }
                        },
                    }
                },
            }
        },
    }
}

/// A type by its name, with its arguments.
pub open spec fn user_type_at(toks: Seq<TokenV>, p: nat) -> Parsed<TypeV>
    decreases cursor::left(toks, p), 0nat,
{
    match cursor::ident_at(toks, p) {
        Err(e) => Err(e),
        Ok((name, q1)) => {
            if cursor::is_at(toks, q1, TokenKind::Lt) {
                match generic_args_at(toks, q1) {
                    Err(e) => Err(e),
                    Ok((args, r2)) => {
                        let q3 = cursor::ahead(p, r2);
                        Ok((TypeV::UserDefined(name, args), q3))
                    },
                }
            } else {
                let none = Seq::<TypeV>::empty();
                Ok((TypeV::UserDefined(name, none), q1))
            }
        },
    }
}

/// Types, separated by commas, up to a closing angle bracket.
pub open spec fn type_items_at(toks: Seq<TokenV>, p: nat) -> Parsed<Seq<TypeV>>
    decreases cursor::left(toks, p), 3nat,
{
    if cursor::is_at(toks, p, TokenKind::Gt) {
        Ok((Seq::empty(), p))
    } else {
        match type_at(toks, p) {
            Err(e) => Err(e),
            Ok((v, r)) => type_items_rest_at(toks, cursor::ahead(p, r), seq![v]),
        }
    }
}

/// What follows the first items of such a list, `acc`.
pub open spec fn type_items_rest_at(toks: Seq<TokenV>, p: nat, acc: Seq<TypeV>) -> Parsed<Seq<TypeV>>
    decreases cursor::left(toks, p), 0nat,
{
    if cursor::is_at(toks, p, TokenKind::Comma) {
        if cursor::is_at(toks, p + 1, TokenKind::Gt) {
            Ok((acc, p + 1))
        } else {
            match type_at(toks, p + 1) {
                Err(e) => Err(e),
                Ok((v, r)) => type_items_rest_at(toks, cursor::ahead(p, r), acc.push(v)),
            }
        }
    } else {
        Ok((acc, p))
    }
}

/// The arguments of a type, in angle brackets.
pub open spec fn generic_args_at(toks: Seq<TokenV>, p: nat) -> Parsed<Seq<TypeV>>
    decreases cursor::left(toks, p), 0nat,
{
    match cursor::expected(toks, p, TokenKind::Lt) {
        Err(e) => Err(e),
        Ok(q1) => {
            match type_items_at(toks, q1) {
                Err(e) => Err(e),
                Ok((args, r2)) => {
                    let q3 = cursor::ahead(p, r2);
                    match cursor::expected(toks, q3, TokenKind::Gt) {
                        Err(e) => Err(e),
                        Ok(q4) => {
                            Ok((args, q4))
                        },
                    }
                },
            }
        },
    }
}

/// The type of a handler of a port.
pub open spec fn handler_type_at(toks: Seq<TokenV>, p: nat) -> Parsed<TypeV> {
    match cursor::expected(toks, p, TokenKind::Handler) {
        Err(e) => Err(e),
        Ok(q1) => {
            match cursor::ident_at(toks, q1) {
                Err(e) => Err(e),
                Ok((name, q2)) => {
                    Ok((TypeV::Handler(name, Box::new(helpers::empty_row())), q2))
                },
            }
        },
    }
}

/// The type of a borrowed value.
pub open spec fn borrow_type_at(toks: Seq<TokenV>, p: nat) -> Parsed<TypeV>
    decreases cursor::left(toks, p), 0nat,
{
    match cursor::expected(toks, p, TokenKind::Ampersand) {
        Err(e) => Err(e),
        Ok(q1) => {
            match type_at(toks, q1) {
                Err(e) => Err(e),
                Ok((inner, r2)) => {
                    let q3 = cursor::ahead(p, r2);
                    Ok((TypeV::Borrow(Box::new(inner)), q3))
                },
            }
        },
    }
}

/// The type of a linear value.
pub open spec fn linear_type_at(toks: Seq<TokenV>, p: nat) -> Parsed<TypeV>
    decreases cursor::left(toks, p), 0nat,
{
    match cursor::expected(toks, p, TokenKind::Percent) {
        Err(e) => Err(e),
        Ok(q1) => {
            match type_at(toks, q1) {
                Err(e) => Err(e),
                Ok((inner, r2)) => {
                    let q3 = cursor::ahead(p, r2);
                    Ok((TypeV::Linear(Box::new(inner)), q3))
                },
            }
        },
    }
}

/// The type of a list: `[type]`.
pub open spec fn list_type_at(toks: Seq<TokenV>, p: nat) -> Parsed<TypeV>
    decreases cursor::left(toks, p), 0nat,
{
    match cursor::expected(toks, p, TokenKind::LBracket) {
        Err(e) => Err(e),
        Ok(q1) => {
            match type_at(toks, q1) {
                Err(e) => Err(e),
                Ok((inner, r2)) => {
                    let q3 = cursor::ahead(p, r2);
                    match cursor::expected(toks, q3, TokenKind::RBracket) {
                        Err(e) => Err(e),
                        Ok(q4) => {
                            Ok((TypeV::List(Box::new(inner)), q4))
                        },
                    }
                },
            }
        },
    }
}

/// The type of an array: `[| type |]`.
pub open spec fn array_type_at(toks: Seq<TokenV>, p: nat) -> Parsed<TypeV>
    decreases cursor::left(toks, p), 0nat,
{
    match cursor::expected(toks, p, TokenKind::LBracketPipe) {
        Err(e) => Err(e),
        Ok(q1) => {
            match type_at(toks, q1) {
                Err(e) => Err(e),
                Ok((inner, r2)) => {
                    let q3 = cursor::ahead(p, r2);
                    match cursor::expected(toks, q3, TokenKind::RBracketPipe) {
                        Err(e) => Err(e),
                        Ok(q4) => {
                            Ok((TypeV::Array(Box::new(inner)), q4))
                        },
                    }
                },
            }
        },
    }
}

/// A parameter: its sigil, its name and its type.
#[verifier::opaque]
pub open spec fn param_at(toks: Seq<TokenV>, p: nat) -> Parsed<ParamV> {
    let (sigil, q1) = cursor::sigil_at(toks, p);
    match cursor::ident_at(toks, q1) {
        Err(e) => Err(e),
        Ok((name, q2)) => {
            match cursor::expected(toks, q2, TokenKind::Colon) {
                Err(e) => Err(e),
                Ok(q3) => {
                    match type_at(toks, q3) {
                        Err(e) => Err(e),
                        Ok((typ, q4)) => {
                            Ok((ParamV { name, sigil, typ }, q4))
                        },
                    }
                },
            }
        },
    }
}

/// Parameters, separated by commas, up to a closing parenthesis.
pub open spec fn param_items_at(toks: Seq<TokenV>, p: nat) -> Parsed<Seq<ParamV>> {
    if cursor::is_at(toks, p, TokenKind::RParen) {
        Ok((Seq::empty(), p))
    } else {
        match param_at(toks, p) {
            Err(e) => Err(e),
            Ok((v, r)) => param_items_rest_at(toks, cursor::ahead(p, r), seq![v]),
        }
    }
}

/// What follows the first items of such a list, `acc`.
pub open spec fn param_items_rest_at(toks: Seq<TokenV>, p: nat, acc: Seq<ParamV>) -> Parsed<Seq<ParamV>>
    decreases cursor::left(toks, p),
{
    if cursor::is_at(toks, p, TokenKind::Comma) {
        if cursor::is_at(toks, p + 1, TokenKind::RParen) {
            Ok((acc, p + 1))
        } else {
            match param_at(toks, p + 1) {
                Err(e) => Err(e),
                Ok((v, r)) => param_items_rest_at(toks, cursor::ahead(p, r), acc.push(v)),
            }
        }
    } else {
        Ok((acc, p))
    }
}

/// The parameters of a function, in parentheses.
#[verifier::opaque]
pub open spec fn params_at(toks: Seq<TokenV>, p: nat) -> Parsed<Seq<ParamV>> {
    match cursor::expected(toks, p, TokenKind::LParen) {
        Err(e) => Err(e),
        Ok(q1) => {
            match param_items_at(toks, q1) {
                Err(e) => Err(e),
                Ok((params, q2)) => {
                    match cursor::expected(toks, q2, TokenKind::RParen) {
                        Err(e) => Err(e),
                        Ok(q3) => {
                            Ok((params, q3))
                        },
                    }
                },
            }
        },
    }
}

/// The signature of a function: its parameters, its result, its coeffects and its effects.
#[verifier::opaque]
pub open spec fn signature_at(toks: Seq<TokenV>, p: nat) -> Parsed<(Seq<ParamV>, TypeV, TypeV, TypeV)> {
    match params_at(toks, p) {
        Err(e) => Err(e),
        Ok((params, q1)) => {
            match cursor::expected(toks, q1, TokenKind::Arrow) {
                Err(e) => Err(e),
                Ok(q2) => {
                    match type_at(toks, q2) {
                        Err(e) => Err(e),
                        Ok((ret_type, q3)) => {
                            match require_clause_at(toks, q3) {
                                Err(e) => Err(e),
                                Ok((reqs, q4)) => {
                                    match throws_clause_at(toks, q4) {
                                        Err(e) => Err(e),
                                        Ok((throws, q5)) => {
                                            Ok(((params, ret_type, reqs, throws), q5))
                                        },
                                    }
                                },
                            }
                        },
                    }
                },
            }
        },
    }
}

/// Names, separated by commas.
pub open spec fn names_at(toks: Seq<TokenV>, p: nat) -> Parsed<Seq<Text>> {
    match cursor::ident_at(toks, p) {
        Err(e) => Err(e),
        Ok((v, r)) => names_rest_at(toks, cursor::ahead(p, r), seq![v]),
    }
}

/// What follows the first items of such a list, `acc`.
pub open spec fn names_rest_at(toks: Seq<TokenV>, p: nat, acc: Seq<Text>) -> Parsed<Seq<Text>>
    decreases cursor::left(toks, p),
{
    if cursor::is_at(toks, p, TokenKind::Comma) {
        match cursor::ident_at(toks, p + 1) {
            Err(e) => Err(e),
            Ok((v, r)) => names_rest_at(toks, cursor::ahead(p, r), acc.push(v)),
        }
    } else {
        Ok((acc, p))
    }
}

/// Type parameters, in angle brackets; there may be none.
#[verifier::opaque]
pub open spec fn type_params_at(toks: Seq<TokenV>, p: nat) -> Parsed<Seq<Text>> {
    if cursor::is_at(toks, p, TokenKind::Lt) {
        let q1: nat = p + 1;
        match names_at(toks, q1) {
            Err(e) => Err(e),
            Ok((names, q2)) => {
                match cursor::expected(toks, q2, TokenKind::Gt) {
                    Err(e) => Err(e),
                    Ok(q3) => {
                        Ok((names, q3))
                    },
                }
            },
        }
    } else {
        let none = Seq::<Text>::empty();
        Ok((none, p))
    }
}

/// A field of a constructor: `name: type`, or a type alone.
pub open spec fn variant_field_at(toks: Seq<TokenV>, p: nat) -> Parsed<(Option<Text>, TypeV)> {
    match labelled_at(toks, p) {
        Some(name) => match type_at(toks, p + 2) {
            Err(e) => Err(e),
            Ok((t, r)) => Ok(((Some(name), t), r)),
        },
        None => match type_at(toks, p) {
            Err(e) => Err(e),
            Ok((t, r)) => Ok(((None, t), r)),
        },
    }
}

/// The label before a colon at a position.
pub open spec fn labelled_at(toks: Seq<TokenV>, p: nat) -> Option<Text> {
    match cursor::ident_at(toks, p) {
        Ok((name, q)) => if cursor::is_at(toks, q, TokenKind::Colon) {
            Some(name)
        } else {
            None
        },
        Err(_) => None,
    }
}

/// The fields of a constructor, separated by commas, up to a closing parenthesis.
pub open spec fn variant_items_at(toks: Seq<TokenV>, p: nat) -> Parsed<Seq<(Option<Text>, TypeV)>> {
    if cursor::is_at(toks, p, TokenKind::RParen) {
        Ok((Seq::empty(), p))
    } else {
        match variant_field_at(toks, p) {
            Err(e) => Err(e),
            Ok((v, r)) => variant_items_rest_at(toks, cursor::ahead(p, r), seq![v]),
        }
    }
}

/// What follows the first items of such a list, `acc`.
pub open spec fn variant_items_rest_at(toks: Seq<TokenV>, p: nat, acc: Seq<(Option<Text>, TypeV)>) -> Parsed<Seq<(Option<Text>, TypeV)>>
    decreases cursor::left(toks, p),
{
    if cursor::is_at(toks, p, TokenKind::Comma) {
        if cursor::is_at(toks, p + 1, TokenKind::RParen) {
            Ok((acc, p + 1))
        } else {
            match variant_field_at(toks, p + 1) {
                Err(e) => Err(e),
                Ok((v, r)) => variant_items_rest_at(toks, cursor::ahead(p, r), acc.push(v)),
            }
        }
    } else {
        Ok((acc, p))
    }
}

/// The fields of a constructor, in parentheses; there may be none.
#[verifier::opaque]
pub open spec fn variant_fields_at(toks: Seq<TokenV>, p: nat) -> Parsed<Seq<(Option<Text>, TypeV)>> {
    if cursor::is_at(toks, p, TokenKind::LParen) {
        let q1: nat = p + 1;
        match variant_items_at(toks, q1) {
            Err(e) => Err(e),
            Ok((fields, q2)) => {
                match cursor::expected(toks, q2, TokenKind::RParen) {
                    Err(e) => Err(e),
                    Ok(q3) => {
                        Ok((fields, q3))
                    },
                }
            },
        }
    } else {
        let none = Seq::<(Option<Text>, TypeV)>::empty();
        Ok((none, p))
    }
}

// ---------------------------------------------------------------------------
// Reading types and signatures
// ---------------------------------------------------------------------------

pub fn parse_named_field(toks: &Vec<Token>, p: usize) -> (r: Result<((String, Type), usize), ParseError>)
    requires
        lexer::well_ended(toks@),
        p < toks.len(),
    ensures
        match r {
            Ok((v, q)) => {
                &&& named_field_at(lexer::tokens_view(toks@), p as nat) == Ok::<
                    ((Text, TypeV), nat),
                    ParseErrorV,
                >(((v.0@, v.1@), q as nat))
                &&& p < q < toks.len()
            },
            Err(e) => named_field_at(lexer::tokens_view(toks@), p as nat) == Err::<
                ((Text, TypeV), nat),
                ParseErrorV,
            >(e@),
        },
    decreases toks.len() - p, 0nat,
{
    proof {
        reveal(type_at);
    }
    let (name, p) = expect_ident(toks, p)?;
    let p = expect(toks, p, &TokenKind::Colon)?;
    let (typ, p) = parse_type(toks, p)?;
    Ok(((name, typ), p))
}

#[verifier::loop_isolation(false)]
pub fn parse_named_fields(toks: &Vec<Token>, p: usize) -> (r: Result<(Vec<(String, Type)>, usize), ParseError>)
    requires
        lexer::well_ended(toks@),
        p < toks.len(),
    ensures
        match r {
            Ok((v, q)) => {
                &&& named_fields_at(lexer::tokens_view(toks@), p as nat) == Ok::<
                    (Seq<(Text, TypeV)>, nat),
                    ParseErrorV,
                >((types::fields_view(v@), q as nat))
                &&& p <= q < toks.len()
            },
            Err(e) => named_fields_at(lexer::tokens_view(toks@), p as nat) == Err::<
                (Seq<(Text, TypeV)>, nat),
                ParseErrorV,
            >(e@),
        },
    decreases toks.len() - p, 1nat,
{
    let ghost tv = lexer::tokens_view(toks@);
    let ghost all = named_fields_at(tv, p as nat);
    if next_is(toks, p, &TokenKind::RBrace) {
        let none: Vec<(String, Type)> = Vec::new();
        assert(types::fields_view(none@) =~= Seq::<(Text, TypeV)>::empty());
        return Ok((none, p));
    }
    let (first, next) = parse_named_field(toks, p)?;
    let mut acc: Vec<(String, Type)> = Vec::new();
    let ghost fv = (first.0@, first.1@);
    acc.push(first);
    assert(types::fields_view(acc@) =~= seq![fv]);
    let mut at: usize = next;
    while next_is(toks, at, &TokenKind::Comma)
        invariant
            p < at < toks.len(),
            named_fields_rest_at(tv, at as nat, types::fields_view(acc@)) == all,
        decreases toks.len() - at,
    {
        if next_is(toks, at + 1, &TokenKind::RBrace) {
            return Ok((acc, at + 1));
        }
        let (item, after) = parse_named_field(toks, at + 1)?;
        let ghost before = types::fields_view(acc@);
        let ghost iv = (item.0@, item.1@);
        acc.push(item);
        assert(types::fields_view(acc@) =~= before.push(iv));
        at = after;
    }
    Ok((acc, at))
}

fn try_parse_record_type(toks: &Vec<Token>, p: usize) -> (r: Result<(Type, usize), ParseError>)
    requires
        lexer::well_ended(toks@),
        p < toks.len(),
    ensures
        match r {
            Ok((v, q)) => {
                &&& record_type_at(lexer::tokens_view(toks@), p as nat) == Ok::<
                    (TypeV, nat),
                    ParseErrorV,
                >((v@, q as nat))
                &&& p < q < toks.len()
            },
            Err(e) => record_type_at(lexer::tokens_view(toks@), p as nat) == Err::<
                (TypeV, nat),
                ParseErrorV,
            >(e@),
        },
    decreases toks.len() - p, 0nat,
{
    let p = expect(toks, p, &TokenKind::LBrace)?;
    let (fields, p) = parse_named_fields(toks, p)?;
    let p = expect(toks, p, &TokenKind::RBrace)?;
    Ok((Type::Record(fields), p))
}

#[verifier::loop_isolation(false)]
fn parse_row_items(toks: &Vec<Token>, p: usize) -> (r: Result<(Vec<Type>, usize), ParseError>)
    requires
        lexer::well_ended(toks@),
        p < toks.len(),
    ensures
        match r {
            Ok((v, q)) => {
                &&& row_items_at(lexer::tokens_view(toks@), p as nat) == Ok::<
                    (Seq<TypeV>, nat),
                    ParseErrorV,
                >((types::types_view(v@), q as nat))
                &&& p <= q < toks.len()
            },
            Err(e) => row_items_at(lexer::tokens_view(toks@), p as nat) == Err::<
                (Seq<TypeV>, nat),
                ParseErrorV,
            >(e@),
        },
    decreases toks.len() - p, 3nat,
{
    proof {
        reveal(type_at);
    }
    let ghost tv = lexer::tokens_view(toks@);
    let ghost all = row_items_at(tv, p as nat);
    if next_is(toks, p, &TokenKind::RBrace) {
        let none: Vec<Type> = Vec::new();
        assert(types::types_view(none@) =~= Seq::<TypeV>::empty());
        return Ok((none, p));
    }
    let (first, next) = parse_type(toks, p)?;
    let mut acc: Vec<Type> = Vec::new();
    let ghost fv = first@;
    acc.push(first);
    assert(types::types_view(acc@) =~= seq![fv]);
    let mut at: usize = next;
    while next_is(toks, at, &TokenKind::Comma)
        invariant
            p < at < toks.len(),
            row_items_rest_at(tv, at as nat, types::types_view(acc@)) == all,
        decreases toks.len() - at,
    {
        if next_is(toks, at + 1, &TokenKind::RBrace) {
            return Ok((acc, at + 1));
        }
        let (item, after) = parse_type(toks, at + 1)?;
        let ghost before = types::types_view(acc@);
        let ghost iv = item@;
        acc.push(item);
        assert(types::types_view(acc@) =~= before.push(iv));
        at = after;
    }
    Ok((acc, at))
}

fn parse_row_type(toks: &Vec<Token>, p: usize) -> (r: Result<(Type, usize), ParseError>)
    requires
        lexer::well_ended(toks@),
        p < toks.len(),
    ensures
        match r {
            Ok((v, q)) => {
                &&& row_type_at(lexer::tokens_view(toks@), p as nat) == Ok::<
                    (TypeV, nat),
                    ParseErrorV,
                >((v@, q as nat))
                &&& p < q < toks.len()
            },
            Err(e) => row_type_at(lexer::tokens_view(toks@), p as nat) == Err::<
                (TypeV, nat),
                ParseErrorV,
            >(e@),
        },
    decreases toks.len() - p, 0nat,
{
    proof {
        reveal(type_at);
    }
    let p = expect(toks, p, &TokenKind::LBrace)?;
    let (items, p) = parse_row_items(toks, p)?;
    if next_is(toks, p, &TokenKind::Pipe) {
        let p: usize = p + 1;
        let (tail, p) = parse_type(toks, p)?;
        let p = expect(toks, p, &TokenKind::RBrace)?;
        Ok((Type::Row(items, Some(Box::new(tail))), p))
    } else {
        let p = expect(toks, p, &TokenKind::RBrace)?;
        Ok((Type::Row(items, None), p))
    }
}

pub fn parse_row_or_type(toks: &Vec<Token>, p: usize) -> (r: Result<(Type, usize), ParseError>)
    requires
        lexer::well_ended(toks@),
        p < toks.len(),
    ensures
        match r {
            Ok((v, q)) => {
                &&& row_or_type_at(lexer::tokens_view(toks@), p as nat) == Ok::<
                    (TypeV, nat),
                    ParseErrorV,
                >((v@, q as nat))
                &&& p < q < toks.len()
            },
            Err(e) => row_or_type_at(lexer::tokens_view(toks@), p as nat) == Err::<
                (TypeV, nat),
                ParseErrorV,
            >(e@),
        },
    decreases toks.len() - p, 3nat,
{
    proof {
        reveal(type_at);
    }
    if next_is(toks, p, &TokenKind::LBrace) {
        parse_row_type(toks, p)
    } else {
        parse_type(toks, p)
    }
}

pub fn parse_require_clause(toks: &Vec<Token>, p: usize) -> (r: Result<(Type, usize), ParseError>)
    requires
        lexer::well_ended(toks@),
        p < toks.len(),
    ensures
        match r {
            Ok((v, q)) => {
                &&& require_clause_at(lexer::tokens_view(toks@), p as nat) == Ok::<
                    (TypeV, nat),
                    ParseErrorV,
                >((v@, q as nat))
                &&& p <= q < toks.len()
            },
            Err(e) => require_clause_at(lexer::tokens_view(toks@), p as nat) == Err::<
                (TypeV, nat),
                ParseErrorV,
            >(e@),
        },
    decreases toks.len() - p, 4nat,
{
    if next_is(toks, p, &TokenKind::Require) {
        let p: usize = p + 1;
        parse_row_or_type(toks, p)
    } else {
        Ok((make_empty_row(), p))
    }
}

pub fn parse_throws_clause(toks: &Vec<Token>, p: usize) -> (r: Result<(Type, usize), ParseError>)
    requires
        lexer::well_ended(toks@),
        p < toks.len(),
    ensures
        match r {
            Ok((v, q)) => {
                &&& throws_clause_at(lexer::tokens_view(toks@), p as nat) == Ok::<
                    (TypeV, nat),
                    ParseErrorV,
                >((v@, q as nat))
                &&& p <= q < toks.len()
            },
            Err(e) => throws_clause_at(lexer::tokens_view(toks@), p as nat) == Err::<
                (TypeV, nat),
                ParseErrorV,
            >(e@),
        },
    decreases toks.len() - p, 4nat,
{
    if next_is(toks, p, &TokenKind::Throws) {
        let p: usize = p + 1;
        parse_row_or_type(toks, p)
    } else {
        Ok((make_empty_row(), p))
    }
}

fn parse_arrow_param(toks: &Vec<Token>, p: usize) -> (r: Result<((String, Type), usize), ParseError>)
    requires
        lexer::well_ended(toks@),
        p < toks.len(),
    ensures
        match r {
            Ok((v, q)) => {
                &&& arrow_param_at(lexer::tokens_view(toks@), p as nat) == Ok::<
                    ((Text, TypeV), nat),
                    ParseErrorV,
                >(((v.0@, v.1@), q as nat))
                &&& p < q < toks.len()
            },
            Err(e) => arrow_param_at(lexer::tokens_view(toks@), p as nat) == Err::<
                ((Text, TypeV), nat),
                ParseErrorV,
            >(e@),
        },
    decreases toks.len() - p, 4nat,
{
    proof {
        reveal(type_at);
    }
    match expect_ident(toks, p) {
        Ok((name, q)) => {
            if next_is(toks, q, &TokenKind::Colon) {
                let (typ, r) = parse_type(toks, q + 1)?;
                return Ok(((name, typ), r));
            }
        },
        Err(_) => {},
    }
    parse_unnamed_param(toks, p)
}

fn parse_unnamed_param(toks: &Vec<Token>, p: usize) -> (r: Result<((String, Type), usize), ParseError>)
    requires
        lexer::well_ended(toks@),
        p < toks.len(),
    ensures
        match r {
            Ok((v, q)) => {
                &&& unnamed_param_at(lexer::tokens_view(toks@), p as nat) == Ok::<
                    ((Text, TypeV), nat),
                    ParseErrorV,
                >(((v.0@, v.1@), q as nat))
                &&& p < q < toks.len()
            },
            Err(e) => unnamed_param_at(lexer::tokens_view(toks@), p as nat) == Err::<
                ((Text, TypeV), nat),
                ParseErrorV,
            >(e@),
        },
    decreases toks.len() - p, 3nat,
{
    proof {
        reveal(type_at);
    }
    let (typ, r) = parse_type(toks, p)?;
    Ok(((owned("_"), typ), r))
}

#[verifier::loop_isolation(false)]
fn parse_arrow_params(toks: &Vec<Token>, p: usize) -> (r: Result<(Vec<(String, Type)>, usize), ParseError>)
    requires
        lexer::well_ended(toks@),
        p < toks.len(),
    ensures
        match r {
            Ok((v, q)) => {
                &&& arrow_params_at(lexer::tokens_view(toks@), p as nat) == Ok::<
                    (Seq<(Text, TypeV)>, nat),
                    ParseErrorV,
                >((types::fields_view(v@), q as nat))
                &&& p <= q < toks.len()
            },
            Err(e) => arrow_params_at(lexer::tokens_view(toks@), p as nat) == Err::<
                (Seq<(Text, TypeV)>, nat),
                ParseErrorV,
            >(e@),
        },
    decreases toks.len() - p, 5nat,
{
    let ghost tv = lexer::tokens_view(toks@);
    let ghost all = arrow_params_at(tv, p as nat);
    if next_is(toks, p, &TokenKind::RParen) {
        let none: Vec<(String, Type)> = Vec::new();
        assert(types::fields_view(none@) =~= Seq::<(Text, TypeV)>::empty());
        return Ok((none, p));
    }
    let (first, next) = parse_arrow_param(toks, p)?;
    let mut acc: Vec<(String, Type)> = Vec::new();
    let ghost fv = (first.0@, first.1@);
    acc.push(first);
    assert(types::fields_view(acc@) =~= seq![fv]);
    let mut at: usize = next;
    while next_is(toks, at, &TokenKind::Comma)
        invariant
            p < at < toks.len(),
            arrow_params_rest_at(tv, at as nat, types::fields_view(acc@)) == all,
        decreases toks.len() - at,
    {
        if next_is(toks, at + 1, &TokenKind::RParen) {
            return Ok((acc, at + 1));
        }
        let (item, after) = parse_arrow_param(toks, at + 1)?;
        let ghost before = types::fields_view(acc@);
        let ghost iv = (item.0@, item.1@);
        acc.push(item);
        assert(types::fields_view(acc@) =~= before.push(iv));
        at = after;
    }
    Ok((acc, at))
}

fn try_parse_arrow_type(toks: &Vec<Token>, p: usize) -> (r: Result<(Type, usize), ParseError>)
    requires
        lexer::well_ended(toks@),
        p < toks.len(),
    ensures
        match r {
            Ok((v, q)) => {
                &&& arrow_type_at(lexer::tokens_view(toks@), p as nat) == Ok::<
                    (TypeV, nat),
                    ParseErrorV,
                >((v@, q as nat))
                &&& p < q < toks.len()
            },
            Err(e) => arrow_type_at(lexer::tokens_view(toks@), p as nat) == Err::<
                (TypeV, nat),
                ParseErrorV,
            >(e@),
        },
    decreases toks.len() - p, 0nat,
{
    proof {
        reveal(type_at);
    }
    let p = expect(toks, p, &TokenKind::LParen)?;
    let (params, p) = parse_arrow_params(toks, p)?;
    let p = expect(toks, p, &TokenKind::RParen)?;
    let p = expect(toks, p, &TokenKind::Arrow)?;
    let (ret, p) = parse_type(toks, p)?;
    let (reqs, p) = parse_require_clause(toks, p)?;
    let (throws, p) = parse_throws_clause(toks, p)?;
    Ok((Type::Arrow(params, Box::new(ret), Box::new(reqs), Box::new(throws)), p))
}

/// Extends a report by what else was tried.
pub fn add_also_tried(e: ParseError, what: &str, other: &ParseError) -> (r: ParseError)
    ensures
        r@ == also_tried(e@, what@, other@),
{
    let head = cat4(e.message.as_str(), " (also tried as ", what, ": ");
    ParseError {
        message: cat3(head.as_str(), other.message.as_str(), ")"),
        span: e.span,
    }
}

/// Reads a type.
pub fn parse_type(toks: &Vec<Token>, p: usize) -> (r: Result<(Type, usize), ParseError>)
    requires
        lexer::well_ended(toks@),
        p < toks.len(),
    ensures
        match r {
            Ok((v, q)) => {
                &&& type_at(lexer::tokens_view(toks@), p as nat) == Ok::<
                    (TypeV, nat),
                    ParseErrorV,
                >((v@, q as nat))
                &&& p < q < toks.len()
            },
            Err(e) => type_at(lexer::tokens_view(toks@), p as nat) == Err::<
                (TypeV, nat),
                ParseErrorV,
            >(e@),
        },
    decreases toks.len() - p, 2nat,
{
    proof {
        reveal(type_at);
    }
    if next_is(toks, p, &TokenKind::LParen) {
        match try_parse_arrow_type(toks, p) {
            Ok(v) => Ok(v),
            Err(a) => match parse_type_atom(toks, p) {
                Ok(v) => Ok(v),
                Err(e) => Err(add_also_tried(e, "arrow type", &a)),
            },
        }
    } else {
        parse_type_atom(toks, p)
    }
}

fn find_builtin_type(s: &str) -> (r: Option<Type>)
    ensures
        ast::opt_type(r) == builtin_type(s@),
{
    if str_eq(s, "i32") {
        Some(Type::I32)
    } else if str_eq(s, "i64") {
        Some(Type::I64)
    } else if str_eq(s, "f32") {
        Some(Type::F32)
    } else if str_eq(s, "f64") {
        Some(Type::F64)
    } else if str_eq(s, "float") {
        Some(Type::F64)
    } else if str_eq(s, "bool") {
        Some(Type::Bool)
    } else if str_eq(s, "char") {
        Some(Type::Char)
    } else if str_eq(s, "string") {
        Some(Type::String)
    } else if str_eq(s, "unit") {
        Some(Type::Unit)
    } else {
        None
    }
}

fn parse_type_atom(toks: &Vec<Token>, p: usize) -> (r: Result<(Type, usize), ParseError>)
    requires
        lexer::well_ended(toks@),
        p < toks.len(),
    ensures
        match r {
            Ok((v, q)) => {
                &&& type_atom_at(lexer::tokens_view(toks@), p as nat) == Ok::<
                    (TypeV, nat),
                    ParseErrorV,
                >((v@, q as nat))
                &&& p < q < toks.len()
            },
            Err(e) => type_atom_at(lexer::tokens_view(toks@), p as nat) == Err::<
                (TypeV, nat),
                ParseErrorV,
            >(e@),
        },
    decreases toks.len() - p, 1nat,
{
    if next_is_name(toks, p) {
        let s = copy_word(toks, p);
        match find_builtin_type(s.as_str()) {
            Some(t) => Ok((t, p + 1)),
            None => if str_eq(s.as_str(), "ref") {
                parse_ref_type(toks, p)
            } else {
                parse_user_type(toks, p)
            },
        }
    } else if next_is(toks, p, &TokenKind::Handler) {
        parse_handler_type(toks, p)
    } else if next_is(toks, p, &TokenKind::Ampersand) {
        parse_borrow_type(toks, p)
    } else if next_is(toks, p, &TokenKind::Percent) {
        parse_linear_type(toks, p)
    } else if next_is(toks, p, &TokenKind::LBrace) {
        match try_parse_record_type(toks, p) {
            Ok(v) => Ok(v),
            Err(a) => match parse_row_type(toks, p) {
                Ok(v) => Ok(v),
                Err(e) => Err(add_also_tried(e, "record type", &a)),
            },
        }
    } else if next_is(toks, p, &TokenKind::LBracket) {
        parse_list_type(toks, p)
    } else if next_is(toks, p, &TokenKind::LBracketPipe) {
        parse_array_type(toks, p)
    } else {
        Err(unexpected_error(toks, p, "type"))
    }
}

fn parse_ref_type(toks: &Vec<Token>, p: usize) -> (r: Result<(Type, usize), ParseError>)
    requires
        lexer::well_ended(toks@),
        p < toks.len(),
    ensures
        match r {
            Ok((v, q)) => {
                &&& ref_type_at(lexer::tokens_view(toks@), p as nat) == Ok::<
                    (TypeV, nat),
                    ParseErrorV,
                >((v@, q as nat))
                &&& p < q < toks.len()
            },
            Err(e) => ref_type_at(lexer::tokens_view(toks@), p as nat) == Err::<
                (TypeV, nat),
                ParseErrorV,
            >(e@),
        },
    decreases toks.len() - p, 0nat,
{
    proof {
        reveal(type_at);
    }
    let p = expect_contextual(toks, p, "ref")?;
    let p = expect(toks, p, &TokenKind::LParen)?;
    let (inner, p) = parse_type(toks, p)?;
    let p = expect(toks, p, &TokenKind::RParen)?;
    Ok((Type::Ref(Box::new(inner)), p))
}

fn parse_user_type(toks: &Vec<Token>, p: usize) -> (r: Result<(Type, usize), ParseError>)
    requires
        lexer::well_ended(toks@),
        p < toks.len(),
    ensures
        match r {
            Ok((v, q)) => {
                &&& user_type_at(lexer::tokens_view(toks@), p as nat) == Ok::<
                    (TypeV, nat),
                    ParseErrorV,
                >((v@, q as nat))
                &&& p < q < toks.len()
            },
            Err(e) => user_type_at(lexer::tokens_view(toks@), p as nat) == Err::<
                (TypeV, nat),
                ParseErrorV,
            >(e@),
        },
    decreases toks.len() - p, 0nat,
{
    let (name, p) = expect_ident(toks, p)?;
    if next_is(toks, p, &TokenKind::Lt) {
        let (args, p) = parse_generic_args(toks, p)?;
        Ok((Type::UserDefined(name, args), p))
    } else {
        let none: Vec<Type> = Vec::new();
        assert(types::types_view(none@) =~= Seq::<TypeV>::empty());
        Ok((Type::UserDefined(name, none), p))
    }
}

#[verifier::loop_isolation(false)]
fn parse_type_items(toks: &Vec<Token>, p: usize) -> (r: Result<(Vec<Type>, usize), ParseError>)
    requires
        lexer::well_ended(toks@),
        p < toks.len(),
    ensures
        match r {
            Ok((v, q)) => {
                &&& type_items_at(lexer::tokens_view(toks@), p as nat) == Ok::<
                    (Seq<TypeV>, nat),
                    ParseErrorV,
                >((types::types_view(v@), q as nat))
                &&& p <= q < toks.len()
            },
            Err(e) => type_items_at(lexer::tokens_view(toks@), p as nat) == Err::<
                (Seq<TypeV>, nat),
                ParseErrorV,
            >(e@),
        },
    decreases toks.len() - p, 3nat,
{
    proof {
        reveal(type_at);
    }
    let ghost tv = lexer::tokens_view(toks@);
    let ghost all = type_items_at(tv, p as nat);
    if next_is(toks, p, &TokenKind::Gt) {
        let none: Vec<Type> = Vec::new();
        assert(types::types_view(none@) =~= Seq::<TypeV>::empty());
        return Ok((none, p));
    }
    let (first, next) = parse_type(toks, p)?;
    let mut acc: Vec<Type> = Vec::new();
    let ghost fv = first@;
    acc.push(first);
    assert(types::types_view(acc@) =~= seq![fv]);
    let mut at: usize = next;
    while next_is(toks, at, &TokenKind::Comma)
        invariant
            p < at < toks.len(),
            type_items_rest_at(tv, at as nat, types::types_view(acc@)) == all,
        decreases toks.len() - at,
    {
        if next_is(toks, at + 1, &TokenKind::Gt) {
            return Ok((acc, at + 1));
        }
        let (item, after) = parse_type(toks, at + 1)?;
        let ghost before = types::types_view(acc@);
        let ghost iv = item@;
        acc.push(item);
        assert(types::types_view(acc@) =~= before.push(iv));
        at = after;
    }
    Ok((acc, at))
}

fn parse_generic_args(toks: &Vec<Token>, p: usize) -> (r: Result<(Vec<Type>, usize), ParseError>)
    requires
        lexer::well_ended(toks@),
        p < toks.len(),
    ensures
        match r {
            Ok((v, q)) => {
                &&& generic_args_at(lexer::tokens_view(toks@), p as nat) == Ok::<
                    (Seq<TypeV>, nat),
                    ParseErrorV,
                >((types::types_view(v@), q as nat))
                &&& p < q < toks.len()
            },
            Err(e) => generic_args_at(lexer::tokens_view(toks@), p as nat) == Err::<
                (Seq<TypeV>, nat),
                ParseErrorV,
            >(e@),
        },
    decreases toks.len() - p, 0nat,
{
    let p = expect(toks, p, &TokenKind::Lt)?;
    let (args, p) = parse_type_items(toks, p)?;
    let p = expect(toks, p, &TokenKind::Gt)?;
    Ok((args, p))
}

fn parse_handler_type(toks: &Vec<Token>, p: usize) -> (r: Result<(Type, usize), ParseError>)
    requires
        lexer::well_ended(toks@),
        p < toks.len(),
    ensures
        match r {
            Ok((v, q)) => {
                &&& handler_type_at(lexer::tokens_view(toks@), p as nat) == Ok::<
                    (TypeV, nat),
                    ParseErrorV,
                >((v@, q as nat))
                &&& p < q < toks.len()
            },
            Err(e) => handler_type_at(lexer::tokens_view(toks@), p as nat) == Err::<
                (TypeV, nat),
                ParseErrorV,
            >(e@),
        },
{
    let p = expect(toks, p, &TokenKind::Handler)?;
    let (name, p) = expect_ident(toks, p)?;
    Ok((Type::Handler(name, Box::new(make_empty_row())), p))
}

fn parse_borrow_type(toks: &Vec<Token>, p: usize) -> (r: Result<(Type, usize), ParseError>)
    requires
        lexer::well_ended(toks@),
        p < toks.len(),
    ensures
        match r {
            Ok((v, q)) => {
                &&& borrow_type_at(lexer::tokens_view(toks@), p as nat) == Ok::<
                    (TypeV, nat),
                    ParseErrorV,
                >((v@, q as nat))
                &&& p < q < toks.len()
            },
            Err(e) => borrow_type_at(lexer::tokens_view(toks@), p as nat) == Err::<
                (TypeV, nat),
                ParseErrorV,
            >(e@),
        },
    decreases toks.len() - p, 0nat,
{
    proof {
        reveal(type_at);
    }
    let p = expect(toks, p, &TokenKind::Ampersand)?;
    let (inner, p) = parse_type(toks, p)?;
    Ok((Type::Borrow(Box::new(inner)), p))
}

fn parse_linear_type(toks: &Vec<Token>, p: usize) -> (r: Result<(Type, usize), ParseError>)
    requires
        lexer::well_ended(toks@),
        p < toks.len(),
    ensures
        match r {
            Ok((v, q)) => {
                &&& linear_type_at(lexer::tokens_view(toks@), p as nat) == Ok::<
                    (TypeV, nat),
                    ParseErrorV,
                >((v@, q as nat))
                &&& p < q < toks.len()
            },
            Err(e) => linear_type_at(lexer::tokens_view(toks@), p as nat) == Err::<
                (TypeV, nat),
                ParseErrorV,
            >(e@),
        },
    decreases toks.len() - p, 0nat,
{
    proof {
        reveal(type_at);
    }
    let p = expect(toks, p, &TokenKind::Percent)?;
    let (inner, p) = parse_type(toks, p)?;
    Ok((Type::Linear(Box::new(inner)), p))
}

fn parse_list_type(toks: &Vec<Token>, p: usize) -> (r: Result<(Type, usize), ParseError>)
    requires
        lexer::well_ended(toks@),
        p < toks.len(),
    ensures
        match r {
            Ok((v, q)) => {
                &&& list_type_at(lexer::tokens_view(toks@), p as nat) == Ok::<
                    (TypeV, nat),
                    ParseErrorV,
                >((v@, q as nat))
                &&& p < q < toks.len()
            },
            Err(e) => list_type_at(lexer::tokens_view(toks@), p as nat) == Err::<
                (TypeV, nat),
                ParseErrorV,
            >(e@),
        },
    decreases toks.len() - p, 0nat,
{
    proof {
        reveal(type_at);
    }
    let p = expect(toks, p, &TokenKind::LBracket)?;
    let (inner, p) = parse_type(toks, p)?;
    let p = expect(toks, p, &TokenKind::RBracket)?;
    Ok((Type::List(Box::new(inner)), p))
}

fn parse_array_type(toks: &Vec<Token>, p: usize) -> (r: Result<(Type, usize), ParseError>)
    requires
        lexer::well_ended(toks@),
        p < toks.len(),
    ensures
        match r {
            Ok((v, q)) => {
                &&& array_type_at(lexer::tokens_view(toks@), p as nat) == Ok::<
                    (TypeV, nat),
                    ParseErrorV,
                >((v@, q as nat))
                &&& p < q < toks.len()
            },
            Err(e) => array_type_at(lexer::tokens_view(toks@), p as nat) == Err::<
                (TypeV, nat),
                ParseErrorV,
            >(e@),
        },
    decreases toks.len() - p, 0nat,
{
    proof {
        reveal(type_at);
    }
    let p = expect(toks, p, &TokenKind::LBracketPipe)?;
    let (inner, p) = parse_type(toks, p)?;
    let p = expect(toks, p, &TokenKind::RBracketPipe)?;
    Ok((Type::Array(Box::new(inner)), p))
}

fn parse_param(toks: &Vec<Token>, p: usize) -> (r: Result<(Param, usize), ParseError>)
    requires
        lexer::well_ended(toks@),
        p < toks.len(),
    ensures
        match r {
            Ok((v, q)) => {
                &&& param_at(lexer::tokens_view(toks@), p as nat) == Ok::<
                    (ParamV, nat),
                    ParseErrorV,
                >((v@, q as nat))
                &&& p < q < toks.len()
            },
            Err(e) => param_at(lexer::tokens_view(toks@), p as nat) == Err::<
                (ParamV, nat),
                ParseErrorV,
            >(e@),
        },
{
    proof {
        reveal(type_at);
    }
    proof {
        reveal(param_at);
    }
    let (sigil, p) = parse_sigil(toks, p);
    let (name, p) = expect_ident(toks, p)?;
    let p = expect(toks, p, &TokenKind::Colon)?;
    let (typ, p) = parse_type(toks, p)?;
    Ok((Param { name, sigil, typ }, p))
}

#[verifier::loop_isolation(false)]
fn parse_param_items(toks: &Vec<Token>, p: usize) -> (r: Result<(Vec<Param>, usize), ParseError>)
    requires
        lexer::well_ended(toks@),
        p < toks.len(),
    ensures
        match r {
            Ok((v, q)) => {
                &&& param_items_at(lexer::tokens_view(toks@), p as nat) == Ok::<
                    (Seq<ParamV>, nat),
                    ParseErrorV,
                >((ast::params_view(v@), q as nat))
                &&& p <= q < toks.len()
            },
            Err(e) => param_items_at(lexer::tokens_view(toks@), p as nat) == Err::<
                (Seq<ParamV>, nat),
                ParseErrorV,
            >(e@),
        },

{
    let ghost tv = lexer::tokens_view(toks@);
    let ghost all = param_items_at(tv, p as nat);
    if next_is(toks, p, &TokenKind::RParen) {
        let none: Vec<Param> = Vec::new();
        assert(ast::params_view(none@) =~= Seq::<ParamV>::empty());
        return Ok((none, p));
    }
    let (first, next) = parse_param(toks, p)?;
    let mut acc: Vec<Param> = Vec::new();
    let ghost fv = first@;
    acc.push(first);
    assert(ast::params_view(acc@) =~= seq![fv]);
    let mut at: usize = next;
    while next_is(toks, at, &TokenKind::Comma)
        invariant
            p < at < toks.len(),
            param_items_rest_at(tv, at as nat, ast::params_view(acc@)) == all,
        decreases toks.len() - at,
    {
        if next_is(toks, at + 1, &TokenKind::RParen) {
            return Ok((acc, at + 1));
        }
        let (item, after) = parse_param(toks, at + 1)?;
        let ghost before = ast::params_view(acc@);
        let ghost iv = item@;
        acc.push(item);
        assert(ast::params_view(acc@) =~= before.push(iv));
        at = after;
    }
    Ok((acc, at))
}

pub fn parse_params(toks: &Vec<Token>, p: usize) -> (r: Result<(Vec<Param>, usize), ParseError>)
    requires
        lexer::well_ended(toks@),
        p < toks.len(),
    ensures
        match r {
            Ok((v, q)) => {
                &&& params_at(lexer::tokens_view(toks@), p as nat) == Ok::<
                    (Seq<ParamV>, nat),
                    ParseErrorV,
                >((ast::params_view(v@), q as nat))
                &&& p < q < toks.len()
            },
            Err(e) => params_at(lexer::tokens_view(toks@), p as nat) == Err::<
                (Seq<ParamV>, nat),
                ParseErrorV,
            >(e@),
        },
{
    proof {
        reveal(params_at);
    }
    let p = expect(toks, p, &TokenKind::LParen)?;
    let (params, p) = parse_param_items(toks, p)?;
    let p = expect(toks, p, &TokenKind::RParen)?;
    Ok((params, p))
}

pub fn parse_signature(toks: &Vec<Token>, p: usize) -> (r: Result<((Vec<Param>, Type, Type, Type), usize), ParseError>)
    requires
        lexer::well_ended(toks@),
        p < toks.len(),
    ensures
        match r {
            Ok((v, q)) => {
                &&& signature_at(lexer::tokens_view(toks@), p as nat) == Ok::<
                    ((Seq<ParamV>, TypeV, TypeV, TypeV), nat),
                    ParseErrorV,
                >(((ast::params_view(v.0@), v.1@, v.2@, v.3@), q as nat))
                &&& p < q < toks.len()
            },
            Err(e) => signature_at(lexer::tokens_view(toks@), p as nat) == Err::<
                ((Seq<ParamV>, TypeV, TypeV, TypeV), nat),
                ParseErrorV,
            >(e@),
        },
{
    proof {
        reveal(type_at);
    }
    proof {
        reveal(signature_at);
    }
    let (params, p) = parse_params(toks, p)?;
    let p = expect(toks, p, &TokenKind::Arrow)?;
    let (ret_type, p) = parse_type(toks, p)?;
    let (reqs, p) = parse_require_clause(toks, p)?;
    let (throws, p) = parse_throws_clause(toks, p)?;
    Ok(((params, ret_type, reqs, throws), p))
}

#[verifier::loop_isolation(false)]
fn parse_names(toks: &Vec<Token>, p: usize) -> (r: Result<(Vec<String>, usize), ParseError>)
    requires
        lexer::well_ended(toks@),
        p < toks.len(),
    ensures
        match r {
            Ok((v, q)) => {
                &&& names_at(lexer::tokens_view(toks@), p as nat) == Ok::<
                    (Seq<Text>, nat),
                    ParseErrorV,
                >((text::texts(v@), q as nat))
                &&& p < q < toks.len()
            },
            Err(e) => names_at(lexer::tokens_view(toks@), p as nat) == Err::<
                (Seq<Text>, nat),
                ParseErrorV,
            >(e@),
        },

{
    let ghost tv = lexer::tokens_view(toks@);
    let ghost all = names_at(tv, p as nat);
    let (first, next) = expect_ident(toks, p)?;
    let mut acc: Vec<String> = Vec::new();
    let ghost fv = first@;
    acc.push(first);
    assert(text::texts(acc@) =~= seq![fv]);
    let mut at: usize = next;
    while next_is(toks, at, &TokenKind::Comma)
        invariant
            p < at < toks.len(),
            names_rest_at(tv, at as nat, text::texts(acc@)) == all,
        decreases toks.len() - at,
    {
        let (item, after) = expect_ident(toks, at + 1)?;
        let ghost before = text::texts(acc@);
        let ghost iv = item@;
        acc.push(item);
        assert(text::texts(acc@) =~= before.push(iv));
        at = after;
    }
    Ok((acc, at))
}

pub fn parse_type_params(toks: &Vec<Token>, p: usize) -> (r: Result<(Vec<String>, usize), ParseError>)
    requires
        lexer::well_ended(toks@),
        p < toks.len(),
    ensures
        match r {
            Ok((v, q)) => {
                &&& type_params_at(lexer::tokens_view(toks@), p as nat) == Ok::<
                    (Seq<Text>, nat),
                    ParseErrorV,
                >((text::texts(v@), q as nat))
                &&& p <= q < toks.len()
            },
            Err(e) => type_params_at(lexer::tokens_view(toks@), p as nat) == Err::<
                (Seq<Text>, nat),
                ParseErrorV,
            >(e@),
        },
{
    proof {
        reveal(type_params_at);
    }
    if next_is(toks, p, &TokenKind::Lt) {
        let p: usize = p + 1;
        let (names, p) = parse_names(toks, p)?;
        let p = expect(toks, p, &TokenKind::Gt)?;
        Ok((names, p))
    } else {
        let none: Vec<String> = Vec::new();
        assert(text::texts(none@) =~= Seq::<Text>::empty());
        Ok((none, p))
    }
}

fn parse_variant_field(toks: &Vec<Token>, p: usize) -> (r: Result<((Option<String>, Type), usize), ParseError>)
    requires
        lexer::well_ended(toks@),
        p < toks.len(),
    ensures
        match r {
            Ok((v, q)) => {
                &&& variant_field_at(lexer::tokens_view(toks@), p as nat) == Ok::<
                    ((Option<Text>, TypeV), nat),
                    ParseErrorV,
                >(((types::opt_text(v.0), v.1@), q as nat))
                &&& p < q < toks.len()
            },
            Err(e) => variant_field_at(lexer::tokens_view(toks@), p as nat) == Err::<
                ((Option<Text>, TypeV), nat),
                ParseErrorV,
            >(e@),
        },
{
    proof {
        reveal(type_at);
    }
    match find_label(toks, p) {
        Some(name) => {
            let (t, r) = parse_type(toks, p + 2)?;
            Ok(((Some(name), t), r))
        },
        None => {
            let (t, r) = parse_type(toks, p)?;
            Ok(((None, t), r))
        },
    }
}

/// Finds the label before a colon at a position.
pub fn find_label(toks: &Vec<Token>, p: usize) -> (r: Option<String>)
    requires
        lexer::well_ended(toks@),
        p < toks.len(),
    ensures
        types::opt_text(r) == labelled_at(lexer::tokens_view(toks@), p as nat),
        r is Some ==> p + 2 < toks.len(),
{
    match expect_ident(toks, p) {
        Ok((name, q)) => if next_is(toks, q, &TokenKind::Colon) {
            Some(name)
        } else {
            None
        },
        Err(_) => None,
    }
}

#[verifier::loop_isolation(false)]
fn parse_variant_items(toks: &Vec<Token>, p: usize) -> (r: Result<(Vec<(Option<String>, Type)>, usize), ParseError>)
    requires
        lexer::well_ended(toks@),
        p < toks.len(),
    ensures
        match r {
            Ok((v, q)) => {
                &&& variant_items_at(lexer::tokens_view(toks@), p as nat) == Ok::<
                    (Seq<(Option<Text>, TypeV)>, nat),
                    ParseErrorV,
                >((ast::ctor_fields(v@), q as nat))
                &&& p <= q < toks.len()
            },
            Err(e) => variant_items_at(lexer::tokens_view(toks@), p as nat) == Err::<
                (Seq<(Option<Text>, TypeV)>, nat),
                ParseErrorV,
            >(e@),
        },

{
    let ghost tv = lexer::tokens_view(toks@);
    let ghost all = variant_items_at(tv, p as nat);
    if next_is(toks, p, &TokenKind::RParen) {
        let none: Vec<(Option<String>, Type)> = Vec::new();
        assert(ast::ctor_fields(none@) =~= Seq::<(Option<Text>, TypeV)>::empty());
        return Ok((none, p));
    }
    let (first, next) = parse_variant_field(toks, p)?;
    let mut acc: Vec<(Option<String>, Type)> = Vec::new();
    let ghost fv = (types::opt_text(first.0), first.1@);
    acc.push(first);
    assert(ast::ctor_fields(acc@) =~= seq![fv]);
    let mut at: usize = next;
    while next_is(toks, at, &TokenKind::Comma)
        invariant
            p < at < toks.len(),
            variant_items_rest_at(tv, at as nat, ast::ctor_fields(acc@)) == all,
        decreases toks.len() - at,
    {
        if next_is(toks, at + 1, &TokenKind::RParen) {
            return Ok((acc, at + 1));
        }
        let (item, after) = parse_variant_field(toks, at + 1)?;
        let ghost before = ast::ctor_fields(acc@);
        let ghost iv = (types::opt_text(item.0), item.1@);
        acc.push(item);
        assert(ast::ctor_fields(acc@) =~= before.push(iv));
        at = after;
    }
    Ok((acc, at))
}

pub fn parse_variant_fields(toks: &Vec<Token>, p: usize) -> (r: Result<(Vec<(Option<String>, Type)>, usize), ParseError>)
    requires
        lexer::well_ended(toks@),
        p < toks.len(),
    ensures
        match r {
            Ok((v, q)) => {
                &&& variant_fields_at(lexer::tokens_view(toks@), p as nat) == Ok::<
                    (Seq<(Option<Text>, TypeV)>, nat),
                    ParseErrorV,
                >((ast::ctor_fields(v@), q as nat))
                &&& p <= q < toks.len()
            },
            Err(e) => variant_fields_at(lexer::tokens_view(toks@), p as nat) == Err::<
                (Seq<(Option<Text>, TypeV)>, nat),
                ParseErrorV,
            >(e@),
        },
{
    proof {
        reveal(variant_fields_at);
    }
    if next_is(toks, p, &TokenKind::LParen) {
        let p: usize = p + 1;
        let (fields, p) = parse_variant_items(toks, p)?;
        let p = expect(toks, p, &TokenKind::RParen)?;
        Ok((fields, p))
    } else {
        let none: Vec<(Option<String>, Type)> = Vec::new();
        assert(ast::ctor_fields(none@) =~= Seq::<(Option<Text>, TypeV)>::empty());
        Ok((none, p))
    }
}

} // verus!
