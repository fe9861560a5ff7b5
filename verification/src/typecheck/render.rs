//! Rendering of types: in source syntax, and in the form that `{:?}` prints.

use crate::text;
use crate::text::{Text, cat2, cat3, cat4, cat5, join, owned, quoted};
use crate::typecheck::helpers;
use crate::typecheck::helpers::make_empty_row;
use crate::types;
use crate::types::{Type, TypeV, type_eq};
use vstd::prelude::*;

verus! {

// ---------------------------------------------------------------------------
// Source syntax
// ---------------------------------------------------------------------------

/// A type in source syntax.
pub open spec fn type_text(t: TypeV) -> Text
    decreases t, 0nat,
{
    match t {
        TypeV::I32 => "i32"@,
        TypeV::I64 => "i64"@,
        TypeV::F32 => "f32"@,
        TypeV::F64 => "f64"@,
        TypeV::IntLit => "int literal"@,
        TypeV::FloatLit => "float literal"@,
        TypeV::Bool => "bool"@,
        TypeV::Char => "char"@,
        TypeV::String => "string"@,
        TypeV::Unit => "unit"@,
        TypeV::Var(n) => n,
        TypeV::UserDefined(n, args) => {
            if args.len() == 0 {
                n
            } else {
                n + "<"@ + text::joined(type_text_list(args), ", "@) + ">"@
            }
        },
        TypeV::Arrow(p, r, q, e) => {
            "("@ + text::joined(type_text_fields(p), ", "@) + ") -> "@ + type_text(*r) + clause_text(
                " require "@,
                *q,
                type_text(*q),
            ) + clause_text(" throws "@, *e, type_text(*e))
        },
        TypeV::Ref(i) => "ref("@ + type_text(*i) + ")"@,
        TypeV::Linear(i) => "%"@ + type_text(*i),
        TypeV::Lazy(i) => "@"@ + type_text(*i),
        TypeV::Borrow(i) => "&"@ + type_text(*i),
        TypeV::Array(i) => "[| "@ + type_text(*i) + " |]"@,
        TypeV::List(i) => "["@ + type_text(*i) + "]"@,
        TypeV::Handler(n, _) => "handler "@ + n,
        TypeV::Row(es, tail) => match tail {
            Some(x) => "{ "@ + text::joined(type_text_list(es), ", "@) + " | "@ + type_text(*x) + " }"@,
            None => {
                if es.len() == 0 {
                    "{}"@
                } else {
                    "{ "@ + text::joined(type_text_list(es), ", "@) + " }"@
                }
            },
        },
        TypeV::Record(fs) => "{ "@ + text::joined(type_text_fields(fs), ", "@) + " }"@,
    }
}

/// A clause of an arrow type; a row without members is left out.
pub open spec fn clause_text(word: Text, row: TypeV, text: Text) -> Text {
    if row == helpers::empty_row() {
        Seq::empty()
    } else {
        word + text
    }
}

/// `type_text` of each type of a list.
pub open spec fn type_text_list(ts: Seq<TypeV>) -> Seq<Text>
    decreases ts, 0nat,
{
    Seq::new(
        ts.len(),
        |i: int|
            if 0 <= i < ts.len() {
                type_text(ts[i])
            } else {
                arbitrary()
            },
    )
}

/// `type_text` of each labelled type of a list, with its label.
pub open spec fn type_text_fields(fs: Seq<(Text, TypeV)>) -> Seq<Text>
    decreases fs, 0nat,
{
    Seq::new(
        fs.len(),
        |i: int|
            if 0 <= i < fs.len() {
                fs[i].0 + ": "@ + type_text(fs[i].1)
            } else {
                arbitrary()
            },
    )
}

fn type_to_text_list(ts: &Vec<Type>) -> (r: Vec<String>)
    ensures
        text::texts(r@) == type_text_list(types::types_view(ts@)),
    decreases ts,
{
    let mut out: Vec<String> = Vec::new();
    let mut i: usize = 0;
    while i < ts.len()
        invariant
            i <= ts.len(),
            out.len() == i,
            forall|j: int| 0 <= j < i ==> (#[trigger] out@[j])@ == type_text(ts@[j]@),
        decreases ts.len() - i,
    {
        out.push(type_to_text(&ts[i]));
        i = i + 1;
    }
    assert(text::texts(out@) =~= type_text_list(types::types_view(ts@)));
    out
}

fn type_to_text_fields(fs: &Vec<(String, Type)>) -> (r: Vec<String>)
    ensures
        text::texts(r@) == type_text_fields(types::fields_view(fs@)),
    decreases fs,
{
    let mut out: Vec<String> = Vec::new();
    let mut i: usize = 0;
    while i < fs.len()
        invariant
            i <= fs.len(),
            out.len() == i,
            forall|j: int|
                0 <= j < i ==> (#[trigger] out@[j])@ == fs@[j].0@ + ": "@ + type_text(fs@[j].1@),
        decreases fs.len() - i,
    {
        let f = &fs[i];
        let t = type_to_text(&f.1);
        out.push(cat3(f.0.as_str(), ": ", t.as_str()));
        i = i + 1;
    }
    assert(text::texts(out@) =~= type_text_fields(types::fields_view(fs@)));
    out
}

fn clause_to_text(word: &str, row: &Type, text: &str) -> (r: String)
    ensures
        r@ == clause_text(word@, row@, text@),
{
    let none = make_empty_row();
    if type_eq(row, &none) {
        String::new()
    } else {
        cat2(word, text)
    }
}

/// Renders a type in source syntax.
pub fn type_to_text(typ: &Type) -> (r: String)
    ensures
        r@ == type_text(typ@),
    decreases typ,
{
    match typ {
        Type::I32 => owned("i32"),
        Type::I64 => owned("i64"),
        Type::F32 => owned("f32"),
        Type::F64 => owned("f64"),
        Type::IntLit => owned("int literal"),
        Type::FloatLit => owned("float literal"),
        Type::Bool => owned("bool"),
        Type::Char => owned("char"),
        Type::String => owned("string"),
        Type::Unit => owned("unit"),
        Type::Var(n) => n.clone(),
        Type::UserDefined(n, args) => {
            assert(types::types_view(args@).len() == args.len());
            if args.len() == 0 {
                n.clone()
            } else {
                let parts = type_to_text_list(args);
                let inner = join(&parts, ", ");
                cat4(n.as_str(), "<", inner.as_str(), ">")
            }
        },
        Type::Arrow(p, r, q, e) => {
            let parts = type_to_text_fields(p);
            let inner = join(&parts, ", ");
            let rt = type_to_text(r);
            let qt = type_to_text(q);
            let et = type_to_text(e);
            let qc = clause_to_text(" require ", q, qt.as_str());
            let ec = clause_to_text(" throws ", e, et.as_str());
            let head = cat4("(", inner.as_str(), ") -> ", rt.as_str());
            cat3(head.as_str(), qc.as_str(), ec.as_str())
        },
        Type::Ref(i) => {
            let t = type_to_text(i);
            cat3("ref(", t.as_str(), ")")
        },
        Type::Linear(i) => {
            let t = type_to_text(i);
            cat2("%", t.as_str())
        },
        Type::Lazy(i) => {
            let t = type_to_text(i);
            cat2("@", t.as_str())
        },
        Type::Borrow(i) => {
            let t = type_to_text(i);
            cat2("&", t.as_str())
        },
        Type::Array(i) => {
            let t = type_to_text(i);
            cat3("[| ", t.as_str(), " |]")
        },
        Type::List(i) => {
            let t = type_to_text(i);
            cat3("[", t.as_str(), "]")
        },
        Type::Handler(n, _) => cat2("handler ", n.as_str()),
        Type::Row(es, tail) => {
            assert(types::types_view(es@).len() == es.len());
            let parts = type_to_text_list(es);
            let inner = join(&parts, ", ");
            match tail {
                Some(x) => {
                    let t = type_to_text(x);
                    cat5("{ ", inner.as_str(), " | ", t.as_str(), " }")
                },
                None => {
                    if es.len() == 0 {
                        owned("{}")
                    } else {
                        cat3("{ ", inner.as_str(), " }")
                    }
                },
            }
        },
        Type::Record(fs) => {
            let parts = type_to_text_fields(fs);
            let inner = join(&parts, ", ");
            cat3("{ ", inner.as_str(), " }")
        },
    }
}

// ---------------------------------------------------------------------------
// Debug form
// ---------------------------------------------------------------------------

/// What `{:?}` prints for a type.
pub open spec fn type_debug(t: TypeV) -> Text
    decreases t, 0nat,
{
    match t {
        TypeV::I32 => "I32"@,
        TypeV::I64 => "I64"@,
        TypeV::F32 => "F32"@,
        TypeV::F64 => "F64"@,
        TypeV::IntLit => "IntLit"@,
        TypeV::FloatLit => "FloatLit"@,
        TypeV::Bool => "Bool"@,
        TypeV::Char => "Char"@,
        TypeV::String => "String"@,
        TypeV::Unit => "Unit"@,
        TypeV::Var(n) => "Var("@ + text::quoted_text(n) + ")"@,
        TypeV::UserDefined(n, args) => "UserDefined("@ + text::quoted_text(n) + ", ["@ + text::joined(
            type_debug_list(args),
            ", "@,
        ) + "])"@,
        TypeV::Arrow(p, r, q, e) => "Arrow(["@ + text::joined(type_debug_fields(p), ", "@) + "], "@
            + type_debug(*r) + ", "@ + type_debug(*q) + ", "@ + type_debug(*e) + ")"@,
        TypeV::Ref(i) => "Ref("@ + type_debug(*i) + ")"@,
        TypeV::Linear(i) => "Linear("@ + type_debug(*i) + ")"@,
        TypeV::Lazy(i) => "Lazy("@ + type_debug(*i) + ")"@,
        TypeV::Borrow(i) => "Borrow("@ + type_debug(*i) + ")"@,
        TypeV::Array(i) => "Array("@ + type_debug(*i) + ")"@,
        TypeV::List(i) => "List("@ + type_debug(*i) + ")"@,
        TypeV::Handler(n, i) => "Handler("@ + text::quoted_text(n) + ", "@ + type_debug(*i) + ")"@,
        TypeV::Row(es, tail) => match tail {
            Some(x) => "Row(["@ + text::joined(type_debug_list(es), ", "@) + "], Some("@ + type_debug(*x)
                + "))"@,
            None => "Row(["@ + text::joined(type_debug_list(es), ", "@) + "], None)"@,
        },
        TypeV::Record(fs) => "Record(["@ + text::joined(type_debug_fields(fs), ", "@) + "])"@,
    }
}

/// `type_debug` of each type of a list.
pub open spec fn type_debug_list(ts: Seq<TypeV>) -> Seq<Text>
    decreases ts, 0nat,
{
    Seq::new(
        ts.len(),
        |i: int|
            if 0 <= i < ts.len() {
                type_debug(ts[i])
            } else {
                arbitrary()
            },
    )
}

/// `type_debug` of each labelled type of a list, with its label.
pub open spec fn type_debug_fields(fs: Seq<(Text, TypeV)>) -> Seq<Text>
    decreases fs, 0nat,
{
    Seq::new(
        fs.len(),
        |i: int|
            if 0 <= i < fs.len() {
                "("@ + text::quoted_text(fs[i].0) + ", "@ + type_debug(fs[i].1) + ")"@
            } else {
                arbitrary()
            },
    )
}

fn type_to_debug_list(ts: &Vec<Type>) -> (r: Vec<String>)
    ensures
        text::texts(r@) == type_debug_list(types::types_view(ts@)),
    decreases ts, 0nat,
{
    let mut out: Vec<String> = Vec::new();
    let mut i: usize = 0;
    while i < ts.len()
        invariant
            i <= ts.len(),
            out.len() == i,
            forall|j: int| 0 <= j < i ==> (#[trigger] out@[j])@ == type_debug(ts@[j]@),
        decreases ts.len() - i,
    {
        out.push(type_to_debug(&ts[i]));
        i = i + 1;
    }
    assert(text::texts(out@) =~= type_debug_list(types::types_view(ts@)));
    out
}

fn type_to_debug_fields(fs: &Vec<(String, Type)>) -> (r: Vec<String>)
    ensures
        text::texts(r@) == type_debug_fields(types::fields_view(fs@)),
    decreases fs, 0nat,
{
    let mut out: Vec<String> = Vec::new();
    let mut i: usize = 0;
    while i < fs.len()
        invariant
            i <= fs.len(),
            out.len() == i,
            forall|j: int|
                0 <= j < i ==> (#[trigger] out@[j])@ == "("@ + text::quoted_text(fs@[j].0@) + ", "@ + type_debug(fs@[j].1@) + ")"@,
        decreases fs.len() - i,
    {
        let f = &fs[i];
        let t = type_to_debug(&f.1);
        let label = quoted(f.0.as_str());
        out.push(cat5("(", label.as_str(), ", ", t.as_str(), ")"));
        i = i + 1;
    }
    assert(text::texts(out@) =~= type_debug_fields(types::fields_view(fs@)));
    out
}

fn wrapped_debug(head: &str, i: &Type) -> (r: String)
    ensures
        r@ == head@ + type_debug(i@) + ")"@,
    decreases i, 1nat,
{
    let t = type_to_debug(i);
    cat3(head, t.as_str(), ")")
}

/// Renders a type as `{:?}` does.
pub fn type_to_debug(typ: &Type) -> (r: String)
    ensures
        r@ == type_debug(typ@),
    decreases typ, 0nat,
{
    match typ {
        Type::I32 => owned("I32"),
        Type::I64 => owned("I64"),
        Type::F32 => owned("F32"),
        Type::F64 => owned("F64"),
        Type::IntLit => owned("IntLit"),
        Type::FloatLit => owned("FloatLit"),
        Type::Bool => owned("Bool"),
        Type::Char => owned("Char"),
        Type::String => owned("String"),
        Type::Unit => owned("Unit"),
        Type::Var(n) => {
            let q = quoted(n.as_str());
            cat3("Var(", q.as_str(), ")")
        },
        Type::UserDefined(n, args) => {
            let q = quoted(n.as_str());
            let parts = type_to_debug_list(args);
            let inner = join(&parts, ", ");
            cat5("UserDefined(", q.as_str(), ", [", inner.as_str(), "])")
        },
        Type::Arrow(p, r, q, e) => {
            let parts = type_to_debug_fields(p);
            let inner = join(&parts, ", ");
            let rt = type_to_debug(r);
            let qt = type_to_debug(q);
            let et = type_to_debug(e);
            let head = cat5("Arrow([", inner.as_str(), "], ", rt.as_str(), ", ");
            cat5(head.as_str(), qt.as_str(), ", ", et.as_str(), ")")
        },
        Type::Ref(i) => wrapped_debug("Ref(", i),
        Type::Linear(i) => wrapped_debug("Linear(", i),
        Type::Lazy(i) => wrapped_debug("Lazy(", i),
        Type::Borrow(i) => wrapped_debug("Borrow(", i),
        Type::Array(i) => wrapped_debug("Array(", i),
        Type::List(i) => wrapped_debug("List(", i),
        Type::Handler(n, i) => {
            let q = quoted(n.as_str());
            let t = type_to_debug(i);
            cat5("Handler(", q.as_str(), ", ", t.as_str(), ")")
        },
        Type::Row(es, tail) => {
            let parts = type_to_debug_list(es);
            let inner = join(&parts, ", ");
            match tail {
                Some(x) => {
                    let t = type_to_debug(x);
                    cat5("Row([", inner.as_str(), "], Some(", t.as_str(), "))")
                },
                None => cat3("Row([", inner.as_str(), "], None)"),
            }
        },
        Type::Record(fs) => {
            let parts = type_to_debug_fields(fs);
            let inner = join(&parts, ", ");
            cat3("Record([", inner.as_str(), "])")
        },
    }
}

/// The `{:?}` forms of a list of texts.
pub open spec fn quoted_list(s: Seq<Text>) -> Seq<Text> {
    s.map_values(|x: Text| text::quoted_text(x))
}

/// Quotes each text of a list.
pub fn quote_all(v: &Vec<String>) -> (r: Vec<String>)
    ensures
        text::texts(r@) == quoted_list(text::texts(v@)),
{
    let mut out: Vec<String> = Vec::new();
    let mut i: usize = 0;
    while i < v.len()
        invariant
            i <= v.len(),
            out.len() == i,
            forall|j: int| 0 <= j < i ==> (#[trigger] out@[j])@ == text::quoted_text(v@[j]@),
        decreases v.len() - i,
    {
        out.push(quoted(v[i].as_str()));
        i = i + 1;
    }
    assert(text::texts(out@) =~= quoted_list(text::texts(v@)));
    out
}

} // verus!
