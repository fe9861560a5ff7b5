//! Pure helpers on types and statements used by the checker.

use crate::ast;
use crate::ast::{
    EnumDefV, Expr, ExprV, MatchCase, MatchCaseV, Stmt, StmtV, TypeDef, TypeDefV, VariantDefV,
};
use crate::text;
use crate::text::{
    Text, cat3, cat5, chars_of, copy_texts, join, list_has, owned, str_eq, string_of,
    suffix_after_last, to_set, usize_to_text,
};
use crate::types;
use crate::types::{
    EnumDef, Spanned, Type, TypeV, VariantDef, copy_fields, copy_opt_text, copy_tail, type_eq,
};
use vstd::prelude::*;

verus! {

/// The effect that `raise` needs.
pub open spec fn exn_name() -> Text {
    "Exn"@
}

// ---------------------------------------------------------------------------
// Module paths
// ---------------------------------------------------------------------------

/// The last component of a `/`-separated path, skipping empty components and `.`;
/// nothing where that component is `..` or there is none.
pub open spec fn file_name(s: Text) -> Option<Text>
    decreases s.len(),
{
    let t = text::after_last_char(s, '/');
    if t.len() == 0 || t == "."@ {
        if t.len() < s.len() {
            file_name(s.take(s.len() - t.len() - 1))
        } else {
            None
        }
    } else if t == ".."@ {
        None
    } else {
        Some(t)
    }
}

/// A file name without its extension. A leading dot starts no extension.
pub open spec fn stem(name: Text) -> Text {
    let ext = text::after_last_char(name, '.');
    if ext.len() + 1 >= name.len() {
        name
    } else {
        name.take(name.len() - ext.len() - 1)
    }
}

/// The name under which a module is imported when no alias is given.
pub open spec fn default_alias(path: Text) -> Text {
    match file_name(path) {
        Some(n) => stem(n),
        None => path,
    }
}

proof fn lemma_after_last_char_len(s: Text, c: char)
    ensures
        text::after_last_char(s, c).len() <= s.len(),
        text::after_last_char(s, c).len() == s.len() ==> text::after_last_char(s, c) == s,
    decreases s.len(),
{
    if s.len() > 0 && s.last() != c {
        lemma_after_last_char_len(s.drop_last(), c);
        assert(s.drop_last().push(s.last()) =~= s);
    }
}

fn find_file_name(s: &str) -> (r: Option<String>)
    ensures
        types::opt_text(r) == file_name(s@),
    decreases s@.len(),
{
    let t = suffix_after_last(s, '/');
    let n = s.unicode_len();
    let k = t.as_str().unicode_len();
    proof {
        lemma_after_last_char_len(s@, '/');
    }
    if k == 0 || str_eq(t.as_str(), ".") {
        if k < n {
            let cs = chars_of(s);
            let rest = string_of(&cs, 0, n - k - 1);
            assert(rest@ == s@.take(n - k - 1));
            find_file_name(rest.as_str())
        } else {
            None
        }
    } else if str_eq(t.as_str(), "..") {
        None
    } else {
        Some(t)
    }
}

/// The name under which a module is imported when no alias is given: the file name
/// without its extension.
pub fn get_default_alias(path: &str) -> (r: String)
    ensures
        r@ == default_alias(path@),
{
    match find_file_name(path) {
        Some(name) => {
            let ext = suffix_after_last(name.as_str(), '.');
            let n = name.as_str().unicode_len();
            let k = ext.as_str().unicode_len();
            proof {
                lemma_after_last_char_len(name@, '.');
            }
            if k >= n || k + 1 >= n {
                name
            } else {
                let cs = chars_of(name.as_str());
                let r = string_of(&cs, 0, n - k - 1);
                assert(r@ == name@.take(n - k - 1));
                r
            }
        },
        None => owned(path),
    }
}

// ---------------------------------------------------------------------------
// Constructor summaries
// ---------------------------------------------------------------------------

/// How a field of a constructor is described in messages.
pub open spec fn ctor_field_text(label: Option<Text>, index: nat) -> Text {
    match label {
        Some(name) => "#"@ + text::decimal(index + 1) + " label `"@ + name + "`"@,
        None => "#"@ + text::decimal(index + 1) + " positional field"@,
    }
}

/// Describes a field of a constructor.
pub fn describe_ctor_field(label: &Option<String>, index: usize) -> (r: String)
    requires
        index < usize::MAX,
    ensures
        r@ == ctor_field_text(types::opt_text(*label), index as nat),
{
    let n = usize_to_text(index + 1);
    match label {
        Some(name) => cat5("#", n.as_str(), " label `", name.as_str(), "`"),
        None => cat3("#", n.as_str(), " positional field"),
    }
}

/// How an argument of a constructor is described in messages.
pub open spec fn ctor_arg_text(label: Option<Text>, index: nat) -> Text {
    match label {
        Some(name) => "#"@ + text::decimal(index + 1) + " label `"@ + name + "`"@,
        None => "#"@ + text::decimal(index + 1) + " positional"@,
    }
}

/// The descriptions of the fields of a constructor.
pub open spec fn ctor_field_texts(fields: Seq<(Option<Text>, TypeV)>) -> Seq<Text> {
    Seq::new(fields.len(), |i: int| ctor_field_text(fields[i].0, i as nat))
}

/// The summary of the fields of a constructor.
pub open spec fn ctor_fields_summary(fields: Seq<(Option<Text>, TypeV)>) -> Text {
    if fields.len() == 0 {
        "none"@
    } else {
        text::joined(ctor_field_texts(fields), ", "@)
    }
}

/// The labels of a list of optionally labelled items.
pub open spec fn labels_of<A>(args: Seq<(Option<Text>, A)>) -> Seq<Option<Text>> {
    args.map_values(|a: (Option<Text>, A)| a.0)
}

/// The labels of a list of pairs.
pub open spec fn raw_labels<T>(args: Seq<(Option<String>, T)>) -> Seq<Option<Text>> {
    args.map_values(|a: (Option<String>, T)| types::opt_text(a.0))
}

/// The descriptions of the arguments of a constructor.
pub open spec fn ctor_arg_texts(labels: Seq<Option<Text>>) -> Seq<Text> {
    Seq::new(labels.len(), |i: int| ctor_arg_text(labels[i], i as nat))
}

/// The summary of the arguments of a constructor.
pub open spec fn ctor_args_summary(labels: Seq<Option<Text>>) -> Text {
    if labels.len() == 0 {
        "none"@
    } else {
        text::joined(ctor_arg_texts(labels), ", "@)
    }
}

/// Summarises the arguments of a constructor.
pub fn summarize_ctor_args<T>(args: &Vec<(Option<String>, T)>) -> (r: String)
    ensures
        r@ == ctor_args_summary(raw_labels(args@)),
{
    if args.len() == 0 {
        return owned("none");
    }
    let mut parts: Vec<String> = Vec::new();
    let mut i: usize = 0;
    while i < args.len()
        invariant
            i <= args.len(),
            parts.len() == i,
            forall|j: int|
                0 <= j < i ==> (#[trigger] parts@[j])@ == ctor_arg_text(
                    raw_labels(args@)[j],
                    j as nat,
                ),
        decreases args.len() - i,
    {
        let n = usize_to_text(i + 1);
        let part = match &args[i].0 {
            Some(name) => cat5("#", n.as_str(), " label `", name.as_str(), "`"),
            None => cat3("#", n.as_str(), " positional"),
        };
        parts.push(part);
        i = i + 1;
    }
    assert(text::texts(parts@) =~= ctor_arg_texts(raw_labels(args@)));
    join(&parts, ", ")
}

/// Summarises the fields of a constructor.
pub fn summarize_ctor_fields(fields: &Vec<(Option<String>, Type)>) -> (r: String)
    ensures
        r@ == ctor_fields_summary(ast::ctor_fields(fields@)),
{
    if fields.len() == 0 {
        return owned("none");
    }
    let mut parts: Vec<String> = Vec::new();
    let mut i: usize = 0;
    while i < fields.len()
        invariant
            i <= fields.len(),
            parts.len() == i,
            forall|j: int|
                0 <= j < i ==> (#[trigger] parts@[j])@ == ctor_field_text(
                    ast::ctor_fields(fields@)[j].0,
                    j as nat,
                ),
        decreases fields.len() - i,
    {
        parts.push(describe_ctor_field(&fields[i].0, i));
        i = i + 1;
    }
    assert(text::texts(parts@) =~= ctor_field_texts(ast::ctor_fields(fields@)));
    join(&parts, ", ")
}

// ---------------------------------------------------------------------------
// Built-in enums
// ---------------------------------------------------------------------------

/// The model of the built-in list enum.
pub open spec fn list_enum() -> EnumDefV {
    EnumDefV {
        name: "List"@,
        is_public: true,
        is_opaque: false,
        type_params: seq!["T"@],
        variants: seq![
            VariantDefV { name: "Nil"@, fields: Seq::empty() },
            VariantDefV {
                name: "Cons"@,
                fields: seq![
                    (Some("v"@), TypeV::Var("T"@)),
                    (Some("rest"@), TypeV::List(Box::new(TypeV::Var("T"@)))),
                ],
            },
        ],
    }
}

/// The model of the built-in exception enum.
pub open spec fn exn_enum() -> EnumDefV {
    EnumDefV {
        name: "Exn"@,
        is_public: true,
        is_opaque: false,
        type_params: Seq::empty(),
        variants: seq![
            VariantDefV {
                name: "RuntimeError"@,
                fields: seq![(Some("val"@), TypeV::String)],
            },
            VariantDefV {
                name: "InvalidIndex"@,
                fields: seq![(Some("val"@), TypeV::I64)],
            },
        ],
    }
}

/// The built-in enum of lists, `Nil` or `Cons(v, rest)`.
pub fn list_enum_def() -> (r: EnumDef)
    ensures
        r@ == list_enum(),
{
    let t1 = Type::Var(owned("T"));
    let t2 = Type::List(Box::new(Type::Var(owned("T"))));
    let cons_fields: Vec<(Option<String>, Type)> = vec![
        (Some(owned("v")), t1),
        (Some(owned("rest")), t2),
    ];
    let nil = VariantDef { name: owned("Nil"), fields: Vec::new() };
    let cons = VariantDef { name: owned("Cons"), fields: cons_fields };
    let r = EnumDef {
        name: owned("List"),
        is_public: true,
        is_opaque: false,
        type_params: vec![owned("T")],
        variants: vec![nil, cons],
    };
    proof {
        assert(nil@.fields =~= list_enum().variants[0].fields);
        assert(Type::Var(t1->Var_0)@ == TypeV::Var("T"@));
        assert((*t2->List_0)@ == TypeV::Var("T"@));
        assert(cons@.fields =~= list_enum().variants[1].fields);
        assert(r@.type_params =~= list_enum().type_params);
        assert(r@.variants =~= list_enum().variants);
    }
    r
}

/// The built-in enum of exceptions.
pub fn exn_enum_def() -> (r: EnumDef)
    ensures
        r@ == exn_enum(),
{
    let f1: Vec<(Option<String>, Type)> = vec![(Some(owned("val")), Type::String)];
    let f2: Vec<(Option<String>, Type)> = vec![(Some(owned("val")), Type::I64)];
    let v1 = VariantDef { name: owned("RuntimeError"), fields: f1 };
    let v2 = VariantDef { name: owned("InvalidIndex"), fields: f2 };
    let r = EnumDef {
        name: owned("Exn"),
        is_public: true,
        is_opaque: false,
        type_params: Vec::new(),
        variants: vec![v1, v2],
    };
    proof {
        assert(v1@.fields =~= exn_enum().variants[0].fields);
        assert(v2@.fields =~= exn_enum().variants[1].fields);
        assert(r@.type_params =~= exn_enum().type_params);
        assert(r@.variants =~= exn_enum().variants);
    }
    r
}

// ---------------------------------------------------------------------------
// Rewriting type names and literals
// ---------------------------------------------------------------------------

/// Turns the bare names that are type parameters into type variables.
pub open spec fn generic_vars(vars: Seq<Text>, t: TypeV) -> TypeV
    decreases t, 0nat,
{
    match t {
        TypeV::UserDefined(n, args) => {
            if args.len() == 0 && text::has_text(vars, n) {
                TypeV::Var(n)
            } else {
                TypeV::UserDefined(n, generic_vars_list(vars, args))
            }
        },
        TypeV::Arrow(p, r, q, e) => TypeV::Arrow(
            generic_vars_fields(vars, p),
            Box::new(generic_vars(vars, *r)),
            Box::new(generic_vars(vars, *q)),
            Box::new(generic_vars(vars, *e)),
        ),
        TypeV::Ref(i) => TypeV::Ref(Box::new(generic_vars(vars, *i))),
        TypeV::Linear(i) => TypeV::Linear(Box::new(generic_vars(vars, *i))),
        TypeV::Lazy(i) => TypeV::Lazy(Box::new(generic_vars(vars, *i))),
        TypeV::Borrow(i) => TypeV::Borrow(Box::new(generic_vars(vars, *i))),
        TypeV::Array(i) => TypeV::Array(Box::new(generic_vars(vars, *i))),
        TypeV::List(i) => TypeV::List(Box::new(generic_vars(vars, *i))),
        TypeV::Handler(n, i) => TypeV::Handler(n, Box::new(generic_vars(vars, *i))),
        TypeV::Row(es, tail) => TypeV::Row(generic_vars_list(vars, es), generic_vars_tail(vars, tail)),
        TypeV::Record(fs) => TypeV::Record(generic_vars_fields(vars, fs)),
        _ => t,
    }
}

/// `generic_vars` on each type of a list.
pub open spec fn generic_vars_list(vars: Seq<Text>, ts: Seq<TypeV>) -> Seq<TypeV>
    decreases ts, 0nat,
{
    Seq::new(
        ts.len(),
        |i: int|
            if 0 <= i < ts.len() {
                generic_vars(vars, ts[i])
            } else {
                arbitrary()
            },
    )
}

/// `generic_vars` on each type of a list of labelled types.
pub open spec fn generic_vars_fields(vars: Seq<Text>, fs: Seq<(Text, TypeV)>) -> Seq<(Text, TypeV)>
    decreases fs, 0nat,
{
    Seq::new(
        fs.len(),
        |i: int|
            if 0 <= i < fs.len() {
                (fs[i].0, generic_vars(vars, fs[i].1))
            } else {
                arbitrary()
            },
    )
}

/// `generic_vars` on the tail of a row.
pub open spec fn generic_vars_tail(vars: Seq<Text>, t: Option<Box<TypeV>>) -> Option<Box<TypeV>>
    decreases t, 0nat,
{
    match t {
        Some(b) => Some(Box::new(generic_vars(vars, *b))),
        None => None,
    }
}

/// Turns the bare names that are type parameters into type variables.
pub fn convert_generic_user_defined_to_var(vars: &Vec<String>, typ: &Type) -> (r: Type)
    ensures
        r@ == generic_vars(text::texts(vars@), typ@),
    decreases typ,
{
    match typ {
        Type::UserDefined(n, args) => {
            assert(types::types_view(args@).len() == args.len());
            if args.len() == 0 && list_has(vars, n.as_str()) {
                Type::Var(n.clone())
            } else {
                Type::UserDefined(n.clone(), convert_generic_user_defined_to_var_list(vars, args))
            }
        },
        Type::Arrow(p, r, q, e) => Type::Arrow(
            convert_generic_user_defined_to_var_fields(vars, p),
            Box::new(convert_generic_user_defined_to_var(vars, r)),
            Box::new(convert_generic_user_defined_to_var(vars, q)),
            Box::new(convert_generic_user_defined_to_var(vars, e)),
        ),
        Type::Ref(i) => Type::Ref(Box::new(convert_generic_user_defined_to_var(vars, i))),
        Type::Linear(i) => Type::Linear(Box::new(convert_generic_user_defined_to_var(vars, i))),
        Type::Lazy(i) => Type::Lazy(Box::new(convert_generic_user_defined_to_var(vars, i))),
        Type::Borrow(i) => Type::Borrow(Box::new(convert_generic_user_defined_to_var(vars, i))),
        Type::Array(i) => Type::Array(Box::new(convert_generic_user_defined_to_var(vars, i))),
        Type::List(i) => Type::List(Box::new(convert_generic_user_defined_to_var(vars, i))),
        Type::Handler(n, i) => Type::Handler(n.clone(), Box::new(convert_generic_user_defined_to_var(vars, i))),
        Type::Row(es, tail) => Type::Row(convert_generic_user_defined_to_var_list(vars, es), convert_generic_user_defined_to_var_tail(vars, tail)),
        Type::Record(fs) => Type::Record(convert_generic_user_defined_to_var_fields(vars, fs)),
        _ => typ.clone(),
    }
}

/// `convert_generic_user_defined_to_var` on each type of a list.
pub fn convert_generic_user_defined_to_var_list(vars: &Vec<String>, ts: &Vec<Type>) -> (r: Vec<Type>)
    ensures
        types::types_view(r@) == generic_vars_list(text::texts(vars@), types::types_view(ts@)),
    decreases ts,
{
    let mut out: Vec<Type> = Vec::new();
    let mut i: usize = 0;
    while i < ts.len()
        invariant
            i <= ts.len(),
            out.len() == i,
            forall|j: int|
                0 <= j < i ==> (#[trigger] out@[j])@ == generic_vars(text::texts(vars@), ts@[j]@),
        decreases ts.len() - i,
    {
        out.push(convert_generic_user_defined_to_var(vars, &ts[i]));
        i = i + 1;
    }
    assert(types::types_view(out@) =~= generic_vars_list(text::texts(vars@), types::types_view(ts@)));
    out
}

/// `convert_generic_user_defined_to_var` on each type of a list of labelled types.
pub fn convert_generic_user_defined_to_var_fields(vars: &Vec<String>, fs: &Vec<(String, Type)>) -> (r: Vec<(String, Type)>)
    ensures
        types::fields_view(r@) == generic_vars_fields(text::texts(vars@), types::fields_view(fs@)),
    decreases fs,
{
    let mut out: Vec<(String, Type)> = Vec::new();
    let mut i: usize = 0;
    while i < fs.len()
        invariant
            i <= fs.len(),
            out.len() == i,
            forall|j: int|
                0 <= j < i ==> (#[trigger] out@[j]).0@ == fs@[j].0@ && out@[j].1@ == generic_vars(
                    text::texts(vars@), fs@[j].1@,
                ),
        decreases fs.len() - i,
    {
        let item = &fs[i];
        out.push((item.0.clone(), convert_generic_user_defined_to_var(vars, &item.1)));
        i = i + 1;
    }
    assert(types::fields_view(out@) =~= generic_vars_fields(text::texts(vars@), types::fields_view(fs@)));
    out
}

fn convert_generic_user_defined_to_var_tail(vars: &Vec<String>, t: &Option<Box<Type>>) -> (r: Option<Box<Type>>)
    ensures
        types::tail_view(r) == generic_vars_tail(text::texts(vars@), types::tail_view(*t)),
    decreases t,
{
    match t {
        Some(b) => Some(Box::new(convert_generic_user_defined_to_var(vars, b))),
        None => None,
    }
}

/// Turns the bare names that are type parameters of a function into type variables; lazy types
/// and handler types are left alone.
pub open spec fn signature_vars(vars: Seq<Text>, t: TypeV) -> TypeV
    decreases t, 0nat,
{
    match t {
        TypeV::UserDefined(n, args) => {
            if args.len() == 0 && text::has_text(vars, n) {
                TypeV::Var(n)
            } else {
                TypeV::UserDefined(n, signature_vars_list(vars, args))
            }
        },
        TypeV::Arrow(p, r, q, e) => TypeV::Arrow(
            signature_vars_fields(vars, p),
            Box::new(signature_vars(vars, *r)),
            Box::new(signature_vars(vars, *q)),
            Box::new(signature_vars(vars, *e)),
        ),
        TypeV::Ref(i) => TypeV::Ref(Box::new(signature_vars(vars, *i))),
        TypeV::Linear(i) => TypeV::Linear(Box::new(signature_vars(vars, *i))),
        TypeV::Borrow(i) => TypeV::Borrow(Box::new(signature_vars(vars, *i))),
        TypeV::Array(i) => TypeV::Array(Box::new(signature_vars(vars, *i))),
        TypeV::List(i) => TypeV::List(Box::new(signature_vars(vars, *i))),
        TypeV::Row(es, tail) => TypeV::Row(signature_vars_list(vars, es), signature_vars_tail(vars, tail)),
        TypeV::Record(fs) => TypeV::Record(signature_vars_fields(vars, fs)),
        _ => t,
    }
}

/// `signature_vars` on each type of a list.
pub open spec fn signature_vars_list(vars: Seq<Text>, ts: Seq<TypeV>) -> Seq<TypeV>
    decreases ts, 0nat,
{
    Seq::new(
        ts.len(),
        |i: int|
            if 0 <= i < ts.len() {
                signature_vars(vars, ts[i])
            } else {
                arbitrary()
            },
    )
}

/// `signature_vars` on each type of a list of labelled types.
pub open spec fn signature_vars_fields(vars: Seq<Text>, fs: Seq<(Text, TypeV)>) -> Seq<(Text, TypeV)>
    decreases fs, 0nat,
{
    Seq::new(
        fs.len(),
        |i: int|
            if 0 <= i < fs.len() {
                (fs[i].0, signature_vars(vars, fs[i].1))
            } else {
                arbitrary()
            },
    )
}

/// `signature_vars` on the tail of a row.
pub open spec fn signature_vars_tail(vars: Seq<Text>, t: Option<Box<TypeV>>) -> Option<Box<TypeV>>
    decreases t, 0nat,
{
    match t {
        Some(b) => Some(Box::new(signature_vars(vars, *b))),
        None => None,
    }
}

/// Turns the bare names that are type parameters of a function into type variables; lazy types
/// and handler types are left alone.
pub fn convert_user_defined_to_var(vars: &Vec<String>, typ: &Type) -> (r: Type)
    ensures
        r@ == signature_vars(text::texts(vars@), typ@),
    decreases typ,
{
    match typ {
        Type::UserDefined(n, args) => {
            assert(types::types_view(args@).len() == args.len());
            if args.len() == 0 && list_has(vars, n.as_str()) {
                Type::Var(n.clone())
            } else {
                Type::UserDefined(n.clone(), convert_user_defined_to_var_list(vars, args))
            }
        },
        Type::Arrow(p, r, q, e) => Type::Arrow(
            convert_user_defined_to_var_fields(vars, p),
            Box::new(convert_user_defined_to_var(vars, r)),
            Box::new(convert_user_defined_to_var(vars, q)),
            Box::new(convert_user_defined_to_var(vars, e)),
        ),
        Type::Ref(i) => Type::Ref(Box::new(convert_user_defined_to_var(vars, i))),
        Type::Linear(i) => Type::Linear(Box::new(convert_user_defined_to_var(vars, i))),
        Type::Borrow(i) => Type::Borrow(Box::new(convert_user_defined_to_var(vars, i))),
        Type::Array(i) => Type::Array(Box::new(convert_user_defined_to_var(vars, i))),
        Type::List(i) => Type::List(Box::new(convert_user_defined_to_var(vars, i))),
        Type::Row(es, tail) => Type::Row(convert_user_defined_to_var_list(vars, es), convert_user_defined_to_var_tail(vars, tail)),
        Type::Record(fs) => Type::Record(convert_user_defined_to_var_fields(vars, fs)),
        _ => typ.clone(),
    }
}

/// `convert_user_defined_to_var` on each type of a list.
pub fn convert_user_defined_to_var_list(vars: &Vec<String>, ts: &Vec<Type>) -> (r: Vec<Type>)
    ensures
        types::types_view(r@) == signature_vars_list(text::texts(vars@), types::types_view(ts@)),
    decreases ts,
{
    let mut out: Vec<Type> = Vec::new();
    let mut i: usize = 0;
    while i < ts.len()
        invariant
            i <= ts.len(),
            out.len() == i,
            forall|j: int|
                0 <= j < i ==> (#[trigger] out@[j])@ == signature_vars(text::texts(vars@), ts@[j]@),
        decreases ts.len() - i,
    {
        out.push(convert_user_defined_to_var(vars, &ts[i]));
        i = i + 1;
    }
    assert(types::types_view(out@) =~= signature_vars_list(text::texts(vars@), types::types_view(ts@)));
    out
}

/// `convert_user_defined_to_var` on each type of a list of labelled types.
pub fn convert_user_defined_to_var_fields(vars: &Vec<String>, fs: &Vec<(String, Type)>) -> (r: Vec<(String, Type)>)
    ensures
        types::fields_view(r@) == signature_vars_fields(text::texts(vars@), types::fields_view(fs@)),
    decreases fs,
{
    let mut out: Vec<(String, Type)> = Vec::new();
    let mut i: usize = 0;
    while i < fs.len()
        invariant
            i <= fs.len(),
            out.len() == i,
            forall|j: int|
                0 <= j < i ==> (#[trigger] out@[j]).0@ == fs@[j].0@ && out@[j].1@ == signature_vars(
                    text::texts(vars@), fs@[j].1@,
                ),
        decreases fs.len() - i,
    {
        let item = &fs[i];
        out.push((item.0.clone(), convert_user_defined_to_var(vars, &item.1)));
        i = i + 1;
    }
    assert(types::fields_view(out@) =~= signature_vars_fields(text::texts(vars@), types::fields_view(fs@)));
    out
}

fn convert_user_defined_to_var_tail(vars: &Vec<String>, t: &Option<Box<Type>>) -> (r: Option<Box<Type>>)
    ensures
        types::tail_view(r) == signature_vars_tail(text::texts(vars@), types::tail_view(*t)),
    decreases t,
{
    match t {
        Some(b) => Some(Box::new(convert_user_defined_to_var(vars, b))),
        None => None,
    }
}

/// Gives the types of numeric literals their defaults, `i64` and `f64`.
pub open spec fn defaulted(t: TypeV) -> TypeV
    decreases t, 0nat,
{
    match t {
        TypeV::IntLit => TypeV::I64,
        TypeV::FloatLit => TypeV::F64,
        TypeV::UserDefined(n, args) => TypeV::UserDefined(n, defaulted_list(args)),
        TypeV::Arrow(p, r, q, e) => TypeV::Arrow(
            defaulted_fields(p),
            Box::new(defaulted(*r)),
            Box::new(defaulted(*q)),
            Box::new(defaulted(*e)),
        ),
        TypeV::Ref(i) => TypeV::Ref(Box::new(defaulted(*i))),
        TypeV::Linear(i) => TypeV::Linear(Box::new(defaulted(*i))),
        TypeV::Lazy(i) => TypeV::Lazy(Box::new(defaulted(*i))),
        TypeV::Borrow(i) => TypeV::Borrow(Box::new(defaulted(*i))),
        TypeV::Array(i) => TypeV::Array(Box::new(defaulted(*i))),
        TypeV::List(i) => TypeV::List(Box::new(defaulted(*i))),
        TypeV::Handler(n, i) => TypeV::Handler(n, Box::new(defaulted(*i))),
        TypeV::Row(es, tail) => TypeV::Row(defaulted_list(es), defaulted_tail(tail)),
        TypeV::Record(fs) => TypeV::Record(defaulted_fields(fs)),
        _ => t,
    }
}

/// `defaulted` on each type of a list.
pub open spec fn defaulted_list(ts: Seq<TypeV>) -> Seq<TypeV>
    decreases ts, 0nat,
{
    Seq::new(
        ts.len(),
        |i: int|
            if 0 <= i < ts.len() {
                defaulted(ts[i])
            } else {
                arbitrary()
            },
    )
}

/// `defaulted` on each type of a list of labelled types.
pub open spec fn defaulted_fields(fs: Seq<(Text, TypeV)>) -> Seq<(Text, TypeV)>
    decreases fs, 0nat,
{
    Seq::new(
        fs.len(),
        |i: int|
            if 0 <= i < fs.len() {
                (fs[i].0, defaulted(fs[i].1))
            } else {
                arbitrary()
            },
    )
}

/// `defaulted` on the tail of a row.
pub open spec fn defaulted_tail(t: Option<Box<TypeV>>) -> Option<Box<TypeV>>
    decreases t, 0nat,
{
    match t {
        Some(b) => Some(Box::new(defaulted(*b))),
        None => None,
    }
}

/// Gives the types of numeric literals their defaults, `i64` and `f64`.
pub fn default_numeric_literals(typ: &Type) -> (r: Type)
    ensures
        r@ == defaulted(typ@),
    decreases typ,
{
    match typ {
        Type::IntLit => Type::I64,
        Type::FloatLit => Type::F64,
        Type::UserDefined(n, args) => Type::UserDefined(
            n.clone(),
            default_numeric_literals_list(args),
        ),
        Type::Arrow(p, r, q, e) => Type::Arrow(
            default_numeric_literals_fields(p),
            Box::new(default_numeric_literals(r)),
            Box::new(default_numeric_literals(q)),
            Box::new(default_numeric_literals(e)),
        ),
        Type::Ref(i) => Type::Ref(Box::new(default_numeric_literals(i))),
        Type::Linear(i) => Type::Linear(Box::new(default_numeric_literals(i))),
        Type::Lazy(i) => Type::Lazy(Box::new(default_numeric_literals(i))),
        Type::Borrow(i) => Type::Borrow(Box::new(default_numeric_literals(i))),
        Type::Array(i) => Type::Array(Box::new(default_numeric_literals(i))),
        Type::List(i) => Type::List(Box::new(default_numeric_literals(i))),
        Type::Handler(n, i) => Type::Handler(n.clone(), Box::new(default_numeric_literals(i))),
        Type::Row(es, tail) => Type::Row(default_numeric_literals_list(es), default_numeric_literals_tail(tail)),
        Type::Record(fs) => Type::Record(default_numeric_literals_fields(fs)),
        _ => typ.clone(),
    }
}

/// `default_numeric_literals` on each type of a list.
pub fn default_numeric_literals_list(ts: &Vec<Type>) -> (r: Vec<Type>)
    ensures
        types::types_view(r@) == defaulted_list(types::types_view(ts@)),
    decreases ts,
{
    let mut out: Vec<Type> = Vec::new();
    let mut i: usize = 0;
    while i < ts.len()
        invariant
            i <= ts.len(),
            out.len() == i,
            forall|j: int|
                0 <= j < i ==> (#[trigger] out@[j])@ == defaulted(ts@[j]@),
        decreases ts.len() - i,
    {
        out.push(default_numeric_literals(&ts[i]));
        i = i + 1;
    }
    assert(types::types_view(out@) =~= defaulted_list(types::types_view(ts@)));
    out
}

/// `default_numeric_literals` on each type of a list of labelled types.
pub fn default_numeric_literals_fields(fs: &Vec<(String, Type)>) -> (r: Vec<(String, Type)>)
    ensures
        types::fields_view(r@) == defaulted_fields(types::fields_view(fs@)),
    decreases fs,
{
    let mut out: Vec<(String, Type)> = Vec::new();
    let mut i: usize = 0;
    while i < fs.len()
        invariant
            i <= fs.len(),
            out.len() == i,
            forall|j: int|
                0 <= j < i ==> (#[trigger] out@[j]).0@ == fs@[j].0@ && out@[j].1@ == defaulted(
                    fs@[j].1@,
                ),
        decreases fs.len() - i,
    {
        let item = &fs[i];
        out.push((item.0.clone(), default_numeric_literals(&item.1)));
        i = i + 1;
    }
    assert(types::fields_view(out@) =~= defaulted_fields(types::fields_view(fs@)));
    out
}

fn default_numeric_literals_tail(t: &Option<Box<Type>>) -> (r: Option<Box<Type>>)
    ensures
        types::tail_view(r) == defaulted_tail(types::tail_view(*t)),
    decreases t,
{
    match t {
        Some(b) => Some(Box::new(default_numeric_literals(b))),
        None => None,
    }
}

/// The model of a normalised record type definition: its type parameters are variables.
pub open spec fn normalized_typedef(td: TypeDefV) -> TypeDefV {
    TypeDefV { fields: generic_vars_fields(text::distinct_texts(td.type_params), td.fields), ..td }
}

/// `generic_vars` on the fields of a constructor.
pub open spec fn generic_ctor_fields(
    vars: Seq<Text>,
    fs: Seq<(Option<Text>, TypeV)>,
) -> Seq<(Option<Text>, TypeV)> {
    fs.map_values(|f: (Option<Text>, TypeV)| (f.0, generic_vars(vars, f.1)))
}

/// The model of a normalised sum type: its type parameters are variables.
pub open spec fn normalized_enum(ed: EnumDefV) -> EnumDefV {
    EnumDefV {
        variants: ed.variants.map_values(
            |v: VariantDefV|
                VariantDefV {
                    name: v.name,
                    fields: generic_ctor_fields(text::distinct_texts(ed.type_params), v.fields),
                },
        ),
        ..ed
    }
}

/// Normalises a record type definition.
pub fn normalize_typedef_generic_params(td: &TypeDef) -> (r: TypeDef)
    ensures
        r@ == normalized_typedef(td@),
{
    let vars = to_set(&td.type_params);
    TypeDef {
        name: td.name.clone(),
        is_public: td.is_public,
        type_params: copy_texts(&td.type_params),
        fields: convert_generic_user_defined_to_var_fields(&vars, &td.fields),
    }
}

fn generalize_ctor_fields(vars: &Vec<String>, fields: &Vec<(Option<String>, Type)>) -> (r: Vec<
    (Option<String>, Type),
>)
    ensures
        ast::ctor_fields(r@) == generic_ctor_fields(text::texts(vars@), ast::ctor_fields(fields@)),
{
    let mut out: Vec<(Option<String>, Type)> = Vec::new();
    let mut i: usize = 0;
    while i < fields.len()
        invariant
            i <= fields.len(),
            out.len() == i,
            forall|j: int|
                0 <= j < i ==> types::opt_text((#[trigger] out@[j]).0) == types::opt_text(fields@[j].0)
                    && out@[j].1@ == generic_vars(text::texts(vars@), fields@[j].1@),
        decreases fields.len() - i,
    {
        let f = &fields[i];
        out.push((copy_opt_text(&f.0), convert_generic_user_defined_to_var(vars, &f.1)));
        i = i + 1;
    }
    assert(ast::ctor_fields(out@) =~= generic_ctor_fields(text::texts(vars@), ast::ctor_fields(fields@)));
    out
}

/// Normalises a sum type.
pub fn normalize_enum_generic_params(ed: &EnumDef) -> (r: EnumDef)
    ensures
        r@ == normalized_enum(ed@),
{
    let vars = to_set(&ed.type_params);
    let mut variants: Vec<VariantDef> = Vec::new();
    let mut i: usize = 0;
    while i < ed.variants.len()
        invariant
            i <= ed.variants.len(),
            variants.len() == i,
            text::texts(vars@) == text::distinct_texts(ed@.type_params),
            forall|j: int|
                0 <= j < i ==> (#[trigger] variants@[j])@ == normalized_enum(ed@).variants[j],
        decreases ed.variants.len() - i,
    {
        let v = &ed.variants[i];
        assert(ed@.variants[i as int] == v@);
        variants.push(
            VariantDef {
                name: v.name.clone(),
                fields: generalize_ctor_fields(&vars, &v.fields),
            },
        );
        i = i + 1;
    }
    let r = EnumDef {
        name: ed.name.clone(),
        is_public: ed.is_public,
        is_opaque: ed.is_opaque,
        type_params: copy_texts(&ed.type_params),
        variants,
    };
    assert(r@.variants =~= normalized_enum(ed@).variants);
    r
}

// ---------------------------------------------------------------------------
// Copies of definitions
// ---------------------------------------------------------------------------

/// A copy of the fields of a constructor.
pub fn copy_ctor_fields(fields: &Vec<(Option<String>, Type)>) -> (r: Vec<(Option<String>, Type)>)
    ensures
        ast::ctor_fields(r@) == ast::ctor_fields(fields@),
{
    let mut out: Vec<(Option<String>, Type)> = Vec::new();
    let mut i: usize = 0;
    while i < fields.len()
        invariant
            i <= fields.len(),
            out.len() == i,
            forall|j: int| 0 <= j < i ==> ast::ctor_fields(out@)[j] == ast::ctor_fields(fields@)[j],
        decreases fields.len() - i,
    {
        let f = &fields[i];
        out.push((copy_opt_text(&f.0), f.1.clone()));
        i = i + 1;
    }
    assert(ast::ctor_fields(out@) =~= ast::ctor_fields(fields@));
    out
}

impl Clone for VariantDef {
    fn clone(&self) -> (r: Self)
        ensures
            r@ == self@,
    {
        VariantDef { name: self.name.clone(), fields: copy_ctor_fields(&self.fields) }
    }
}

impl Clone for EnumDef {
    fn clone(&self) -> (r: Self)
        ensures
            r@ == self@,
    {
        EnumDef {
            name: self.name.clone(),
            is_public: self.is_public,
            is_opaque: self.is_opaque,
            type_params: copy_texts(&self.type_params),
            variants: copy_variants(&self.variants),
        }
    }
}

/// A copy of a list of constructors.
pub fn copy_variants(variants: &Vec<VariantDef>) -> (r: Vec<VariantDef>)
    ensures
        ast::variants_view(r@) == ast::variants_view(variants@),
{
    let mut out: Vec<VariantDef> = Vec::new();
    let mut i: usize = 0;
    while i < variants.len()
        invariant
            i <= variants.len(),
            out.len() == i,
            forall|j: int| 0 <= j < i ==> (#[trigger] out@[j])@ == variants@[j]@,
        decreases variants.len() - i,
    {
        out.push(variants[i].clone());
        i = i + 1;
    }
    assert(ast::variants_view(out@) =~= ast::variants_view(variants@));
    out
}

impl Clone for TypeDef {
    fn clone(&self) -> (r: Self)
        ensures
            r@ == self@,
    {
        TypeDef {
            name: self.name.clone(),
            is_public: self.is_public,
            type_params: copy_texts(&self.type_params),
            fields: copy_fields(&self.fields),
        }
    }
}

// ---------------------------------------------------------------------------
// Numeric operands
// ---------------------------------------------------------------------------

/// Whether a type can still become an integer type.
pub open spec fn open_int(t: TypeV) -> bool {
    t is IntLit || t is Var
}

/// Whether a type can still become a floating-point type.
pub open spec fn open_float(t: TypeV) -> bool {
    t is FloatLit || t is Var
}

/// The integer type at which two operands meet.
pub open spec fn int_type(left: TypeV, right: TypeV) -> Option<TypeV> {
    if left is I32 || right is I32 {
        Some(TypeV::I32)
    } else if left is I64 || right is I64 {
        Some(TypeV::I64)
    } else if open_int(left) && open_int(right) {
        Some(TypeV::I64)
    } else {
        None
    }
}

/// The floating-point type at which two operands meet.
pub open spec fn float_type(left: TypeV, right: TypeV) -> Option<TypeV> {
    if left is F32 || right is F32 {
        Some(TypeV::F32)
    } else if left is F64 || right is F64 {
        Some(TypeV::F64)
    } else if open_float(left) && open_float(right) {
        Some(TypeV::F64)
    } else {
        None
    }
}

/// Selects the integer type at which two operands meet.
pub fn select_int_type(left: &Type, right: &Type) -> (r: Option<Type>)
    ensures
        ast::opt_type(r) == int_type(left@, right@),
{
    if matches!(left, Type::I32) || matches!(right, Type::I32) {
        return Some(Type::I32);
    }
    if matches!(left, Type::I64) || matches!(right, Type::I64) {
        return Some(Type::I64);
    }
    if matches!(left, Type::IntLit | Type::Var(_)) && matches!(right, Type::IntLit | Type::Var(_)) {
        return Some(Type::I64);
    }
    None
}

/// Selects the floating-point type at which two operands meet.
pub fn select_float_type(left: &Type, right: &Type) -> (r: Option<Type>)
    ensures
        ast::opt_type(r) == float_type(left@, right@),
{
    if matches!(left, Type::F32) || matches!(right, Type::F32) {
        return Some(Type::F32);
    }
    if matches!(left, Type::F64) || matches!(right, Type::F64) {
        return Some(Type::F64);
    }
    if matches!(left, Type::FloatLit | Type::Var(_))
        && matches!(right, Type::FloatLit | Type::Var(_)) {
        return Some(Type::F64);
    }
    None
}

// ---------------------------------------------------------------------------
// Predicates on types
// ---------------------------------------------------------------------------

/// Whether values of a type may be dropped without being consumed.
pub open spec fn auto_droppable(t: TypeV) -> bool
    decreases t,
{
    match t {
        TypeV::I32 => true,
        TypeV::I64 => true,
        TypeV::F32 => true,
        TypeV::F64 => true,
        TypeV::IntLit => true,
        TypeV::FloatLit => true,
        TypeV::Bool => true,
        TypeV::Char => true,
        TypeV::String => true,
        TypeV::Unit => true,
        TypeV::Array(_) => true,
        TypeV::Linear(i) => auto_droppable(*i),
        TypeV::Lazy(i) => auto_droppable(*i),
        TypeV::Borrow(i) => auto_droppable(*i),
        TypeV::Ref(i) => auto_droppable(*i),
        _ => false,
    }
}

/// Whether values of a type may be dropped without being consumed.
pub fn is_auto_droppable(typ: &Type) -> (r: bool)
    ensures
        r == auto_droppable(typ@),
    decreases typ,
{
    match typ {
        Type::I32 => true,
        Type::I64 => true,
        Type::F32 => true,
        Type::F64 => true,
        Type::IntLit => true,
        Type::FloatLit => true,
        Type::Bool => true,
        Type::Char => true,
        Type::String => true,
        Type::Unit => true,
        Type::Array(_) => true,
        Type::Linear(i) => is_auto_droppable(i),
        Type::Lazy(i) => is_auto_droppable(i),
        Type::Borrow(i) => is_auto_droppable(i),
        Type::Ref(i) => is_auto_droppable(i),
        _ => false,
    }
}

/// Whether a reference type occurs in a type.
pub open spec fn has_ref(t: TypeV) -> bool
    decreases t, 0nat,
{
    match t {
        TypeV::Ref(_) => true,
        TypeV::UserDefined(_, args) => has_ref_any(args, 0),
        TypeV::Arrow(p, r, q, e) => {
            has_ref(*r) || has_ref_field(p, 0) || has_ref(*q) || has_ref(*e)
        },
        TypeV::Linear(i) => has_ref(*i),
        TypeV::Lazy(i) => has_ref(*i),
        TypeV::Borrow(i) => has_ref(*i),
        TypeV::Array(i) => has_ref(*i),
        TypeV::Row(es, tail) => {
            has_ref_any(es, 0) || match tail {
                Some(x) => has_ref(*x),
                None => false,
            }
        },
        TypeV::Record(fs) => has_ref_field(fs, 0),
        _ => false,
    }
}

/// `has_ref` on one of the types from index `i` on.
pub open spec fn has_ref_any(ts: Seq<TypeV>, i: nat) -> bool
    decreases ts, ts.len() - i,
{
    i < ts.len() && (has_ref(ts[i as int]) || has_ref_any(ts, i + 1))
}

/// `has_ref` on one of the labelled types from index `i` on.
pub open spec fn has_ref_field(fs: Seq<(Text, TypeV)>, i: nat) -> bool
    decreases fs, fs.len() - i,
{
    i < fs.len() && (has_ref(fs[i as int].1) || has_ref_field(fs, i + 1))
}

/// Whether a reference type occurs in a type.
pub fn contains_ref(typ: &Type) -> (r: bool)
    ensures
        r == has_ref(typ@),
    decreases typ,
{
    match typ {
        Type::Ref(_) => true,
        Type::UserDefined(_, args) => contains_ref_any(args),
        Type::Arrow(p, r, q, e) => {
            contains_ref(r) || contains_ref_field(p) || contains_ref(q) || contains_ref(e)
        },
        Type::Linear(i) => contains_ref(i),
        Type::Lazy(i) => contains_ref(i),
        Type::Borrow(i) => contains_ref(i),
        Type::Array(i) => contains_ref(i),
        Type::Row(es, tail) => {
            contains_ref_any(es) || match tail {
                Some(x) => contains_ref(x),
                None => false,
            }
        },
        Type::Record(fs) => contains_ref_field(fs),
        _ => false,
    }
}

fn contains_ref_any(ts: &Vec<Type>) -> (r: bool)
    ensures
        r == has_ref_any(types::types_view(ts@), 0),
    decreases ts,
{
    let mut i: usize = 0;
    while i < ts.len()
        invariant
            i <= ts.len(),
            has_ref_any(types::types_view(ts@), 0) == has_ref_any(
                types::types_view(ts@),
                i as nat,
            ),
        decreases ts.len() - i,
    {
        if contains_ref(&ts[i]) {
            return true;
        }
        i = i + 1;
    }
    false
}

fn contains_ref_field(fs: &Vec<(String, Type)>) -> (r: bool)
    ensures
        r == has_ref_field(types::fields_view(fs@), 0),
    decreases fs,
{
    let mut i: usize = 0;
    while i < fs.len()
        invariant
            i <= fs.len(),
            has_ref_field(types::fields_view(fs@), 0) == has_ref_field(
                types::fields_view(fs@),
                i as nat,
            ),
        decreases fs.len() - i,
    {
        if contains_ref(&fs[i].1) {
            return true;
        }
        i = i + 1;
    }
    false
}

/// Whether an effect of the given name occurs in a type.
pub open spec fn has_effect(name: Text, t: TypeV) -> bool
    decreases t, 0nat,
{
    match t {
        TypeV::UserDefined(n, args) => {
            (n == name && args.len() == 0) || has_effect_any(name, args, 0)
        },
        TypeV::Arrow(p, r, q, e) => {
            has_effect_field(name, p, 0) || has_effect(name, *r) || has_effect(name, *q) || has_effect(name, *e)
        },
        TypeV::Ref(i) => has_effect(name, *i),
        TypeV::Linear(i) => has_effect(name, *i),
        TypeV::Lazy(i) => has_effect(name, *i),
        TypeV::Borrow(i) => has_effect(name, *i),
        TypeV::Array(i) => has_effect(name, *i),
        TypeV::Row(es, tail) => {
            has_effect_any(name, es, 0) || match tail {
                Some(x) => has_effect(name, *x),
                None => false,
            }
        },
        TypeV::Record(fs) => has_effect_field(name, fs, 0),
        _ => false,
    }
}

/// `has_effect` on one of the types from index `i` on.
pub open spec fn has_effect_any(name: Text, ts: Seq<TypeV>, i: nat) -> bool
    decreases ts, ts.len() - i,
{
    i < ts.len() && (has_effect(name, ts[i as int]) || has_effect_any(name, ts, i + 1))
}

/// `has_effect` on one of the labelled types from index `i` on.
pub open spec fn has_effect_field(name: Text, fs: Seq<(Text, TypeV)>, i: nat) -> bool
    decreases fs, fs.len() - i,
{
    i < fs.len() && (has_effect(name, fs[i as int].1) || has_effect_field(name, fs, i + 1))
}

/// Whether an effect of the given name occurs in a type.
pub fn contains_named_throws(name: &str, typ: &Type) -> (r: bool)
    ensures
        r == has_effect(name@, typ@),
    decreases typ,
{
    match typ {
        Type::UserDefined(n, args) => {
            assert(types::types_view(args@).len() == args.len());
            (str_eq(n.as_str(), name) && args.len() == 0) || contains_named_throws_any(name, args)
        },
        Type::Arrow(p, r, q, e) => {
            contains_named_throws_field(name, p) || contains_named_throws(name, r) || contains_named_throws(name, q) || contains_named_throws(name, e)
        },
        Type::Ref(i) => contains_named_throws(name, i),
        Type::Linear(i) => contains_named_throws(name, i),
        Type::Lazy(i) => contains_named_throws(name, i),
        Type::Borrow(i) => contains_named_throws(name, i),
        Type::Array(i) => contains_named_throws(name, i),
        Type::Row(es, tail) => {
            contains_named_throws_any(name, es) || match tail {
                Some(x) => contains_named_throws(name, x),
                None => false,
            }
        },
        Type::Record(fs) => contains_named_throws_field(name, fs),
        _ => false,
    }
}

fn contains_named_throws_any(name: &str, ts: &Vec<Type>) -> (r: bool)
    ensures
        r == has_effect_any(name@, types::types_view(ts@), 0),
    decreases ts,
{
    let mut i: usize = 0;
    while i < ts.len()
        invariant
            i <= ts.len(),
            has_effect_any(name@, types::types_view(ts@), 0) == has_effect_any(
                name@, types::types_view(ts@),
                i as nat,
            ),
        decreases ts.len() - i,
    {
        if contains_named_throws(name, &ts[i]) {
            return true;
        }
        i = i + 1;
    }
    false
}

fn contains_named_throws_field(name: &str, fs: &Vec<(String, Type)>) -> (r: bool)
    ensures
        r == has_effect_field(name@, types::fields_view(fs@), 0),
    decreases fs,
{
    let mut i: usize = 0;
    while i < fs.len()
        invariant
            i <= fs.len(),
            has_effect_field(name@, types::fields_view(fs@), 0) == has_effect_field(
                name@, types::fields_view(fs@),
                i as nat,
            ),
        decreases fs.len() - i,
    {
        if contains_named_throws(name, &fs[i].1) {
            return true;
        }
        i = i + 1;
    }
    false
}

/// Whether the exception effect occurs in a type.
pub fn contains_exn_throws(t: &Type) -> (r: bool)
    ensures
        r == has_effect(exn_name(), t@),
{
    contains_named_throws("Exn", t)
}

// ---------------------------------------------------------------------------
// Rows
// ---------------------------------------------------------------------------

/// Whether a type is a bare name.
pub open spec fn bare_name(t: TypeV) -> Option<Text> {
    match t {
        TypeV::UserDefined(n, args) => {
            if args.len() == 0 {
                Some(n)
            } else {
                None
            }
        },
        _ => None,
    }
}

/// The bare name that a type is.
pub fn as_bare_name(t: &Type) -> (r: Option<&String>)
    ensures
        match r {
            Some(n) => bare_name(t@) == Some(n@),
            None => bare_name(t@) is None,
        },
{
    match t {
        Type::UserDefined(n, args) => {
            assert(types::types_view(args@).len() == args.len());
            if args.len() == 0 {
                Some(n)
            } else {
                None
            }
        },
        _ => None,
    }
}

/// The bare name as a type.
pub open spec fn named_type(n: Text) -> TypeV {
    TypeV::UserDefined(n, Seq::empty())
}

/// Makes the type that is a bare name.
pub fn make_named(n: String) -> (r: Type)
    ensures
        r@ == named_type(n@),
{
    let args: Vec<Type> = Vec::new();
    assert(types::types_view(args@) =~= Seq::<TypeV>::empty());
    Type::UserDefined(n, args)
}

/// The row without members.
pub open spec fn empty_row() -> TypeV {
    TypeV::Row(Seq::empty(), None)
}

/// Makes the row without members.
pub fn make_empty_row() -> (r: Type)
    ensures
        r@ == empty_row(),
{
    let args: Vec<Type> = Vec::new();
    assert(types::types_view(args@) =~= Seq::<TypeV>::empty());
    Type::Row(args, None)
}

/// The first index at or after `i` at which `t` stands, or the length of the list.
pub open spec fn index_of_type(ts: Seq<TypeV>, t: TypeV, i: nat) -> nat
    decreases ts.len() - i,
{
    if i >= ts.len() {
        ts.len()
    } else if ts[i as int] == t {
        i
    } else {
        index_of_type(ts, t, i + 1)
    }
}

/// Whether `t` is one of the types.
pub open spec fn has_type(ts: Seq<TypeV>, t: TypeV) -> bool {
    index_of_type(ts, t, 0) < ts.len()
}

/// Finds the first index of a type in a list.
pub fn find_type(ts: &Vec<Type>, t: &Type) -> (r: Option<usize>)
    ensures
        match r {
            Some(i) => i < ts.len() && index_of_type(types::types_view(ts@), t@, 0) == i,
            None => index_of_type(types::types_view(ts@), t@, 0) == ts.len(),
        },
{
    let mut i: usize = 0;
    while i < ts.len()
        invariant
            i <= ts.len(),
            index_of_type(types::types_view(ts@), t@, 0) == index_of_type(types::types_view(ts@), t@, i as nat),
        decreases ts.len() - i,
    {
        if type_eq(&ts[i], t) {
            return Some(i);
        }
        i = i + 1;
    }
    None
}

/// The list with `t` at its end, unless it is there already.
pub open spec fn with_type(ts: Seq<TypeV>, t: TypeV) -> Seq<TypeV> {
    if has_type(ts, t) {
        ts
    } else {
        ts.push(t)
    }
}

/// Adds a type to a list, unless it is there already.
pub fn add_type(ts: &mut Vec<Type>, t: Type)
    ensures
        types::types_view(final(ts)@) == with_type(types::types_view(old(ts)@), t@),
{
    if find_type(ts, &t).is_none() {
        ts.push(t);
        assert(types::types_view(ts@) =~= types::types_view(old(ts)@).push(t@));
    }
}

/// `a` extended by the types of `b` from index `i` on.
pub open spec fn merged_from(a: Seq<TypeV>, b: Seq<TypeV>, i: nat) -> Seq<TypeV>
    decreases b.len() - i,
{
    if i >= b.len() {
        a
    } else {
        merged_from(with_type(a, b[i as int]), b, i + 1)
    }
}

/// Adds every type of `b` to `a`.
pub fn add_types(a: &mut Vec<Type>, b: &Vec<Type>)
    ensures
        types::types_view(final(a)@) == merged_from(types::types_view(old(a)@), types::types_view(b@), 0),
{
    let mut i: usize = 0;
    while i < b.len()
        invariant
            i <= b.len(),
            merged_from(types::types_view(a@), types::types_view(b@), i as nat) == merged_from(
                types::types_view(old(a)@),
                types::types_view(b@),
                0,
            ),
        decreases b.len() - i,
    {
        add_type(a, b[i].clone());
        i = i + 1;
    }
}

/// The members of a row; none for the unit type, nothing for other types.
pub open spec fn row_members(t: TypeV) -> Option<Seq<TypeV>> {
    match t {
        TypeV::Row(items, _) => Some(items),
        TypeV::Unit => Some(Seq::empty()),
        _ => None,
    }
}

/// The members of `base` and those of `extra`, each once, with the tail of `base`.
pub open spec fn merged_rows(base: TypeV, extra: TypeV) -> TypeV {
    match (row_members(base), row_members(extra)) {
        (Some(a), Some(b)) => {
            let merged = merged_from(merged_from(Seq::empty(), a, 0), b, 0);
            let tail = match base {
                TypeV::Row(_, t) => t,
                _ => None,
            };
            if merged.len() == 0 && tail is None {
                TypeV::Unit
            } else {
                TypeV::Row(merged, tail)
            }
        },
        _ => base,
    }
}

/// Merges two requirement rows without repeating members.
pub fn merge_type_rows(base: &Type, extra: &Type) -> (r: Type)
    ensures
        r@ == merged_rows(base@, extra@),
{
    let mut merged: Vec<Type> = Vec::new();
    assert(types::types_view(merged@) =~= Seq::<TypeV>::empty());
    match base {
        Type::Row(items, _) => add_types(&mut merged, items),
        Type::Unit => {},
        _ => return base.clone(),
    };
    match extra {
        Type::Row(items, _) => add_types(&mut merged, items),
        Type::Unit => {},
        _ => return base.clone(),
    };
    let tail = match base {
        Type::Row(_, t) => copy_tail(t),
        _ => None,
    };
    assert(types::types_view(merged@).len() == merged.len());
    if merged.len() == 0 && tail.is_none() {
        Type::Unit
    } else {
        Type::Row(merged, tail)
    }
}

/// The bare names among the types from index `i` on.
pub open spec fn bare_names(ts: Seq<TypeV>, i: nat) -> Seq<Text>
    decreases ts.len() - i,
{
    if i >= ts.len() {
        Seq::empty()
    } else {
        match bare_name(ts[i as int]) {
            Some(n) => seq![n] + bare_names(ts, i + 1),
            None => bare_names(ts, i + 1),
        }
    }
}

/// The names of the members of a requirement row.
pub open spec fn row_port_names(t: TypeV) -> Seq<Text> {
    match t {
        TypeV::Row(reqs, _) => bare_names(reqs, 0),
        _ => Seq::empty(),
    }
}

/// Extracts the names of the members of a requirement row.
pub fn extract_row_port_names(t: &Type) -> (r: Vec<String>)
    ensures
        text::texts(r@) == row_port_names(t@),
{
    let mut out: Vec<String> = Vec::new();
    match t {
        Type::Row(reqs, _) => {
            let mut i: usize = 0;
            assert(text::texts(out@) + bare_names(types::types_view(reqs@), 0) =~= bare_names(
                types::types_view(reqs@),
                0,
            ));
            while i < reqs.len()
                invariant
                    i <= reqs.len(),
                    text::texts(out@) + bare_names(types::types_view(reqs@), i as nat) == bare_names(
                        types::types_view(reqs@),
                        0,
                    ),
                decreases reqs.len() - i,
            {
                let ghost before = text::texts(out@);
                match as_bare_name(&reqs[i]) {
                    Some(n) => {
                        out.push(n.clone());
                        proof {
                            let rest = bare_names(types::types_view(reqs@), (i + 1) as nat);
                            assert(text::texts(out@) =~= before.push(n@));
                            assert(text::texts(out@) + rest =~= before + (seq![n@] + rest));
                        }
                    },
                    None => {},
                }
                i = i + 1;
            }
            assert(text::texts(out@) + Seq::<Text>::empty() =~= text::texts(out@));
        },
        _ => {
            assert(text::texts(out@) =~= Seq::<Text>::empty());
        },
    }
    out
}

/// The types from index `i` on that are not the bare name `name`.
pub open spec fn without_name(ts: Seq<TypeV>, name: Text, i: nat) -> Seq<TypeV>
    decreases ts.len() - i,
{
    if i >= ts.len() {
        Seq::empty()
    } else if bare_name(ts[i as int]) == Some(name) {
        without_name(ts, name, i + 1)
    } else {
        seq![ts[i as int]] + without_name(ts, name, i + 1)
    }
}

/// A row, or the requirements of an arrow, without the coeffect `name`.
pub open spec fn stripped(t: TypeV, name: Text) -> TypeV
    decreases t,
{
    match t {
        TypeV::Arrow(p, r, q, e) => TypeV::Arrow(p, r, Box::new(stripped(*q, name)), e),
        TypeV::Row(reqs, tail) => TypeV::Row(without_name(reqs, name, 0), tail),
        _ => t,
    }
}

/// Removes a required coeffect from a signature.
pub fn strip_required_port_coeffect(t: &Type, coeffect_name: &str) -> (r: Type)
    ensures
        r@ == stripped(t@, coeffect_name@),
    decreases t,
{
    match t {
        Type::Arrow(p, r, q, e) => Type::Arrow(
            copy_fields(p),
            Box::new((**r).clone()),
            Box::new(strip_required_port_coeffect(q, coeffect_name)),
            Box::new((**e).clone()),
        ),
        Type::Row(reqs, tail) => {
            let mut out: Vec<Type> = Vec::new();
            let mut i: usize = 0;
            assert(types::types_view(out@) + without_name(types::types_view(reqs@), coeffect_name@, 0)
                =~= without_name(types::types_view(reqs@), coeffect_name@, 0));
            while i < reqs.len()
                invariant
                    i <= reqs.len(),
                    types::types_view(out@) + without_name(
                        types::types_view(reqs@),
                        coeffect_name@,
                        i as nat,
                    ) == without_name(types::types_view(reqs@), coeffect_name@, 0),
                decreases reqs.len() - i,
            {
                let ghost before = types::types_view(out@);
                let keep = match as_bare_name(&reqs[i]) {
                    Some(n) => !str_eq(n.as_str(), coeffect_name),
                    None => true,
                };
                if keep {
                    out.push(reqs[i].clone());
                    proof {
                        let rest = without_name(
                            types::types_view(reqs@),
                            coeffect_name@,
                            (i + 1) as nat,
                        );
                        assert(types::types_view(out@) =~= before.push(reqs@[i as int]@));
                        assert(types::types_view(out@) + rest =~= before + (seq![reqs@[i as int]@]
                            + rest));
                    }
                }
                i = i + 1;
            }
            assert(types::types_view(out@) + Seq::<TypeV>::empty() =~= types::types_view(out@));
            Type::Row(out, copy_tail(tail))
        },
        _ => t.clone(),
    }
}

// ---------------------------------------------------------------------------
// The signature of `main`
// ---------------------------------------------------------------------------

/// Whether a name is one of the permissions that the runtime grants.
pub open spec fn runtime_perm(name: Text) -> bool {
    ||| name == "PermFs"@
    ||| name == "PermNet"@
    ||| name == "PermConsole"@
    ||| name == "PermRandom"@
    ||| name == "PermClock"@
    ||| name == "PermProc"@
}

fn is_known_runtime_perm(name: &str) -> (r: bool)
    ensures
        r == runtime_perm(name@),
{
    str_eq(name, "PermFs") || str_eq(name, "PermNet") || str_eq(name, "PermConsole") || str_eq(
        name,
        "PermRandom",
    ) || str_eq(name, "PermClock") || str_eq(name, "PermProc")
}

/// Whether `main` may throw what this row says: nothing.
pub open spec fn main_may_throw(t: TypeV) -> bool {
    match t {
        TypeV::Unit => true,
        TypeV::Row(effs, tail) => tail is None && effs.len() == 0,
        _ => false,
    }
}

/// Whether `main` may throw what this row says.
pub fn is_allowed_main_throws_signature(t: &Type) -> (r: bool)
    ensures
        r == main_may_throw(t@),
{
    match t {
        Type::Unit => true,
        Type::Row(effs, tail) => {
            assert(types::types_view(effs@).len() == effs.len());
            tail.is_none() && effs.len() == 0
        },
        _ => false,
    }
}

/// Whether all types from index `i` on are permissions of the runtime.
pub open spec fn all_perms(ts: Seq<TypeV>, i: nat) -> bool
    decreases ts.len() - i,
{
    i < ts.len() ==> (match bare_name(ts[i as int]) {
        Some(n) => runtime_perm(n),
        None => false,
    } && all_perms(ts, i + 1))
}

/// Whether `main` may require what this row says: permissions of the runtime.
pub open spec fn main_may_require(t: TypeV) -> bool {
    match t {
        TypeV::Unit => true,
        TypeV::Row(reqs, tail) => tail is None && all_perms(reqs, 0),
        _ => false,
    }
}

fn all_known_perms(reqs: &Vec<Type>) -> (r: bool)
    ensures
        r == all_perms(types::types_view(reqs@), 0),
{
    let mut i: usize = 0;
    while i < reqs.len()
        invariant
            i <= reqs.len(),
            all_perms(types::types_view(reqs@), 0) == all_perms(types::types_view(reqs@), i as nat),
        decreases reqs.len() - i,
    {
        let ok = match as_bare_name(&reqs[i]) {
            Some(n) => is_known_runtime_perm(n.as_str()),
            None => false,
        };
        if !ok {
            return false;
        }
        i = i + 1;
    }
    true
}

/// Whether `main` may require what this row says.
pub fn is_allowed_main_require_signature(t: &Type) -> (r: bool)
    ensures
        r == main_may_require(t@),
{
    match t {
        Type::Unit => true,
        Type::Row(reqs, tail) => tail.is_none() && all_known_perms(reqs),
        _ => false,
    }
}

// ---------------------------------------------------------------------------
// Return statements
// ---------------------------------------------------------------------------

/// Whether the statements from index `i` on hold a `return`, in themselves or in their
/// branches.
pub open spec fn returns_from(body: Seq<Spanned<StmtV>>, i: nat) -> bool
    decreases body, body.len() - i,
{
    i < body.len() && (stmt_returns(body[i as int].node) || returns_from(body, i + 1))
}

/// Whether a statement holds a `return`.
pub open spec fn stmt_returns(s: StmtV) -> bool
    decreases s, 0nat,
{
    match s {
        StmtV::Return(_) => true,
        StmtV::Expr(e) => expr_returns(e.node),
        StmtV::Try { body, catch_param: _, catch_body } => {
            has_return(body) || has_return(catch_body)
        },
        StmtV::Inject { handlers: _, body } => has_return(body),
        _ => false,
    }
}

/// Whether a body yields a value: it holds a `return`, or it ends in an expression.
pub open spec fn has_return(body: Seq<Spanned<StmtV>>) -> bool
    decreases body, body.len() + 1,
{
    returns_from(body, 0) || (body.len() > 0 && body[body.len() - 1].node is Expr)
}

/// Whether a branch of an expression yields a value.
pub open spec fn expr_returns(e: ExprV) -> bool
    decreases e, 0nat,
{
    match e {
        ExprV::If { cond: _, then_branch, else_branch } => {
            has_return(then_branch) || match else_branch {
                Some(b) => has_return(b),
                None => false,
            }
        },
        ExprV::Match { target: _, cases } => case_returns(cases, 0),
        _ => false,
    }
}

/// Whether one of the cases from index `i` on yields a value.
pub open spec fn case_returns(cases: Seq<MatchCaseV>, i: nat) -> bool
    decreases cases, cases.len() - i,
{
    i < cases.len() && (has_return(cases[i as int].body) || case_returns(cases, i + 1))
}

/// Whether a body yields a value: it holds a `return`, in itself or in its branches, or it
/// ends in an expression.
pub fn contains_return(body: &Vec<Spanned<Stmt>>) -> (r: bool)
    ensures
        r == has_return(ast::stmts_view(body@)),
    decreases body,
{
    let ghost b = ast::stmts_view(body@);
    let mut i: usize = 0;
    while i < body.len()
        invariant
            i <= body.len(),
            b == ast::stmts_view(body@),
            returns_from(b, 0) == returns_from(b, i as nat),
        decreases body.len() - i,
    {
        if stmt_contains_return(&body[i].node) {
            return true;
        }
        i = i + 1;
    }
    body_ends_with_tail_expr(body)
}

fn stmt_contains_return(s: &Stmt) -> (r: bool)
    ensures
        r == stmt_returns(s@),
    decreases s,
{
    match s {
        Stmt::Return(_) => true,
        Stmt::Expr(e) => expr_contains_return(&e.node),
        Stmt::Try { body, catch_param: _, catch_body } => {
            contains_return(body) || contains_return(catch_body)
        },
        Stmt::Inject { handlers: _, body } => contains_return(body),
        _ => false,
    }
}

fn body_ends_with_tail_expr(body: &Vec<Spanned<Stmt>>) -> (r: bool)
    ensures
        r == (body.len() > 0 && ast::stmts_view(body@)[body.len() - 1].node is Expr),
{
    if body.len() == 0 {
        return false;
    }
    let last = &body[body.len() - 1];
    assert(ast::stmts_view(body@)[body.len() - 1].node == last.node@);
    matches!(&last.node, Stmt::Expr(_))
}

fn expr_contains_return(e: &Expr) -> (r: bool)
    ensures
        r == expr_returns(e@),
    decreases e,
{
    match e {
        Expr::If { cond: _, then_branch, else_branch } => {
            contains_return(then_branch) || match else_branch {
                Some(b) => contains_return(b),
                None => false,
            }
        },
        Expr::Match { target: _, cases } => cases_contain_return(cases),
        _ => false,
    }
}

fn cases_contain_return(cases: &Vec<MatchCase>) -> (r: bool)
    ensures
        r == case_returns(ast::cases_view(cases@), 0),
    decreases cases,
{
    let mut i: usize = 0;
    while i < cases.len()
        invariant
            i <= cases.len(),
            case_returns(ast::cases_view(cases@), 0) == case_returns(ast::cases_view(cases@), i as nat),
        decreases cases.len() - i,
    {
        if contains_return(&cases[i].body) {
            return true;
        }
        i = i + 1;
    }
    false
}

} // verus!
