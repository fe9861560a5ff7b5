//! Types, literals, operators and spans shared by the parser and the type checker.

use crate::text;
use crate::text::{Text, owned, prefix_char, str_eq};
use vstd::prelude::*;

verus! {

/// A range of the bytes of a source, from `start` up to and without `end`.
#[derive(Debug, Clone, Copy, PartialEq, Eq, Structural)]
pub struct Span {
    pub start: usize,
    pub end: usize,
}

/// A node with the span of source it was read from.
#[derive(Debug, PartialEq)]
pub struct Spanned<T> {
    pub node: T,
    pub span: Span,
}

/// How a binding holds its value.
#[derive(Debug, Clone, Copy, PartialEq, Eq, Structural)]
pub enum Sigil {
    Immutable,
    Mutable,
    Linear,
    Borrow,
}

/// Binary operators.
#[derive(Debug, Clone, Copy, PartialEq, Eq, Structural)]
pub enum BinaryOp {
    Add,
    Sub,
    Mul,
    Div,
    Mod,
    Concat,
    FAdd,
    FSub,
    FMul,
    FDiv,
    Eq,
    Ne,
    Lt,
    Le,
    Gt,
    Ge,
    FEq,
    FNe,
    FLt,
    FLe,
    FGt,
    FGe,
    And,
    Or,
    BitAnd,
    BitOr,
    BitXor,
    Shl,
    Shr,
}

/// Literal values. A floating-point literal is kept as its decimal text.
#[derive(Debug, PartialEq)]
pub enum Literal {
    Int(i64),
    Float(String),
    Bool(bool),
    Char(char),
    String(String),
    Unit,
}

/// Types of the language.
#[derive(Debug, PartialEq)]
pub enum Type {
    I32,
    I64,
    F32,
    F64,
    IntLit,
    FloatLit,
    Bool,
    Char,
    String,
    Unit,
    Var(String),
    UserDefined(String, Vec<Type>),
    /// Labelled parameters, result, required coeffects, thrown effects.
    Arrow(Vec<(String, Type)>, Box<Type>, Box<Type>, Box<Type>),
    Ref(Box<Type>),
    Linear(Box<Type>),
    Lazy(Box<Type>),
    Borrow(Box<Type>),
    Array(Box<Type>),
    List(Box<Type>),
    Handler(String, Box<Type>),
    Row(Vec<Type>, Option<Box<Type>>),
    Record(Vec<(String, Type)>),
}

/// One constructor of an enum.
#[derive(Debug, PartialEq)]
pub struct VariantDef {
    pub name: String,
    pub fields: Vec<(Option<String>, Type)>,
}

/// A sum type.
#[derive(Debug, PartialEq)]
pub struct EnumDef {
    pub name: String,
    pub is_public: bool,
    pub is_opaque: bool,
    pub type_params: Vec<String>,
    pub variants: Vec<VariantDef>,
}

// ---------------------------------------------------------------------------
// Models
// ---------------------------------------------------------------------------

/// The model of a literal.
pub enum LiteralV {
    Int(i64),
    Float(Text),
    Bool(bool),
    Char(char),
    String(Text),
    Unit,
}

/// The model of a type.
pub enum TypeV {
    I32,
    I64,
    F32,
    F64,
    IntLit,
    FloatLit,
    Bool,
    Char,
    String,
    Unit,
    Var(Text),
    UserDefined(Text, Seq<TypeV>),
    Arrow(Seq<(Text, TypeV)>, Box<TypeV>, Box<TypeV>, Box<TypeV>),
    Ref(Box<TypeV>),
    Linear(Box<TypeV>),
    Lazy(Box<TypeV>),
    Borrow(Box<TypeV>),
    Array(Box<TypeV>),
    List(Box<TypeV>),
    Handler(Text, Box<TypeV>),
    Row(Seq<TypeV>, Option<Box<TypeV>>),
    Record(Seq<(Text, TypeV)>),
}

/// The model of an optional string.
pub open spec fn opt_text(o: Option<String>) -> Option<Text> {
    match o {
        Some(s) => Some(s@),
        None => None,
    }
}

impl Literal {
    /// The model of this literal.
    pub open spec fn view(&self) -> LiteralV {
        match self {
            Literal::Int(n) => LiteralV::Int(*n),
            Literal::Float(s) => LiteralV::Float(s@),
            Literal::Bool(b) => LiteralV::Bool(*b),
            Literal::Char(c) => LiteralV::Char(*c),
            Literal::String(s) => LiteralV::String(s@),
            Literal::Unit => LiteralV::Unit,
        }
    }
}

impl Type {
    /// The model of this type.
    pub open spec fn view(&self) -> TypeV
        decreases self,
    {
        match self {
            Type::I32 => TypeV::I32,
            Type::I64 => TypeV::I64,
            Type::F32 => TypeV::F32,
            Type::F64 => TypeV::F64,
            Type::IntLit => TypeV::IntLit,
            Type::FloatLit => TypeV::FloatLit,
            Type::Bool => TypeV::Bool,
            Type::Char => TypeV::Char,
            Type::String => TypeV::String,
            Type::Unit => TypeV::Unit,
            Type::Var(n) => TypeV::Var(n@),
            Type::UserDefined(n, args) => TypeV::UserDefined(n@, types_view(args@)),
            Type::Arrow(p, r, q, e) => TypeV::Arrow(
                fields_view(p@),
                Box::new(r.view()),
                Box::new(q.view()),
                Box::new(e.view()),
            ),
            Type::Ref(t) => TypeV::Ref(Box::new(t.view())),
            Type::Linear(t) => TypeV::Linear(Box::new(t.view())),
            Type::Lazy(t) => TypeV::Lazy(Box::new(t.view())),
            Type::Borrow(t) => TypeV::Borrow(Box::new(t.view())),
            Type::Array(t) => TypeV::Array(Box::new(t.view())),
            Type::List(t) => TypeV::List(Box::new(t.view())),
            Type::Handler(n, t) => TypeV::Handler(n@, Box::new(t.view())),
            Type::Row(ts, tail) => TypeV::Row(
                types_view(ts@),
                match tail {
                    Some(b) => Some(Box::new(b.view())),
                    None => None,
                },
            ),
            Type::Record(fs) => TypeV::Record(fields_view(fs@)),
        }
    }
}

/// The models of a list of types.
pub open spec fn types_view(v: Seq<Type>) -> Seq<TypeV>
    decreases v,
{
    Seq::new(
        v.len(),
        |i: int|
            if 0 <= i < v.len() {
                v[i].view()
            } else {
                arbitrary()
            },
    )
}

/// The models of a list of labelled types.
pub open spec fn fields_view(v: Seq<(String, Type)>) -> Seq<(Text, TypeV)>
    decreases v,
{
    Seq::new(
        v.len(),
        |i: int|
            if 0 <= i < v.len() {
                (v[i].0@, v[i].1.view())
            } else {
                arbitrary()
            },
    )
}

/// The model of a row's tail.
pub open spec fn tail_view(t: Option<Box<Type>>) -> Option<Box<TypeV>> {
    match t {
        Some(b) => Some(Box::new(b.view())),
        None => None,
    }
}

impl Span {
    /// The span from `start` to `end`.
    pub fn new(start: usize, end: usize) -> (r: Span)
        ensures
            r == (Span { start, end }),
    {
        Span { start, end }
    }

    /// Whether a position lies in the span.
    pub open spec fn covers(self, offset: usize) -> bool {
        self.start <= offset < self.end
    }

    /// Whether a position lies in the span.
    pub fn contains(&self, offset: usize) -> (r: bool)
        ensures
            r == self.covers(offset),
    {
        self.start <= offset && offset < self.end
    }
}

impl Sigil {
    /// The key under which a binding of this sigil is stored.
    pub open spec fn key(self, name: Text) -> Text {
        match self {
            Sigil::Immutable => name,
            Sigil::Mutable => text::prefixed('~', name),
            Sigil::Linear => text::prefixed('%', name),
            Sigil::Borrow => text::prefixed('&', name),
        }
    }

    /// The key under which a binding of this sigil is stored.
    pub fn get_key(&self, name: &str) -> (r: String)
        ensures
            r@ == self.key(name@),
    {
        match self {
            Sigil::Immutable => owned(name),
            Sigil::Mutable => prefix_char('~', name),
            Sigil::Linear => prefix_char('%', name),
            Sigil::Borrow => prefix_char('&', name),
        }
    }
}

/// A copy of an optional text.
pub fn copy_opt_text(o: &Option<String>) -> (r: Option<String>)
    ensures
        opt_text(r) == opt_text(*o),
{
    match o {
        Some(s) => Some(s.clone()),
        None => None,
    }
}

// ---------------------------------------------------------------------------
// Copies
// ---------------------------------------------------------------------------

impl Clone for Literal {
    fn clone(&self) -> (r: Self)
        ensures
            r@ == self@,
    {
        match self {
            Literal::Int(n) => Literal::Int(*n),
            Literal::Float(s) => Literal::Float(s.clone()),
            Literal::Bool(b) => Literal::Bool(*b),
            Literal::Char(c) => Literal::Char(*c),
            Literal::String(s) => Literal::String(s.clone()),
            Literal::Unit => Literal::Unit,
        }
    }
}

impl Clone for Type {
    fn clone(&self) -> (r: Self)
        ensures
            r@ == self@,
        decreases self,
    {
        match self {
            Type::I32 => Type::I32,
            Type::I64 => Type::I64,
            Type::F32 => Type::F32,
            Type::F64 => Type::F64,
            Type::IntLit => Type::IntLit,
            Type::FloatLit => Type::FloatLit,
            Type::Bool => Type::Bool,
            Type::Char => Type::Char,
            Type::String => Type::String,
            Type::Unit => Type::Unit,
            Type::Var(n) => Type::Var(n.clone()),
            Type::UserDefined(n, args) => Type::UserDefined(n.clone(), copy_types(args)),
            Type::Arrow(p, r, q, e) => Type::Arrow(
                copy_fields(p),
                Box::new((**r).clone()),
                Box::new((**q).clone()),
                Box::new((**e).clone()),
            ),
            Type::Ref(t) => Type::Ref(Box::new((**t).clone())),
            Type::Linear(t) => Type::Linear(Box::new((**t).clone())),
            Type::Lazy(t) => Type::Lazy(Box::new((**t).clone())),
            Type::Borrow(t) => Type::Borrow(Box::new((**t).clone())),
            Type::Array(t) => Type::Array(Box::new((**t).clone())),
            Type::List(t) => Type::List(Box::new((**t).clone())),
            Type::Handler(n, t) => Type::Handler(n.clone(), Box::new((**t).clone())),
            Type::Row(ts, tail) => Type::Row(copy_types(ts), copy_tail(tail)),
            Type::Record(fs) => Type::Record(copy_fields(fs)),
        }
    }
}

/// A copy of a list of types.
pub fn copy_types(v: &Vec<Type>) -> (r: Vec<Type>)
    ensures
        types_view(r@) == types_view(v@),
        r.len() == v.len(),
    decreases v,
{
    let mut out: Vec<Type> = Vec::new();
    let mut i: usize = 0;
    while i < v.len()
        invariant
            i <= v.len(),
            out.len() == i,
            forall|j: int| 0 <= j < i ==> (#[trigger] out@[j])@ == v@[j]@,
        decreases v.len() - i,
    {
        out.push(v[i].clone());
        i = i + 1;
    }
    assert(types_view(out@) =~= types_view(v@));
    out
}

/// A copy of a list of labelled types.
pub fn copy_fields(v: &Vec<(String, Type)>) -> (r: Vec<(String, Type)>)
    ensures
        fields_view(r@) == fields_view(v@),
        r.len() == v.len(),
    decreases v,
{
    let mut out: Vec<(String, Type)> = Vec::new();
    let mut i: usize = 0;
    while i < v.len()
        invariant
            i <= v.len(),
            out.len() == i,
            forall|j: int|
                0 <= j < i ==> (#[trigger] out@[j]).0@ == v@[j].0@ && out@[j].1@ == v@[j].1@,
        decreases v.len() - i,
    {
        let item = &v[i];
        out.push((item.0.clone(), item.1.clone()));
        i = i + 1;
    }
    assert(fields_view(out@) =~= fields_view(v@));
    out
}

/// A copy of a row's tail.
pub fn copy_tail(t: &Option<Box<Type>>) -> (r: Option<Box<Type>>)
    ensures
        tail_view(r) == tail_view(*t),
    decreases t,
{
    match t {
        Some(b) => Some(Box::new((**b).clone())),
        None => None,
    }
}

// ---------------------------------------------------------------------------
// Equality
// ---------------------------------------------------------------------------

/// Whether two types are the same.
pub fn type_eq(a: &Type, b: &Type) -> (r: bool)
    ensures
        r == (a@ == b@),
    decreases a,
{
    match (a, b) {
        (Type::I32, Type::I32) => true,
        (Type::I64, Type::I64) => true,
        (Type::F32, Type::F32) => true,
        (Type::F64, Type::F64) => true,
        (Type::IntLit, Type::IntLit) => true,
        (Type::FloatLit, Type::FloatLit) => true,
        (Type::Bool, Type::Bool) => true,
        (Type::Char, Type::Char) => true,
        (Type::String, Type::String) => true,
        (Type::Unit, Type::Unit) => true,
        (Type::Var(n), Type::Var(m)) => str_eq(n.as_str(), m.as_str()),
        (Type::UserDefined(n, x), Type::UserDefined(m, y)) => {
            str_eq(n.as_str(), m.as_str()) && types_eq(x, y)
        },
        (Type::Arrow(p, r, q, e), Type::Arrow(p2, r2, q2, e2)) => {
            fields_eq(p, p2) && type_eq(r, r2) && type_eq(q, q2) && type_eq(e, e2)
        },
        (Type::Ref(x), Type::Ref(y)) => type_eq(x, y),
        (Type::Linear(x), Type::Linear(y)) => type_eq(x, y),
        (Type::Lazy(x), Type::Lazy(y)) => type_eq(x, y),
        (Type::Borrow(x), Type::Borrow(y)) => type_eq(x, y),
        (Type::Array(x), Type::Array(y)) => type_eq(x, y),
        (Type::List(x), Type::List(y)) => type_eq(x, y),
        (Type::Handler(n, x), Type::Handler(m, y)) => {
            str_eq(n.as_str(), m.as_str()) && type_eq(x, y)
        },
        (Type::Row(x, s), Type::Row(y, t)) => types_eq(x, y) && tail_eq(s, t),
        (Type::Record(x), Type::Record(y)) => fields_eq(x, y),
        _ => false,
    }
}

fn types_eq(a: &Vec<Type>, b: &Vec<Type>) -> (r: bool)
    ensures
        r == (types_view(a@) == types_view(b@)),
    decreases a,
{
    if a.len() != b.len() {
        assert(types_view(a@).len() != types_view(b@).len());
        return false;
    }
    let mut i: usize = 0;
    while i < a.len()
        invariant
            i <= a.len() == b.len(),
            forall|j: int| 0 <= j < i ==> (#[trigger] a@[j])@ == b@[j]@,
        decreases a.len() - i,
    {
        if !type_eq(&a[i], &b[i]) {
            assert(types_view(a@)[i as int] != types_view(b@)[i as int]);
            return false;
        }
        i = i + 1;
    }
    assert(types_view(a@) =~= types_view(b@));
    true
}

fn fields_eq(a: &Vec<(String, Type)>, b: &Vec<(String, Type)>) -> (r: bool)
    ensures
        r == (fields_view(a@) == fields_view(b@)),
    decreases a,
{
    if a.len() != b.len() {
        assert(fields_view(a@).len() != fields_view(b@).len());
        return false;
    }
    let mut i: usize = 0;
    while i < a.len()
        invariant
            i <= a.len() == b.len(),
            forall|j: int| 0 <= j < i ==> fields_view(a@)[j] == fields_view(b@)[j],
        decreases a.len() - i,
    {
        if !str_eq(a[i].0.as_str(), b[i].0.as_str()) || !type_eq(&a[i].1, &b[i].1) {
            assert(fields_view(a@)[i as int] != fields_view(b@)[i as int]);
            return false;
        }
        i = i + 1;
    }
    assert(fields_view(a@) =~= fields_view(b@));
    true
}

fn tail_eq(a: &Option<Box<Type>>, b: &Option<Box<Type>>) -> (r: bool)
    ensures
        r == (tail_view(*a) == tail_view(*b)),
    decreases a,
{
    match (a, b) {
        (Some(x), Some(y)) => type_eq(x, y),
        (None, None) => true,
        _ => false,
    }
}

} // verus!
