//! The abstract syntax tree, with the model of each node.

use crate::text;
use crate::text::Text;
use crate::types;
use crate::types::{BinaryOp, EnumDef, Literal, LiteralV, Sigil, Spanned, Type, TypeV, VariantDef};
use vstd::prelude::*;

verus! {

/// A parameter of a function.
#[derive(Debug, PartialEq)]
pub struct Param {
    pub name: String,
    pub sigil: Sigil,
    pub typ: Type,
}

/// A pattern of a match case or a destructuring `let`.
#[derive(Debug, PartialEq)]
pub enum Pattern {
    Literal(Literal),
    Variable(String, Sigil),
    Constructor(String, Vec<(Option<String>, Spanned<Pattern>)>),
    /// The fields, and whether further fields are allowed.
    Record(Vec<(String, Spanned<Pattern>)>, bool),
    Wildcard,
}

/// One case of a `match`.
#[derive(Debug, PartialEq)]
pub struct MatchCase {
    pub pattern: Spanned<Pattern>,
    pub body: Vec<Spanned<Stmt>>,
}

/// An expression.
#[derive(Debug, PartialEq)]
pub enum Expr {
    Literal(Literal),
    Variable(String, Sigil),
    BinaryOp(Box<Spanned<Expr>>, BinaryOp, Box<Spanned<Expr>>),
    Borrow(String, Sigil),
    Call { func: String, args: Vec<(String, Spanned<Expr>)> },
    Constructor(String, Vec<(Option<String>, Spanned<Expr>)>),
    Record(Vec<(String, Spanned<Expr>)>),
    Array(Vec<Spanned<Expr>>),
    List(Vec<Spanned<Expr>>),
    Index(Box<Spanned<Expr>>, Box<Spanned<Expr>>),
    FieldAccess(Box<Spanned<Expr>>, String),
    If {
        cond: Box<Spanned<Expr>>,
        then_branch: Vec<Spanned<Stmt>>,
        else_branch: Option<Vec<Spanned<Stmt>>>,
    },
    Match { target: Box<Spanned<Expr>>, cases: Vec<MatchCase> },
    While { cond: Box<Spanned<Expr>>, body: Vec<Spanned<Stmt>> },
    For {
        var: String,
        start: Box<Spanned<Expr>>,
        end_expr: Box<Spanned<Expr>>,
        body: Vec<Spanned<Stmt>>,
    },
    Lambda {
        type_params: Vec<String>,
        params: Vec<Param>,
        ret_type: Type,
        requires: Type,
        throws: Type,
        body: Vec<Spanned<Stmt>>,
    },
    Raise(Box<Spanned<Expr>>),
    /// Symbol, type parameters and type of a binding from outside.
    External(String, Vec<String>, Type),
    Handler { coeffect_name: String, requires: Type, functions: Vec<Function> },
}

/// A statement.
#[derive(Debug, PartialEq)]
pub enum Stmt {
    Let { name: String, sigil: Sigil, typ: Option<Type>, value: Spanned<Expr> },
    LetPattern { pattern: Spanned<Pattern>, value: Spanned<Expr> },
    Expr(Spanned<Expr>),
    Return(Spanned<Expr>),
    Assign { target: Spanned<Expr>, value: Spanned<Expr> },
    Conc(Vec<Function>),
    Try { body: Vec<Spanned<Stmt>>, catch_param: String, catch_body: Vec<Spanned<Stmt>> },
    Inject { handlers: Vec<String>, body: Vec<Spanned<Stmt>> },
}

/// A named function: a task, or a method of a handler.
#[derive(Debug, PartialEq)]
pub struct Function {
    pub name: String,
    pub is_public: bool,
    pub type_params: Vec<String>,
    pub params: Vec<Param>,
    pub ret_type: Type,
    pub requires: Type,
    pub throws: Type,
    pub body: Vec<Spanned<Stmt>>,
}

/// A record type definition.
#[derive(Debug, PartialEq)]
pub struct TypeDef {
    pub name: String,
    pub is_public: bool,
    pub type_params: Vec<String>,
    pub fields: Vec<(String, Type)>,
}

/// An exception constructor.
#[derive(Debug, PartialEq)]
pub struct ExceptionDef {
    pub name: String,
    pub is_public: bool,
    pub fields: Vec<(Option<String>, Type)>,
}

/// One imported name, with the name it gets here.
#[derive(Debug, PartialEq)]
pub struct ImportItem {
    pub name: String,
    pub alias: Option<String>,
}

/// An import of another module.
#[derive(Debug, PartialEq)]
pub struct Import {
    pub path: String,
    pub alias: Option<String>,
    pub items: Vec<ImportItem>,
    pub is_external: bool,
}

/// A coeffect interface.
#[derive(Debug, PartialEq)]
pub struct Port {
    pub name: String,
    pub is_public: bool,
    pub functions: Vec<FunctionSignature>,
}

/// The signature of one operation of a `Port`.
#[derive(Debug, PartialEq)]
pub struct FunctionSignature {
    pub name: String,
    pub params: Vec<Param>,
    pub ret_type: Type,
    pub requires: Type,
    pub throws: Type,
}

/// A top-level binding.
#[derive(Debug, PartialEq)]
pub struct GlobalLet {
    pub name: String,
    pub is_public: bool,
    pub typ: Option<Type>,
    pub value: Spanned<Expr>,
}

/// A top-level definition.
#[derive(Debug, PartialEq)]
pub enum TopLevel {
    TypeDef(TypeDef),
    Enum(EnumDef),
    Exception(ExceptionDef),
    Import(Import),
    Port(Port),
    Let(GlobalLet),
}

/// A whole source file.
#[derive(Debug, PartialEq)]
pub struct Program {
    pub definitions: Vec<Spanned<TopLevel>>,
}

// ---------------------------------------------------------------------------
// Models
// ---------------------------------------------------------------------------

/// The model of a parameter.
pub struct ParamV {
    pub name: Text,
    pub sigil: Sigil,
    pub typ: TypeV,
}

/// The model of a pattern.
pub enum PatternV {
    Literal(LiteralV),
    Variable(Text, Sigil),
    Constructor(Text, Seq<(Option<Text>, Spanned<PatternV>)>),
    Record(Seq<(Text, Spanned<PatternV>)>, bool),
    Wildcard,
}

/// The model of a match case.
pub struct MatchCaseV {
    pub pattern: Spanned<PatternV>,
    pub body: Seq<Spanned<StmtV>>,
}

/// The model of an expression.
pub enum ExprV {
    Literal(LiteralV),
    Variable(Text, Sigil),
    BinaryOp(Box<Spanned<ExprV>>, BinaryOp, Box<Spanned<ExprV>>),
    Borrow(Text, Sigil),
    Call { func: Text, args: Seq<(Text, Spanned<ExprV>)> },
    Constructor(Text, Seq<(Option<Text>, Spanned<ExprV>)>),
    Record(Seq<(Text, Spanned<ExprV>)>),
    Array(Seq<Spanned<ExprV>>),
    List(Seq<Spanned<ExprV>>),
    Index(Box<Spanned<ExprV>>, Box<Spanned<ExprV>>),
    FieldAccess(Box<Spanned<ExprV>>, Text),
    If {
        cond: Box<Spanned<ExprV>>,
        then_branch: Seq<Spanned<StmtV>>,
        else_branch: Option<Seq<Spanned<StmtV>>>,
    },
    Match { target: Box<Spanned<ExprV>>, cases: Seq<MatchCaseV> },
    While { cond: Box<Spanned<ExprV>>, body: Seq<Spanned<StmtV>> },
    For {
        var: Text,
        start: Box<Spanned<ExprV>>,
        end_expr: Box<Spanned<ExprV>>,
        body: Seq<Spanned<StmtV>>,
    },
    Lambda {
        type_params: Seq<Text>,
        params: Seq<ParamV>,
        ret_type: TypeV,
        requires: TypeV,
        throws: TypeV,
        body: Seq<Spanned<StmtV>>,
    },
    Raise(Box<Spanned<ExprV>>),
    External(Text, Seq<Text>, TypeV),
    Handler { coeffect_name: Text, requires: TypeV, functions: Seq<FunctionV> },
}

/// The model of a statement.
pub enum StmtV {
    Let { name: Text, sigil: Sigil, typ: Option<TypeV>, value: Spanned<ExprV> },
    LetPattern { pattern: Spanned<PatternV>, value: Spanned<ExprV> },
    Expr(Spanned<ExprV>),
    Return(Spanned<ExprV>),
    Assign { target: Spanned<ExprV>, value: Spanned<ExprV> },
    Conc(Seq<FunctionV>),
    Try { body: Seq<Spanned<StmtV>>, catch_param: Text, catch_body: Seq<Spanned<StmtV>> },
    Inject { handlers: Seq<Text>, body: Seq<Spanned<StmtV>> },
}

/// The model of a function.
pub struct FunctionV {
    pub name: Text,
    pub is_public: bool,
    pub type_params: Seq<Text>,
    pub params: Seq<ParamV>,
    pub ret_type: TypeV,
    pub requires: TypeV,
    pub throws: TypeV,
    pub body: Seq<Spanned<StmtV>>,
}

/// The model of a record type definition.
pub struct TypeDefV {
    pub name: Text,
    pub is_public: bool,
    pub type_params: Seq<Text>,
    pub fields: Seq<(Text, TypeV)>,
}

/// The model of a constructor.
pub struct VariantDefV {
    pub name: Text,
    pub fields: Seq<(Option<Text>, TypeV)>,
}

/// The model of a sum type.
pub struct EnumDefV {
    pub name: Text,
    pub is_public: bool,
    pub is_opaque: bool,
    pub type_params: Seq<Text>,
    pub variants: Seq<VariantDefV>,
}

/// The model of an exception constructor.
pub struct ExceptionDefV {
    pub name: Text,
    pub is_public: bool,
    pub fields: Seq<(Option<Text>, TypeV)>,
}

/// The model of an imported name.
pub struct ImportItemV {
    pub name: Text,
    pub alias: Option<Text>,
}

/// The model of an import.
pub struct ImportV {
    pub path: Text,
    pub alias: Option<Text>,
    pub items: Seq<ImportItemV>,
    pub is_external: bool,
}

/// The model of a port.
pub struct PortV {
    pub name: Text,
    pub is_public: bool,
    pub functions: Seq<SignatureV>,
}

/// The model of a signature.
pub struct SignatureV {
    pub name: Text,
    pub params: Seq<ParamV>,
    pub ret_type: TypeV,
    pub requires: TypeV,
    pub throws: TypeV,
}

/// The model of a top-level binding.
pub struct GlobalLetV {
    pub name: Text,
    pub is_public: bool,
    pub typ: Option<TypeV>,
    pub value: Spanned<ExprV>,
}

/// The model of a top-level definition.
pub enum TopLevelV {
    TypeDef(TypeDefV),
    Enum(EnumDefV),
    Exception(ExceptionDefV),
    Import(ImportV),
    Port(PortV),
    Let(GlobalLetV),
}

/// The model of a source file.
pub struct ProgramV {
    pub definitions: Seq<Spanned<TopLevelV>>,
}

/// The model of an optional type.
pub open spec fn opt_type(o: Option<Type>) -> Option<TypeV> {
    match o {
        Some(t) => Some(t@),
        None => None,
    }
}

/// The models of a list of optionally labelled types.
pub open spec fn ctor_fields(v: Seq<(Option<String>, Type)>) -> Seq<(Option<Text>, TypeV)> {
    v.map_values(|f: (Option<String>, Type)| (types::opt_text(f.0), f.1@))
}

impl Param {
    /// The model of this parameter.
    pub open spec fn view(&self) -> ParamV {
        ParamV { name: self.name@, sigil: self.sigil, typ: self.typ@ }
    }
}

/// The models of a list of parameters.
pub open spec fn params_view(v: Seq<Param>) -> Seq<ParamV> {
    v.map_values(|p: Param| p@)
}

impl Spanned<Pattern> {
    /// The model of this pattern.
    pub open spec fn view(&self) -> Spanned<PatternV> {
        Spanned { node: self.node.view(), span: self.span }
    }
}

impl Pattern {
    /// The model of this pattern.
    pub open spec fn view(&self) -> PatternV
        decreases self,
    {
        match self {
            Pattern::Literal(l) => PatternV::Literal(l@),
            Pattern::Variable(n, s) => PatternV::Variable(n@, *s),
            Pattern::Constructor(n, args) => PatternV::Constructor(n@, ctor_pats_view(args@)),
            Pattern::Record(fs, open) => PatternV::Record(record_pats_view(fs@), *open),
            Pattern::Wildcard => PatternV::Wildcard,
        }
    }
}

/// The models of the arguments of a constructor pattern.
pub open spec fn ctor_pats_view(v: Seq<(Option<String>, Spanned<Pattern>)>) -> Seq<(Option<Text>, Spanned<PatternV>)>
    decreases v,
{
    Seq::new(
        v.len(),
        |i: int|
            if 0 <= i < v.len() {
                (types::opt_text(v[i].0), Spanned { node: v[i].1.node.view(), span: v[i].1.span })
            } else {
                arbitrary()
            },
    )
}

/// The models of the fields of a record pattern.
pub open spec fn record_pats_view(v: Seq<(String, Spanned<Pattern>)>) -> Seq<(Text, Spanned<PatternV>)>
    decreases v,
{
    Seq::new(
        v.len(),
        |i: int|
            if 0 <= i < v.len() {
                (v[i].0@, Spanned { node: v[i].1.node.view(), span: v[i].1.span })
            } else {
                arbitrary()
            },
    )
}

impl Spanned<Expr> {
    /// The model of this expression.
    pub open spec fn view(&self) -> Spanned<ExprV> {
        Spanned { node: self.node.view(), span: self.span }
    }
}

impl Expr {
    /// The model of this expression.
    pub open spec fn view(&self) -> ExprV
        decreases self,
    {
        match self {
            Expr::Literal(l) => ExprV::Literal(l@),
            Expr::Variable(n, s) => ExprV::Variable(n@, *s),
            Expr::BinaryOp(l, op, r) => ExprV::BinaryOp(
                Box::new(Spanned { node: l.node.view(), span: l.span }),
                *op,
                Box::new(Spanned { node: r.node.view(), span: r.span }),
            ),
            Expr::Borrow(n, s) => ExprV::Borrow(n@, *s),
            Expr::Call { func, args } => ExprV::Call { func: func@, args: labelled_view(args@) },
            Expr::Constructor(n, args) => ExprV::Constructor(n@, ctor_args_view(args@)),
            Expr::Record(fs) => ExprV::Record(labelled_view(fs@)),
            Expr::Array(es) => ExprV::Array(exprs_view(es@)),
            Expr::List(es) => ExprV::List(exprs_view(es@)),
            Expr::Index(a, i) => ExprV::Index(Box::new(Spanned { node: a.node.view(), span: a.span }), Box::new(Spanned { node: i.node.view(), span: i.span })),
            Expr::FieldAccess(e, n) => ExprV::FieldAccess(Box::new(Spanned { node: e.node.view(), span: e.span }), n@),
            Expr::If { cond, then_branch, else_branch } => ExprV::If {
                cond: Box::new(Spanned { node: cond.node.view(), span: cond.span }),
                then_branch: stmts_view(then_branch@),
                else_branch: match else_branch {
                    Some(b) => Some(stmts_view(b@)),
                    None => None,
                },
            },
            Expr::Match { target, cases } => ExprV::Match {
                target: Box::new(Spanned { node: target.node.view(), span: target.span }),
                cases: cases_view(cases@),
            },
            Expr::While { cond, body } => ExprV::While {
                cond: Box::new(Spanned { node: cond.node.view(), span: cond.span }),
                body: stmts_view(body@),
            },
            Expr::For { var, start, end_expr, body } => ExprV::For {
                var: var@,
                start: Box::new(Spanned { node: start.node.view(), span: start.span }),
                end_expr: Box::new(Spanned { node: end_expr.node.view(), span: end_expr.span }),
                body: stmts_view(body@),
            },
            Expr::Lambda { type_params, params, ret_type, requires: reqs, throws, body } => {
                ExprV::Lambda {
                    type_params: text::texts(type_params@),
                    params: params_view(params@),
                    ret_type: ret_type@,
                    requires: reqs@,
                    throws: throws@,
                    body: stmts_view(body@),
                }
            },
            Expr::Raise(e) => ExprV::Raise(Box::new(Spanned { node: e.node.view(), span: e.span })),
            Expr::External(s, ps, t) => ExprV::External(s@, text::texts(ps@), t@),
            Expr::Handler { coeffect_name, requires: reqs, functions } => ExprV::Handler {
                coeffect_name: coeffect_name@,
                requires: reqs@,
                functions: functions_view(functions@),
            },
        }
    }
}

impl Spanned<Stmt> {
    /// The model of this statement.
    pub open spec fn view(&self) -> Spanned<StmtV> {
        Spanned { node: self.node.view(), span: self.span }
    }
}

impl Stmt {
    /// The model of this statement.
    pub open spec fn view(&self) -> StmtV
        decreases self,
    {
        match self {
            Stmt::Let { name, sigil, typ, value } => StmtV::Let {
                name: name@,
                sigil: *sigil,
                typ: opt_type(*typ),
                value: Spanned { node: value.node.view(), span: value.span },
            },
            Stmt::LetPattern { pattern, value } => StmtV::LetPattern {
                pattern: pattern@,
                value: Spanned { node: value.node.view(), span: value.span },
            },
            Stmt::Expr(e) => StmtV::Expr(Spanned { node: e.node.view(), span: e.span }),
            Stmt::Return(e) => StmtV::Return(Spanned { node: e.node.view(), span: e.span }),
            Stmt::Assign { target, value } => StmtV::Assign {
                target: Spanned { node: target.node.view(), span: target.span },
                value: Spanned { node: value.node.view(), span: value.span },
            },
            Stmt::Conc(ts) => StmtV::Conc(functions_view(ts@)),
            Stmt::Try { body, catch_param, catch_body } => StmtV::Try {
                body: stmts_view(body@),
                catch_param: catch_param@,
                catch_body: stmts_view(catch_body@),
            },
            Stmt::Inject { handlers, body } => StmtV::Inject {
                handlers: text::texts(handlers@),
                body: stmts_view(body@),
            },
        }
    }
}

impl MatchCase {
    /// The model of this case.
    pub open spec fn view(&self) -> MatchCaseV {
        MatchCaseV { pattern: self.pattern@, body: stmts_view(self.body@) }
    }
}

impl Function {
    /// The model of this function.
    pub open spec fn view(&self) -> FunctionV {
        FunctionV {
            name: self.name@,
            is_public: self.is_public,
            type_params: text::texts(self.type_params@),
            params: params_view(self.params@),
            ret_type: self.ret_type@,
            requires: self.requires@,
            throws: self.throws@,
            body: stmts_view(self.body@),
        }
    }
}

/// The models of a list of labelled expressions.
pub open spec fn labelled_view(v: Seq<(String, Spanned<Expr>)>) -> Seq<(Text, Spanned<ExprV>)>
    decreases v,
{
    Seq::new(
        v.len(),
        |i: int|
            if 0 <= i < v.len() {
                (v[i].0@, Spanned { node: v[i].1.node.view(), span: v[i].1.span })
            } else {
                arbitrary()
            },
    )
}

/// The models of the arguments of a constructor.
pub open spec fn ctor_args_view(v: Seq<(Option<String>, Spanned<Expr>)>) -> Seq<(Option<Text>, Spanned<ExprV>)>
    decreases v,
{
    Seq::new(
        v.len(),
        |i: int|
            if 0 <= i < v.len() {
                (types::opt_text(v[i].0), Spanned { node: v[i].1.node.view(), span: v[i].1.span })
            } else {
                arbitrary()
            },
    )
}

/// The models of a list of expressions.
pub open spec fn exprs_view(v: Seq<Spanned<Expr>>) -> Seq<Spanned<ExprV>>
    decreases v,
{
    Seq::new(
        v.len(),
        |i: int|
            if 0 <= i < v.len() {
                Spanned { node: v[i].node.view(), span: v[i].span }
            } else {
                arbitrary()
            },
    )
}

/// The models of a list of statements.
pub open spec fn stmts_view(v: Seq<Spanned<Stmt>>) -> Seq<Spanned<StmtV>>
    decreases v,
{
    Seq::new(
        v.len(),
        |i: int|
            if 0 <= i < v.len() {
                Spanned { node: v[i].node.view(), span: v[i].span }
            } else {
                arbitrary()
            },
    )
}

/// The models of a list of cases.
pub open spec fn cases_view(v: Seq<MatchCase>) -> Seq<MatchCaseV>
    decreases v,
{
    Seq::new(
        v.len(),
        |i: int|
            if 0 <= i < v.len() {
                MatchCaseV { pattern: v[i].pattern@, body: stmts_view(v[i].body@) }
            } else {
                arbitrary()
            },
    )
}

/// The models of a list of functions.
pub open spec fn functions_view(v: Seq<Function>) -> Seq<FunctionV>
    decreases v,
{
    Seq::new(
        v.len(),
        |i: int|
            if 0 <= i < v.len() {
                FunctionV {
                    name: v[i].name@,
                    is_public: v[i].is_public,
                    type_params: text::texts(v[i].type_params@),
                    params: params_view(v[i].params@),
                    ret_type: v[i].ret_type@,
                    requires: v[i].requires@,
                    throws: v[i].throws@,
                    body: stmts_view(v[i].body@),
                }
            } else {
                arbitrary()
            },
    )
}

impl TypeDef {
    /// The model of this definition.
    pub open spec fn view(&self) -> TypeDefV {
        TypeDefV {
            name: self.name@,
            is_public: self.is_public,
            type_params: text::texts(self.type_params@),
            fields: types::fields_view(self.fields@),
        }
    }
}

impl VariantDef {
    /// The model of this constructor.
    pub open spec fn view(&self) -> VariantDefV {
        VariantDefV { name: self.name@, fields: ctor_fields(self.fields@) }
    }
}

/// The models of a list of constructors.
pub open spec fn variants_view(v: Seq<VariantDef>) -> Seq<VariantDefV> {
    v.map_values(|d: VariantDef| d@)
}

impl EnumDef {
    /// The model of this definition.
    pub open spec fn view(&self) -> EnumDefV {
        EnumDefV {
            name: self.name@,
            is_public: self.is_public,
            is_opaque: self.is_opaque,
            type_params: text::texts(self.type_params@),
            variants: variants_view(self.variants@),
        }
    }
}

impl ExceptionDef {
    /// The model of this definition.
    pub open spec fn view(&self) -> ExceptionDefV {
        ExceptionDefV {
            name: self.name@,
            is_public: self.is_public,
            fields: ctor_fields(self.fields@),
        }
    }
}

impl ImportItem {
    /// The model of this item.
    pub open spec fn view(&self) -> ImportItemV {
        ImportItemV { name: self.name@, alias: types::opt_text(self.alias) }
    }
}

impl Import {
    /// The model of this import.
    pub open spec fn view(&self) -> ImportV {
        ImportV {
            path: self.path@,
            alias: types::opt_text(self.alias),
            items: self.items@.map_values(|i: ImportItem| i@),
            is_external: self.is_external,
        }
    }
}

impl FunctionSignature {
    /// The model of this signature.
    pub open spec fn view(&self) -> SignatureV {
        SignatureV {
            name: self.name@,
            params: params_view(self.params@),
            ret_type: self.ret_type@,
            requires: self.requires@,
            throws: self.throws@,
        }
    }
}

impl Port {
    /// The model of this interface.
    pub open spec fn view(&self) -> PortV {
        PortV {
            name: self.name@,
            is_public: self.is_public,
            functions: self.functions@.map_values(|f: FunctionSignature| f@),
        }
    }
}

impl GlobalLet {
    /// The model of this binding.
    pub open spec fn view(&self) -> GlobalLetV {
        GlobalLetV {
            name: self.name@,
            is_public: self.is_public,
            typ: opt_type(self.typ),
            value: self.value@,
        }
    }
}

impl TopLevel {
    /// The model of this definition.
    pub open spec fn view(&self) -> TopLevelV {
        match self {
            TopLevel::TypeDef(d) => TopLevelV::TypeDef(d@),
            TopLevel::Enum(d) => TopLevelV::Enum(d@),
            TopLevel::Exception(d) => TopLevelV::Exception(d@),
            TopLevel::Import(d) => TopLevelV::Import(d@),
            TopLevel::Port(d) => TopLevelV::Port(d@),
            TopLevel::Let(d) => TopLevelV::Let(d@),
        }
    }
}

impl Spanned<TopLevel> {
    /// The model of this definition.
    pub open spec fn view(&self) -> Spanned<TopLevelV> {
        Spanned { node: self.node@, span: self.span }
    }
}

/// The models of a list of definitions.
pub open spec fn definitions_view(v: Seq<Spanned<TopLevel>>) -> Seq<Spanned<TopLevelV>> {
    v.map_values(|d: Spanned<TopLevel>| d@)
}

impl Program {
    /// The model of this program.
    pub open spec fn view(&self) -> ProgramV {
        ProgramV { definitions: definitions_view(self.definitions@) }
    }
}

} // verus!
