//! The outer bindings that a lambda captures.

use crate::ast;
use crate::ast::{
    Expr, ExprV, Function, FunctionV, MatchCase, MatchCaseV, Param, ParamV, Pattern, PatternV,
    Stmt, StmtV,
};
use crate::text;
use crate::text::{Text, contains_char, copy_texts, list_add, list_has, owned};
use crate::types::{Sigil, Spanned};
use vstd::prelude::*;

verus! {

/// The names bound so far inside a lambda: as variables by key, and as functions by name.
pub struct Bound {
    pub keys: Vec<String>,
    pub calls: Vec<String>,
}

/// The model of the names bound so far.
pub struct BoundV {
    pub keys: Seq<Text>,
    pub calls: Seq<Text>,
}

impl Bound {
    /// The model of these names.
    pub open spec fn view(&self) -> BoundV {
        BoundV { keys: text::texts(self.keys@), calls: text::texts(self.calls@) }
    }

    fn new() -> (r: Bound)
        ensures
            r@ == nothing_bound(),
    {
        let r = Bound { keys: Vec::new(), calls: Vec::new() };
        assert(text::texts(r.keys@) =~= Seq::<Text>::empty());
        assert(text::texts(r.calls@) =~= Seq::<Text>::empty());
        r
    }

    fn copy(&self) -> (r: Bound)
        ensures
            r@ == self@,
    {
        Bound { keys: copy_texts(&self.keys), calls: copy_texts(&self.calls) }
    }
}

/// No names bound.
pub open spec fn nothing_bound() -> BoundV {
    BoundV { keys: Seq::empty(), calls: Seq::empty() }
}

/// A name bound with a sigil. Only an immutable binding can be called.
pub open spec fn bound_name(b: BoundV, name: Text, sigil: Sigil) -> BoundV {
    BoundV {
        keys: text::with_text(b.keys, sigil.key(name)),
        calls: if sigil == Sigil::Immutable {
            text::with_text(b.calls, name)
        } else {
            b.calls
        },
    }
}

/// The parameters from index `i` on bound.
pub open spec fn bound_param_names(b: BoundV, params: Seq<ParamV>, i: nat) -> BoundV
    decreases params.len() - i,
{
    if i >= params.len() {
        b
    } else {
        bound_param_names(
            bound_name(b, params[i as int].name, params[i as int].sigil),
            params,
            i + 1,
        )
    }
}

/// The variables of a pattern bound.
pub open spec fn bound_pattern(b: BoundV, p: PatternV) -> BoundV
    decreases p, 0nat,
{
    match p {
        PatternV::Variable(name, sigil) => bound_name(b, name, sigil),
        PatternV::Constructor(_, args) => bound_ctor_args(b, args, 0),
        PatternV::Record(fields, _) => bound_record_fields(b, fields, 0),
        _ => b,
    }
}

/// The variables of the argument patterns from index `i` on bound.
pub open spec fn bound_ctor_args(
    b: BoundV,
    args: Seq<(Option<Text>, Spanned<PatternV>)>,
    i: nat,
) -> BoundV
    decreases args, args.len() - i,
{
    if i >= args.len() {
        b
    } else {
        bound_ctor_args(bound_pattern(b, args[i as int].1.node), args, i + 1)
    }
}

/// The variables of the field patterns from index `i` on bound.
pub open spec fn bound_record_fields(
    b: BoundV,
    fields: Seq<(Text, Spanned<PatternV>)>,
    i: nat,
) -> BoundV
    decreases fields, fields.len() - i,
{
    if i >= fields.len() {
        b
    } else {
        bound_record_fields(bound_pattern(b, fields[i as int].1.node), fields, i + 1)
    }
}

/// What is bound after a statement.
pub open spec fn bound_by_stmt(b: BoundV, s: StmtV) -> BoundV {
    match s {
        StmtV::Let { name, sigil, typ: _, value: _ } => bound_name(b, name, sigil),
        StmtV::LetPattern { pattern, value: _ } => bound_pattern(b, pattern.node),
        _ => b,
    }
}

/// `caps` extended by a key, if it is an outer one that is not bound inside.
pub open spec fn captured_key(caps: Seq<Text>, outer: Seq<Text>, bound: Seq<Text>, key: Text) -> Seq<
    Text,
> {
    if text::has_text(outer, key) && !text::has_text(bound, key) {
        text::with_text(caps, key)
    } else {
        caps
    }
}

/// `caps` extended by what the statements from index `i` on capture.
pub open spec fn stmts_captures(
    ss: Seq<Spanned<StmtV>>,
    i: nat,
    outer: Seq<Text>,
    b: BoundV,
    caps: Seq<Text>,
) -> Seq<Text>
    decreases ss, ss.len() - i,
{
    if i >= ss.len() {
        caps
    } else {
        stmts_captures(
            ss,
            i + 1,
            outer,
            bound_by_stmt(b, ss[i as int].node),
            stmt_captures(ss[i as int].node, outer, b, caps),
        )
    }
}

/// `caps` extended by what a statement captures.
pub open spec fn stmt_captures(s: StmtV, outer: Seq<Text>, b: BoundV, caps: Seq<Text>) -> Seq<Text>
    decreases s, 0nat,
{
    match s {
        StmtV::Let { name: _, sigil: _, typ: _, value } => expr_captures(
            value.node,
            outer,
            b,
            caps,
        ),
        StmtV::LetPattern { pattern: _, value } => expr_captures(value.node, outer, b, caps),
        StmtV::Expr(e) => expr_captures(e.node, outer, b, caps),
        StmtV::Return(e) => expr_captures(e.node, outer, b, caps),
        StmtV::Assign { target, value } => expr_captures(
            value.node,
            outer,
            b,
            expr_captures(target.node, outer, b, caps),
        ),
        StmtV::Conc(tasks) => functions_captures(tasks, 0, outer, caps),
        StmtV::Try { body, catch_param, catch_body } => stmts_captures(
            catch_body,
            0,
            outer,
            bound_name(b, catch_param, Sigil::Immutable),
            stmts_captures(body, 0, outer, b, caps),
        ),
        StmtV::Inject { handlers: _, body } => stmts_captures(body, 0, outer, b, caps),
    }
}

/// `caps` extended by what the functions from index `i` on capture; inside a function only
/// its own parameters are bound.
pub open spec fn functions_captures(
    fs: Seq<FunctionV>,
    i: nat,
    outer: Seq<Text>,
    caps: Seq<Text>,
) -> Seq<Text>
    decreases fs, fs.len() - i,
{
    if i >= fs.len() {
        caps
    } else {
        functions_captures(
            fs,
            i + 1,
            outer,
            stmts_captures(
                fs[i as int].body,
                0,
                outer,
                bound_param_names(nothing_bound(), fs[i as int].params, 0),
                caps,
            ),
        )
    }
}

/// `caps` extended by what an expression captures.
pub open spec fn expr_captures(e: ExprV, outer: Seq<Text>, b: BoundV, caps: Seq<Text>) -> Seq<Text>
    decreases e, 0nat,
{
    match e {
        ExprV::Literal(_) => caps,
        ExprV::Variable(name, sigil) => captured_key(caps, outer, b.keys, sigil.key(name)),
        ExprV::Borrow(name, sigil) => captured_key(caps, outer, b.keys, sigil.key(name)),
        ExprV::BinaryOp(l, _, r) => expr_captures(
            r.node,
            outer,
            b,
            expr_captures(l.node, outer, b, caps),
        ),
        ExprV::Index(l, r) => expr_captures(
            r.node,
            outer,
            b,
            expr_captures(l.node, outer, b, caps),
        ),
        ExprV::Call { func, args } => labelled_captures(
            args,
            0,
            outer,
            b,
            if !func.contains('.') {
                captured_key(caps, outer, b.calls, func)
            } else {
                caps
            },
        ),
        ExprV::Constructor(_, args) => ctor_args_captures(args, 0, outer, b, caps),
        ExprV::Array(es) => exprs_captures(es, 0, outer, b, caps),
        ExprV::List(es) => exprs_captures(es, 0, outer, b, caps),
        ExprV::Record(fs) => labelled_captures(fs, 0, outer, b, caps),
        ExprV::FieldAccess(r, _) => expr_captures(r.node, outer, b, caps),
        ExprV::Raise(r) => expr_captures(r.node, outer, b, caps),
        ExprV::If { cond, then_branch, else_branch } => {
            let c1 = expr_captures(cond.node, outer, b, caps);
            let c2 = stmts_captures(then_branch, 0, outer, b, c1);
            match else_branch {
                Some(eb) => stmts_captures(eb, 0, outer, b, c2),
                None => c2,
            }
        },
        ExprV::Match { target, cases } => cases_captures(
            cases,
            0,
            outer,
            b,
            expr_captures(target.node, outer, b, caps),
        ),
        ExprV::Lambda { type_params: _, params, ret_type: _, requires: _, throws: _, body } => {
            stmts_captures(body, 0, outer, bound_param_names(b, params, 0), caps)
        },
        ExprV::While { cond, body } => stmts_captures(
            body,
            0,
            outer,
            b,
            expr_captures(cond.node, outer, b, caps),
        ),
        ExprV::For { var, start, end_expr, body } => {
            let c1 = expr_captures(start.node, outer, b, caps);
            let c2 = expr_captures(end_expr.node, outer, b, c1);
            stmts_captures(
                body,
                0,
                outer,
                BoundV { keys: text::with_text(b.keys, var), calls: b.calls },
                c2,
            )
        },
        ExprV::External(_, _, _) => caps,
        ExprV::Handler { coeffect_name: _, requires: _, functions } => functions_captures(
            functions,
            0,
            outer,
            caps,
        ),
    }
}

/// `caps` extended by what the labelled expressions from index `i` on capture.
pub open spec fn labelled_captures(
    es: Seq<(Text, Spanned<ExprV>)>,
    i: nat,
    outer: Seq<Text>,
    b: BoundV,
    caps: Seq<Text>,
) -> Seq<Text>
    decreases es, es.len() - i,
{
    if i >= es.len() {
        caps
    } else {
        labelled_captures(es, i + 1, outer, b, expr_captures(es[i as int].1.node, outer, b, caps))
    }
}

/// `caps` extended by what the constructor arguments from index `i` on capture.
pub open spec fn ctor_args_captures(
    es: Seq<(Option<Text>, Spanned<ExprV>)>,
    i: nat,
    outer: Seq<Text>,
    b: BoundV,
    caps: Seq<Text>,
) -> Seq<Text>
    decreases es, es.len() - i,
{
    if i >= es.len() {
        caps
    } else {
        ctor_args_captures(es, i + 1, outer, b, expr_captures(es[i as int].1.node, outer, b, caps))
    }
}

/// `caps` extended by what the expressions from index `i` on capture.
pub open spec fn exprs_captures(
    es: Seq<Spanned<ExprV>>,
    i: nat,
    outer: Seq<Text>,
    b: BoundV,
    caps: Seq<Text>,
) -> Seq<Text>
    decreases es, es.len() - i,
{
    if i >= es.len() {
        caps
    } else {
        exprs_captures(es, i + 1, outer, b, expr_captures(es[i as int].node, outer, b, caps))
    }
}

/// `caps` extended by what the cases from index `i` on capture.
pub open spec fn cases_captures(
    cs: Seq<MatchCaseV>,
    i: nat,
    outer: Seq<Text>,
    b: BoundV,
    caps: Seq<Text>,
) -> Seq<Text>
    decreases cs, cs.len() - i,
{
    if i >= cs.len() {
        caps
    } else {
        cases_captures(
            cs,
            i + 1,
            outer,
            b,
            stmts_captures(
                cs[i as int].body,
                0,
                outer,
                bound_pattern(b, cs[i as int].pattern.node),
                caps,
            ),
        )
    }
}

/// The outer bindings that a lambda captures.
pub open spec fn lambda_captures(
    body: Seq<Spanned<StmtV>>,
    params: Seq<ParamV>,
    outer: Seq<Text>,
) -> Seq<Text> {
    stmts_captures(body, 0, outer, bound_param_names(nothing_bound(), params, 0), Seq::empty())
}

/// Whether a lambda refers to a name from outside.
pub open spec fn lambda_refers(body: Seq<Spanned<StmtV>>, params: Seq<ParamV>, name: Text) -> bool {
    text::has_text(lambda_captures(body, params, seq![name]), name)
}

fn register_bound_name(b: &mut Bound, name: &str, sigil: &Sigil)
    ensures
        final(b)@ == bound_name(old(b)@, name@, *sigil),
{
    list_add(&mut b.keys, sigil.get_key(name));
    if *sigil == Sigil::Immutable {
        list_add(&mut b.calls, owned(name));
    }
}

fn register_params(b: &mut Bound, params: &Vec<Param>)
    ensures
        final(b)@ == bound_param_names(old(b)@, ast::params_view(params@), 0),
{
    let mut i: usize = 0;
    while i < params.len()
        invariant
            i <= params.len(),
            bound_param_names(b@, ast::params_view(params@), i as nat) == bound_param_names(
                old(b)@,
                ast::params_view(params@),
                0,
            ),
        decreases params.len() - i,
    {
        assert(ast::params_view(params@)[i as int] == params@[i as int]@);
        register_bound_name(b, params[i].name.as_str(), &params[i].sigil);
        i = i + 1;
    }
}

fn bind_pattern_names(p: &Pattern, b: &mut Bound)
    ensures
        final(b)@ == bound_pattern(old(b)@, p@),
    decreases p,
{
    match p {
        Pattern::Variable(name, sigil) => register_bound_name(b, name.as_str(), sigil),
        Pattern::Constructor(_, args) => bind_ctor_arg_names(args, b),
        Pattern::Record(fields, _) => bind_record_field_names(fields, b),
        Pattern::Literal(_) => {},
        Pattern::Wildcard => {},
    }
}

fn bind_ctor_arg_names(args: &Vec<(Option<String>, Spanned<Pattern>)>, b: &mut Bound)
    ensures
        final(b)@ == bound_ctor_args(old(b)@, ast::ctor_pats_view(args@), 0),
    decreases args,
{
    let mut i: usize = 0;
    while i < args.len()
        invariant
            i <= args.len(),
            bound_ctor_args(b@, ast::ctor_pats_view(args@), i as nat) == bound_ctor_args(
                old(b)@,
                ast::ctor_pats_view(args@),
                0,
            ),
        decreases args.len() - i,
    {
        bind_pattern_names(&args[i].1.node, b);
        i = i + 1;
    }
}

fn bind_record_field_names(fields: &Vec<(String, Spanned<Pattern>)>, b: &mut Bound)
    ensures
        final(b)@ == bound_record_fields(old(b)@, ast::record_pats_view(fields@), 0),
    decreases fields,
{
    let mut i: usize = 0;
    while i < fields.len()
        invariant
            i <= fields.len(),
            bound_record_fields(b@, ast::record_pats_view(fields@), i as nat) == bound_record_fields(
                old(b)@,
                ast::record_pats_view(fields@),
                0,
            ),
        decreases fields.len() - i,
    {
        bind_pattern_names(&fields[i].1.node, b);
        i = i + 1;
    }
}

fn bind_stmt_names(s: &Stmt, b: &mut Bound)
    ensures
        final(b)@ == bound_by_stmt(old(b)@, s@),
{
    match s {
        Stmt::Let { name, sigil, typ: _, value: _ } => register_bound_name(b, name.as_str(), sigil),
        Stmt::LetPattern { pattern, value: _ } => bind_pattern_names(&pattern.node, b),
        _ => {},
    }
}

fn capture_key(captures: &mut Vec<String>, outer: &Vec<String>, bound: &Vec<String>, key: String)
    ensures
        text::texts(final(captures)@) == captured_key(
            text::texts(old(captures)@),
            text::texts(outer@),
            text::texts(bound@),
            key@,
        ),
{
    if list_has(outer, key.as_str()) && !list_has(bound, key.as_str()) {
        list_add(captures, key);
    }
}

fn collect_stmt_captures(
    stmts: &Vec<Spanned<Stmt>>,
    outer: &Vec<String>,
    bound: &Bound,
    captures: &mut Vec<String>,
)
    ensures
        text::texts(final(captures)@) == stmts_captures(
            ast::stmts_view(stmts@),
            0,
            text::texts(outer@),
            bound@,
            text::texts(old(captures)@),
        ),
    decreases stmts,
{
    let ghost all = stmts_captures(
        ast::stmts_view(stmts@),
        0,
        text::texts(outer@),
        bound@,
        text::texts(captures@),
    );
    let mut local = bound.copy();
    let mut i: usize = 0;
    while i < stmts.len()
        invariant
            i <= stmts.len(),
            stmts_captures(
                ast::stmts_view(stmts@),
                i as nat,
                text::texts(outer@),
                local@,
                text::texts(captures@),
            ) == all,
        decreases stmts.len() - i,
    {
        let s = &stmts[i].node;
        collect_one_stmt_captures(s, outer, &local, captures);
        bind_stmt_names(s, &mut local);
        i = i + 1;
    }
}

fn collect_one_stmt_captures(
    s: &Stmt,
    outer: &Vec<String>,
    bound: &Bound,
    captures: &mut Vec<String>,
)
    ensures
        text::texts(final(captures)@) == stmt_captures(
            s@,
            text::texts(outer@),
            bound@,
            text::texts(old(captures)@),
        ),
    decreases s,
{
    match s {
        Stmt::Let { name: _, sigil: _, typ: _, value } => collect_expr_captures(
            &value.node,
            outer,
            bound,
            captures,
        ),
        Stmt::LetPattern { pattern: _, value } => collect_expr_captures(
            &value.node,
            outer,
            bound,
            captures,
        ),
        Stmt::Expr(e) => collect_expr_captures(&e.node, outer, bound, captures),
        Stmt::Return(e) => collect_expr_captures(&e.node, outer, bound, captures),
        Stmt::Assign { target, value } => {
            collect_expr_captures(&target.node, outer, bound, captures);
            collect_expr_captures(&value.node, outer, bound, captures);
        },
        Stmt::Conc(tasks) => collect_function_captures(tasks, outer, captures),
        Stmt::Try { body, catch_param, catch_body } => {
            collect_stmt_captures(body, outer, bound, captures);
            let mut catch_bound = bound.copy();
            register_bound_name(&mut catch_bound, catch_param.as_str(), &Sigil::Immutable);
            collect_stmt_captures(catch_body, outer, &catch_bound, captures);
        },
        Stmt::Inject { handlers: _, body } => collect_stmt_captures(body, outer, bound, captures),
    }
}

fn collect_function_captures(
    functions: &Vec<Function>,
    outer: &Vec<String>,
    captures: &mut Vec<String>,
)
    ensures
        text::texts(final(captures)@) == functions_captures(
            ast::functions_view(functions@),
            0,
            text::texts(outer@),
            text::texts(old(captures)@),
        ),
    decreases functions,
{
    let mut i: usize = 0;
    while i < functions.len()
        invariant
            i <= functions.len(),
            functions_captures(
                ast::functions_view(functions@),
                i as nat,
                text::texts(outer@),
                text::texts(captures@),
            ) == functions_captures(
                ast::functions_view(functions@),
                0,
                text::texts(outer@),
                text::texts(old(captures)@),
            ),
        decreases functions.len() - i,
    {
        let f = &functions[i];
        let mut fb = Bound::new();
        register_params(&mut fb, &f.params);
        collect_stmt_captures(&f.body, outer, &fb, captures);
        i = i + 1;
    }
}

fn collect_expr_captures(
    e: &Expr,
    outer: &Vec<String>,
    bound: &Bound,
    captures: &mut Vec<String>,
)
    ensures
        text::texts(final(captures)@) == expr_captures(
            e@,
            text::texts(outer@),
            bound@,
            text::texts(old(captures)@),
        ),
    decreases e,
{
    match e {
        Expr::Literal(_) => {},
        Expr::Variable(name, sigil) => capture_key(
            captures,
            outer,
            &bound.keys,
            sigil.get_key(name.as_str()),
        ),
        Expr::Borrow(name, sigil) => capture_key(
            captures,
            outer,
            &bound.keys,
            sigil.get_key(name.as_str()),
        ),
        Expr::BinaryOp(l, _, r) => {
            collect_expr_captures(&l.node, outer, bound, captures);
            collect_expr_captures(&r.node, outer, bound, captures);
        },
        Expr::Index(l, r) => {
            collect_expr_captures(&l.node, outer, bound, captures);
            collect_expr_captures(&r.node, outer, bound, captures);
        },
        Expr::Call { func, args } => {
            if !contains_char(func.as_str(), '.') {
                capture_key(captures, outer, &bound.calls, func.clone());
            }
            collect_labelled_captures(args, outer, bound, captures);
        },
        Expr::Constructor(_, args) => collect_ctor_arg_captures(args, outer, bound, captures),
        Expr::Array(es) => collect_exprs_captures(es, outer, bound, captures),
        Expr::List(es) => collect_exprs_captures(es, outer, bound, captures),
        Expr::Record(fs) => collect_labelled_captures(fs, outer, bound, captures),
        Expr::FieldAccess(r, _) => collect_expr_captures(&r.node, outer, bound, captures),
        Expr::Raise(r) => collect_expr_captures(&r.node, outer, bound, captures),
        Expr::If { cond, then_branch, else_branch } => {
            collect_expr_captures(&cond.node, outer, bound, captures);
            collect_stmt_captures(then_branch, outer, bound, captures);
            match else_branch {
                Some(eb) => collect_stmt_captures(eb, outer, bound, captures),
                None => {},
            }
        },
        Expr::Match { target, cases } => {
            collect_expr_captures(&target.node, outer, bound, captures);
            collect_case_captures(cases, outer, bound, captures);
        },
        Expr::Lambda { type_params: _, params, ret_type: _, requires: _, throws: _, body } => {
            let mut nested = bound.copy();
            register_params(&mut nested, params);
            collect_stmt_captures(body, outer, &nested, captures);
        },
        Expr::While { cond, body } => {
            collect_expr_captures(&cond.node, outer, bound, captures);
            collect_stmt_captures(body, outer, bound, captures);
        },
        Expr::For { var, start, end_expr, body } => {
            collect_expr_captures(&start.node, outer, bound, captures);
            collect_expr_captures(&end_expr.node, outer, bound, captures);
            let mut for_bound = bound.copy();
            list_add(&mut for_bound.keys, var.clone());
            collect_stmt_captures(body, outer, &for_bound, captures);
        },
        Expr::External(_, _, _) => {},
        Expr::Handler { coeffect_name: _, requires: _, functions } => collect_function_captures(
            functions,
            outer,
            captures,
        ),
    }
}

fn collect_labelled_captures(
    es: &Vec<(String, Spanned<Expr>)>,
    outer: &Vec<String>,
    bound: &Bound,
    captures: &mut Vec<String>,
)
    ensures
        text::texts(final(captures)@) == labelled_captures(
            ast::labelled_view(es@),
            0,
            text::texts(outer@),
            bound@,
            text::texts(old(captures)@),
        ),
    decreases es,
{
    let mut i: usize = 0;
    while i < es.len()
        invariant
            i <= es.len(),
            labelled_captures(
                ast::labelled_view(es@),
                i as nat,
                text::texts(outer@),
                bound@,
                text::texts(captures@),
            ) == labelled_captures(
                ast::labelled_view(es@),
                0,
                text::texts(outer@),
                bound@,
                text::texts(old(captures)@),
            ),
        decreases es.len() - i,
    {
        collect_expr_captures(&es[i].1.node, outer, bound, captures);
        i = i + 1;
    }
}

fn collect_ctor_arg_captures(
    es: &Vec<(Option<String>, Spanned<Expr>)>,
    outer: &Vec<String>,
    bound: &Bound,
    captures: &mut Vec<String>,
)
    ensures
        text::texts(final(captures)@) == ctor_args_captures(
            ast::ctor_args_view(es@),
            0,
            text::texts(outer@),
            bound@,
            text::texts(old(captures)@),
        ),
    decreases es,
{
    let mut i: usize = 0;
    while i < es.len()
        invariant
            i <= es.len(),
            ctor_args_captures(
                ast::ctor_args_view(es@),
                i as nat,
                text::texts(outer@),
                bound@,
                text::texts(captures@),
            ) == ctor_args_captures(
                ast::ctor_args_view(es@),
                0,
                text::texts(outer@),
                bound@,
                text::texts(old(captures)@),
            ),
        decreases es.len() - i,
    {
        collect_expr_captures(&es[i].1.node, outer, bound, captures);
        i = i + 1;
    }
}

fn collect_exprs_captures(
    es: &Vec<Spanned<Expr>>,
    outer: &Vec<String>,
    bound: &Bound,
    captures: &mut Vec<String>,
)
    ensures
        text::texts(final(captures)@) == exprs_captures(
            ast::exprs_view(es@),
            0,
            text::texts(outer@),
            bound@,
            text::texts(old(captures)@),
        ),
    decreases es,
{
    let mut i: usize = 0;
    while i < es.len()
        invariant
            i <= es.len(),
            exprs_captures(
                ast::exprs_view(es@),
                i as nat,
                text::texts(outer@),
                bound@,
                text::texts(captures@),
            ) == exprs_captures(
                ast::exprs_view(es@),
                0,
                text::texts(outer@),
                bound@,
                text::texts(old(captures)@),
            ),
        decreases es.len() - i,
    {
        collect_expr_captures(&es[i].node, outer, bound, captures);
        i = i + 1;
    }
}

fn collect_case_captures(
    cases: &Vec<MatchCase>,
    outer: &Vec<String>,
    bound: &Bound,
    captures: &mut Vec<String>,
)
    ensures
        text::texts(final(captures)@) == cases_captures(
            ast::cases_view(cases@),
            0,
            text::texts(outer@),
            bound@,
            text::texts(old(captures)@),
        ),
    decreases cases,
{
    let mut i: usize = 0;
    while i < cases.len()
        invariant
            i <= cases.len(),
            cases_captures(
                ast::cases_view(cases@),
                i as nat,
                text::texts(outer@),
                bound@,
                text::texts(captures@),
            ) == cases_captures(
                ast::cases_view(cases@),
                0,
                text::texts(outer@),
                bound@,
                text::texts(old(captures)@),
            ),
        decreases cases.len() - i,
    {
        let c = &cases[i];
        let mut case_bound = bound.copy();
        bind_pattern_names(&c.pattern.node, &mut case_bound);
        collect_stmt_captures(&c.body, outer, &case_bound, captures);
        i = i + 1;
    }
}

/// The outer bindings that a lambda captures.
pub fn collect_lambda_captures(
    body: &Vec<Spanned<Stmt>>,
    params: &Vec<Param>,
    outer_keys: &Vec<String>,
) -> (r: Vec<String>)
    ensures
        text::texts(r@) == lambda_captures(ast::stmts_view(body@), ast::params_view(params@), text::texts(outer_keys@)),
{
    let mut bound = Bound::new();
    register_params(&mut bound, params);
    let mut captures: Vec<String> = Vec::new();
    assert(text::texts(captures@) =~= Seq::<Text>::empty());
    collect_stmt_captures(body, outer_keys, &bound, &mut captures);
    captures
}

/// Whether a lambda refers to a name from outside.
pub fn lambda_references_name(body: &Vec<Spanned<Stmt>>, params: &Vec<Param>, name: &str) -> (r:
    bool)
    ensures
        r == lambda_refers(ast::stmts_view(body@), ast::params_view(params@), name@),
{
    let mut outer: Vec<String> = Vec::new();
    outer.push(owned(name));
    assert(text::texts(outer@) =~= seq![name@]);
    let captures = collect_lambda_captures(body, params, &outer);
    list_has(&captures, name)
}

} // verus!
