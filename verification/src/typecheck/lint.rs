//! Signature checks and lint warnings.

use crate::ast;
use crate::ast::{
    Expr, ExprV, Function, FunctionV, MatchCase, MatchCaseV, Program, Stmt, StmtV, TopLevel,
    TopLevelV,
};
use crate::table;
use crate::text;
use crate::text::{
    Text, cat2, cat3, cat4, cat5, contains_char, join, list_add, list_difference, list_extend,
    list_has, list_remove, owned, sort_texts, split_once, starts_with, starts_with_char, str_eq,
};
use crate::typecheck::env;
use crate::typecheck::env::{
    EnvV, Scheme, SchemeV, TypeEnv, TypeError, TypeErrorV, TypeWarning, TypeWarningV, find_enum,
    find_module, find_scheme, find_typedef,
};
use crate::typecheck::helpers;
use crate::typecheck::helpers::{as_bare_name, extract_row_port_names};
use crate::types;
use crate::types::{Sigil, Span, Spanned, Type, TypeV};
use vstd::prelude::*;

verus! {

// ---------------------------------------------------------------------------
// Private types in public signatures
// ---------------------------------------------------------------------------

/// Whether a name is that of a private definition.
pub open spec fn private_name(env: EnvV, name: Text) -> bool {
    (match table::lookup(env.types, name) {
        Some(td) => !td.is_public,
        None => false,
    }) || (match table::lookup(env.enums, name) {
        Some(ed) => !ed.is_public,
        None => false,
    })
}

/// The first of two findings that is there.
pub open spec fn first_of(a: Option<Text>, b: Option<Text>) -> Option<Text> {
    match a {
        Some(x) => Some(x),
        None => b,
    }
}

/// The first private type that a type names.
pub open spec fn private_type(env: EnvV, t: TypeV) -> Option<Text>
    decreases t, 0nat,
{
    match t {
        TypeV::UserDefined(name, args) => {
            if private_name(env, name) {
                Some(name)
            } else {
                private_type_list(env, args, 0)
            }
        },
        TypeV::Arrow(p, r, q, e) => first_of(
            private_type_fields(env, p, 0),
            first_of(
                private_type(env, *r),
                first_of(private_type(env, *q), private_type(env, *e)),
            ),
        ),
        TypeV::Ref(i) => private_type(env, *i),
        TypeV::Linear(i) => private_type(env, *i),
        TypeV::Borrow(i) => private_type(env, *i),
        TypeV::Array(i) => private_type(env, *i),
        TypeV::Row(es, tail) => first_of(
            private_type_list(env, es, 0),
            match tail {
                Some(x) => private_type(env, *x),
                None => None,
            },
        ),
        TypeV::Record(fs) => private_type_fields(env, fs, 0),
        _ => None,
    }
}

/// The first private type that the types from index `i` on name.
pub open spec fn private_type_list(env: EnvV, ts: Seq<TypeV>, i: nat) -> Option<Text>
    decreases ts, ts.len() - i,
{
    if i >= ts.len() {
        None
    } else {
        first_of(private_type(env, ts[i as int]), private_type_list(env, ts, i + 1))
    }
}

/// The first private type that the labelled types from index `i` on name.
pub open spec fn private_type_fields(env: EnvV, fs: Seq<(Text, TypeV)>, i: nat) -> Option<Text>
    decreases fs, fs.len() - i,
{
    if i >= fs.len() {
        None
    } else {
        first_of(private_type(env, fs[i as int].1), private_type_fields(env, fs, i + 1))
    }
}

fn is_private_name(env: &TypeEnv, name: &str) -> (r: bool)
    ensures
        r == private_name(env@, name@),
{
    (match find_typedef(&env.types, name) {
        Some(td) => !td.is_public,
        None => false,
    }) || (match find_enum(&env.enums, name) {
        Some(ed) => !ed.is_public,
        None => false,
    })
}

/// Finds the first private type that a type names.
pub fn find_private_type_in_public_signature(typ: &Type, env: &TypeEnv) -> (r: Option<String>)
    ensures
        types::opt_text(r) == private_type(env@, typ@),
    decreases typ,
{
    match typ {
        Type::UserDefined(name, args) => {
            if is_private_name(env, name.as_str()) {
                Some(name.clone())
            } else {
                find_private_in_list(args, env)
            }
        },
        Type::Arrow(p, r, q, e) => {
            let a = find_private_in_fields(p, env);
            if a.is_some() {
                return a;
            }
            let b = find_private_type_in_public_signature(r, env);
            if b.is_some() {
                return b;
            }
            let c = find_private_type_in_public_signature(q, env);
            if c.is_some() {
                return c;
            }
            find_private_type_in_public_signature(e, env)
        },
        Type::Ref(i) => find_private_type_in_public_signature(i, env),
        Type::Linear(i) => find_private_type_in_public_signature(i, env),
        Type::Borrow(i) => find_private_type_in_public_signature(i, env),
        Type::Array(i) => find_private_type_in_public_signature(i, env),
        Type::Row(es, tail) => {
            let a = find_private_in_list(es, env);
            if a.is_some() {
                return a;
            }
            match tail {
                Some(x) => find_private_type_in_public_signature(x, env),
                None => None,
            }
        },
        Type::Record(fs) => find_private_in_fields(fs, env),
        _ => None,
    }
}

fn find_private_in_list(ts: &Vec<Type>, env: &TypeEnv) -> (r: Option<String>)
    ensures
        types::opt_text(r) == private_type_list(env@, types::types_view(ts@), 0),
    decreases ts,
{
    let mut i: usize = 0;
    while i < ts.len()
        invariant
            i <= ts.len(),
            private_type_list(env@, types::types_view(ts@), 0) == private_type_list(
                env@,
                types::types_view(ts@),
                i as nat,
            ),
        decreases ts.len() - i,
    {
        let a = find_private_type_in_public_signature(&ts[i], env);
        if a.is_some() {
            return a;
        }
        i = i + 1;
    }
    None
}

fn find_private_in_fields(fs: &Vec<(String, Type)>, env: &TypeEnv) -> (r: Option<String>)
    ensures
        types::opt_text(r) == private_type_fields(env@, types::fields_view(fs@), 0),
    decreases fs,
{
    let mut i: usize = 0;
    while i < fs.len()
        invariant
            i <= fs.len(),
            private_type_fields(env@, types::fields_view(fs@), 0) == private_type_fields(
                env@,
                types::fields_view(fs@),
                i as nat,
            ),
        decreases fs.len() - i,
    {
        let a = find_private_type_in_public_signature(&fs[i].1, env);
        if a.is_some() {
            return a;
        }
        i = i + 1;
    }
    None
}

// ---------------------------------------------------------------------------
// Coeffects and effects that a body needs
// ---------------------------------------------------------------------------

/// The coeffects and effects that code needs, and whether more may be needed.
pub struct Needs {
    pub reqs: Vec<String>,
    pub effs: Vec<String>,
    pub unknown: bool,
}

/// The model of what code needs.
pub struct NeedsV {
    pub reqs: Seq<Text>,
    pub effs: Seq<Text>,
    pub unknown: bool,
}

impl Needs {
    /// The model of these needs.
    pub open spec fn view(&self) -> NeedsV {
        NeedsV { reqs: text::texts(self.reqs@), effs: text::texts(self.effs@), unknown: self.unknown }
    }

    fn new() -> (r: Needs)
        ensures
            r@ == no_needs(),
    {
        let r = Needs { reqs: Vec::new(), effs: Vec::new(), unknown: false };
        assert(text::texts(r.reqs@) =~= Seq::<Text>::empty());
        assert(text::texts(r.effs@) =~= Seq::<Text>::empty());
        r
    }

    fn merge(&mut self, other: &Needs)
        ensures
            final(self)@ == merged_needs(old(self)@, other@),
    {
        list_extend(&mut self.reqs, &other.reqs);
        list_extend(&mut self.effs, &other.effs);
        self.unknown = self.unknown || other.unknown;
    }
}

/// Nothing needed.
pub open spec fn no_needs() -> NeedsV {
    NeedsV { reqs: Seq::empty(), effs: Seq::empty(), unknown: false }
}

/// What two pieces of code need together.
pub open spec fn merged_needs(a: NeedsV, b: NeedsV) -> NeedsV {
    NeedsV {
        reqs: text::union_texts(a.reqs, b.reqs),
        effs: text::union_texts(a.effs, b.effs),
        unknown: a.unknown || b.unknown,
    }
}

/// `names` extended by the bare names among the types from index `i` on, and whether there are
/// other types.
pub open spec fn named_members(
    names: Seq<Text>,
    unknown: bool,
    ts: Seq<TypeV>,
    i: nat,
) -> (Seq<Text>, bool)
    decreases ts.len() - i,
{
    if i >= ts.len() {
        (names, unknown)
    } else {
        match helpers::bare_name(ts[i as int]) {
            Some(n) => named_members(text::with_text(names, n), unknown, ts, i + 1),
            None => named_members(names, true, ts, i + 1),
        }
    }
}

/// The names of the members of a row, and whether it may have other members.
pub open spec fn row_names(row: TypeV) -> (Seq<Text>, bool) {
    match row {
        TypeV::Unit => (Seq::empty(), false),
        TypeV::Row(items, tail) => named_members(Seq::empty(), tail is Some, items, 0),
        _ => (Seq::empty(), true),
    }
}

/// The names of the members of a row, and whether it may have other members.
pub fn extract_named_row_members(row: &Type) -> (r: (Vec<String>, bool))
    ensures
        (text::texts(r.0@), r.1) == row_names(row@),
{
    let names: Vec<String> = Vec::new();
    assert(text::texts(names@) =~= Seq::<Text>::empty());
    match row {
        Type::Unit => (names, false),
        Type::Row(items, tail) => named_row_members(items, tail.is_some()),
        _ => (names, true),
    }
}

fn named_row_members(items: &Vec<Type>, open: bool) -> (r: (Vec<String>, bool))
    ensures
        (text::texts(r.0@), r.1) == named_members(Seq::empty(), open, types::types_view(items@), 0),
{
    let mut names: Vec<String> = Vec::new();
    assert(text::texts(names@) =~= Seq::<Text>::empty());
    let mut unknown = open;
    let mut i: usize = 0;
    while i < items.len()
        invariant
            i <= items.len(),
            named_members(text::texts(names@), unknown, types::types_view(items@), i as nat) == named_members(
                Seq::empty(),
                open,
                types::types_view(items@),
                0,
            ),
        decreases items.len() - i,
    {
        match as_bare_name(&items[i]) {
            Some(n) => list_add(&mut names, n.clone()),
            None => {
                unknown = true;
            },
        }
        i = i + 1;
    }
    (names, unknown)
}

/// The scheme of a called function: in the environment's own table, or in that of a module.
pub open spec fn called_scheme(env: EnvV, func: Text) -> Option<SchemeV> {
    match table::lookup(env.vars, func) {
        Some(s) => Some(s),
        None => match text::split_at_char(func, '.') {
            Some((m, item)) => match table::lookup(env.modules, m) {
                Some(me) => table::lookup(me.vars, item),
                None => None,
            },
            None => None,
        },
    }
}

/// The requirement and effect rows of an arrow, or of a linear arrow.
pub open spec fn arrow_rows(t: TypeV) -> Option<(TypeV, TypeV)> {
    match t {
        TypeV::Arrow(_, _, q, e) => Some((*q, *e)),
        TypeV::Linear(i) => match *i {
            TypeV::Arrow(_, _, q, e) => Some((*q, *e)),
            _ => None,
        },
        _ => None,
    }
}

/// What a call of a function needs, if its signature is known.
pub open spec fn call_needs(env: EnvV, func: Text) -> Option<NeedsV> {
    match called_scheme(env, func) {
        Some(s) => match arrow_rows(s.typ) {
            Some((q, e)) => Some(
                NeedsV {
                    reqs: row_names(q).0,
                    effs: row_names(e).0,
                    unknown: row_names(q).1 || row_names(e).1,
                },
            ),
            None => None,
        },
        None => None,
    }
}

/// `acc` extended by what a call of a function needs.
pub open spec fn with_call(acc: NeedsV, env: EnvV, func: Text) -> NeedsV {
    match call_needs(env, func) {
        Some(n) => merged_needs(acc, n),
        None => NeedsV { unknown: true, ..acc },
    }
}

fn rows_needs(q: &Type, e: &Type) -> (r: Needs)
    ensures
        r@ == (NeedsV {
            reqs: row_names(q@).0,
            effs: row_names(e@).0,
            unknown: row_names(q@).1 || row_names(e@).1,
        }),
{
    let (reqs, a) = extract_named_row_members(q);
    let (effs, b) = extract_named_row_members(e);
    Needs { reqs, effs, unknown: a || b }
}

fn find_called_scheme<'a>(env: &'a TypeEnv, func: &str) -> (r: Option<&'a Scheme>)
    ensures
        match r {
            Some(s) => called_scheme(env@, func@) == Some(s@),
            None => called_scheme(env@, func@) is None,
        },
{
    match find_scheme(&env.vars, func) {
        Some(s) => Some(s),
        None => match split_once(func, '.') {
            Some((m, item)) => match find_module(&env.modules, m.as_str()) {
                Some(me) => {
                    assert(me@.vars == env::schemes_view(me.vars@));
                    find_scheme(&me.vars, item.as_str())
                },
                None => None,
            },
            None => None,
        },
    }
}

fn lookup_call_signature(func: &str, env: &TypeEnv) -> (r: Option<Needs>)
    ensures
        match r {
            Some(n) => call_needs(env@, func@) == Some(n@),
            None => call_needs(env@, func@) is None,
        },
{
    match find_called_scheme(env, func) {
        Some(s) => match &s.typ {
            Type::Arrow(_, _, q, e) => Some(rows_needs(q, e)),
            Type::Linear(i) => {
                let inner: &Type = &**i;
                assert(s.typ@ == TypeV::Linear(Box::new(inner@)));
                match inner {
                    Type::Arrow(_, _, q, e) => Some(rows_needs(q, e)),
                    _ => None,
                }
            },
            _ => None,
        },
        None => None,
    }
}

fn add_call(acc: &mut Needs, env: &TypeEnv, func: &str)
    ensures
        final(acc)@ == with_call(old(acc)@, env@, func@),
{
    match lookup_call_signature(func, env) {
        Some(n) => acc.merge(&n),
        None => {
            acc.unknown = true;
        },
    }
}

/// What the handlers from index `i` on bring into scope: the coeffects they handle, those
/// they need themselves, and whether one of them is not known to be a handler.
pub open spec fn injected(
    env: EnvV,
    handlers: Seq<Text>,
    i: nat,
    ports: Seq<Text>,
    extra: Seq<Text>,
    unknown: bool,
) -> (Seq<Text>, Seq<Text>, bool)
    decreases handlers.len() - i,
{
    if i >= handlers.len() {
        (ports, extra, unknown)
    } else {
        match env::env_get(env, handlers[i as int]) {
            Some(s) => match s.typ {
                TypeV::Handler(name, q) => injected(
                    env,
                    handlers,
                    i + 1,
                    text::with_text(ports, name),
                    text::union_texts(extra, helpers::row_port_names(*q)),
                    unknown,
                ),
                _ => injected(env, handlers, i + 1, ports, extra, true),
            },
            None => injected(env, handlers, i + 1, ports, extra, true),
        }
    }
}

/// What an `inject` needs: what its body needs less what the handlers bring, and what the
/// handlers need.
pub open spec fn inject_needs(env: EnvV, handlers: Seq<Text>, body: NeedsV) -> NeedsV {
    let (ports, extra, unknown) = injected(env, handlers, 0, Seq::empty(), Seq::empty(), false);
    NeedsV {
        reqs: text::union_texts(text::difference_texts(body.reqs, ports), extra),
        effs: body.effs,
        unknown: body.unknown || unknown,
    }
}

fn reduce_needs(env: &TypeEnv, handlers: &Vec<String>, body: Needs) -> (r: Needs)
    ensures
        r@ == inject_needs(env@, text::texts(handlers@), body@),
{
    let mut ports: Vec<String> = Vec::new();
    let mut extra: Vec<String> = Vec::new();
    let mut unknown = false;
    assert(text::texts(ports@) =~= Seq::<Text>::empty());
    assert(text::texts(extra@) =~= Seq::<Text>::empty());
    let mut i: usize = 0;
    while i < handlers.len()
        invariant
            i <= handlers.len(),
            injected(env@, text::texts(handlers@), i as nat, text::texts(ports@), text::texts(extra@), unknown)
                == injected(env@, text::texts(handlers@), 0, Seq::empty(), Seq::empty(), false),
        decreases handlers.len() - i,
    {
        match env.get(handlers[i].as_str()) {
            Some(s) => match &s.typ {
                Type::Handler(name, q) => {
                    list_add(&mut ports, name.clone());
                    let names = extract_row_port_names(q);
                    list_extend(&mut extra, &names);
                },
                _ => {
                    unknown = true;
                },
            },
            None => {
                unknown = true;
            },
        }
        i = i + 1;
    }
    let mut reqs = list_difference(&body.reqs, &ports);
    list_extend(&mut reqs, &extra);
    Needs { reqs, effs: body.effs, unknown: body.unknown || unknown }
}

fn handle_exn(body: Needs) -> (r: Needs)
    ensures
        r@ == (NeedsV { effs: text::without_text(body@.effs, helpers::exn_name()), ..body@ }),
{
    let mut n = body;
    list_remove(&mut n.effs, "Exn");
    n
}

/// `acc` extended by the coeffects and effects that an expression needs. Closures and handlers are
/// definitions, and need nothing by themselves.
pub open spec fn needs_expr(e: ExprV, env: EnvV, acc: NeedsV) -> NeedsV
    decreases e, 0nat,
{
    match e {
        ExprV::Literal(_) => {
            acc
        },
        ExprV::Variable(_, _) => {
            acc
        },
        ExprV::Borrow(_, _) => {
            acc
        },
        ExprV::BinaryOp(l, _, r) => {
            needs_expr(r.node, env, needs_expr(l.node, env, acc))
        },
        ExprV::Index(l, r) => {
            needs_expr(r.node, env, needs_expr(l.node, env, acc))
        },
        ExprV::Call { func, args } => {
            with_call(needs_labelled(args, 0, env, acc), env, func)
        },
        ExprV::Constructor(_, args) => {
            needs_ctor_args(args, 0, env, acc)
        },
        ExprV::Record(fs) => {
            needs_labelled(fs, 0, env, acc)
        },
        ExprV::Array(es) => {
            needs_exprs(es, 0, env, acc)
        },
        ExprV::List(es) => {
            needs_exprs(es, 0, env, acc)
        },
        ExprV::FieldAccess(x, _) => {
            needs_expr(x.node, env, acc)
        },
        ExprV::Raise(x) => {
            let n = needs_expr(x.node, env, acc);
            NeedsV { effs: text::with_text(n.effs, helpers::exn_name()), ..n }
        },
        ExprV::If { cond, then_branch, else_branch } => {
            let before = needs_stmts(then_branch, 0, env, needs_expr(cond.node, env, acc));
            match else_branch {
                Some(b) => needs_stmts(b, 0, env, before),
                None => before,
            }
        },
        ExprV::Match { target, cases } => {
            needs_cases(cases, 0, env, needs_expr(target.node, env, acc))
        },
        ExprV::While { cond, body } => {
            needs_stmts(body, 0, env, needs_expr(cond.node, env, acc))
        },
        ExprV::For { var: _, start, end_expr, body } => {
            needs_stmts(body, 0, env, needs_expr(end_expr.node, env, needs_expr(start.node, env, acc)))
        },
        ExprV::Lambda { type_params: _, params: _, ret_type: _, requires: _, throws: _, body: _ } => acc,
        ExprV::External(_, _, _) => {
            acc
        },
        ExprV::Handler { coeffect_name: _, requires: _, functions: _ } => acc,
    }
}

/// `acc` extended by what a statement needs.
pub open spec fn needs_stmt(s: Spanned<StmtV>, env: EnvV, acc: NeedsV) -> NeedsV
    decreases s, 0nat,
{
    match s.node {
        StmtV::Let { name: _, sigil: _, typ: _, value } => {
            needs_expr(value.node, env, acc)
        },
        StmtV::LetPattern { pattern: _, value } => {
            needs_expr(value.node, env, acc)
        },
        StmtV::Expr(value) => {
            needs_expr(value.node, env, acc)
        },
        StmtV::Return(value) => {
            needs_expr(value.node, env, acc)
        },
        StmtV::Assign { target, value } => {
            needs_expr(value.node, env, needs_expr(target.node, env, acc))
        },
        StmtV::Conc(tasks) => {
            needs_functions(tasks, 0, env, acc)
        },
        StmtV::Try { body, catch_param: _, catch_body } => {
            let b = needs_stmts(body, 0, env, no_needs());
            let c = needs_stmts(catch_body, 0, env, no_needs());
            merged_needs(
                merged_needs(acc, NeedsV { effs: text::without_text(b.effs, helpers::exn_name()), ..b }),
                c,
            )
        },
        StmtV::Inject { handlers, body } => {
            merged_needs(
                acc,
                inject_needs(env, handlers, needs_stmts(body, 0, env, no_needs())),
            )
        },
    }
}

/// `needs_expr` over the statements from index `i` on.
pub open spec fn needs_stmts(xs: Seq<Spanned<StmtV>>, i: nat, env: EnvV, acc: NeedsV) -> NeedsV
    decreases xs, xs.len() - i,
{
    if i >= xs.len() {
        acc
    } else {
        needs_stmts(xs, i + 1, env, needs_stmt(xs[i as int], env, acc))
    }
}

/// `needs_expr` over the expressions from index `i` on.
pub open spec fn needs_exprs(xs: Seq<Spanned<ExprV>>, i: nat, env: EnvV, acc: NeedsV) -> NeedsV
    decreases xs, xs.len() - i,
{
    if i >= xs.len() {
        acc
    } else {
        needs_exprs(xs, i + 1, env, needs_expr(xs[i as int].node, env, acc))
    }
}

/// `needs_expr` over the labelled expressions from index `i` on.
pub open spec fn needs_labelled(xs: Seq<(Text, Spanned<ExprV>)>, i: nat, env: EnvV, acc: NeedsV) -> NeedsV
    decreases xs, xs.len() - i,
{
    if i >= xs.len() {
        acc
    } else {
        needs_labelled(xs, i + 1, env, needs_expr(xs[i as int].1.node, env, acc))
    }
}

/// `needs_expr` over the constructor arguments from index `i` on.
pub open spec fn needs_ctor_args(xs: Seq<(Option<Text>, Spanned<ExprV>)>, i: nat, env: EnvV, acc: NeedsV) -> NeedsV
    decreases xs, xs.len() - i,
{
    if i >= xs.len() {
        acc
    } else {
        needs_ctor_args(xs, i + 1, env, needs_expr(xs[i as int].1.node, env, acc))
    }
}

/// `needs_expr` over the bodies of the cases from index `i` on.
pub open spec fn needs_cases(xs: Seq<MatchCaseV>, i: nat, env: EnvV, acc: NeedsV) -> NeedsV
    decreases xs, xs.len() - i,
{
    if i >= xs.len() {
        acc
    } else {
        needs_cases(xs, i + 1, env, needs_stmts(xs[i as int].body, 0, env, acc))
    }
}

/// `needs_expr` over the bodies of the functions from index `i` on.
pub open spec fn needs_functions(xs: Seq<FunctionV>, i: nat, env: EnvV, acc: NeedsV) -> NeedsV
    decreases xs, xs.len() - i,
{
    if i >= xs.len() {
        acc
    } else {
        needs_functions(xs, i + 1, env, needs_stmts(xs[i as int].body, 0, env, acc))
    }
}

fn needs_of_expr(e: &Expr, env: &TypeEnv, acc: &mut Needs)
    ensures
        final(acc)@ == needs_expr(e@, env@, old(acc)@),
    decreases e, 0nat,
{
    match e {
        Expr::Literal(_) => {},
        Expr::Variable(_, _) => {},
        Expr::Borrow(_, _) => {},
        Expr::BinaryOp(l, _, r) => {
            needs_of_expr(&l.node, env, acc);
            needs_of_expr(&r.node, env, acc);
        },
        Expr::Index(l, r) => {
            needs_of_expr(&l.node, env, acc);
            needs_of_expr(&r.node, env, acc);
        },
        Expr::Call { func, args } => {
            needs_of_labelled(args, env, acc);
            add_call(acc, env, func.as_str());
        },
        Expr::Constructor(_, args) => {
            needs_of_ctor_args(args, env, acc);
        },
        Expr::Record(fs) => {
            needs_of_labelled(fs, env, acc);
        },
        Expr::Array(es) => {
            needs_of_exprs(es, env, acc);
        },
        Expr::List(es) => {
            needs_of_exprs(es, env, acc);
        },
        Expr::FieldAccess(x, _) => {
            needs_of_expr(&x.node, env, acc);
        },
        Expr::Raise(x) => {
            needs_of_expr(&x.node, env, acc);
            list_add(&mut acc.effs, owned("Exn"));
        },
        Expr::If { cond, then_branch, else_branch } => {
            needs_of_expr(&cond.node, env, acc);
            needs_of_stmts(then_branch, env, acc);
            match else_branch {
                Some(b) => needs_of_stmts(b, env, acc),
                None => {},
            }
        },
        Expr::Match { target, cases } => {
            needs_of_expr(&target.node, env, acc);
            needs_of_cases(cases, env, acc);
        },
        Expr::While { cond, body } => {
            needs_of_expr(&cond.node, env, acc);
            needs_of_stmts(body, env, acc);
        },
        Expr::For { var: _, start, end_expr, body } => {
            needs_of_expr(&start.node, env, acc);
            needs_of_expr(&end_expr.node, env, acc);
            needs_of_stmts(body, env, acc);
        },
        Expr::Lambda { type_params: _, params: _, ret_type: _, requires: _, throws: _, body: _ } => {},
        Expr::External(_, _, _) => {},
        Expr::Handler { coeffect_name: _, requires: _, functions: _ } => {},
    }
}

fn needs_of_stmt(s: &Spanned<Stmt>, env: &TypeEnv, acc: &mut Needs)
    ensures
        final(acc)@ == needs_stmt(s@, env@, old(acc)@),
    decreases s, 0nat,
{
    match &s.node {
        Stmt::Let { name: _, sigil: _, typ: _, value } => {
            needs_of_expr(&value.node, env, acc);
        },
        Stmt::LetPattern { pattern: _, value } => {
            needs_of_expr(&value.node, env, acc);
        },
        Stmt::Expr(value) => {
            needs_of_expr(&value.node, env, acc);
        },
        Stmt::Return(value) => {
            needs_of_expr(&value.node, env, acc);
        },
        Stmt::Assign { target, value } => {
            needs_of_expr(&target.node, env, acc);
            needs_of_expr(&value.node, env, acc);
        },
        Stmt::Conc(tasks) => {
            needs_of_functions(tasks, env, acc);
        },
        Stmt::Try { body, catch_param: _, catch_body } => {
            let mut b = Needs::new();
            needs_of_stmts(body, env, &mut b);
            let mut c = Needs::new();
            needs_of_stmts(catch_body, env, &mut c);
            let b = handle_exn(b);
            acc.merge(&b);
            acc.merge(&c);
        },
        Stmt::Inject { handlers, body } => {
            let mut b = Needs::new();
            needs_of_stmts(body, env, &mut b);
            let n = reduce_needs(env, handlers, b);
            acc.merge(&n);
        },
    }
}

fn needs_of_stmts(xs: &Vec<Spanned<Stmt>>, env: &TypeEnv, acc: &mut Needs)
    ensures
        final(acc)@ == needs_stmts(ast::stmts_view(xs@), 0, env@, old(acc)@),
    decreases xs, 0nat,
{
    let mut i: usize = 0;
    while i < xs.len()
        invariant
            i <= xs.len(),
            needs_stmts(ast::stmts_view(xs@), i as nat, env@, acc@) == needs_stmts(ast::stmts_view(xs@), 0, env@, old(acc)@),
        decreases xs.len() - i,
    {
        needs_of_stmt(&xs[i], env, acc);
        i = i + 1;
    }
}

fn needs_of_exprs(xs: &Vec<Spanned<Expr>>, env: &TypeEnv, acc: &mut Needs)
    ensures
        final(acc)@ == needs_exprs(ast::exprs_view(xs@), 0, env@, old(acc)@),
    decreases xs, 0nat,
{
    let mut i: usize = 0;
    while i < xs.len()
        invariant
            i <= xs.len(),
            needs_exprs(ast::exprs_view(xs@), i as nat, env@, acc@) == needs_exprs(ast::exprs_view(xs@), 0, env@, old(acc)@),
        decreases xs.len() - i,
    {
        needs_of_expr(&xs[i].node, env, acc);
        i = i + 1;
    }
}

fn needs_of_labelled(xs: &Vec<(String, Spanned<Expr>)>, env: &TypeEnv, acc: &mut Needs)
    ensures
        final(acc)@ == needs_labelled(ast::labelled_view(xs@), 0, env@, old(acc)@),
    decreases xs, 0nat,
{
    let mut i: usize = 0;
    while i < xs.len()
        invariant
            i <= xs.len(),
            needs_labelled(ast::labelled_view(xs@), i as nat, env@, acc@) == needs_labelled(ast::labelled_view(xs@), 0, env@, old(acc)@),
        decreases xs.len() - i,
    {
        needs_of_expr(&xs[i].1.node, env, acc);
        i = i + 1;
    }
}

fn needs_of_ctor_args(xs: &Vec<(Option<String>, Spanned<Expr>)>, env: &TypeEnv, acc: &mut Needs)
    ensures
        final(acc)@ == needs_ctor_args(ast::ctor_args_view(xs@), 0, env@, old(acc)@),
    decreases xs, 0nat,
{
    let mut i: usize = 0;
    while i < xs.len()
        invariant
            i <= xs.len(),
            needs_ctor_args(ast::ctor_args_view(xs@), i as nat, env@, acc@) == needs_ctor_args(ast::ctor_args_view(xs@), 0, env@, old(acc)@),
        decreases xs.len() - i,
    {
        needs_of_expr(&xs[i].1.node, env, acc);
        i = i + 1;
    }
}

fn needs_of_cases(xs: &Vec<MatchCase>, env: &TypeEnv, acc: &mut Needs)
    ensures
        final(acc)@ == needs_cases(ast::cases_view(xs@), 0, env@, old(acc)@),
    decreases xs, 0nat,
{
    let mut i: usize = 0;
    while i < xs.len()
        invariant
            i <= xs.len(),
            needs_cases(ast::cases_view(xs@), i as nat, env@, acc@) == needs_cases(ast::cases_view(xs@), 0, env@, old(acc)@),
        decreases xs.len() - i,
    {
        needs_of_stmts(&xs[i].body, env, acc);
        i = i + 1;
    }
}

fn needs_of_functions(xs: &Vec<Function>, env: &TypeEnv, acc: &mut Needs)
    ensures
        final(acc)@ == needs_functions(ast::functions_view(xs@), 0, env@, old(acc)@),
    decreases xs, 0nat,
{
    let mut i: usize = 0;
    while i < xs.len()
        invariant
            i <= xs.len(),
            needs_functions(ast::functions_view(xs@), i as nat, env@, acc@) == needs_functions(ast::functions_view(xs@), 0, env@, old(acc)@),
        decreases xs.len() - i,
    {
        needs_of_stmts(&xs[i].body, env, acc);
        i = i + 1;
    }
}

/// The coeffects and effects that a body needs.
pub open spec fn body_needs(body: Seq<Spanned<StmtV>>, env: EnvV) -> NeedsV {
    needs_stmts(body, 0, env, no_needs())
}

/// Collects the coeffects and effects that a body needs.
pub fn collect_signature_needs_from_stmts(body: &Vec<Spanned<Stmt>>, env: &TypeEnv) -> (r: Needs)
    ensures
        r@ == body_needs(ast::stmts_view(body@), env@),
{
    let mut n = Needs::new();
    needs_of_stmts(body, env, &mut n);
    n
}

// ---------------------------------------------------------------------------
// Mentions of a name
// ---------------------------------------------------------------------------

/// Whether one of the handlers from index `i` on is the name or an item of it.
pub open spec fn handler_mentions(handlers: Seq<Text>, i: nat, target: Text) -> bool
    decreases handlers.len() - i,
{
    i < handlers.len() && (handlers[i as int] == target || text::begins_with(
        handlers[i as int],
        target + "."@,
    ) || handler_mentions(handlers, i + 1, target))
}

fn handlers_mention(handlers: &Vec<String>, target: &str) -> (r: bool)
    ensures
        r == handler_mentions(text::texts(handlers@), 0, target@),
{
    let prefix = cat2(target, ".");
    let mut i: usize = 0;
    while i < handlers.len()
        invariant
            i <= handlers.len(),
            prefix@ == target@ + "."@,
            handler_mentions(text::texts(handlers@), 0, target@) == handler_mentions(
                text::texts(handlers@),
                i as nat,
                target@,
            ),
        decreases handlers.len() - i,
    {
        let h = handlers[i].as_str();
        if str_eq(h, target) || starts_with(h, prefix.as_str()) {
            return true;
        }
        i = i + 1;
    }
    false
}

/// Whether an expression mentions a name.
pub open spec fn mentions_expr(e: ExprV, target: Text) -> bool
    decreases e, 0nat,
{
    match e {
        ExprV::Literal(_) => {
            false
        },
        ExprV::Variable(name, sigil) => sigil == Sigil::Immutable && name == target,
        ExprV::Borrow(name, sigil) => sigil == Sigil::Immutable && name == target,
        ExprV::BinaryOp(l, _, r) => {
            mentions_expr(l.node, target) || mentions_expr(r.node, target)
        },
        ExprV::Index(l, r) => {
            mentions_expr(l.node, target) || mentions_expr(r.node, target)
        },
        ExprV::Call { func, args } => func == target || mentions_labelled(args, 0, target),
        ExprV::Constructor(_, args) => {
            mentions_ctor_args(args, 0, target)
        },
        ExprV::Record(fs) => {
            mentions_labelled(fs, 0, target)
        },
        ExprV::Array(es) => {
            mentions_exprs(es, 0, target)
        },
        ExprV::List(es) => {
            mentions_exprs(es, 0, target)
        },
        ExprV::FieldAccess(x, _) => {
            mentions_expr(x.node, target)
        },
        ExprV::Raise(x) => {
            mentions_expr(x.node, target)
        },
        ExprV::If { cond, then_branch, else_branch } => {
            mentions_expr(cond.node, target) || mentions_stmts(then_branch, 0, target) || match else_branch {
                Some(b) => mentions_stmts(b, 0, target),
                None => false,
            }
        },
        ExprV::Match { target: on, cases } => {
            mentions_expr(on.node, target) || mentions_cases(cases, 0, target)
        },
        ExprV::While { cond, body } => {
            mentions_expr(cond.node, target) || mentions_stmts(body, 0, target)
        },
        ExprV::For { var: _, start, end_expr, body } => {
            mentions_expr(start.node, target) || mentions_expr(end_expr.node, target) || mentions_stmts(body, 0, target)
        },
        ExprV::Lambda { type_params: _, params: _, ret_type: _, requires: _, throws: _, body } => {
            mentions_stmts(body, 0, target)
        },
        ExprV::External(_, _, _) => {
            false
        },
        ExprV::Handler { coeffect_name: _, requires: _, functions } => {
            mentions_functions(functions, 0, target)
        },
    }
}

/// Whether a statement mentions a name.
pub open spec fn mentions_stmt(s: Spanned<StmtV>, target: Text) -> bool
    decreases s, 0nat,
{
    match s.node {
        StmtV::Let { name: _, sigil: _, typ: _, value } => {
            mentions_expr(value.node, target)
        },
        StmtV::LetPattern { pattern: _, value } => {
            mentions_expr(value.node, target)
        },
        StmtV::Expr(value) => {
            mentions_expr(value.node, target)
        },
        StmtV::Return(value) => {
            mentions_expr(value.node, target)
        },
        StmtV::Assign { target: to, value } => {
            mentions_expr(to.node, target) || mentions_expr(value.node, target)
        },
        StmtV::Conc(tasks) => {
            mentions_functions(tasks, 0, target)
        },
        StmtV::Try { body, catch_param: _, catch_body } => {
            mentions_stmts(body, 0, target) || mentions_stmts(catch_body, 0, target)
        },
        StmtV::Inject { handlers, body } => {
            handler_mentions(handlers, 0, target) || mentions_stmts(body, 0, target)
        },
    }
}

/// `mentions_expr` over the statements from index `i` on.
pub open spec fn mentions_stmts(xs: Seq<Spanned<StmtV>>, i: nat, target: Text) -> bool
    decreases xs, xs.len() - i,
{
    i < xs.len() && (mentions_stmt(xs[i as int], target) || mentions_stmts(xs, i + 1, target))
}

/// `mentions_expr` over the expressions from index `i` on.
pub open spec fn mentions_exprs(xs: Seq<Spanned<ExprV>>, i: nat, target: Text) -> bool
    decreases xs, xs.len() - i,
{
    i < xs.len() && (mentions_expr(xs[i as int].node, target) || mentions_exprs(xs, i + 1, target))
}

/// `mentions_expr` over the labelled expressions from index `i` on.
pub open spec fn mentions_labelled(xs: Seq<(Text, Spanned<ExprV>)>, i: nat, target: Text) -> bool
    decreases xs, xs.len() - i,
{
    i < xs.len() && (mentions_expr(xs[i as int].1.node, target) || mentions_labelled(xs, i + 1, target))
}

/// `mentions_expr` over the constructor arguments from index `i` on.
pub open spec fn mentions_ctor_args(xs: Seq<(Option<Text>, Spanned<ExprV>)>, i: nat, target: Text) -> bool
    decreases xs, xs.len() - i,
{
    i < xs.len() && (mentions_expr(xs[i as int].1.node, target) || mentions_ctor_args(xs, i + 1, target))
}

/// `mentions_expr` over the bodies of the cases from index `i` on.
pub open spec fn mentions_cases(xs: Seq<MatchCaseV>, i: nat, target: Text) -> bool
    decreases xs, xs.len() - i,
{
    i < xs.len() && (mentions_stmts(xs[i as int].body, 0, target) || mentions_cases(xs, i + 1, target))
}

/// `mentions_expr` over the bodies of the functions from index `i` on.
pub open spec fn mentions_functions(xs: Seq<FunctionV>, i: nat, target: Text) -> bool
    decreases xs, xs.len() - i,
{
    i < xs.len() && (mentions_stmts(xs[i as int].body, 0, target) || mentions_functions(xs, i + 1, target))
}

fn mention_in_expr(e: &Expr, target: &str) -> (r: bool)
    ensures
        r == mentions_expr(e@, target@),
    decreases e, 0nat,
{
    match e {
        Expr::Literal(_) => {
            false
        },
        Expr::Variable(name, sigil) => *sigil == Sigil::Immutable && str_eq(name.as_str(), target),
        Expr::Borrow(name, sigil) => *sigil == Sigil::Immutable && str_eq(name.as_str(), target),
        Expr::BinaryOp(l, _, r) => {
            mention_in_expr(&l.node, target) || mention_in_expr(&r.node, target)
        },
        Expr::Index(l, r) => {
            mention_in_expr(&l.node, target) || mention_in_expr(&r.node, target)
        },
        Expr::Call { func, args } => {
            str_eq(func.as_str(), target) || mention_in_labelled(args, target)
        },
        Expr::Constructor(_, args) => {
            mention_in_ctor_args(args, target)
        },
        Expr::Record(fs) => {
            mention_in_labelled(fs, target)
        },
        Expr::Array(es) => {
            mention_in_exprs(es, target)
        },
        Expr::List(es) => {
            mention_in_exprs(es, target)
        },
        Expr::FieldAccess(x, _) => {
            mention_in_expr(&x.node, target)
        },
        Expr::Raise(x) => {
            mention_in_expr(&x.node, target)
        },
        Expr::If { cond, then_branch, else_branch } => {
            mention_in_expr(&cond.node, target) || mention_in_stmts(then_branch, target) || match else_branch {
                Some(b) => mention_in_stmts(b, target),
                None => false,
            }
        },
        Expr::Match { target: on, cases } => {
            mention_in_expr(&on.node, target) || mention_in_cases(cases, target)
        },
        Expr::While { cond, body } => {
            mention_in_expr(&cond.node, target) || mention_in_stmts(body, target)
        },
        Expr::For { var: _, start, end_expr, body } => {
            mention_in_expr(&start.node, target) || mention_in_expr(&end_expr.node, target) || mention_in_stmts(body, target)
        },
        Expr::Lambda { type_params: _, params: _, ret_type: _, requires: _, throws: _, body } => {
            mention_in_stmts(body, target)
        },
        Expr::External(_, _, _) => {
            false
        },
        Expr::Handler { coeffect_name: _, requires: _, functions } => {
            mention_in_functions(functions, target)
        },
    }
}

fn mention_in_stmt(s: &Spanned<Stmt>, target: &str) -> (r: bool)
    ensures
        r == mentions_stmt(s@, target@),
    decreases s, 0nat,
{
    match &s.node {
        Stmt::Let { name: _, sigil: _, typ: _, value } => {
            mention_in_expr(&value.node, target)
        },
        Stmt::LetPattern { pattern: _, value } => {
            mention_in_expr(&value.node, target)
        },
        Stmt::Expr(value) => {
            mention_in_expr(&value.node, target)
        },
        Stmt::Return(value) => {
            mention_in_expr(&value.node, target)
        },
        Stmt::Assign { target: to, value } => {
            mention_in_expr(&to.node, target) || mention_in_expr(&value.node, target)
        },
        Stmt::Conc(tasks) => {
            mention_in_functions(tasks, target)
        },
        Stmt::Try { body, catch_param: _, catch_body } => {
            mention_in_stmts(body, target) || mention_in_stmts(catch_body, target)
        },
        Stmt::Inject { handlers, body } => {
            handlers_mention(handlers, target) || mention_in_stmts(body, target)
        },
    }
}

fn mention_in_stmts(xs: &Vec<Spanned<Stmt>>, target: &str) -> (r: bool)
    ensures
        r == mentions_stmts(ast::stmts_view(xs@), 0, target@),
    decreases xs, 0nat,
{
    let mut i: usize = 0;
    while i < xs.len()
        invariant
            i <= xs.len(),
            mentions_stmts(ast::stmts_view(xs@), i as nat, target@) == mentions_stmts(ast::stmts_view(xs@), 0, target@),
        decreases xs.len() - i,
    {
        if mention_in_stmt(&xs[i], target) {
            return true;
        }
        i = i + 1;
    }
    false
}

fn mention_in_exprs(xs: &Vec<Spanned<Expr>>, target: &str) -> (r: bool)
    ensures
        r == mentions_exprs(ast::exprs_view(xs@), 0, target@),
    decreases xs, 0nat,
{
    let mut i: usize = 0;
    while i < xs.len()
        invariant
            i <= xs.len(),
            mentions_exprs(ast::exprs_view(xs@), i as nat, target@) == mentions_exprs(ast::exprs_view(xs@), 0, target@),
        decreases xs.len() - i,
    {
        if mention_in_expr(&xs[i].node, target) {
            return true;
        }
        i = i + 1;
    }
    false
}

fn mention_in_labelled(xs: &Vec<(String, Spanned<Expr>)>, target: &str) -> (r: bool)
    ensures
        r == mentions_labelled(ast::labelled_view(xs@), 0, target@),
    decreases xs, 0nat,
{
    let mut i: usize = 0;
    while i < xs.len()
        invariant
            i <= xs.len(),
            mentions_labelled(ast::labelled_view(xs@), i as nat, target@) == mentions_labelled(ast::labelled_view(xs@), 0, target@),
        decreases xs.len() - i,
    {
        if mention_in_expr(&xs[i].1.node, target) {
            return true;
        }
        i = i + 1;
    }
    false
}

fn mention_in_ctor_args(xs: &Vec<(Option<String>, Spanned<Expr>)>, target: &str) -> (r: bool)
    ensures
        r == mentions_ctor_args(ast::ctor_args_view(xs@), 0, target@),
    decreases xs, 0nat,
{
    let mut i: usize = 0;
    while i < xs.len()
        invariant
            i <= xs.len(),
            mentions_ctor_args(ast::ctor_args_view(xs@), i as nat, target@) == mentions_ctor_args(ast::ctor_args_view(xs@), 0, target@),
        decreases xs.len() - i,
    {
        if mention_in_expr(&xs[i].1.node, target) {
            return true;
        }
        i = i + 1;
    }
    false
}

fn mention_in_cases(xs: &Vec<MatchCase>, target: &str) -> (r: bool)
    ensures
        r == mentions_cases(ast::cases_view(xs@), 0, target@),
    decreases xs, 0nat,
{
    let mut i: usize = 0;
    while i < xs.len()
        invariant
            i <= xs.len(),
            mentions_cases(ast::cases_view(xs@), i as nat, target@) == mentions_cases(ast::cases_view(xs@), 0, target@),
        decreases xs.len() - i,
    {
        if mention_in_stmts(&xs[i].body, target) {
            return true;
        }
        i = i + 1;
    }
    false
}

fn mention_in_functions(xs: &Vec<Function>, target: &str) -> (r: bool)
    ensures
        r == mentions_functions(ast::functions_view(xs@), 0, target@),
    decreases xs, 0nat,
{
    let mut i: usize = 0;
    while i < xs.len()
        invariant
            i <= xs.len(),
            mentions_functions(ast::functions_view(xs@), i as nat, target@) == mentions_functions(ast::functions_view(xs@), 0, target@),
        decreases xs.len() - i,
    {
        if mention_in_stmts(&xs[i].body, target) {
            return true;
        }
        i = i + 1;
    }
    false
}

// ---------------------------------------------------------------------------
// Used variables and local bindings
// ---------------------------------------------------------------------------

/// The first segment of a dotted name.
pub open spec fn first_segment(name: Text) -> Text {
    match text::split_at_char(name, '.') {
        Some((m, _)) => m,
        None => name,
    }
}

/// `acc` extended by the first segments of the handlers from index `i` on.
pub open spec fn handler_keys(acc: Seq<Text>, handlers: Seq<Text>, i: nat) -> Seq<Text>
    decreases handlers.len() - i,
{
    if i >= handlers.len() {
        acc
    } else {
        handler_keys(text::with_text(acc, first_segment(handlers[i as int])), handlers, i + 1)
    }
}

fn add_handler_keys(acc: &mut Vec<String>, handlers: &Vec<String>)
    ensures
        text::texts(final(acc)@) == handler_keys(text::texts(old(acc)@), text::texts(handlers@), 0),
{
    let mut i: usize = 0;
    while i < handlers.len()
        invariant
            i <= handlers.len(),
            handler_keys(text::texts(acc@), text::texts(handlers@), i as nat) == handler_keys(
                text::texts(old(acc)@),
                text::texts(handlers@),
                0,
            ),
        decreases handlers.len() - i,
    {
        match split_once(handlers[i].as_str(), '.') {
            Some((m, _)) => list_add(acc, m),
            None => list_add(acc, handlers[i].clone()),
        }
        i = i + 1;
    }
}

/// `acc` extended by the keys of the variables that an expression uses.
pub open spec fn used_expr(e: ExprV, acc: Seq<Text>) -> Seq<Text>
    decreases e, 0nat,
{
    match e {
        ExprV::Literal(_) => {
            acc
        },
        ExprV::Variable(name, sigil) => text::with_text(acc, sigil.key(name)),
        ExprV::Borrow(name, sigil) => text::with_text(acc, sigil.key(name)),
        ExprV::BinaryOp(l, _, r) => {
            used_expr(r.node, used_expr(l.node, acc))
        },
        ExprV::Index(l, r) => {
            used_expr(r.node, used_expr(l.node, acc))
        },
        ExprV::Call { func, args } => {
            used_labelled(
                args,
                0,
                if func.contains('.') {
                    acc
                } else {
                    text::with_text(acc, func)
                },
            )
        },
        ExprV::Constructor(_, args) => {
            used_ctor_args(args, 0, acc)
        },
        ExprV::Record(fs) => {
            used_labelled(fs, 0, acc)
        },
        ExprV::Array(es) => {
            used_exprs(es, 0, acc)
        },
        ExprV::List(es) => {
            used_exprs(es, 0, acc)
        },
        ExprV::FieldAccess(x, _) => {
            used_expr(x.node, acc)
        },
        ExprV::Raise(x) => {
            used_expr(x.node, acc)
        },
        ExprV::If { cond, then_branch, else_branch } => {
            let before = used_stmts(then_branch, 0, used_expr(cond.node, acc));
            match else_branch {
                Some(b) => used_stmts(b, 0, before),
                None => before,
            }
        },
        ExprV::Match { target, cases } => {
            used_cases(cases, 0, used_expr(target.node, acc))
        },
        ExprV::While { cond, body } => {
            used_stmts(body, 0, used_expr(cond.node, acc))
        },
        ExprV::For { var: _, start, end_expr, body } => {
            used_stmts(body, 0, used_expr(end_expr.node, used_expr(start.node, acc)))
        },
        ExprV::Lambda { type_params: _, params: _, ret_type: _, requires: _, throws: _, body } => {
            used_stmts(body, 0, acc)
        },
        ExprV::External(_, _, _) => {
            acc
        },
        ExprV::Handler { coeffect_name: _, requires: _, functions } => {
            used_functions(functions, 0, acc)
        },
    }
}

/// `acc` extended by the keys of the variables that a statement uses.
pub open spec fn used_stmt(s: Spanned<StmtV>, acc: Seq<Text>) -> Seq<Text>
    decreases s, 0nat,
{
    match s.node {
        StmtV::Let { name: _, sigil: _, typ: _, value } => {
            used_expr(value.node, acc)
        },
        StmtV::LetPattern { pattern: _, value } => {
            used_expr(value.node, acc)
        },
        StmtV::Expr(value) => {
            used_expr(value.node, acc)
        },
        StmtV::Return(value) => {
            used_expr(value.node, acc)
        },
        StmtV::Assign { target, value } => {
            used_expr(value.node, used_expr(target.node, acc))
        },
        StmtV::Conc(tasks) => {
            used_functions(tasks, 0, acc)
        },
        StmtV::Try { body, catch_param: _, catch_body } => {
            used_stmts(catch_body, 0, used_stmts(body, 0, acc))
        },
        StmtV::Inject { handlers, body } => {
            used_stmts(body, 0, handler_keys(acc, handlers, 0))
        },
    }
}

/// `used_expr` over the statements from index `i` on.
pub open spec fn used_stmts(xs: Seq<Spanned<StmtV>>, i: nat, acc: Seq<Text>) -> Seq<Text>
    decreases xs, xs.len() - i,
{
    if i >= xs.len() {
        acc
    } else {
        used_stmts(xs, i + 1, used_stmt(xs[i as int], acc))
    }
}

/// `used_expr` over the expressions from index `i` on.
pub open spec fn used_exprs(xs: Seq<Spanned<ExprV>>, i: nat, acc: Seq<Text>) -> Seq<Text>
    decreases xs, xs.len() - i,
{
    if i >= xs.len() {
        acc
    } else {
        used_exprs(xs, i + 1, used_expr(xs[i as int].node, acc))
    }
}

/// `used_expr` over the labelled expressions from index `i` on.
pub open spec fn used_labelled(xs: Seq<(Text, Spanned<ExprV>)>, i: nat, acc: Seq<Text>) -> Seq<Text>
    decreases xs, xs.len() - i,
{
    if i >= xs.len() {
        acc
    } else {
        used_labelled(xs, i + 1, used_expr(xs[i as int].1.node, acc))
    }
}

/// `used_expr` over the constructor arguments from index `i` on.
pub open spec fn used_ctor_args(xs: Seq<(Option<Text>, Spanned<ExprV>)>, i: nat, acc: Seq<Text>) -> Seq<Text>
    decreases xs, xs.len() - i,
{
    if i >= xs.len() {
        acc
    } else {
        used_ctor_args(xs, i + 1, used_expr(xs[i as int].1.node, acc))
    }
}

/// `used_expr` over the bodies of the cases from index `i` on.
pub open spec fn used_cases(xs: Seq<MatchCaseV>, i: nat, acc: Seq<Text>) -> Seq<Text>
    decreases xs, xs.len() - i,
{
    if i >= xs.len() {
        acc
    } else {
        used_cases(xs, i + 1, used_stmts(xs[i as int].body, 0, acc))
    }
}

/// `used_expr` over the bodies of the functions from index `i` on.
pub open spec fn used_functions(xs: Seq<FunctionV>, i: nat, acc: Seq<Text>) -> Seq<Text>
    decreases xs, xs.len() - i,
{
    if i >= xs.len() {
        acc
    } else {
        used_functions(xs, i + 1, used_stmts(xs[i as int].body, 0, acc))
    }
}

fn add_used_expr(e: &Expr, acc: &mut Vec<String>)
    ensures
        text::texts(final(acc)@) == used_expr(e@, text::texts(old(acc)@)),
    decreases e, 0nat,
{
    match e {
        Expr::Literal(_) => {},
        Expr::Variable(name, sigil) => list_add(acc, sigil.get_key(name.as_str())),
        Expr::Borrow(name, sigil) => list_add(acc, sigil.get_key(name.as_str())),
        Expr::BinaryOp(l, _, r) => {
            add_used_expr(&l.node, acc);
            add_used_expr(&r.node, acc);
        },
        Expr::Index(l, r) => {
            add_used_expr(&l.node, acc);
            add_used_expr(&r.node, acc);
        },
        Expr::Call { func, args } => {
            if !contains_char(func.as_str(), '.') {
                list_add(acc, func.clone());
            }
            add_used_labelled(args, acc);
        },
        Expr::Constructor(_, args) => {
            add_used_ctor_args(args, acc);
        },
        Expr::Record(fs) => {
            add_used_labelled(fs, acc);
        },
        Expr::Array(es) => {
            add_used_exprs(es, acc);
        },
        Expr::List(es) => {
            add_used_exprs(es, acc);
        },
        Expr::FieldAccess(x, _) => {
            add_used_expr(&x.node, acc);
        },
        Expr::Raise(x) => {
            add_used_expr(&x.node, acc);
        },
        Expr::If { cond, then_branch, else_branch } => {
            add_used_expr(&cond.node, acc);
            add_used_stmts(then_branch, acc);
            match else_branch {
                Some(b) => add_used_stmts(b, acc),
                None => {},
            }
        },
        Expr::Match { target, cases } => {
            add_used_expr(&target.node, acc);
            add_used_cases(cases, acc);
        },
        Expr::While { cond, body } => {
            add_used_expr(&cond.node, acc);
            add_used_stmts(body, acc);
        },
        Expr::For { var: _, start, end_expr, body } => {
            add_used_expr(&start.node, acc);
            add_used_expr(&end_expr.node, acc);
            add_used_stmts(body, acc);
        },
        Expr::Lambda { type_params: _, params: _, ret_type: _, requires: _, throws: _, body } => {
            add_used_stmts(body, acc);
        },
        Expr::External(_, _, _) => {},
        Expr::Handler { coeffect_name: _, requires: _, functions } => {
            add_used_functions(functions, acc);
        },
    }
}

fn add_used_stmt(s: &Spanned<Stmt>, acc: &mut Vec<String>)
    ensures
        text::texts(final(acc)@) == used_stmt(s@, text::texts(old(acc)@)),
    decreases s, 0nat,
{
    match &s.node {
        Stmt::Let { name: _, sigil: _, typ: _, value } => {
            add_used_expr(&value.node, acc);
        },
        Stmt::LetPattern { pattern: _, value } => {
            add_used_expr(&value.node, acc);
        },
        Stmt::Expr(value) => {
            add_used_expr(&value.node, acc);
        },
        Stmt::Return(value) => {
            add_used_expr(&value.node, acc);
        },
        Stmt::Assign { target, value } => {
            add_used_expr(&target.node, acc);
            add_used_expr(&value.node, acc);
        },
        Stmt::Conc(tasks) => {
            add_used_functions(tasks, acc);
        },
        Stmt::Try { body, catch_param: _, catch_body } => {
            add_used_stmts(body, acc);
            add_used_stmts(catch_body, acc);
        },
        Stmt::Inject { handlers, body } => {
            add_handler_keys(acc, handlers);
            add_used_stmts(body, acc);
        },
    }
}

fn add_used_stmts(xs: &Vec<Spanned<Stmt>>, acc: &mut Vec<String>)
    ensures
        text::texts(final(acc)@) == used_stmts(ast::stmts_view(xs@), 0, text::texts(old(acc)@)),
    decreases xs, 0nat,
{
    let mut i: usize = 0;
    while i < xs.len()
        invariant
            i <= xs.len(),
            used_stmts(ast::stmts_view(xs@), i as nat, text::texts(acc@)) == used_stmts(ast::stmts_view(xs@), 0, text::texts(old(acc)@)),
        decreases xs.len() - i,
    {
        add_used_stmt(&xs[i], acc);
        i = i + 1;
    }
}

fn add_used_exprs(xs: &Vec<Spanned<Expr>>, acc: &mut Vec<String>)
    ensures
        text::texts(final(acc)@) == used_exprs(ast::exprs_view(xs@), 0, text::texts(old(acc)@)),
    decreases xs, 0nat,
{
    let mut i: usize = 0;
    while i < xs.len()
        invariant
            i <= xs.len(),
            used_exprs(ast::exprs_view(xs@), i as nat, text::texts(acc@)) == used_exprs(ast::exprs_view(xs@), 0, text::texts(old(acc)@)),
        decreases xs.len() - i,
    {
        add_used_expr(&xs[i].node, acc);
        i = i + 1;
    }
}

fn add_used_labelled(xs: &Vec<(String, Spanned<Expr>)>, acc: &mut Vec<String>)
    ensures
        text::texts(final(acc)@) == used_labelled(ast::labelled_view(xs@), 0, text::texts(old(acc)@)),
    decreases xs, 0nat,
{
    let mut i: usize = 0;
    while i < xs.len()
        invariant
            i <= xs.len(),
            used_labelled(ast::labelled_view(xs@), i as nat, text::texts(acc@)) == used_labelled(ast::labelled_view(xs@), 0, text::texts(old(acc)@)),
        decreases xs.len() - i,
    {
        add_used_expr(&xs[i].1.node, acc);
        i = i + 1;
    }
}

fn add_used_ctor_args(xs: &Vec<(Option<String>, Spanned<Expr>)>, acc: &mut Vec<String>)
    ensures
        text::texts(final(acc)@) == used_ctor_args(ast::ctor_args_view(xs@), 0, text::texts(old(acc)@)),
    decreases xs, 0nat,
{
    let mut i: usize = 0;
    while i < xs.len()
        invariant
            i <= xs.len(),
            used_ctor_args(ast::ctor_args_view(xs@), i as nat, text::texts(acc@)) == used_ctor_args(ast::ctor_args_view(xs@), 0, text::texts(old(acc)@)),
        decreases xs.len() - i,
    {
        add_used_expr(&xs[i].1.node, acc);
        i = i + 1;
    }
}

fn add_used_cases(xs: &Vec<MatchCase>, acc: &mut Vec<String>)
    ensures
        text::texts(final(acc)@) == used_cases(ast::cases_view(xs@), 0, text::texts(old(acc)@)),
    decreases xs, 0nat,
{
    let mut i: usize = 0;
    while i < xs.len()
        invariant
            i <= xs.len(),
            used_cases(ast::cases_view(xs@), i as nat, text::texts(acc@)) == used_cases(ast::cases_view(xs@), 0, text::texts(old(acc)@)),
        decreases xs.len() - i,
    {
        add_used_stmts(&xs[i].body, acc);
        i = i + 1;
    }
}

fn add_used_functions(xs: &Vec<Function>, acc: &mut Vec<String>)
    ensures
        text::texts(final(acc)@) == used_functions(ast::functions_view(xs@), 0, text::texts(old(acc)@)),
    decreases xs, 0nat,
{
    let mut i: usize = 0;
    while i < xs.len()
        invariant
            i <= xs.len(),
            used_functions(ast::functions_view(xs@), i as nat, text::texts(acc@)) == used_functions(ast::functions_view(xs@), 0, text::texts(old(acc)@)),
        decreases xs.len() - i,
    {
        add_used_stmts(&xs[i].body, acc);
        i = i + 1;
    }
}

/// A local binding: its name, its sigil, and the statement that makes it.
pub struct LocalBinding {
    pub name: String,
    pub sigil: Sigil,
    pub span: Span,
}

/// The model of a local binding.
pub struct LocalBindingV {
    pub name: Text,
    pub sigil: Sigil,
    pub span: Span,
}

impl LocalBinding {
    /// The model of this binding.
    pub open spec fn view(&self) -> LocalBindingV {
        LocalBindingV { name: self.name@, sigil: self.sigil, span: self.span }
    }
}

/// The models of a list of local bindings.
pub open spec fn local_bindings_view(v: Seq<LocalBinding>) -> Seq<LocalBindingV> {
    v.map_values(|b: LocalBinding| b@)
}

fn push_local(acc: &mut Vec<LocalBinding>, name: &String, sigil: Sigil, span: Span)
    ensures
        local_bindings_view(final(acc)@) == local_bindings_view(old(acc)@).push(
            LocalBindingV { name: name@, sigil, span },
        ),
{
    acc.push(LocalBinding { name: name.clone(), sigil, span });
    assert(local_bindings_view(acc@) =~= local_bindings_view(old(acc)@).push(
        LocalBindingV { name: name@, sigil, span },
    ));
}

/// `acc` extended by the local bindings inside an expression, those of closures and handlers left
/// out.
pub open spec fn lets_expr(e: ExprV, acc: Seq<LocalBindingV>) -> Seq<LocalBindingV>
    decreases e, 0nat,
{
    match e {
        ExprV::Literal(_) => {
            acc
        },
        ExprV::Variable(_, _) => {
            acc
        },
        ExprV::Borrow(_, _) => {
            acc
        },
        ExprV::BinaryOp(l, _, r) => {
            lets_expr(r.node, lets_expr(l.node, acc))
        },
        ExprV::Index(l, r) => {
            lets_expr(r.node, lets_expr(l.node, acc))
        },
        ExprV::Call { func: _, args } => {
            lets_labelled(args, 0, acc)
        },
        ExprV::Constructor(_, args) => {
            lets_ctor_args(args, 0, acc)
        },
        ExprV::Record(fs) => {
            lets_labelled(fs, 0, acc)
        },
        ExprV::Array(es) => {
            lets_exprs(es, 0, acc)
        },
        ExprV::List(es) => {
            lets_exprs(es, 0, acc)
        },
        ExprV::FieldAccess(x, _) => {
            lets_expr(x.node, acc)
        },
        ExprV::Raise(x) => {
            lets_expr(x.node, acc)
        },
        ExprV::If { cond, then_branch, else_branch } => {
            let before = lets_stmts(then_branch, 0, lets_expr(cond.node, acc));
            match else_branch {
                Some(b) => lets_stmts(b, 0, before),
                None => before,
            }
        },
        ExprV::Match { target, cases } => {
            lets_cases(cases, 0, lets_expr(target.node, acc))
        },
        ExprV::While { cond, body } => {
            lets_stmts(body, 0, lets_expr(cond.node, acc))
        },
        ExprV::For { var: _, start, end_expr, body } => {
            lets_stmts(body, 0, lets_expr(end_expr.node, lets_expr(start.node, acc)))
        },
        ExprV::Lambda { type_params: _, params: _, ret_type: _, requires: _, throws: _, body: _ } => acc,
        ExprV::External(_, _, _) => {
            acc
        },
        ExprV::Handler { coeffect_name: _, requires: _, functions: _ } => acc,
    }
}

/// `acc` extended by the local bindings of a statement.
pub open spec fn lets_stmt(s: Spanned<StmtV>, acc: Seq<LocalBindingV>) -> Seq<LocalBindingV>
    decreases s, 0nat,
{
    match s.node {
        StmtV::Let { name, sigil, typ: _, value } => {
            lets_expr(value.node, acc.push(LocalBindingV { name, sigil, span: s.span }))
        },
        StmtV::LetPattern { pattern: _, value } => {
            lets_expr(value.node, acc)
        },
        StmtV::Expr(value) => {
            lets_expr(value.node, acc)
        },
        StmtV::Return(value) => {
            lets_expr(value.node, acc)
        },
        StmtV::Assign { target, value } => {
            lets_expr(value.node, lets_expr(target.node, acc))
        },
        StmtV::Conc(tasks) => {
            lets_functions(tasks, 0, acc)
        },
        StmtV::Try { body, catch_param: _, catch_body } => {
            lets_stmts(catch_body, 0, lets_stmts(body, 0, acc))
        },
        StmtV::Inject { handlers: _, body } => {
            lets_stmts(body, 0, acc)
        },
    }
}

/// `lets_expr` over the statements from index `i` on.
pub open spec fn lets_stmts(xs: Seq<Spanned<StmtV>>, i: nat, acc: Seq<LocalBindingV>) -> Seq<LocalBindingV>
    decreases xs, xs.len() - i,
{
    if i >= xs.len() {
        acc
    } else {
        lets_stmts(xs, i + 1, lets_stmt(xs[i as int], acc))
    }
}

/// `lets_expr` over the expressions from index `i` on.
pub open spec fn lets_exprs(xs: Seq<Spanned<ExprV>>, i: nat, acc: Seq<LocalBindingV>) -> Seq<LocalBindingV>
    decreases xs, xs.len() - i,
{
    if i >= xs.len() {
        acc
    } else {
        lets_exprs(xs, i + 1, lets_expr(xs[i as int].node, acc))
    }
}

/// `lets_expr` over the labelled expressions from index `i` on.
pub open spec fn lets_labelled(xs: Seq<(Text, Spanned<ExprV>)>, i: nat, acc: Seq<LocalBindingV>) -> Seq<LocalBindingV>
    decreases xs, xs.len() - i,
{
    if i >= xs.len() {
        acc
    } else {
        lets_labelled(xs, i + 1, lets_expr(xs[i as int].1.node, acc))
    }
}

/// `lets_expr` over the constructor arguments from index `i` on.
pub open spec fn lets_ctor_args(xs: Seq<(Option<Text>, Spanned<ExprV>)>, i: nat, acc: Seq<LocalBindingV>) -> Seq<LocalBindingV>
    decreases xs, xs.len() - i,
{
    if i >= xs.len() {
        acc
    } else {
        lets_ctor_args(xs, i + 1, lets_expr(xs[i as int].1.node, acc))
    }
}

/// `lets_expr` over the bodies of the cases from index `i` on.
pub open spec fn lets_cases(xs: Seq<MatchCaseV>, i: nat, acc: Seq<LocalBindingV>) -> Seq<LocalBindingV>
    decreases xs, xs.len() - i,
{
    if i >= xs.len() {
        acc
    } else {
        lets_cases(xs, i + 1, lets_stmts(xs[i as int].body, 0, acc))
    }
}

/// `lets_expr` over the bodies of the functions from index `i` on.
pub open spec fn lets_functions(xs: Seq<FunctionV>, i: nat, acc: Seq<LocalBindingV>) -> Seq<LocalBindingV>
    decreases xs, xs.len() - i,
{
    if i >= xs.len() {
        acc
    } else {
        lets_functions(xs, i + 1, lets_stmts(xs[i as int].body, 0, acc))
    }
}

fn add_lets_expr(e: &Expr, acc: &mut Vec<LocalBinding>)
    ensures
        local_bindings_view(final(acc)@) == lets_expr(e@, local_bindings_view(old(acc)@)),
    decreases e, 0nat,
{
    match e {
        Expr::Literal(_) => {},
        Expr::Variable(_, _) => {},
        Expr::Borrow(_, _) => {},
        Expr::BinaryOp(l, _, r) => {
            add_lets_expr(&l.node, acc);
            add_lets_expr(&r.node, acc);
        },
        Expr::Index(l, r) => {
            add_lets_expr(&l.node, acc);
            add_lets_expr(&r.node, acc);
        },
        Expr::Call { func: _, args } => {
            add_lets_labelled(args, acc);
        },
        Expr::Constructor(_, args) => {
            add_lets_ctor_args(args, acc);
        },
        Expr::Record(fs) => {
            add_lets_labelled(fs, acc);
        },
        Expr::Array(es) => {
            add_lets_exprs(es, acc);
        },
        Expr::List(es) => {
            add_lets_exprs(es, acc);
        },
        Expr::FieldAccess(x, _) => {
            add_lets_expr(&x.node, acc);
        },
        Expr::Raise(x) => {
            add_lets_expr(&x.node, acc);
        },
        Expr::If { cond, then_branch, else_branch } => {
            add_lets_expr(&cond.node, acc);
            add_lets_stmts(then_branch, acc);
            match else_branch {
                Some(b) => add_lets_stmts(b, acc),
                None => {},
            }
        },
        Expr::Match { target, cases } => {
            add_lets_expr(&target.node, acc);
            add_lets_cases(cases, acc);
        },
        Expr::While { cond, body } => {
            add_lets_expr(&cond.node, acc);
            add_lets_stmts(body, acc);
        },
        Expr::For { var: _, start, end_expr, body } => {
            add_lets_expr(&start.node, acc);
            add_lets_expr(&end_expr.node, acc);
            add_lets_stmts(body, acc);
        },
        Expr::Lambda { type_params: _, params: _, ret_type: _, requires: _, throws: _, body: _ } => {},
        Expr::External(_, _, _) => {},
        Expr::Handler { coeffect_name: _, requires: _, functions: _ } => {},
    }
}

fn add_lets_stmt(s: &Spanned<Stmt>, acc: &mut Vec<LocalBinding>)
    ensures
        local_bindings_view(final(acc)@) == lets_stmt(s@, local_bindings_view(old(acc)@)),
    decreases s, 0nat,
{
    match &s.node {
        Stmt::Let { name, sigil, typ: _, value } => {
            push_local(acc, name, *sigil, s.span);
            add_lets_expr(&value.node, acc);
        },
        Stmt::LetPattern { pattern: _, value } => {
            add_lets_expr(&value.node, acc);
        },
        Stmt::Expr(value) => {
            add_lets_expr(&value.node, acc);
        },
        Stmt::Return(value) => {
            add_lets_expr(&value.node, acc);
        },
        Stmt::Assign { target, value } => {
            add_lets_expr(&target.node, acc);
            add_lets_expr(&value.node, acc);
        },
        Stmt::Conc(tasks) => {
            add_lets_functions(tasks, acc);
        },
        Stmt::Try { body, catch_param: _, catch_body } => {
            add_lets_stmts(body, acc);
            add_lets_stmts(catch_body, acc);
        },
        Stmt::Inject { handlers: _, body } => {
            add_lets_stmts(body, acc);
        },
    }
}

fn add_lets_stmts(xs: &Vec<Spanned<Stmt>>, acc: &mut Vec<LocalBinding>)
    ensures
        local_bindings_view(final(acc)@) == lets_stmts(ast::stmts_view(xs@), 0, local_bindings_view(old(acc)@)),
    decreases xs, 0nat,
{
    let mut i: usize = 0;
    while i < xs.len()
        invariant
            i <= xs.len(),
            lets_stmts(ast::stmts_view(xs@), i as nat, local_bindings_view(acc@)) == lets_stmts(ast::stmts_view(xs@), 0, local_bindings_view(old(acc)@)),
        decreases xs.len() - i,
    {
        add_lets_stmt(&xs[i], acc);
        i = i + 1;
    }
}

fn add_lets_exprs(xs: &Vec<Spanned<Expr>>, acc: &mut Vec<LocalBinding>)
    ensures
        local_bindings_view(final(acc)@) == lets_exprs(ast::exprs_view(xs@), 0, local_bindings_view(old(acc)@)),
    decreases xs, 0nat,
{
    let mut i: usize = 0;
    while i < xs.len()
        invariant
            i <= xs.len(),
            lets_exprs(ast::exprs_view(xs@), i as nat, local_bindings_view(acc@)) == lets_exprs(ast::exprs_view(xs@), 0, local_bindings_view(old(acc)@)),
        decreases xs.len() - i,
    {
        add_lets_expr(&xs[i].node, acc);
        i = i + 1;
    }
}

fn add_lets_labelled(xs: &Vec<(String, Spanned<Expr>)>, acc: &mut Vec<LocalBinding>)
    ensures
        local_bindings_view(final(acc)@) == lets_labelled(ast::labelled_view(xs@), 0, local_bindings_view(old(acc)@)),
    decreases xs, 0nat,
{
    let mut i: usize = 0;
    while i < xs.len()
        invariant
            i <= xs.len(),
            lets_labelled(ast::labelled_view(xs@), i as nat, local_bindings_view(acc@)) == lets_labelled(ast::labelled_view(xs@), 0, local_bindings_view(old(acc)@)),
        decreases xs.len() - i,
    {
        add_lets_expr(&xs[i].1.node, acc);
        i = i + 1;
    }
}

fn add_lets_ctor_args(xs: &Vec<(Option<String>, Spanned<Expr>)>, acc: &mut Vec<LocalBinding>)
    ensures
        local_bindings_view(final(acc)@) == lets_ctor_args(ast::ctor_args_view(xs@), 0, local_bindings_view(old(acc)@)),
    decreases xs, 0nat,
{
    let mut i: usize = 0;
    while i < xs.len()
        invariant
            i <= xs.len(),
            lets_ctor_args(ast::ctor_args_view(xs@), i as nat, local_bindings_view(acc@)) == lets_ctor_args(ast::ctor_args_view(xs@), 0, local_bindings_view(old(acc)@)),
        decreases xs.len() - i,
    {
        add_lets_expr(&xs[i].1.node, acc);
        i = i + 1;
    }
}

fn add_lets_cases(xs: &Vec<MatchCase>, acc: &mut Vec<LocalBinding>)
    ensures
        local_bindings_view(final(acc)@) == lets_cases(ast::cases_view(xs@), 0, local_bindings_view(old(acc)@)),
    decreases xs, 0nat,
{
    let mut i: usize = 0;
    while i < xs.len()
        invariant
            i <= xs.len(),
            lets_cases(ast::cases_view(xs@), i as nat, local_bindings_view(acc@)) == lets_cases(ast::cases_view(xs@), 0, local_bindings_view(old(acc)@)),
        decreases xs.len() - i,
    {
        add_lets_stmts(&xs[i].body, acc);
        i = i + 1;
    }
}

fn add_lets_functions(xs: &Vec<Function>, acc: &mut Vec<LocalBinding>)
    ensures
        local_bindings_view(final(acc)@) == lets_functions(ast::functions_view(xs@), 0, local_bindings_view(old(acc)@)),
    decreases xs, 0nat,
{
    let mut i: usize = 0;
    while i < xs.len()
        invariant
            i <= xs.len(),
            lets_functions(ast::functions_view(xs@), i as nat, local_bindings_view(acc@)) == lets_functions(ast::functions_view(xs@), 0, local_bindings_view(old(acc)@)),
        decreases xs.len() - i,
    {
        add_lets_stmts(&xs[i].body, acc);
        i = i + 1;
    }
}

// ---------------------------------------------------------------------------
// Unused local variables
// ---------------------------------------------------------------------------

/// Whether a local binding is reported when nothing uses it.
pub open spec fn reported(b: LocalBindingV, used: Seq<Text>) -> bool {
    !text::begins_with_char(b.name, '_') && b.sigil != Sigil::Linear && !text::has_text(
        used,
        b.sigil.key(b.name),
    )
}

/// `acc` extended by a warning for each reported binding from index `i` on.
pub open spec fn unused_bindings(
    acc: Seq<TypeWarningV>,
    function_name: Text,
    used: Seq<Text>,
    bs: Seq<LocalBindingV>,
    i: nat,
) -> Seq<TypeWarningV>
    decreases bs.len() - i,
{
    if i >= bs.len() {
        acc
    } else if reported(bs[i as int], used) {
        unused_bindings(
            acc.push(
                TypeWarningV {
                    message: "Unused local variable '"@ + bs[i as int].name + "' in function '"@
                        + function_name + "'"@,
                    span: bs[i as int].span,
                },
            ),
            function_name,
            used,
            bs,
            i + 1,
        )
    } else {
        unused_bindings(acc, function_name, used, bs, i + 1)
    }
}

/// `acc` extended by the warnings for the bindings of one function body itself.
pub open spec fn unused_own(acc: Seq<TypeWarningV>, function_name: Text, body: Seq<Spanned<StmtV>>) -> Seq<
    TypeWarningV,
> {
    unused_bindings(
        acc,
        function_name,
        used_stmts(body, 0, Seq::empty()),
        lets_stmts(body, 0, Seq::empty()),
        0,
    )
}

fn push_warning(acc: &mut Vec<TypeWarning>, message: String, span: Span)
    ensures
        env::warnings_view(final(acc)@) == env::warnings_view(old(acc)@).push(
            TypeWarningV { message: message@, span },
        ),
{
    acc.push(TypeWarning { message, span });
    assert(env::warnings_view(acc@) =~= env::warnings_view(old(acc)@).push(
        TypeWarningV { message: message@, span },
    ));
}

fn warn_unused_own(acc: &mut Vec<TypeWarning>, function_name: &str, body: &Vec<Spanned<Stmt>>)
    ensures
        env::warnings_view(final(acc)@) == unused_own(
            env::warnings_view(old(acc)@),
            function_name@,
            ast::stmts_view(body@),
        ),
{
    let mut used: Vec<String> = Vec::new();
    assert(text::texts(used@) =~= Seq::<Text>::empty());
    add_used_stmts(body, &mut used);
    let mut bindings: Vec<LocalBinding> = Vec::new();
    assert(local_bindings_view(bindings@) =~= Seq::<LocalBindingV>::empty());
    add_lets_stmts(body, &mut bindings);
    let ghost bs = local_bindings_view(bindings@);
    let mut i: usize = 0;
    while i < bindings.len()
        invariant
            i <= bindings.len(),
            bs == local_bindings_view(bindings@),
            unused_bindings(
                env::warnings_view(acc@),
                function_name@,
                text::texts(used@),
                bs,
                i as nat,
            ) == unused_bindings(
                env::warnings_view(old(acc)@),
                function_name@,
                text::texts(used@),
                bs,
                0,
            ),
        decreases bindings.len() - i,
    {
        let b = &bindings[i];
        assert(bs[i as int] == b@);
        if !starts_with_char(b.name.as_str(), '_') && b.sigil != Sigil::Linear {
            let key = b.sigil.get_key(b.name.as_str());
            if !list_has(&used, key.as_str()) {
                let m = cat5(
                    "Unused local variable '",
                    b.name.as_str(),
                    "' in function '",
                    function_name,
                    "'",
                );
                push_warning(acc, m, b.span);
            }
        }
        i = i + 1;
    }
}

/// `acc` extended by the warnings inside an expression.
pub open spec fn unused_expr(e: ExprV, acc: Seq<TypeWarningV>) -> Seq<TypeWarningV>
    decreases e, 0nat,
{
    match e {
        ExprV::Literal(_) => {
            acc
        },
        ExprV::Variable(_, _) => {
            acc
        },
        ExprV::Borrow(_, _) => {
            acc
        },
        ExprV::BinaryOp(l, _, r) => {
            unused_expr(r.node, unused_expr(l.node, acc))
        },
        ExprV::Index(l, r) => {
            unused_expr(r.node, unused_expr(l.node, acc))
        },
        ExprV::Call { func: _, args } => {
            unused_labelled(args, 0, acc)
        },
        ExprV::Constructor(_, args) => {
            unused_ctor_args(args, 0, acc)
        },
        ExprV::Record(fs) => {
            unused_labelled(fs, 0, acc)
        },
        ExprV::Array(es) => {
            unused_exprs(es, 0, acc)
        },
        ExprV::List(es) => {
            unused_exprs(es, 0, acc)
        },
        ExprV::FieldAccess(x, _) => {
            unused_expr(x.node, acc)
        },
        ExprV::Raise(x) => {
            unused_expr(x.node, acc)
        },
        ExprV::If { cond, then_branch, else_branch } => {
            let before = unused_stmts(then_branch, 0, unused_expr(cond.node, acc));
            match else_branch {
                Some(b) => unused_stmts(b, 0, before),
                None => before,
            }
        },
        ExprV::Match { target, cases } => {
            unused_cases(cases, 0, unused_expr(target.node, acc))
        },
        ExprV::While { cond, body } => {
            unused_stmts(body, 0, unused_expr(cond.node, acc))
        },
        ExprV::For { var: _, start, end_expr, body } => {
            unused_stmts(body, 0, unused_expr(end_expr.node, unused_expr(start.node, acc)))
        },
        ExprV::Lambda { type_params: _, params: _, ret_type: _, requires: _, throws: _, body } => {
            unused_function("<lambda>"@, body, acc)
        },
        ExprV::External(_, _, _) => {
            acc
        },
        ExprV::Handler { coeffect_name, requires: _, functions } => {
            unused_functions(functions, 0, "handler "@ + coeffect_name + "."@, acc)
        },
    }
}

/// `acc` extended by the warnings inside a statement.
pub open spec fn unused_stmt(s: Spanned<StmtV>, acc: Seq<TypeWarningV>) -> Seq<TypeWarningV>
    decreases s, 0nat,
{
    match s.node {
        StmtV::Let { name: _, sigil: _, typ: _, value } => {
            unused_expr(value.node, acc)
        },
        StmtV::LetPattern { pattern: _, value } => {
            unused_expr(value.node, acc)
        },
        StmtV::Expr(value) => {
            unused_expr(value.node, acc)
        },
        StmtV::Return(value) => {
            unused_expr(value.node, acc)
        },
        StmtV::Assign { target, value } => {
            unused_expr(value.node, unused_expr(target.node, acc))
        },
        StmtV::Conc(tasks) => {
            unused_functions(tasks, 0, "task "@, acc)
        },
        StmtV::Try { body, catch_param: _, catch_body } => {
            unused_stmts(catch_body, 0, unused_stmts(body, 0, acc))
        },
        StmtV::Inject { handlers: _, body } => {
            unused_stmts(body, 0, acc)
        },
    }
}

/// `unused_expr` over the statements from index `i` on.
pub open spec fn unused_stmts(xs: Seq<Spanned<StmtV>>, i: nat, acc: Seq<TypeWarningV>) -> Seq<TypeWarningV>
    decreases xs, xs.len() - i,
{
    if i >= xs.len() {
        acc
    } else {
        unused_stmts(xs, i + 1, unused_stmt(xs[i as int], acc))
    }
}

/// `unused_expr` over the expressions from index `i` on.
pub open spec fn unused_exprs(xs: Seq<Spanned<ExprV>>, i: nat, acc: Seq<TypeWarningV>) -> Seq<TypeWarningV>
    decreases xs, xs.len() - i,
{
    if i >= xs.len() {
        acc
    } else {
        unused_exprs(xs, i + 1, unused_expr(xs[i as int].node, acc))
    }
}

/// `unused_expr` over the labelled expressions from index `i` on.
pub open spec fn unused_labelled(xs: Seq<(Text, Spanned<ExprV>)>, i: nat, acc: Seq<TypeWarningV>) -> Seq<TypeWarningV>
    decreases xs, xs.len() - i,
{
    if i >= xs.len() {
        acc
    } else {
        unused_labelled(xs, i + 1, unused_expr(xs[i as int].1.node, acc))
    }
}

/// `unused_expr` over the constructor arguments from index `i` on.
pub open spec fn unused_ctor_args(xs: Seq<(Option<Text>, Spanned<ExprV>)>, i: nat, acc: Seq<TypeWarningV>) -> Seq<TypeWarningV>
    decreases xs, xs.len() - i,
{
    if i >= xs.len() {
        acc
    } else {
        unused_ctor_args(xs, i + 1, unused_expr(xs[i as int].1.node, acc))
    }
}

/// `unused_expr` over the bodies of the cases from index `i` on.
pub open spec fn unused_cases(xs: Seq<MatchCaseV>, i: nat, acc: Seq<TypeWarningV>) -> Seq<TypeWarningV>
    decreases xs, xs.len() - i,
{
    if i >= xs.len() {
        acc
    } else {
        unused_cases(xs, i + 1, unused_stmts(xs[i as int].body, 0, acc))
    }
}

/// `acc` extended by the warnings in the functions from index `i` on, named behind a prefix.
pub open spec fn unused_functions(
    xs: Seq<FunctionV>,
    i: nat,
    prefix: Text,
    acc: Seq<TypeWarningV>,
) -> Seq<TypeWarningV>
    decreases xs, xs.len() - i,
{
    if i >= xs.len() {
        acc
    } else {
        unused_functions(
            xs,
            i + 1,
            prefix,
            unused_function(prefix + xs[i as int].name, xs[i as int].body, acc),
        )
    }
}

/// `acc` extended by the warnings in a function: those for its own bindings, then those inside
/// its statements.
pub open spec fn unused_function(
    name: Text,
    body: Seq<Spanned<StmtV>>,
    acc: Seq<TypeWarningV>,
) -> Seq<TypeWarningV>
    decreases body, body.len() + 1,
{
    unused_stmts(body, 0, unused_own(acc, name, body))
}

fn warn_unused_expr(e: &Expr, acc: &mut Vec<TypeWarning>)
    ensures
        env::warnings_view(final(acc)@) == unused_expr(e@, env::warnings_view(old(acc)@)),
    decreases e, 0nat,
{
    match e {
        Expr::Literal(_) => {},
        Expr::Variable(_, _) => {},
        Expr::Borrow(_, _) => {},
        Expr::BinaryOp(l, _, r) => {
            warn_unused_expr(&l.node, acc);
            warn_unused_expr(&r.node, acc);
        },
        Expr::Index(l, r) => {
            warn_unused_expr(&l.node, acc);
            warn_unused_expr(&r.node, acc);
        },
        Expr::Call { func: _, args } => {
            warn_unused_labelled(args, acc);
        },
        Expr::Constructor(_, args) => {
            warn_unused_ctor_args(args, acc);
        },
        Expr::Record(fs) => {
            warn_unused_labelled(fs, acc);
        },
        Expr::Array(es) => {
            warn_unused_exprs(es, acc);
        },
        Expr::List(es) => {
            warn_unused_exprs(es, acc);
        },
        Expr::FieldAccess(x, _) => {
            warn_unused_expr(&x.node, acc);
        },
        Expr::Raise(x) => {
            warn_unused_expr(&x.node, acc);
        },
        Expr::If { cond, then_branch, else_branch } => {
            warn_unused_expr(&cond.node, acc);
            warn_unused_stmts(then_branch, acc);
            match else_branch {
                Some(b) => warn_unused_stmts(b, acc),
                None => {},
            }
        },
        Expr::Match { target, cases } => {
            warn_unused_expr(&target.node, acc);
            warn_unused_cases(cases, acc);
        },
        Expr::While { cond, body } => {
            warn_unused_expr(&cond.node, acc);
            warn_unused_stmts(body, acc);
        },
        Expr::For { var: _, start, end_expr, body } => {
            warn_unused_expr(&start.node, acc);
            warn_unused_expr(&end_expr.node, acc);
            warn_unused_stmts(body, acc);
        },
        Expr::Lambda { type_params: _, params: _, ret_type: _, requires: _, throws: _, body } => {
            warn_unused_function("<lambda>", body, acc);
        },
        Expr::External(_, _, _) => {},
        Expr::Handler { coeffect_name, requires: _, functions } => {
            let prefix = cat3("handler ", coeffect_name.as_str(), ".");
            warn_unused_functions(functions, prefix.as_str(), acc);
        },
    }
}

fn warn_unused_stmt(s: &Spanned<Stmt>, acc: &mut Vec<TypeWarning>)
    ensures
        env::warnings_view(final(acc)@) == unused_stmt(s@, env::warnings_view(old(acc)@)),
    decreases s, 0nat,
{
    match &s.node {
        Stmt::Let { name: _, sigil: _, typ: _, value } => {
            warn_unused_expr(&value.node, acc);
        },
        Stmt::LetPattern { pattern: _, value } => {
            warn_unused_expr(&value.node, acc);
        },
        Stmt::Expr(value) => {
            warn_unused_expr(&value.node, acc);
        },
        Stmt::Return(value) => {
            warn_unused_expr(&value.node, acc);
        },
        Stmt::Assign { target, value } => {
            warn_unused_expr(&target.node, acc);
            warn_unused_expr(&value.node, acc);
        },
        Stmt::Conc(tasks) => {
            warn_unused_functions(tasks, "task ", acc);
        },
        Stmt::Try { body, catch_param: _, catch_body } => {
            warn_unused_stmts(body, acc);
            warn_unused_stmts(catch_body, acc);
        },
        Stmt::Inject { handlers: _, body } => {
            warn_unused_stmts(body, acc);
        },
    }
}

fn warn_unused_stmts(xs: &Vec<Spanned<Stmt>>, acc: &mut Vec<TypeWarning>)
    ensures
        env::warnings_view(final(acc)@) == unused_stmts(ast::stmts_view(xs@), 0, env::warnings_view(old(acc)@)),
    decreases xs, 0nat,
{
    let mut i: usize = 0;
    while i < xs.len()
        invariant
            i <= xs.len(),
            unused_stmts(ast::stmts_view(xs@), i as nat, env::warnings_view(acc@)) == unused_stmts(ast::stmts_view(xs@), 0, env::warnings_view(old(acc)@)),
        decreases xs.len() - i,
    {
        warn_unused_stmt(&xs[i], acc);
        i = i + 1;
    }
}

fn warn_unused_exprs(xs: &Vec<Spanned<Expr>>, acc: &mut Vec<TypeWarning>)
    ensures
        env::warnings_view(final(acc)@) == unused_exprs(ast::exprs_view(xs@), 0, env::warnings_view(old(acc)@)),
    decreases xs, 0nat,
{
    let mut i: usize = 0;
    while i < xs.len()
        invariant
            i <= xs.len(),
            unused_exprs(ast::exprs_view(xs@), i as nat, env::warnings_view(acc@)) == unused_exprs(ast::exprs_view(xs@), 0, env::warnings_view(old(acc)@)),
        decreases xs.len() - i,
    {
        warn_unused_expr(&xs[i].node, acc);
        i = i + 1;
    }
}

fn warn_unused_labelled(xs: &Vec<(String, Spanned<Expr>)>, acc: &mut Vec<TypeWarning>)
    ensures
        env::warnings_view(final(acc)@) == unused_labelled(ast::labelled_view(xs@), 0, env::warnings_view(old(acc)@)),
    decreases xs, 0nat,
{
    let mut i: usize = 0;
    while i < xs.len()
        invariant
            i <= xs.len(),
            unused_labelled(ast::labelled_view(xs@), i as nat, env::warnings_view(acc@)) == unused_labelled(ast::labelled_view(xs@), 0, env::warnings_view(old(acc)@)),
        decreases xs.len() - i,
    {
        warn_unused_expr(&xs[i].1.node, acc);
        i = i + 1;
    }
}

fn warn_unused_ctor_args(xs: &Vec<(Option<String>, Spanned<Expr>)>, acc: &mut Vec<TypeWarning>)
    ensures
        env::warnings_view(final(acc)@) == unused_ctor_args(ast::ctor_args_view(xs@), 0, env::warnings_view(old(acc)@)),
    decreases xs, 0nat,
{
    let mut i: usize = 0;
    while i < xs.len()
        invariant
            i <= xs.len(),
            unused_ctor_args(ast::ctor_args_view(xs@), i as nat, env::warnings_view(acc@)) == unused_ctor_args(ast::ctor_args_view(xs@), 0, env::warnings_view(old(acc)@)),
        decreases xs.len() - i,
    {
        warn_unused_expr(&xs[i].1.node, acc);
        i = i + 1;
    }
}

fn warn_unused_cases(xs: &Vec<MatchCase>, acc: &mut Vec<TypeWarning>)
    ensures
        env::warnings_view(final(acc)@) == unused_cases(ast::cases_view(xs@), 0, env::warnings_view(old(acc)@)),
    decreases xs, 0nat,
{
    let mut i: usize = 0;
    while i < xs.len()
        invariant
            i <= xs.len(),
            unused_cases(ast::cases_view(xs@), i as nat, env::warnings_view(acc@)) == unused_cases(ast::cases_view(xs@), 0, env::warnings_view(old(acc)@)),
        decreases xs.len() - i,
    {
        warn_unused_stmts(&xs[i].body, acc);
        i = i + 1;
    }
}

fn warn_unused_functions(xs: &Vec<Function>, prefix: &str, acc: &mut Vec<TypeWarning>)
    ensures
        env::warnings_view(final(acc)@) == unused_functions(
            ast::functions_view(xs@),
            0,
            prefix@,
            env::warnings_view(old(acc)@),
        ),
    decreases xs, 0nat,
{
    let mut i: usize = 0;
    while i < xs.len()
        invariant
            i <= xs.len(),
            unused_functions(ast::functions_view(xs@), i as nat, prefix@, env::warnings_view(acc@))
                == unused_functions(
                ast::functions_view(xs@),
                0,
                prefix@,
                env::warnings_view(old(acc)@),
            ),
        decreases xs.len() - i,
    {
        let name = cat2(prefix, xs[i].name.as_str());
        warn_unused_function(name.as_str(), &xs[i].body, acc);
        i = i + 1;
    }
}

fn warn_unused_function(name: &str, body: &Vec<Spanned<Stmt>>, acc: &mut Vec<TypeWarning>)
    ensures
        env::warnings_view(final(acc)@) == unused_function(
            name@,
            ast::stmts_view(body@),
            env::warnings_view(old(acc)@),
        ),
    decreases body, 1nat,
{
    warn_unused_own(acc, name, body);
    warn_unused_stmts(body, acc);
}

// ---------------------------------------------------------------------------
// Warnings of a program
// ---------------------------------------------------------------------------

/// The name of the program's entry point.
pub open spec fn entrypoint() -> Text {
    "main"@
}

/// Whether another of the definitions from index `i` on mentions a name.
pub open spec fn referenced_from(defs: Seq<Spanned<TopLevelV>>, i: nat, name: Text) -> bool
    decreases defs.len() - i,
{
    i < defs.len() && ((match defs[i as int].node {
        TopLevelV::Let(gl) => gl.name != name && mentions_expr(gl.value.node, name),
        _ => false,
    }) || referenced_from(defs, i + 1, name))
}

/// `acc` extended by a warning for each private binding from index `i` on that no other
/// binding mentions.
pub open spec fn private_warnings(
    acc: Seq<TypeWarningV>,
    defs: Seq<Spanned<TopLevelV>>,
    i: nat,
) -> Seq<TypeWarningV>
    decreases defs.len() - i,
{
    if i >= defs.len() {
        acc
    } else {
        match defs[i as int].node {
            TopLevelV::Let(gl) => {
                if gl.is_public || gl.name == entrypoint() || referenced_from(defs, 0, gl.name) {
                    private_warnings(acc, defs, i + 1)
                } else {
                    private_warnings(
                        acc.push(
                            TypeWarningV {
                                message: "Private definition '"@ + gl.name
                                    + "' is never referenced"@,
                                span: defs[i as int].span,
                            },
                        ),
                        defs,
                        i + 1,
                    )
                }
            },
            _ => private_warnings(acc, defs, i + 1),
        }
    }
}

/// `acc` extended by a warning for the members of a declared row that are not used.
pub open spec fn reducible_warning(
    acc: Seq<TypeWarningV>,
    name: Text,
    what: Text,
    declared: TypeV,
    used: Seq<Text>,
    span: Span,
) -> Seq<TypeWarningV> {
    let (names, open) = row_names(declared);
    let redundant = text::sorted_texts(text::difference_texts(names, used));
    if open || redundant.len() == 0 {
        acc
    } else {
        acc.push(
            TypeWarningV {
                message: "Function '"@ + name + what + text::joined(redundant, ", "@),
                span,
            },
        )
    }
}

/// `acc` extended by the warnings for declared coeffects and effects of one definition that
/// its body does not need.
pub open spec fn signature_warning(
    acc: Seq<TypeWarningV>,
    env: EnvV,
    def: Spanned<TopLevelV>,
) -> Seq<TypeWarningV> {
    match def.node {
        TopLevelV::Let(gl) => match gl.value.node {
            ExprV::Lambda { type_params: _, params: _, ret_type: _, requires: reqs, throws, body } => {
                let n = body_needs(body, env);
                if n.unknown {
                    acc
                } else {
                    reducible_warning(
                        reducible_warning(
                            acc,
                            gl.name,
                            "' declares reducible coeffects: "@,
                            reqs,
                            n.reqs,
                            def.span,
                        ),
                        gl.name,
                        "' declares reducible effects: "@,
                        throws,
                        n.effs,
                        def.span,
                    )
                }
            },
            _ => acc,
        },
        _ => acc,
    }
}

/// `signature_warning` for the definitions from index `i` on.
pub open spec fn signature_warnings(
    acc: Seq<TypeWarningV>,
    env: EnvV,
    defs: Seq<Spanned<TopLevelV>>,
    i: nat,
) -> Seq<TypeWarningV>
    decreases defs.len() - i,
{
    if i >= defs.len() {
        acc
    } else {
        signature_warnings(signature_warning(acc, env, defs[i as int]), env, defs, i + 1)
    }
}

/// `acc` extended by the warnings for unused local variables of one definition.
pub open spec fn unused_in_definition(acc: Seq<TypeWarningV>, def: TopLevelV) -> Seq<TypeWarningV> {
    match def {
        TopLevelV::Let(gl) => match gl.value.node {
            ExprV::Lambda { type_params: _, params: _, ret_type: _, requires: _, throws: _, body } => {
                unused_function(gl.name, body, acc)
            },
            ExprV::Handler { coeffect_name, requires: _, functions } => {
                unused_functions(functions, 0, "handler "@ + coeffect_name + "."@, acc)
            },
            _ => acc,
        },
        _ => acc,
    }
}

/// `unused_in_definition` for the definitions from index `i` on.
pub open spec fn unused_in_definitions(
    acc: Seq<TypeWarningV>,
    defs: Seq<Spanned<TopLevelV>>,
    i: nat,
) -> Seq<TypeWarningV>
    decreases defs.len() - i,
{
    if i >= defs.len() {
        acc
    } else {
        unused_in_definitions(unused_in_definition(acc, defs[i as int].node), defs, i + 1)
    }
}

/// `acc` extended by the lint warnings of a program.
pub open spec fn lint_warnings(
    acc: Seq<TypeWarningV>,
    env: EnvV,
    defs: Seq<Spanned<TopLevelV>>,
) -> Seq<TypeWarningV> {
    unused_in_definitions(signature_warnings(private_warnings(acc, defs, 0), env, defs, 0), defs, 0)
}

fn is_referenced(program: &Program, name: &str) -> (r: bool)
    ensures
        r == referenced_from(program@.definitions, 0, name@),
{
    let ghost defs = program@.definitions;
    let mut i: usize = 0;
    while i < program.definitions.len()
        invariant
            i <= program.definitions.len(),
            defs == ast::definitions_view(program.definitions@),
            referenced_from(defs, 0, name@) == referenced_from(defs, i as nat, name@),
        decreases program.definitions.len() - i,
    {
        assert(defs[i as int] == program.definitions@[i as int]@);
        let found = match &program.definitions[i].node {
            TopLevel::Let(gl) => {
                !str_eq(gl.name.as_str(), name) && mention_in_expr(&gl.value.node, name)
            },
            _ => false,
        };
        if found {
            return true;
        }
        i = i + 1;
    }
    false
}

fn collect_private_definition_warnings(acc: &mut Vec<TypeWarning>, program: &Program)
    ensures
        env::warnings_view(final(acc)@) == private_warnings(
            env::warnings_view(old(acc)@),
            program@.definitions,
            0,
        ),
{
    let ghost defs = program@.definitions;
    let mut i: usize = 0;
    while i < program.definitions.len()
        invariant
            i <= program.definitions.len(),
            defs == program@.definitions,
            defs == ast::definitions_view(program.definitions@),
            private_warnings(env::warnings_view(acc@), defs, i as nat) == private_warnings(
                env::warnings_view(old(acc)@),
                defs,
                0,
            ),
        decreases program.definitions.len() - i,
    {
        let def = &program.definitions[i];
        assert(defs[i as int] == def@);
        match &def.node {
            TopLevel::Let(gl) => {
                if !gl.is_public && !str_eq(gl.name.as_str(), "main") && !is_referenced(
                    program,
                    gl.name.as_str(),
                ) {
                    let m = cat3(
                        "Private definition '",
                        gl.name.as_str(),
                        "' is never referenced",
                    );
                    push_warning(acc, m, def.span);
                }
            },
            _ => {},
        }
        i = i + 1;
    }
}

fn warn_reducible(
    acc: &mut Vec<TypeWarning>,
    name: &str,
    what: &str,
    declared: &Type,
    used: &Vec<String>,
    span: Span,
)
    ensures
        env::warnings_view(final(acc)@) == reducible_warning(
            env::warnings_view(old(acc)@),
            name@,
            what@,
            declared@,
            text::texts(used@),
            span,
        ),
{
    let (names, open) = extract_named_row_members(declared);
    if !open {
        let diff = list_difference(&names, used);
        let redundant = sort_texts(&diff);
        assert(text::texts(redundant@).len() == redundant.len());
        if redundant.len() > 0 {
            let list = join(&redundant, ", ");
            let m = cat4("Function '", name, what, list.as_str());
            push_warning(acc, m, span);
        }
    }
}

fn warn_signature(acc: &mut Vec<TypeWarning>, env: &TypeEnv, def: &Spanned<TopLevel>)
    ensures
        env::warnings_view(final(acc)@) == signature_warning(
            env::warnings_view(old(acc)@),
            env@,
            def@,
        ),
{
    match &def.node {
        TopLevel::Let(gl) => match &gl.value.node {
            Expr::Lambda { type_params: _, params: _, ret_type: _, requires: reqs, throws, body } => {
                let n = collect_signature_needs_from_stmts(body, env);
                if !n.unknown {
                    warn_reducible(
                        acc,
                        gl.name.as_str(),
                        "' declares reducible coeffects: ",
                        reqs,
                        &n.reqs,
                        def.span,
                    );
                    warn_reducible(
                        acc,
                        gl.name.as_str(),
                        "' declares reducible effects: ",
                        throws,
                        &n.effs,
                        def.span,
                    );
                }
            },
            _ => {},
        },
        _ => {},
    }
}

fn collect_signature_minimization_warnings(
    acc: &mut Vec<TypeWarning>,
    env: &TypeEnv,
    program: &Program,
)
    ensures
        env::warnings_view(final(acc)@) == signature_warnings(
            env::warnings_view(old(acc)@),
            env@,
            program@.definitions,
            0,
        ),
{
    let ghost defs = program@.definitions;
    let mut i: usize = 0;
    while i < program.definitions.len()
        invariant
            i <= program.definitions.len(),
            defs == ast::definitions_view(program.definitions@),
            signature_warnings(env::warnings_view(acc@), env@, defs, i as nat) == signature_warnings(
                env::warnings_view(old(acc)@),
                env@,
                defs,
                0,
            ),
        decreases program.definitions.len() - i,
    {
        assert(defs[i as int] == program.definitions@[i as int]@);
        warn_signature(acc, env, &program.definitions[i]);
        i = i + 1;
    }
}

fn warn_unused_in_definition(acc: &mut Vec<TypeWarning>, def: &TopLevel)
    ensures
        env::warnings_view(final(acc)@) == unused_in_definition(env::warnings_view(old(acc)@), def@),
{
    match def {
        TopLevel::Let(gl) => match &gl.value.node {
            Expr::Lambda { type_params: _, params: _, ret_type: _, requires: _, throws: _, body } => {
                warn_unused_function(gl.name.as_str(), body, acc);
            },
            Expr::Handler { coeffect_name, requires: _, functions } => {
                let prefix = cat3("handler ", coeffect_name.as_str(), ".");
                warn_unused_functions(functions, prefix.as_str(), acc);
            },
            _ => {},
        },
        _ => {},
    }
}

/// Collects the lint warnings of a program: private bindings that nothing mentions, declared
/// coeffects and effects that are not needed, and local variables that are not used.
pub fn collect_lint_warnings(acc: &mut Vec<TypeWarning>, env: &TypeEnv, program: &Program)
    ensures
        env::warnings_view(final(acc)@) == lint_warnings(
            env::warnings_view(old(acc)@),
            env@,
            program@.definitions,
        ),
{
    collect_private_definition_warnings(acc, program);
    collect_signature_minimization_warnings(acc, env, program);
    let ghost defs = program@.definitions;
    let ghost before = env::warnings_view(acc@);
    let mut i: usize = 0;
    while i < program.definitions.len()
        invariant
            i <= program.definitions.len(),
            defs == ast::definitions_view(program.definitions@),
            unused_in_definitions(env::warnings_view(acc@), defs, i as nat) == unused_in_definitions(
                before,
                defs,
                0,
            ),
        decreases program.definitions.len() - i,
    {
        assert(defs[i as int] == program.definitions@[i as int]@);
        warn_unused_in_definition(acc, &program.definitions[i].node);
        i = i + 1;
    }
}

/// The error for the coeffects that one definition uses without declaring them.
pub open spec fn missing_requirement(env: EnvV, def: Spanned<TopLevelV>) -> Option<TypeErrorV> {
    match def.node {
        TopLevelV::Let(gl) => match gl.value.node {
            ExprV::Lambda { type_params: _, params: _, ret_type: _, requires: reqs, throws: _, body } => {
                let n = body_needs(body, env);
                let (declared, open) = row_names(reqs);
                let missing = text::sorted_texts(text::difference_texts(n.reqs, declared));
                if n.unknown || open || missing.len() == 0 {
                    None
                } else {
                    Some(
                        env::error_at(
                            "Function '"@ + gl.name + "' uses coeffects ["@ + text::joined(missing, ", "@)
                                + "] not declared in its require clause"@,
                            def.span,
                        ),
                    )
                }
            },
            _ => None,
        },
        _ => None,
    }
}

/// The first error of `missing_requirement` for the definitions from index `i` on.
pub open spec fn missing_requirements(
    env: EnvV,
    defs: Seq<Spanned<TopLevelV>>,
    i: nat,
) -> Option<TypeErrorV>
    decreases defs.len() - i,
{
    if i >= defs.len() {
        None
    } else {
        match missing_requirement(env, defs[i as int]) {
            Some(e) => Some(e),
            None => missing_requirements(env, defs, i + 1),
        }
    }
}

fn check_definition_requirements(env: &TypeEnv, def: &Spanned<TopLevel>) -> (r: Result<
    (),
    TypeError,
>)
    ensures
        match r {
            Ok(()) => missing_requirement(env@, def@) is None,
            Err(e) => missing_requirement(env@, def@) == Some(e@),
        },
{
    match &def.node {
        TopLevel::Let(gl) => match &gl.value.node {
            Expr::Lambda { type_params: _, params: _, ret_type: _, requires: reqs, throws: _, body } => {
                let n = collect_signature_needs_from_stmts(body, env);
                let (declared, open) = extract_named_row_members(reqs);
                if n.unknown || open {
                    return Ok(());
                }
                let diff = list_difference(&n.reqs, &declared);
                let missing = sort_texts(&diff);
                assert(text::texts(missing@).len() == missing.len());
                if missing.len() > 0 {
                    let list = join(&missing, ", ");
                    let m = cat5(
                        "Function '",
                        gl.name.as_str(),
                        "' uses coeffects [",
                        list.as_str(),
                        "] not declared in its require clause",
                    );
                    return Err(TypeError::new(m, def.span));
                }
                Ok(())
            },
            _ => Ok(()),
        },
        _ => Ok(()),
    }
}

/// Checks that each function declares the coeffects that it uses.
pub fn check_missing_requirements(env: &TypeEnv, program: &Program) -> (r: Result<(), TypeError>)
    ensures
        match r {
            Ok(()) => missing_requirements(env@, program@.definitions, 0) is None,
            Err(e) => missing_requirements(env@, program@.definitions, 0) == Some(e@),
        },
{
    let ghost defs = program@.definitions;
    let mut i: usize = 0;
    while i < program.definitions.len()
        invariant
            i <= program.definitions.len(),
            defs == ast::definitions_view(program.definitions@),
            missing_requirements(env@, defs, 0) == missing_requirements(env@, defs, i as nat),
        decreases program.definitions.len() - i,
    {
        assert(defs[i as int] == program.definitions@[i as int]@);
        match check_definition_requirements(env, &program.definitions[i]) {
            Ok(()) => {},
            Err(e) => {
                return Err(e);
            },
        }
        i = i + 1;
    }
    Ok(())
}

} // verus!
