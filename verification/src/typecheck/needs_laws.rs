//! What a body needs, by the calls, raises and injections that occur in it.

use crate::ast::{ExprV, FunctionV, MatchCaseV, StmtV, TopLevelV};
use crate::table;
use crate::text;
use crate::text::Text;
use crate::tree;
use crate::tree::NodeV;
use crate::typecheck::env;
use crate::typecheck::env::{EnvV, TypeWarningV};
use crate::typecheck::env_laws;
use crate::typecheck::helpers;
use crate::typecheck::lint;
use crate::typecheck::lint::NeedsV;
use crate::typecheck::lint_laws;
use crate::types::{Spanned, TypeV};
use vstd::prelude::*;

verus! {

// ---------------------------------------------------------------------------
// Needs
// ---------------------------------------------------------------------------

/// Something that code can need: a coeffect, an effect, or something that its signatures do not
/// tell.
pub enum NeedV {
    Coeffect(Text),
    Effect(Text),
    Untold,
}

/// Whether it is among what code needs.
pub open spec fn has_need(n: NeedsV, w: NeedV) -> bool {
    match w {
        NeedV::Coeffect(k) => text::has_text(n.reqs, k),
        NeedV::Effect(k) => text::has_text(n.effs, k),
        NeedV::Untold => n.unknown,
    }
}

/// Whether a row lists a name.
pub open spec fn row_lists(row: TypeV, k: Text) -> bool {
    match row {
        TypeV::Row(items, _) => exists|i: int|
            0 <= i < items.len() && #[trigger] items[i] == TypeV::UserDefined(k, Seq::empty()),
        _ => false,
    }
}

/// Whether a row tells all its members: it is closed, and each of them is a bare name.
pub open spec fn row_tells_all(row: TypeV) -> bool {
    match row {
        TypeV::Unit => true,
        TypeV::Row(items, tail) => tail is None && forall|i: int|
            0 <= i < items.len() ==> (#[trigger] items[i] matches TypeV::UserDefined(_, args)
                && args.len() == 0),
        _ => false,
    }
}

/// The rows of a function's type, which may be linear.
pub open spec fn rows_of(t: TypeV) -> Option<(TypeV, TypeV)> {
    match t {
        TypeV::Arrow(_, _, q, e) => Some((*q, *e)),
        TypeV::Linear(i) => match *i {
            TypeV::Arrow(_, _, q, e) => Some((*q, *e)),
            _ => None,
        },
        _ => None,
    }
}

/// Whether a call of a function needs something: what the rows of its type list, and something
/// untold where they do not tell all or the type is not known.
pub open spec fn call_wants(env: EnvV, func: Text, w: NeedV) -> bool {
    match lint::called_scheme(env, func) {
        Some(s) => match rows_of(s.typ) {
            Some((q, e)) => match w {
                NeedV::Coeffect(k) => row_lists(q, k),
                NeedV::Effect(k) => row_lists(e, k),
                NeedV::Untold => !row_tells_all(q) || !row_tells_all(e),
            },
            None => w is Untold,
        },
        None => w is Untold,
    }
}

/// Whether a name is bound to a handler of a port.
pub open spec fn handles_port(env: EnvV, h: Text, k: Text) -> bool {
    env::env_get(env, h) matches Some(s) && s.typ matches TypeV::Handler(port, _) && port == k
}

/// Whether handlers need something themselves.
pub open spec fn handlers_want(env: EnvV, handlers: Seq<Text>, w: NeedV) -> bool {
    exists|i: int|
        0 <= i < handlers.len() && match env::env_get(env, #[trigger] handlers[i]) {
            Some(s) => match s.typ {
                TypeV::Handler(_, q) => w matches NeedV::Coeffect(k) && row_lists(*q, k),
                _ => w is Untold,
            },
            None => w is Untold,
        }
}

/// Whether a part of a tree needs something itself: a call, a raise, or the injection of handlers.
pub open spec fn wants(env: EnvV, n: NodeV, w: NeedV) -> bool {
    match n {
        NodeV::Expr(ExprV::Call { func, args: _ }) => call_wants(env, func, w),
        NodeV::Expr(ExprV::Raise(_)) => w == NeedV::Effect("Exn"@),
        NodeV::Stmt(s) => match s.node {
            StmtV::Inject { handlers, body: _ } => handlers_want(env, handlers, w),
            _ => false,
        },
        _ => false,
    }
}

/// Whether a part of a tree provides what the part at index `i` of it needs: an injection the
/// ports that it handles, and a `try` the exceptions of its first body.
pub open spec fn provides(env: EnvV, n: NodeV, i: int, w: NeedV) -> bool {
    match n {
        NodeV::Stmt(s) => match s.node {
            StmtV::Inject { handlers, body: _ } => w matches NeedV::Coeffect(k) && exists|j: int|
                0 <= j < handlers.len() && handles_port(env, #[trigger] handlers[j], k),
            StmtV::Try { body, catch_param: _, catch_body: _ } => w == NeedV::Effect("Exn"@) && i
                < body.len(),
            _ => false,
        },
        _ => false,
    }
}

/// Whether a part `d` levels inside a part of a tree needs something that nothing between them
/// provides. Closures and handlers are not entered.
pub open spec fn needed_below(env: EnvV, n: NodeV, w: NeedV, d: nat) -> bool
    decreases d,
{
    if d == 0 {
        wants(env, n, w)
    } else {
        exists|i: int|
            0 <= i < tree::parts_of(n, false).len() && !provides(env, n, i, w) && needed_below(
                env,
                #[trigger] tree::parts_of(n, false)[i],
                w,
                (d - 1) as nat,
            )
    }
}

/// Whether a part of a tree, or a part inside it, needs something that nothing provides.
#[verifier::opaque]
pub open spec fn needed(env: EnvV, n: NodeV, w: NeedV) -> bool {
    exists|d: nat| needed_below(env, n, w, d)
}

/// Whether one of the parts from index `i` on needs something that nothing provides.
pub open spec fn some_needed(env: EnvV, ps: Seq<NodeV>, i: nat, w: NeedV) -> bool {
    exists|j: int| i <= j < ps.len() && needed(env, #[trigger] ps[j], w)
}

/// What is needed is needed by the part itself, or by one of the parts in it for which it is not
/// provided.
pub proof fn law_needed_here_or_deeper(env: EnvV, n: NodeV, w: NeedV)
    ensures
        needed(env, n, w) <==> wants(env, n, w) || exists|i: int|
            0 <= i < tree::parts_of(n, false).len() && !provides(env, n, i, w) && needed(
                env,
                #[trigger] tree::parts_of(n, false)[i],
                w,
            ),
        (forall|i: int| !#[trigger] provides(env, n, i, w)) ==> (needed(env, n, w) <==> wants(
            env,
            n,
            w,
        ) || some_needed(env, tree::parts_of(n, false), 0, w)),
{
    reveal(needed);
    let ps = tree::parts_of(n, false);
    if wants(env, n, w) {
        assert(needed_below(env, n, w, 0));
    }
    if exists|i: int| 0 <= i < ps.len() && !provides(env, n, i, w) && needed(env, #[trigger] ps[i], w) {
        let i = choose|i: int|
            0 <= i < ps.len() && !provides(env, n, i, w) && needed(env, #[trigger] ps[i], w);
        let d = choose|d: nat| needed_below(env, ps[i], w, d);
        assert(needed_below(env, n, w, d + 1));
    }
    if needed(env, n, w) {
        let d = choose|d: nat| needed_below(env, n, w, d);
        if d > 0 {
            let i = choose|i: int|
                0 <= i < ps.len() && !provides(env, n, i, w) && needed_below(
                    env,
                    #[trigger] ps[i],
                    w,
                    (d - 1) as nat,
                );
            assert(needed(env, ps[i], w));
        }
    }
}

proof fn lemma_needed_of_both(env: EnvV, a: Seq<NodeV>, b: Seq<NodeV>, w: NeedV)
    ensures
        some_needed(env, a + b, 0, w) <==> some_needed(env, a, 0, w) || some_needed(env, b, 0, w),
{
    let all = a + b;
    if some_needed(env, a, 0, w) {
        let j = choose|j: int| 0 <= j < a.len() && needed(env, #[trigger] a[j], w);
        assert(all[j] == a[j]);
    }
    if some_needed(env, b, 0, w) {
        let j = choose|j: int| 0 <= j < b.len() && needed(env, #[trigger] b[j], w);
        assert(all[a.len() + j] == b[j]);
    }
    if some_needed(env, all, 0, w) {
        let j = choose|j: int| 0 <= j < all.len() && needed(env, #[trigger] all[j], w);
        if j < a.len() {
            assert(a[j] == all[j]);
        } else {
            assert(b[j - a.len()] == all[j]);
        }
    }
}

proof fn lemma_needed_of_one(env: EnvV, n: NodeV, w: NeedV)
    ensures
        some_needed(env, seq![n], 0, w) <==> needed(env, n, w),
{
    assert(seq![n][0] == n);
}

proof fn lemma_needed_from(env: EnvV, ps: Seq<NodeV>, i: nat, w: NeedV)
    requires
        i < ps.len(),
    ensures
        some_needed(env, ps, i, w) <==> needed(env, ps[i as int], w) || some_needed(
            env,
            ps,
            i + 1,
            w,
        ),
{
    if some_needed(env, ps, i, w) {
        let j = choose|j: int| i <= j < ps.len() && needed(env, #[trigger] ps[j], w);
    }
}

// ---------------------------------------------------------------------------
// Lists of names
// ---------------------------------------------------------------------------

proof fn lemma_union(a: Seq<Text>, b: Seq<Text>, i: nat, k: Text)
    ensures
        text::has_text(text::union_from(a, b, i), k) <==> text::has_text(a, k) || exists|j: int|
            i <= j < b.len() && #[trigger] b[j] == k,
        env_laws::all_distinct(a) ==> env_laws::all_distinct(text::union_from(a, b, i)),
    decreases b.len() - i,
{
    if i < b.len() {
        lint_laws::lemma_after_with_text(a, b[i as int], k);
        if env_laws::all_distinct(a) {
            env_laws::lemma_with_text(a, b[i as int]);
        }
        lemma_union(text::with_text(a, b[i as int]), b, i + 1, k);
    }
}

proof fn lemma_union_has(a: Seq<Text>, b: Seq<Text>, k: Text)
    ensures
        text::has_text(text::union_texts(a, b), k) <==> text::has_text(a, k) || text::has_text(b, k),
        env_laws::all_distinct(a) ==> env_laws::all_distinct(text::union_texts(a, b)),
{
    lemma_union(a, b, 0, k);
    lint_laws::lemma_has_text(b, k);
}

proof fn lemma_difference(a: Seq<Text>, b: Seq<Text>, i: nat, k: Text)
    ensures
        text::has_text(text::difference_from(a, b, i), k) <==> !text::has_text(b, k) && exists|j: int|
            i <= j < a.len() && #[trigger] a[j] == k,
    decreases a.len() - i,
{
    let out = text::difference_from(a, b, i);
    lint_laws::lemma_has_text(out, k);
    if i < a.len() {
        let rest = text::difference_from(a, b, i + 1);
        lemma_difference(a, b, i + 1, k);
        lint_laws::lemma_has_text(rest, k);
        if !text::has_text(b, a[i as int]) {
            let x = a[i as int];
            assert(out == seq![x] + rest);
            assert(out[0] == x);
            if rest.contains(k) {
                let j = choose|j: int| 0 <= j < rest.len() && rest[j] == k;
                assert(out[j + 1] == k);
            }
            if out.contains(k) {
                let j = choose|j: int| 0 <= j < out.len() && out[j] == k;
                if j > 0 {
                    assert(rest[j - 1] == k);
                }
            }
        }
    }
}

proof fn lemma_difference_has(a: Seq<Text>, b: Seq<Text>, k: Text)
    ensures
        text::has_text(text::difference_texts(a, b), k) <==> text::has_text(a, k) && !text::has_text(b, k),
{
    lemma_difference(a, b, 0, k);
    lint_laws::lemma_has_text(a, k);
}

/// Two lists of names are the same exactly where they hold the same names.
pub proof fn law_same_names(a: Seq<Text>, b: Seq<Text>)
    ensures
        text::same_texts(a, b) <==> forall|k: Text| #[trigger] a.contains(k) <==> b.contains(k),
{
    reveal(text::same_texts);
    let ab = text::difference_texts(a, b);
    let ba = text::difference_texts(b, a);
    assert forall|k: Text| ab.contains(k) <==> #[trigger] a.contains(k) && !b.contains(k) by {
        lemma_difference_has(a, b, k);
        lint_laws::lemma_has_text(ab, k);
        lint_laws::lemma_has_text(a, k);
        lint_laws::lemma_has_text(b, k);
    }
    assert forall|k: Text| ba.contains(k) <==> b.contains(k) && !#[trigger] a.contains(k) by {
        lemma_difference_has(b, a, k);
        lint_laws::lemma_has_text(ba, k);
        lint_laws::lemma_has_text(a, k);
        lint_laws::lemma_has_text(b, k);
    }
    if forall|k: Text| #[trigger] a.contains(k) <==> b.contains(k) {
        if ab.len() > 0 {
            assert(ab.contains(ab[0]));
            assert(a.contains(ab[0]));
        }
        if ba.len() > 0 {
            assert(ba.contains(ba[0]));
            assert(!a.contains(ba[0]));
        }
    }
    if text::same_texts(a, b) {
        assert forall|k: Text| #[trigger] a.contains(k) <==> b.contains(k) by {
            assert(!ab.contains(k));
            assert(!ba.contains(k));
        }
    }
}

proof fn lemma_without_has(s: Seq<Text>, x: Text, k: Text)
    requires
        env_laws::all_distinct(s),
    ensures
        text::has_text(text::without_text(s, x), k) <==> text::has_text(s, k) && k != x,
        env_laws::all_distinct(text::without_text(s, x)),
{
    env_laws::lemma_without_text(s, x);
    let n = text::without_text(s, x);
    lint_laws::lemma_has_text(s, k);
    lint_laws::lemma_has_text(n, k);
    table::lemma_index_of_text(s, x, 0);
    if text::has_text(s, x) {
        let a = text::index_of_text(s, x, 0) as int;
        if n.contains(k) {
            let j = choose|j: int| 0 <= j < n.len() && n[j] == k;
            assert(s[if j < a {
                j
            } else {
                j + 1
            }] == k);
        }
        if s.contains(k) && k != x {
            let j = choose|j: int| 0 <= j < s.len() && s[j] == k;
            assert(n[if j < a {
                j
            } else {
                j - 1
            }] == k);
        }
    }
}

proof fn lemma_merged(a: NeedsV, b: NeedsV, w: NeedV)
    ensures
        has_need(lint::merged_needs(a, b), w) <==> has_need(a, w) || has_need(b, w),
        env_laws::all_distinct(a.effs) ==> env_laws::all_distinct(lint::merged_needs(a, b).effs),
{
    match w {
        NeedV::Coeffect(k) => lemma_union_has(a.reqs, b.reqs, k),
        NeedV::Effect(k) => lemma_union_has(a.effs, b.effs, k),
        NeedV::Untold => {},
    }
    lemma_union_has(a.effs, b.effs, Seq::empty());
}

proof fn lemma_members(names: Seq<Text>, unknown: bool, ts: Seq<TypeV>, i: nat, k: Text)
    ensures
        text::has_text(lint::named_members(names, unknown, ts, i).0, k) <==> text::has_text(names, k) || exists|
            j: int,
        |
            i <= j < ts.len() && #[trigger] ts[j] == TypeV::UserDefined(k, Seq::empty()),
        lint::named_members(names, unknown, ts, i).1 <==> unknown || exists|j: int|
            i <= j < ts.len() && !(#[trigger] ts[j] matches TypeV::UserDefined(_, args)
                && args.len() == 0),
    decreases ts.len() - i,
{
    if i < ts.len() {
        match ts[i as int] {
            TypeV::UserDefined(n, args) => {
                if args.len() == 0 {
                    assert(args =~= Seq::empty());
                }
            },
            _ => {},
        }
        match helpers::bare_name(ts[i as int]) {
            Some(n) => {
                lint_laws::lemma_after_with_text(names, n, k);
                lemma_members(text::with_text(names, n), unknown, ts, i + 1, k);
            },
            None => lemma_members(names, true, ts, i + 1, k),
        }
    }
}

proof fn lemma_row_names(row: TypeV, k: Text)
    ensures
        text::has_text(lint::row_names(row).0, k) <==> row_lists(row, k),
        lint::row_names(row).1 <==> !row_tells_all(row),
{
    match row {
        TypeV::Row(items, tail) => lemma_members(Seq::empty(), tail is Some, items, 0, k),
        _ => {},
    }
}

proof fn lemma_bare_names(ts: Seq<TypeV>, i: nat, k: Text)
    ensures
        text::has_text(helpers::bare_names(ts, i), k) <==> exists|j: int|
            i <= j < ts.len() && #[trigger] ts[j] == TypeV::UserDefined(k, Seq::empty()),
    decreases ts.len() - i,
{
    lint_laws::lemma_has_text(helpers::bare_names(ts, i), k);
    if i < ts.len() {
        let rest = helpers::bare_names(ts, i + 1);
        lemma_bare_names(ts, i + 1, k);
        lint_laws::lemma_has_text(rest, k);
        match ts[i as int] {
            TypeV::UserDefined(n, args) => {
                if args.len() == 0 {
                    assert(args =~= Seq::empty());
                    let out = seq![n] + rest;
                    assert(out[0] == n);
                    if rest.contains(k) {
                        let j = choose|j: int| 0 <= j < rest.len() && rest[j] == k;
                        assert(out[j + 1] == k);
                    }
                    if out.contains(k) {
                        let j = choose|j: int| 0 <= j < out.len() && out[j] == k;
                        if j > 0 {
                            assert(rest[j - 1] == k);
                        }
                    }
                }
            },
            _ => {},
        }
    }
}

proof fn lemma_with_call(acc: NeedsV, env: EnvV, func: Text, w: NeedV)
    ensures
        has_need(lint::with_call(acc, env, func), w) <==> has_need(acc, w) || call_wants(env, func, w),
        env_laws::all_distinct(acc.effs) ==> env_laws::all_distinct(lint::with_call(acc, env, func).effs),
{
    match lint::call_needs(env, func) {
        Some(n) => {
            lemma_merged(acc, n, w);
            let (q, e) = rows_of(lint::called_scheme(env, func)->0.typ)->0;
            match w {
                NeedV::Coeffect(k) => lemma_row_names(q, k),
                NeedV::Effect(k) => lemma_row_names(e, k),
                NeedV::Untold => {
                    lemma_row_names(q, Seq::empty());
                    lemma_row_names(e, Seq::empty());
                },
            }
        },
        None => {},
    }
}

proof fn lemma_injected(
    env: EnvV,
    handlers: Seq<Text>,
    i: nat,
    ports: Seq<Text>,
    extra: Seq<Text>,
    unknown: bool,
    k: Text,
)
    ensures
        ({
            let out = lint::injected(env, handlers, i, ports, extra, unknown);
            &&& text::has_text(out.0, k) <==> text::has_text(ports, k) || exists|j: int|
                i <= j < handlers.len() && handles_port(env, #[trigger] handlers[j], k)
            &&& text::has_text(out.1, k) <==> text::has_text(extra, k) || exists|j: int|
                i <= j < handlers.len() && (env::env_get(env, #[trigger] handlers[j]) matches Some(s)
                    && s.typ matches TypeV::Handler(_, q) && row_lists(*q, k))
            &&& out.2 <==> unknown || exists|j: int|
                i <= j < handlers.len() && !(env::env_get(env, #[trigger] handlers[j]) matches Some(s)
                    && s.typ is Handler)
        }),
    decreases handlers.len() - i,
{
    if i < handlers.len() {
        let h = handlers[i as int];
        match env::env_get(env, h) {
            Some(s) => match s.typ {
                TypeV::Handler(name, q) => {
                    lint_laws::lemma_after_with_text(ports, name, k);
                    lemma_union_has(extra, helpers::row_port_names(*q), k);
                    match *q {
                        TypeV::Row(reqs, _) => lemma_bare_names(reqs, 0, k),
                        _ => {},
                    }
                    lemma_injected(
                        env,
                        handlers,
                        i + 1,
                        text::with_text(ports, name),
                        text::union_texts(extra, helpers::row_port_names(*q)),
                        unknown,
                        k,
                    );
                },
                _ => lemma_injected(env, handlers, i + 1, ports, extra, true, k),
            },
            None => lemma_injected(env, handlers, i + 1, ports, extra, true, k),
        }
    }
}

proof fn lemma_inject_needs(env: EnvV, handlers: Seq<Text>, body: NeedsV, w: NeedV)
    ensures
        has_need(lint::inject_needs(env, handlers, body), w) <==> handlers_want(env, handlers, w) || (
        has_need(body, w) && !(w matches NeedV::Coeffect(k) && exists|j: int|
            0 <= j < handlers.len() && handles_port(env, #[trigger] handlers[j], k))),
{
    let (ports, extra, unknown) = lint::injected(env, handlers, 0, Seq::empty(), Seq::empty(), false);
    match w {
        NeedV::Coeffect(k) => {
            lemma_injected(env, handlers, 0, Seq::empty(), Seq::empty(), false, k);
            lemma_difference_has(body.reqs, ports, k);
            lemma_union_has(text::difference_texts(body.reqs, ports), extra, k);
            if text::has_text(extra, k) {
                let j = choose|j: int|
                    0 <= j < handlers.len() && (env::env_get(env, #[trigger] handlers[j]) matches Some(s)
                        && s.typ matches TypeV::Handler(_, q) && row_lists(*q, k));
                assert(handlers_want(env, handlers, w));
            }
        },
        _ => lemma_injected(env, handlers, 0, Seq::empty(), Seq::empty(), false, Seq::empty()),
    }
}

// ---------------------------------------------------------------------------
// What trees need
// ---------------------------------------------------------------------------

/// What a `try` needs: what its first body needs but for exceptions, and what its second needs.
proof fn lemma_try_node(
    env: EnvV,
    s: Spanned<StmtV>,
    body: Seq<Spanned<StmtV>>,
    catch_body: Seq<Spanned<StmtV>>,
    w: NeedV,
)
    requires
        s.node matches StmtV::Try { body: b, catch_param: _, catch_body: c } && b == body && c
            == catch_body,
    ensures
        needed(env, NodeV::Stmt(s), w) <==> (some_needed(env, tree::stmt_nodes(body), 0, w) && w
            != NeedV::Effect("Exn"@)) || some_needed(env, tree::stmt_nodes(catch_body), 0, w),
{
    let n = NodeV::Stmt(s);
    let a = tree::stmt_nodes(body);
    let b = tree::stmt_nodes(catch_body);
    let ps = tree::parts_of(n, false);
    assert(ps == a + b);
    law_needed_here_or_deeper(env, n, w);
    if needed(env, n, w) {
        let i = choose|i: int|
            0 <= i < ps.len() && !provides(env, n, i, w) && needed(env, #[trigger] ps[i], w);
        if i < a.len() {
            assert(a[i] == ps[i]);
        } else {
            assert(b[i - a.len()] == ps[i]);
        }
    }
    if some_needed(env, a, 0, w) && w != NeedV::Effect("Exn"@) {
        let j = choose|j: int| 0 <= j < a.len() && needed(env, #[trigger] a[j], w);
        assert(ps[j] == a[j]);
        assert(!provides(env, n, j, w));
    }
    if some_needed(env, b, 0, w) {
        let j = choose|j: int| 0 <= j < b.len() && needed(env, #[trigger] b[j], w);
        assert(ps[a.len() + j] == b[j]);
        assert(!provides(env, n, a.len() + j, w));
    }
}

/// What an injection needs: what its handlers need, and what its body needs but for the ports
/// that they handle.
proof fn lemma_inject_node(
    env: EnvV,
    s: Spanned<StmtV>,
    handlers: Seq<Text>,
    body: Seq<Spanned<StmtV>>,
    w: NeedV,
)
    requires
        s.node == (StmtV::Inject { handlers, body }),
    ensures
        needed(env, NodeV::Stmt(s), w) <==> handlers_want(env, handlers, w) || (some_needed(
            env,
            tree::stmt_nodes(body),
            0,
            w,
        ) && !provides(env, NodeV::Stmt(s), 0, w)),
{
    let n = NodeV::Stmt(s);
    let ps = tree::parts_of(n, false);
    law_needed_here_or_deeper(env, n, w);
    assert(ps == tree::stmt_nodes(body));
    assert(forall|i: int| #[trigger] provides(env, n, i, w) == provides(env, n, 0, w));
    if some_needed(env, ps, 0, w) && !provides(env, n, 0, w) {
        let j = choose|j: int| 0 <= j < ps.len() && needed(env, #[trigger] ps[j], w);
        assert(!provides(env, n, j, w));
    }
}

#[verifier::spinoff_prover]
#[verifier::rlimit(40)]
proof fn lemma_needs_expr(e: ExprV, env: EnvV, acc: NeedsV, w: NeedV)
    ensures
        has_need(lint::needs_expr(e, env, acc), w) <==> has_need(acc, w) || needed(env, NodeV::Expr(e), w),
        env_laws::all_distinct(acc.effs) ==> env_laws::all_distinct(lint::needs_expr(e, env, acc).effs),
    decreases e, 0nat,
{
    law_needed_here_or_deeper(env, NodeV::Expr(e), w);
    assert(forall|i: int| !#[trigger] provides(env, NodeV::Expr(e), i, w));
    match e {
        ExprV::Literal(_) => {
        },
        ExprV::Variable(name, sigil) => {
        },
        ExprV::Borrow(name, sigil) => {
        },
        ExprV::BinaryOp(l, _, r) => {
            lemma_needed_of_one(env, NodeV::Expr(l.node), w);
            lemma_needed_of_one(env, NodeV::Expr(r.node), w);
            lemma_needed_of_both(env, seq![NodeV::Expr(l.node)], seq![NodeV::Expr(r.node)], w);
            lemma_needs_expr(l.node, env, acc, w);
            lemma_needs_expr(r.node, env, lint::needs_expr(l.node, env, acc), w);
        },
        ExprV::Index(l, r) => {
            lemma_needed_of_one(env, NodeV::Expr(l.node), w);
            lemma_needed_of_one(env, NodeV::Expr(r.node), w);
            lemma_needed_of_both(env, seq![NodeV::Expr(l.node)], seq![NodeV::Expr(r.node)], w);
            lemma_needs_expr(l.node, env, acc, w);
            lemma_needs_expr(r.node, env, lint::needs_expr(l.node, env, acc), w);
        },
        ExprV::Call { func, args } => {
            lemma_needs_labelled(args, 0, env, acc, w);
            lemma_with_call(lint::needs_labelled(args, 0, env, acc), env, func, w);
        },
        ExprV::Constructor(_, args) => {
            lemma_needs_ctor_args(args, 0, env, acc, w);
        },
        ExprV::Record(fs) => {
            lemma_needs_labelled(fs, 0, env, acc, w);
        },
        ExprV::Array(es) => {
            lemma_needs_exprs(es, 0, env, acc, w);
        },
        ExprV::List(es) => {
            lemma_needs_exprs(es, 0, env, acc, w);
        },
        ExprV::FieldAccess(x, _) => {
            lemma_needed_of_one(env, NodeV::Expr(x.node), w);
            lemma_needs_expr(x.node, env, acc, w);
        },
        ExprV::Raise(x) => {
            lemma_needed_of_one(env, NodeV::Expr(x.node), w);
            lemma_needs_expr(x.node, env, acc, w);
            let n = lint::needs_expr(x.node, env, acc);
            match w {
                NeedV::Effect(k) => lint_laws::lemma_after_with_text(n.effs, helpers::exn_name(), k),
                _ => {},
            }
            if env_laws::all_distinct(n.effs) {
                env_laws::lemma_with_text(n.effs, helpers::exn_name());
            }
        },
        ExprV::If { cond, then_branch, else_branch } => {
            let rest = match else_branch {
                Some(other) => tree::stmt_nodes(other),
                None => Seq::empty(),
            };
            lemma_needed_of_one(env, NodeV::Expr(cond.node), w);
            lemma_needed_of_both(env, seq![NodeV::Expr(cond.node)], tree::stmt_nodes(then_branch) + rest, w);
            lemma_needed_of_both(env, tree::stmt_nodes(then_branch), rest, w);
            lemma_needs_expr(cond.node, env, acc, w);
            lemma_needs_stmts(then_branch, 0, env, lint::needs_expr(cond.node, env, acc), w);
            match else_branch {
                Some(other) => lemma_needs_stmts(other, 0, env, lint::needs_stmts(then_branch, 0, env, lint::needs_expr(cond.node, env, acc)), w),
                None => {},
            }
        },
        ExprV::Match { target: on, cases } => {
            lemma_needed_of_one(env, NodeV::Expr(on.node), w);
            lemma_needed_of_both(env, seq![NodeV::Expr(on.node)], tree::case_nodes(cases), w);
            lemma_needs_expr(on.node, env, acc, w);
            lemma_needs_cases(cases, 0, env, lint::needs_expr(on.node, env, acc), w);
        },
        ExprV::While { cond, body } => {
            lemma_needed_of_one(env, NodeV::Expr(cond.node), w);
            lemma_needed_of_both(env, seq![NodeV::Expr(cond.node)], tree::stmt_nodes(body), w);
            lemma_needs_expr(cond.node, env, acc, w);
            lemma_needs_stmts(body, 0, env, lint::needs_expr(cond.node, env, acc), w);
        },
        ExprV::For { var: _, start, end_expr, body } => {
            lemma_needed_of_one(env, NodeV::Expr(start.node), w);
            lemma_needed_of_one(env, NodeV::Expr(end_expr.node), w);
            lemma_needed_of_both(env, seq![NodeV::Expr(start.node)], seq![NodeV::Expr(end_expr.node)] + tree::stmt_nodes(body), w);
            lemma_needed_of_both(env, seq![NodeV::Expr(end_expr.node)], tree::stmt_nodes(body), w);
            lemma_needs_expr(start.node, env, acc, w);
            lemma_needs_expr(end_expr.node, env, lint::needs_expr(start.node, env, acc), w);
            lemma_needs_stmts(body, 0, env, lint::needs_expr(end_expr.node, env, lint::needs_expr(start.node, env, acc)), w);
        },
        ExprV::Lambda { type_params: _, params: _, ret_type: _, requires: _, throws: _, body } => {
        },
        ExprV::External(_, _, _) => {
        },
        ExprV::Handler { coeffect_name, requires: _, functions } => {
        },
    }
}

#[verifier::spinoff_prover]
#[verifier::rlimit(40)]
proof fn lemma_needs_stmt(s: Spanned<StmtV>, env: EnvV, acc: NeedsV, w: NeedV)
    ensures
        has_need(lint::needs_stmt(s, env, acc), w) <==> has_need(acc, w) || needed(env, NodeV::Stmt(s), w),
        env_laws::all_distinct(acc.effs) ==> env_laws::all_distinct(lint::needs_stmt(s, env, acc).effs),
    decreases s, 0nat,
{
    law_needed_here_or_deeper(env, NodeV::Stmt(s), w);
    if !(s.node is Inject || s.node is Try) {
        assert(forall|i: int| !#[trigger] provides(env, NodeV::Stmt(s), i, w));
    }
    match s.node {
        StmtV::Let { name, sigil, typ: _, value } => {
            lemma_needed_of_one(env, NodeV::Expr(value.node), w);
            lemma_needs_expr(value.node, env, acc, w);
        },
        StmtV::LetPattern { pattern: _, value } => {
            lemma_needed_of_one(env, NodeV::Expr(value.node), w);
            lemma_needs_expr(value.node, env, acc, w);
        },
        StmtV::Expr(value) => {
            lemma_needed_of_one(env, NodeV::Expr(value.node), w);
            lemma_needs_expr(value.node, env, acc, w);
        },
        StmtV::Return(value) => {
            lemma_needed_of_one(env, NodeV::Expr(value.node), w);
            lemma_needs_expr(value.node, env, acc, w);
        },
        StmtV::Assign { target: to, value } => {
            lemma_needed_of_one(env, NodeV::Expr(to.node), w);
            lemma_needed_of_one(env, NodeV::Expr(value.node), w);
            lemma_needed_of_both(env, seq![NodeV::Expr(to.node)], seq![NodeV::Expr(value.node)], w);
            lemma_needs_expr(to.node, env, acc, w);
            lemma_needs_expr(value.node, env, lint::needs_expr(to.node, env, acc), w);
        },
        StmtV::Conc(tasks) => {
            lemma_needs_functions(tasks, 0, env, acc, w);
        },
        StmtV::Try { body, catch_param: _, catch_body } => {
            let b = lint::needs_stmts(body, 0, env, lint::no_needs());
            let c = lint::needs_stmts(catch_body, 0, env, lint::no_needs());
            let kept = NeedsV { effs: text::without_text(b.effs, helpers::exn_name()), ..b };
            assert(env_laws::all_distinct(lint::no_needs().effs));
            lemma_needs_stmts(body, 0, env, lint::no_needs(), w);
            lemma_needs_stmts(catch_body, 0, env, lint::no_needs(), w);
            match w {
                NeedV::Effect(k) => lemma_without_has(b.effs, helpers::exn_name(), k),
                _ => {},
            }
            lemma_merged(acc, kept, w);
            lemma_merged(lint::merged_needs(acc, kept), c, w);
            lemma_try_node(env, s, body, catch_body, w);
        },
        StmtV::Inject { handlers, body } => {
            let b = lint::needs_stmts(body, 0, env, lint::no_needs());
            lemma_needs_stmts(body, 0, env, lint::no_needs(), w);
            lemma_inject_needs(env, handlers, b, w);
            lemma_merged(acc, lint::inject_needs(env, handlers, b), w);
            lemma_inject_node(env, s, handlers, body, w);
        },
    }
}

proof fn lemma_needs_stmts(xs: Seq<Spanned<StmtV>>, i: nat, env: EnvV, acc: NeedsV, w: NeedV)
    ensures
        has_need(lint::needs_stmts(xs, i, env, acc), w) <==> has_need(acc, w) || some_needed(env, tree::stmt_nodes(xs), i, w),
        env_laws::all_distinct(acc.effs) ==> env_laws::all_distinct(lint::needs_stmts(xs, i, env, acc).effs),
    decreases xs, xs.len() - i,
{
    if i < xs.len() {
        let x = xs[i as int];
        assert(tree::stmt_nodes(xs)[i as int] == NodeV::Stmt(x));
        lemma_needed_from(env, tree::stmt_nodes(xs), i, w);
        lemma_needs_stmt(x, env, acc, w);
        lemma_needs_stmts(xs, i + 1, env, lint::needs_stmt(x, env, acc), w);
    }
}

proof fn lemma_needs_exprs(xs: Seq<Spanned<ExprV>>, i: nat, env: EnvV, acc: NeedsV, w: NeedV)
    ensures
        has_need(lint::needs_exprs(xs, i, env, acc), w) <==> has_need(acc, w) || some_needed(env, tree::expr_nodes(xs), i, w),
        env_laws::all_distinct(acc.effs) ==> env_laws::all_distinct(lint::needs_exprs(xs, i, env, acc).effs),
    decreases xs, xs.len() - i,
{
    if i < xs.len() {
        let x = xs[i as int];
        assert(tree::expr_nodes(xs)[i as int] == NodeV::Expr(x.node));
        lemma_needed_from(env, tree::expr_nodes(xs), i, w);
        lemma_needs_expr(x.node, env, acc, w);
        lemma_needs_exprs(xs, i + 1, env, lint::needs_expr(x.node, env, acc), w);
    }
}

proof fn lemma_needs_labelled(xs: Seq<(Text, Spanned<ExprV>)>, i: nat, env: EnvV, acc: NeedsV, w: NeedV)
    ensures
        has_need(lint::needs_labelled(xs, i, env, acc), w) <==> has_need(acc, w) || some_needed(env, tree::labelled_nodes(xs), i, w),
        env_laws::all_distinct(acc.effs) ==> env_laws::all_distinct(lint::needs_labelled(xs, i, env, acc).effs),
    decreases xs, xs.len() - i,
{
    if i < xs.len() {
        let x = xs[i as int];
        assert(tree::labelled_nodes(xs)[i as int] == NodeV::Expr(x.1.node));
        lemma_needed_from(env, tree::labelled_nodes(xs), i, w);
        lemma_needs_expr(x.1.node, env, acc, w);
        lemma_needs_labelled(xs, i + 1, env, lint::needs_expr(x.1.node, env, acc), w);
    }
}

proof fn lemma_needs_ctor_args(xs: Seq<(Option<Text>, Spanned<ExprV>)>, i: nat, env: EnvV, acc: NeedsV, w: NeedV)
    ensures
        has_need(lint::needs_ctor_args(xs, i, env, acc), w) <==> has_need(acc, w) || some_needed(env, tree::ctor_arg_nodes(xs), i, w),
        env_laws::all_distinct(acc.effs) ==> env_laws::all_distinct(lint::needs_ctor_args(xs, i, env, acc).effs),
    decreases xs, xs.len() - i,
{
    if i < xs.len() {
        let x = xs[i as int];
        assert(tree::ctor_arg_nodes(xs)[i as int] == NodeV::Expr(x.1.node));
        lemma_needed_from(env, tree::ctor_arg_nodes(xs), i, w);
        lemma_needs_expr(x.1.node, env, acc, w);
        lemma_needs_ctor_args(xs, i + 1, env, lint::needs_expr(x.1.node, env, acc), w);
    }
}

proof fn lemma_needs_cases(xs: Seq<MatchCaseV>, i: nat, env: EnvV, acc: NeedsV, w: NeedV)
    ensures
        has_need(lint::needs_cases(xs, i, env, acc), w) <==> has_need(acc, w) || some_needed(env, tree::case_nodes(xs), i, w),
        env_laws::all_distinct(acc.effs) ==> env_laws::all_distinct(lint::needs_cases(xs, i, env, acc).effs),
    decreases xs, xs.len() - i,
{
    if i < xs.len() {
        let x = xs[i as int];
        assert(tree::case_nodes(xs)[i as int] == NodeV::Case(x));
        lemma_needed_from(env, tree::case_nodes(xs), i, w);
        law_needed_here_or_deeper(env, NodeV::Case(x), w);
        assert(forall|i: int| !#[trigger] provides(env, NodeV::Case(x), i, w));
        lemma_needs_stmts(x.body, 0, env, acc, w);
        lemma_needs_cases(xs, i + 1, env, lint::needs_stmts(x.body, 0, env, acc), w);
    }
}

proof fn lemma_needs_functions(xs: Seq<FunctionV>, i: nat, env: EnvV, acc: NeedsV, w: NeedV)
    ensures
        has_need(lint::needs_functions(xs, i, env, acc), w) <==> has_need(acc, w) || some_needed(env, tree::function_nodes(xs), i, w),
        env_laws::all_distinct(acc.effs) ==> env_laws::all_distinct(lint::needs_functions(xs, i, env, acc).effs),
    decreases xs, xs.len() - i,
{
    if i < xs.len() {
        let x = xs[i as int];
        assert(tree::function_nodes(xs)[i as int] == NodeV::Function(x));
        lemma_needed_from(env, tree::function_nodes(xs), i, w);
        law_needed_here_or_deeper(env, NodeV::Function(x), w);
        assert(forall|i: int| !#[trigger] provides(env, NodeV::Function(x), i, w));
        lemma_needs_stmts(x.body, 0, env, acc, w);
        lemma_needs_functions(xs, i + 1, env, lint::needs_stmts(x.body, 0, env, acc), w);
    }
}


/// What a body needs is what its calls, raises and injections need, but for what an injection or
/// a `try` around them provides.
pub proof fn law_body_needs_what_its_calls_need(body: Seq<Spanned<StmtV>>, env: EnvV, w: NeedV)
    ensures
        has_need(lint::body_needs(body, env), w) <==> some_needed(env, tree::stmt_nodes(body), 0, w),
{
    lemma_needs_stmts(body, 0, env, lint::no_needs(), w);
}

/// Whether texts are the members that a row lists and a body does not need, in order.
pub open spec fn are_idle(
    names: Seq<Text>,
    row: TypeV,
    effects: bool,
    body: Seq<Spanned<StmtV>>,
    env: EnvV,
) -> bool {
    &&& text::in_order(names)
    &&& forall|k: Text|
        #[trigger] names.contains(k) <==> row_lists(row, k) && !some_needed(
            env,
            tree::stmt_nodes(body),
            0,
            if effects {
                NeedV::Effect(k)
            } else {
                NeedV::Coeffect(k)
            },
        )
}

proof fn lemma_sorted_has(s: Seq<Text>, k: Text)
    ensures
        text::sorted_texts(s).contains(k) <==> s.contains(k),
{
    text::law_sorted_texts(s);
    vstd::seq_lib::to_multiset_contains(s, k);
    vstd::seq_lib::to_multiset_contains(text::sorted_texts(s), k);
}

proof fn lemma_idle(row: TypeV, effects: bool, body: Seq<Spanned<StmtV>>, env: EnvV)
    ensures
        ({
            let n = lint::body_needs(body, env);
            let used = if effects {
                n.effs
            } else {
                n.reqs
            };
            are_idle(text::sorted_texts(text::difference_texts(lint::row_names(row).0, used)), row, effects, body, env)
        }),
{
    let n = lint::body_needs(body, env);
    let used = if effects {
        n.effs
    } else {
        n.reqs
    };
    let left = text::difference_texts(lint::row_names(row).0, used);
    let names = text::sorted_texts(left);
    text::law_sorted_texts(left);
    assert forall|k: Text| #[trigger] names.contains(k) <==> row_lists(row, k) && !some_needed(
        env,
        tree::stmt_nodes(body),
        0,
        if effects {
            NeedV::Effect(k)
        } else {
            NeedV::Coeffect(k)
        },
    ) by {
        lemma_sorted_has(left, k);
        lint_laws::lemma_has_text(left, k);
        lemma_difference_has(lint::row_names(row).0, used, k);
        lemma_row_names(row, k);
        if effects {
            law_body_needs_what_its_calls_need(body, env, NeedV::Effect(k));
        } else {
            law_body_needs_what_its_calls_need(body, env, NeedV::Coeffect(k));
        }
    }
}

/// Whether a warning is owed for a row that a function declares: it tells all its members, and
/// the body does not need some of them, which the warning lists.
pub open spec fn row_warned(
    name: Text,
    what: Text,
    row: TypeV,
    effects: bool,
    body: Seq<Spanned<StmtV>>,
    env: EnvV,
    message: Text,
) -> bool {
    row_tells_all(row) && exists|names: Seq<Text>|
        #[trigger] are_idle(names, row, effects, body, env) && names.len() > 0 && message
            == "Function '"@ + name + what + text::joined(names, ", "@)
}

/// A function is told of the coeffects and of the effects that it declares and its body does not
/// need, where all that the body needs is told; and there is a warning wherever there are such.
pub proof fn law_signatures_declare_what_is_needed(
    env: EnvV,
    def: Spanned<TopLevelV>,
    name: Text,
    body: Seq<Spanned<StmtV>>,
    reqs: TypeV,
    throws: TypeV,
    w: TypeWarningV,
)
    requires
        def.node matches TopLevelV::Let(gl) && gl.name == name && (
        gl.value.node matches ExprV::Lambda {
            type_params: _,
            params: _,
            ret_type: _,
            requires: q,
            throws: e,
            body: b,
        } && q == reqs && e == throws && b == body),
    ensures
        lint::signature_warning(Seq::empty(), env, def).contains(w) ==> w.span == def.span
            && !some_needed(env, tree::stmt_nodes(body), 0, NeedV::Untold) && (row_warned(
            name,
            "' declares reducible coeffects: "@,
            reqs,
            false,
            body,
            env,
            w.message,
        ) || row_warned(
            name,
            "' declares reducible effects: "@,
            throws,
            true,
            body,
            env,
            w.message,
        )),
        lint::signature_warning(Seq::empty(), env, def).len() == 0 && !some_needed(
            env,
            tree::stmt_nodes(body),
            0,
            NeedV::Untold,
        ) ==> (forall|k: Text|
            row_tells_all(reqs) && #[trigger] row_lists(reqs, k) ==> some_needed(
                env,
                tree::stmt_nodes(body),
                0,
                NeedV::Coeffect(k),
            )) && (forall|k: Text|
            row_tells_all(throws) && #[trigger] row_lists(throws, k) ==> some_needed(
                env,
                tree::stmt_nodes(body),
                0,
                NeedV::Effect(k),
            )),
{
    let n = lint::body_needs(body, env);
    let what1 = "' declares reducible coeffects: "@;
    let what2 = "' declares reducible effects: "@;
    let none = Seq::<TypeWarningV>::empty();
    let idle1 = text::sorted_texts(text::difference_texts(lint::row_names(reqs).0, n.reqs));
    let idle2 = text::sorted_texts(text::difference_texts(lint::row_names(throws).0, n.effs));
    law_body_needs_what_its_calls_need(body, env, NeedV::Untold);
    lemma_idle(reqs, false, body, env);
    lemma_idle(throws, true, body, env);
    lemma_row_names(reqs, Seq::empty());
    lemma_row_names(throws, Seq::empty());
    let first = lint::reducible_warning(none, name, what1, reqs, n.reqs, def.span);
    let w1 = TypeWarningV { message: "Function '"@ + name + what1 + text::joined(idle1, ", "@), span: def.span };
    let w2 = TypeWarningV { message: "Function '"@ + name + what2 + text::joined(idle2, ", "@), span: def.span };
    lint_laws::lemma_after_push(none, w1, w);
    lint_laws::lemma_after_push(first, w2, w);
    assert(are_idle(idle1, reqs, false, body, env));
    assert(are_idle(idle2, throws, true, body, env));
    if lint::signature_warning(none, env, def).len() == 0 && !n.unknown {
        assert forall|k: Text| row_tells_all(reqs) && #[trigger] row_lists(reqs, k) implies some_needed(
            env,
            tree::stmt_nodes(body),
            0,
            NeedV::Coeffect(k),
        ) by {
            assert(!idle1.contains(k));
        }
        assert forall|k: Text| row_tells_all(throws) && #[trigger] row_lists(throws, k) implies some_needed(
            env,
            tree::stmt_nodes(body),
            0,
            NeedV::Effect(k),
        ) by {
            assert(!idle2.contains(k));
        }
    }
}

} // verus!
