//! Type substitutions: application, composition, free variables and the occurs check.

use crate::table;
use crate::table::{find_key, put};
use crate::text;
use crate::text::{Text, list_add, str_eq};
use crate::types;
use crate::types::{Type, TypeV, copy_fields};
use vstd::prelude::*;

verus! {

/// A substitution: types by the names of the variables that they stand for.
pub type Subst = Vec<(String, Type)>;

/// The model of a substitution.
pub type SubstV = Seq<(Text, TypeV)>;

/// The empty substitution.
pub open spec fn no_subst() -> SubstV {
    Seq::empty()
}

/// Makes an empty substitution.
pub fn empty_subst() -> (r: Subst)
    ensures
        types::fields_view(r@) == no_subst(),
{
    let r: Vec<(String, Type)> = Vec::new();
    assert(types::fields_view(r@) =~= no_subst());
    r
}

/// The type that a substitution gives a variable.
pub fn subst_get<'a>(s: &'a Vec<(String, Type)>, n: &str) -> (r: Option<&'a Type>)
    ensures
        match r {
            Some(t) => table::lookup(types::fields_view(s@), n@) == Some(t@),
            None => table::lookup(types::fields_view(s@), n@) is None,
        },
{
    assert(table::keys_of(types::fields_view(s@)) =~= table::raw_keys(s@));
    match find_key(s, n) {
        Some(i) => Some(&s[i].1),
        None => None,
    }
}

/// Binds a variable in a substitution.
pub fn subst_put(s: &mut Vec<(String, Type)>, n: String, t: Type)
    ensures
        types::fields_view(final(s)@) == table::store(types::fields_view(old(s)@), n@, t@),
{
    proof {
        assert(table::keys_of(types::fields_view(s@)) =~= table::raw_keys(s@));
        table::lemma_index_of_text(table::raw_keys(s@), n@, 0);
    }
    put(s, n, t);
    assert(types::fields_view(s@) =~= table::store(types::fields_view(old(s)@), n@, t@));
}

/// Applies a substitution to a type and to all types inside it.
pub open spec fn substituted(s: SubstV, t: TypeV) -> TypeV
    decreases t, 0nat,
{
    match t {
        TypeV::Var(n) => match table::lookup(s, n) {
            Some(u) => u,
            None => t,
        },
        TypeV::UserDefined(n, args) => TypeV::UserDefined(n, substituted_list(s, args)),
        TypeV::Arrow(p, r, q, e) => TypeV::Arrow(
            substituted_fields(s, p),
            Box::new(substituted(s, *r)),
            Box::new(substituted(s, *q)),
            Box::new(substituted(s, *e)),
        ),
        TypeV::Ref(i) => TypeV::Ref(Box::new(substituted(s, *i))),
        TypeV::Linear(i) => TypeV::Linear(Box::new(substituted(s, *i))),
        TypeV::Lazy(i) => TypeV::Lazy(Box::new(substituted(s, *i))),
        TypeV::Borrow(i) => TypeV::Borrow(Box::new(substituted(s, *i))),
        TypeV::Array(i) => TypeV::Array(Box::new(substituted(s, *i))),
        TypeV::List(i) => TypeV::List(Box::new(substituted(s, *i))),
        TypeV::Handler(n, i) => TypeV::Handler(n, Box::new(substituted(s, *i))),
        TypeV::Row(es, tail) => TypeV::Row(substituted_list(s, es), substituted_tail(s, tail)),
        TypeV::Record(fs) => TypeV::Record(substituted_fields(s, fs)),
        _ => t,
    }
}

/// `substituted` on each type of a list.
pub open spec fn substituted_list(s: SubstV, ts: Seq<TypeV>) -> Seq<TypeV>
    decreases ts, 0nat,
{
    Seq::new(
        ts.len(),
        |i: int|
            if 0 <= i < ts.len() {
                substituted(s, ts[i])
            } else {
                arbitrary()
            },
    )
}

/// `substituted` on each type of a list of labelled types.
pub open spec fn substituted_fields(s: SubstV, fs: Seq<(Text, TypeV)>) -> Seq<(Text, TypeV)>
    decreases fs, 0nat,
{
    Seq::new(
        fs.len(),
        |i: int|
            if 0 <= i < fs.len() {
                (fs[i].0, substituted(s, fs[i].1))
            } else {
                arbitrary()
            },
    )
}

/// `substituted` on the tail of a row.
pub open spec fn substituted_tail(s: SubstV, t: Option<Box<TypeV>>) -> Option<Box<TypeV>>
    decreases t, 0nat,
{
    match t {
        Some(b) => Some(Box::new(substituted(s, *b))),
        None => None,
    }
}

/// Applies a substitution to a type and to all types inside it.
pub fn apply_subst_type(subst: &Vec<(String, Type)>, typ: &Type) -> (r: Type)
    ensures
        r@ == substituted(types::fields_view(subst@), typ@),
    decreases typ,
{
    match typ {
        Type::Var(n) => match subst_get(subst, n.as_str()) {
            Some(t) => t.clone(),
            None => typ.clone(),
        },
        Type::UserDefined(n, args) => Type::UserDefined(
            n.clone(),
            apply_subst_type_list(subst, args),
        ),
        Type::Arrow(p, r, q, e) => Type::Arrow(
            apply_subst_type_fields(subst, p),
            Box::new(apply_subst_type(subst, r)),
            Box::new(apply_subst_type(subst, q)),
            Box::new(apply_subst_type(subst, e)),
        ),
        Type::Ref(i) => Type::Ref(Box::new(apply_subst_type(subst, i))),
        Type::Linear(i) => Type::Linear(Box::new(apply_subst_type(subst, i))),
        Type::Lazy(i) => Type::Lazy(Box::new(apply_subst_type(subst, i))),
        Type::Borrow(i) => Type::Borrow(Box::new(apply_subst_type(subst, i))),
        Type::Array(i) => Type::Array(Box::new(apply_subst_type(subst, i))),
        Type::List(i) => Type::List(Box::new(apply_subst_type(subst, i))),
        Type::Handler(n, i) => Type::Handler(n.clone(), Box::new(apply_subst_type(subst, i))),
        Type::Row(es, tail) => Type::Row(apply_subst_type_list(subst, es), apply_subst_type_tail(subst, tail)),
        Type::Record(fs) => Type::Record(apply_subst_type_fields(subst, fs)),
        _ => typ.clone(),
    }
}

/// `apply_subst_type` on each type of a list.
pub fn apply_subst_type_list(subst: &Vec<(String, Type)>, ts: &Vec<Type>) -> (r: Vec<Type>)
    ensures
        types::types_view(r@) == substituted_list(types::fields_view(subst@), types::types_view(ts@)),
    decreases ts,
{
    let mut out: Vec<Type> = Vec::new();
    let mut i: usize = 0;
    while i < ts.len()
        invariant
            i <= ts.len(),
            out.len() == i,
            forall|j: int|
                0 <= j < i ==> (#[trigger] out@[j])@ == substituted(types::fields_view(subst@), ts@[j]@),
        decreases ts.len() - i,
    {
        out.push(apply_subst_type(subst, &ts[i]));
        i = i + 1;
    }
    assert(types::types_view(out@) =~= substituted_list(types::fields_view(subst@), types::types_view(ts@)));
    out
}

/// `apply_subst_type` on each type of a list of labelled types.
pub fn apply_subst_type_fields(subst: &Vec<(String, Type)>, fs: &Vec<(String, Type)>) -> (r: Vec<(String, Type)>)
    ensures
        types::fields_view(r@) == substituted_fields(types::fields_view(subst@), types::fields_view(fs@)),
    decreases fs,
{
    let mut out: Vec<(String, Type)> = Vec::new();
    let mut i: usize = 0;
    while i < fs.len()
        invariant
            i <= fs.len(),
            out.len() == i,
            forall|j: int|
                0 <= j < i ==> (#[trigger] out@[j]).0@ == fs@[j].0@ && out@[j].1@ == substituted(
                    types::fields_view(subst@), fs@[j].1@,
                ),
        decreases fs.len() - i,
    {
        let item = &fs[i];
        out.push((item.0.clone(), apply_subst_type(subst, &item.1)));
        i = i + 1;
    }
    assert(types::fields_view(out@) =~= substituted_fields(types::fields_view(subst@), types::fields_view(fs@)));
    out
}

fn apply_subst_type_tail(subst: &Vec<(String, Type)>, t: &Option<Box<Type>>) -> (r: Option<Box<Type>>)
    ensures
        types::tail_view(r) == substituted_tail(types::fields_view(subst@), types::tail_view(*t)),
    decreases t,
{
    match t {
        Some(b) => Some(Box::new(apply_subst_type(subst, b))),
        None => None,
    }
}

/// `res` extended by the bindings of `s1` from index `i` on, each under `s2`.
pub open spec fn composed_from(res: SubstV, s1: SubstV, s2: SubstV, i: nat) -> SubstV
    decreases s1.len() - i,
{
    if i >= s1.len() {
        res
    } else {
        composed_from(
            table::store(res, s1[i as int].0, substituted(s2, s1[i as int].1)),
            s1,
            s2,
            i + 1,
        )
    }
}

/// The substitution that applies `s1` first and `s2` second.
#[verifier::opaque]
pub open spec fn composed(s1: SubstV, s2: SubstV) -> SubstV {
    composed_from(s2, s1, s2, 0)
}

/// Composes two substitutions.
pub fn compose_subst(s1: &Vec<(String, Type)>, s2: &Vec<(String, Type)>) -> (r: Subst)
    ensures
        types::fields_view(r@) == composed(types::fields_view(s1@), types::fields_view(s2@)),
{
    proof {
        reveal(composed);
    }
    let mut res = copy_fields(s2);
    let mut i: usize = 0;
    while i < s1.len()
        invariant
            i <= s1.len(),
            composed_from(types::fields_view(res@), types::fields_view(s1@), types::fields_view(s2@), i as nat)
                == composed(types::fields_view(s1@), types::fields_view(s2@)),
        decreases s1.len() - i,
    {
        let item = &s1[i];
        let t = apply_subst_type(s2, &item.1);
        subst_put(&mut res, item.0.clone(), t);
        i = i + 1;
    }
    res
}

/// Whether a type variable occurs in a type. Lazy types and handlers are not entered.
pub open spec fn occurs(n: Text, t: TypeV) -> bool
    decreases t, 0nat,
{
    match t {
        TypeV::Var(m) => n == m,
        TypeV::UserDefined(_, args) => occurs_any(n, args, 0),
        TypeV::Arrow(p, r, q, e) => {
            occurs(n, *r) || occurs_field(n, p, 0) || occurs(n, *q) || occurs(n, *e)
        },
        TypeV::Ref(i) => occurs(n, *i),
        TypeV::Linear(i) => occurs(n, *i),
        TypeV::Borrow(i) => occurs(n, *i),
        TypeV::Array(i) => occurs(n, *i),
        TypeV::List(i) => occurs(n, *i),
        TypeV::Row(es, tail) => {
            occurs_any(n, es, 0) || match tail {
                Some(x) => occurs(n, *x),
                None => false,
            }
        },
        TypeV::Record(fs) => occurs_field(n, fs, 0),
        _ => false,
    }
}

/// `occurs` on one of the types from index `i` on.
pub open spec fn occurs_any(n: Text, ts: Seq<TypeV>, i: nat) -> bool
    decreases ts, ts.len() - i,
{
    i < ts.len() && (occurs(n, ts[i as int]) || occurs_any(n, ts, i + 1))
}

/// `occurs` on one of the labelled types from index `i` on.
pub open spec fn occurs_field(n: Text, fs: Seq<(Text, TypeV)>, i: nat) -> bool
    decreases fs, fs.len() - i,
{
    i < fs.len() && (occurs(n, fs[i as int].1) || occurs_field(n, fs, i + 1))
}

/// Whether a type variable occurs in a type. Lazy types and handlers are not entered.
pub fn occurs_check(n: &str, typ: &Type) -> (r: bool)
    ensures
        r == occurs(n@, typ@),
    decreases typ,
{
    match typ {
        Type::Var(m) => str_eq(n, m.as_str()),
        Type::UserDefined(_, args) => occurs_check_any(n, args),
        Type::Arrow(p, r, q, e) => {
            occurs_check(n, r) || occurs_check_field(n, p) || occurs_check(n, q) || occurs_check(n, e)
        },
        Type::Ref(i) => occurs_check(n, i),
        Type::Linear(i) => occurs_check(n, i),
        Type::Borrow(i) => occurs_check(n, i),
        Type::Array(i) => occurs_check(n, i),
        Type::List(i) => occurs_check(n, i),
        Type::Row(es, tail) => {
            occurs_check_any(n, es) || match tail {
                Some(x) => occurs_check(n, x),
                None => false,
            }
        },
        Type::Record(fs) => occurs_check_field(n, fs),
        _ => false,
    }
}

fn occurs_check_any(n: &str, ts: &Vec<Type>) -> (r: bool)
    ensures
        r == occurs_any(n@, types::types_view(ts@), 0),
    decreases ts,
{
    let mut i: usize = 0;
    while i < ts.len()
        invariant
            i <= ts.len(),
            occurs_any(n@, types::types_view(ts@), 0) == occurs_any(
                n@, types::types_view(ts@),
                i as nat,
            ),
        decreases ts.len() - i,
    {
        if occurs_check(n, &ts[i]) {
            return true;
        }
        i = i + 1;
    }
    false
}

fn occurs_check_field(n: &str, fs: &Vec<(String, Type)>) -> (r: bool)
    ensures
        r == occurs_field(n@, types::fields_view(fs@), 0),
    decreases fs,
{
    let mut i: usize = 0;
    while i < fs.len()
        invariant
            i <= fs.len(),
            occurs_field(n@, types::fields_view(fs@), 0) == occurs_field(
                n@, types::fields_view(fs@),
                i as nat,
            ),
        decreases fs.len() - i,
    {
        if occurs_check(n, &fs[i].1) {
            return true;
        }
        i = i + 1;
    }
    false
}

/// The set `acc` extended by the free variables of a type. Lazy types and handlers are not
/// entered.
pub open spec fn free_vars(acc: Seq<Text>, t: TypeV) -> Seq<Text>
    decreases t, 0nat,
{
    match t {
        TypeV::Var(n) => text::with_text(acc, n),
        TypeV::Arrow(p, r, q, e) => free_vars(
            free_vars(free_vars_fields(free_vars(acc, *r), p, 0), *q),
            *e,
        ),
        TypeV::UserDefined(_, args) => free_vars_list(acc, args, 0),
        TypeV::Ref(i) => free_vars(acc, *i),
        TypeV::Linear(i) => free_vars(acc, *i),
        TypeV::Borrow(i) => free_vars(acc, *i),
        TypeV::Array(i) => free_vars(acc, *i),
        TypeV::List(i) => free_vars(acc, *i),
        TypeV::Row(es, tail) => match tail {
            Some(x) => free_vars(free_vars_list(acc, es, 0), *x),
            None => free_vars_list(acc, es, 0),
        },
        TypeV::Record(fs) => free_vars_fields(acc, fs, 0),
        _ => acc,
    }
}

/// `acc` extended by the free variables of the types from index `i` on.
pub open spec fn free_vars_list(acc: Seq<Text>, ts: Seq<TypeV>, i: nat) -> Seq<Text>
    decreases ts, ts.len() - i,
{
    if i >= ts.len() {
        acc
    } else {
        free_vars_list(free_vars(acc, ts[i as int]), ts, i + 1)
    }
}

/// `acc` extended by the free variables of the labelled types from index `i` on.
pub open spec fn free_vars_fields(acc: Seq<Text>, fs: Seq<(Text, TypeV)>, i: nat) -> Seq<Text>
    decreases fs, fs.len() - i,
{
    if i >= fs.len() {
        acc
    } else {
        free_vars_fields(free_vars(acc, fs[i as int].1), fs, i + 1)
    }
}

/// Adds the free variables of a type to a set.
pub fn add_free_vars(acc: &mut Vec<String>, typ: &Type)
    ensures
        text::texts(final(acc)@) == free_vars(text::texts(old(acc)@), typ@),
    decreases typ,
{
    match typ {
        Type::Var(n) => list_add(acc, n.clone()),
        Type::Arrow(p, r, q, e) => {
            add_free_vars(acc, r);
            add_free_vars_fields(acc, p);
            add_free_vars(acc, q);
            add_free_vars(acc, e);
        },
        Type::UserDefined(_, args) => add_free_vars_list(acc, args),
        Type::Ref(i) => add_free_vars(acc, i),
        Type::Linear(i) => add_free_vars(acc, i),
        Type::Borrow(i) => add_free_vars(acc, i),
        Type::Array(i) => add_free_vars(acc, i),
        Type::List(i) => add_free_vars(acc, i),
        Type::Row(es, tail) => {
            add_free_vars_list(acc, es);
            match tail {
                Some(x) => add_free_vars(acc, x),
                None => {},
            }
        },
        Type::Record(fs) => add_free_vars_fields(acc, fs),
        _ => {},
    }
}

fn add_free_vars_list(acc: &mut Vec<String>, ts: &Vec<Type>)
    ensures
        text::texts(final(acc)@) == free_vars_list(text::texts(old(acc)@), types::types_view(ts@), 0),
    decreases ts,
{
    let mut i: usize = 0;
    while i < ts.len()
        invariant
            i <= ts.len(),
            free_vars_list(text::texts(acc@), types::types_view(ts@), i as nat) == free_vars_list(
                text::texts(old(acc)@),
                types::types_view(ts@),
                0,
            ),
        decreases ts.len() - i,
    {
        add_free_vars(acc, &ts[i]);
        i = i + 1;
    }
}

fn add_free_vars_fields(acc: &mut Vec<String>, fs: &Vec<(String, Type)>)
    ensures
        text::texts(final(acc)@) == free_vars_fields(text::texts(old(acc)@), types::fields_view(fs@), 0),
    decreases fs,
{
    let mut i: usize = 0;
    while i < fs.len()
        invariant
            i <= fs.len(),
            free_vars_fields(text::texts(acc@), types::fields_view(fs@), i as nat) == free_vars_fields(
                text::texts(old(acc)@),
                types::fields_view(fs@),
                0,
            ),
        decreases fs.len() - i,
    {
        add_free_vars(acc, &fs[i].1);
        i = i + 1;
    }
}

/// The free variables of a type. Lazy types and handlers are not entered.
pub fn get_free_vars_type(typ: &Type) -> (r: Vec<String>)
    ensures
        text::texts(r@) == free_vars(Seq::empty(), typ@),
{
    let mut acc: Vec<String> = Vec::new();
    assert(text::texts(acc@) =~= Seq::<Text>::empty());
    add_free_vars(&mut acc, typ);
    acc
}

} // verus!
