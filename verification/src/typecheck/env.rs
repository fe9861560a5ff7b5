//! Typing environments: schemes, definitions, linear bindings and modules by name.

use crate::ast;
use crate::ast::{EnumDefV, TypeDef, TypeDefV, VariantDefV};
use crate::table;
use crate::table::{find_key, put};
use crate::text;
use crate::text::{
    Text, cat3, copy_texts, join, list_add, list_difference, list_extend, list_has, list_remove,
    prefix_char, skip_chars, split_once, starts_with_char,
};
use crate::typecheck::helpers;
use crate::typecheck::helpers::is_auto_droppable;
use crate::typecheck::render;
use crate::typecheck::render::quote_all;
use crate::typecheck::subst;
use crate::typecheck::subst::{
    Subst, SubstV, apply_subst_type, empty_subst, get_free_vars_type, subst_put,
};
use crate::types;
use crate::types::{EnumDef, Span, Type, TypeV, VariantDef};
use vstd::prelude::*;

verus! {

/// A type error, with further labelled places.
#[derive(Debug)]
pub struct TypeError {
    pub message: String,
    pub span: Span,
    pub labels: Vec<(Span, String)>,
}

/// The model of a type error.
pub struct TypeErrorV {
    pub message: Text,
    pub span: Span,
    pub labels: Seq<(Span, Text)>,
}

impl TypeError {
    /// The model of this error.
    pub open spec fn view(&self) -> TypeErrorV {
        TypeErrorV {
            message: self.message@,
            span: self.span,
            labels: self.labels@.map_values(|l: (Span, String)| (l.0, l.1@)),
        }
    }

    /// An error with a message and a place.
    pub fn new(message: String, span: Span) -> (r: TypeError)
        ensures
            r@ == error_at(message@, span),
    {
        let labels: Vec<(Span, String)> = Vec::new();
        let r = TypeError { message, span, labels };
        assert(r@.labels =~= Seq::<(Span, Text)>::empty());
        r
    }

    /// The error with other labels.
    pub fn with_labels(self, labels: Vec<(Span, String)>) -> (r: TypeError)
        ensures
            r@ == (TypeErrorV {
                message: self@.message,
                span: self@.span,
                labels: labels@.map_values(|l: (Span, String)| (l.0, l.1@)),
            }),
    {
        TypeError { message: self.message, span: self.span, labels }
    }
}

/// The error with a message and a place, without labels.
pub open spec fn error_at(message: Text, span: Span) -> TypeErrorV {
    TypeErrorV { message, span, labels: Seq::empty() }
}

impl From<(String, Span)> for TypeError {
    fn from(report: (String, Span)) -> (r: TypeError)
        ensures
            r@ == error_at(report.0@, report.1),
    {
        TypeError::new(report.0, report.1)
    }
}

// What a conversion gives is said over the model of the error, in the contract of `from`: equal
// models do not make two errors the same value.
impl vstd::std_specs::convert::FromSpecImpl<(String, Span)> for TypeError {
    open spec fn obeys_from_spec() -> bool {
        false
    }

    open spec fn from_spec(report: (String, Span)) -> TypeError {
        arbitrary()
    }
}

/// A warning of the checker.
#[derive(Debug)]
pub struct TypeWarning {
    pub message: String,
    pub span: Span,
}

/// The model of a warning.
pub struct TypeWarningV {
    pub message: Text,
    pub span: Span,
}

impl TypeWarning {
    /// The model of this warning.
    pub open spec fn view(&self) -> TypeWarningV {
        TypeWarningV { message: self.message@, span: self.span }
    }
}

/// The models of a list of warnings.
pub open spec fn warnings_view(w: Seq<TypeWarning>) -> Seq<TypeWarningV> {
    w.map_values(|x: TypeWarning| x@)
}

/// A type that is general in some variables.
#[derive(Debug)]
pub struct Scheme {
    pub vars: Vec<String>,
    pub typ: Type,
}

/// The model of a scheme.
pub struct SchemeV {
    pub vars: Seq<Text>,
    pub typ: TypeV,
}

impl Scheme {
    /// The model of this scheme.
    pub open spec fn view(&self) -> SchemeV {
        SchemeV { vars: text::texts(self.vars@), typ: self.typ@ }
    }
}

impl Clone for Scheme {
    fn clone(&self) -> (r: Self)
        ensures
            r@ == self@,
    {
        Scheme { vars: copy_texts(&self.vars), typ: self.typ.clone() }
    }
}

/// The scheme that is general in nothing.
pub open spec fn mono(t: TypeV) -> SchemeV {
    SchemeV { vars: Seq::empty(), typ: t }
}

/// Makes the scheme that is general in nothing.
pub fn mono_scheme(typ: Type) -> (r: Scheme)
    ensures
        r@ == mono(typ@),
{
    let vars: Vec<String> = Vec::new();
    assert(text::texts(vars@) =~= Seq::<Text>::empty());
    Scheme { vars, typ }
}

/// A typing environment. Each table holds a key at most once (`keys_apart`); linear bindings
/// that are not consumed yet are in `linear_vars`.
#[derive(Debug)]
pub struct TypeEnv {
    pub vars: Vec<(String, Scheme)>,
    pub types: Vec<(String, TypeDef)>,
    pub enums: Vec<(String, EnumDef)>,
    pub linear_vars: Vec<String>,
    pub modules: Vec<(String, TypeEnv)>,
}

/// The model of a typing environment.
pub struct EnvV {
    pub vars: Seq<(Text, SchemeV)>,
    pub types: Seq<(Text, TypeDefV)>,
    pub enums: Seq<(Text, EnumDefV)>,
    pub linear_vars: Seq<Text>,
    pub modules: Seq<(Text, EnvV)>,
}

/// The models of a table of schemes.
pub open spec fn schemes_view(m: Seq<(String, Scheme)>) -> Seq<(Text, SchemeV)> {
    m.map_values(|e: (String, Scheme)| (e.0@, e.1@))
}

/// Finds one of the schemes by its key.
pub fn find_scheme<'a>(m: &'a Vec<(String, Scheme)>, k: &str) -> (r: Option<&'a Scheme>)
    ensures
        match r {
            Some(x) => table::lookup(schemes_view(m@), k@) == Some(x@),
            None => table::lookup(schemes_view(m@), k@) is None,
        },
{
    assert(table::keys_of(schemes_view(m@)) =~= table::raw_keys(m@));
    match find_key(m, k) {
        Some(i) => Some(&m[i].1),
        None => None,
    }
}

/// Stores one of the schemes under a key.
pub fn put_scheme(m: &mut Vec<(String, Scheme)>, k: String, v: Scheme)
    ensures
        schemes_view(final(m)@) == table::store(schemes_view(old(m)@), k@, v@),
{
    proof {
        assert(table::keys_of(schemes_view(m@)) =~= table::raw_keys(m@));
        table::lemma_index_of_text(table::raw_keys(m@), k@, 0);
    }
    put(m, k, v);
    assert(schemes_view(m@) =~= table::store(schemes_view(old(m)@), k@, v@));
}

/// A copy of a table of schemes.
pub fn copy_schemes(m: &Vec<(String, Scheme)>) -> (r: Vec<(String, Scheme)>)
    ensures
        schemes_view(r@) == schemes_view(m@),
{
    let mut out: Vec<(String, Scheme)> = Vec::new();
    let mut i: usize = 0;
    while i < m.len()
        invariant
            i <= m.len(),
            out.len() == i,
            forall|j: int|
                0 <= j < i ==> (#[trigger] out@[j]).0@ == m@[j].0@ && out@[j].1@ == m@[j].1@,
        decreases m.len() - i,
    {
        let e = &m[i];
        out.push((e.0.clone(), e.1.clone()));
        i = i + 1;
    }
    assert(schemes_view(out@) =~= schemes_view(m@));
    out
}

/// The models of a table of record type definitions.
pub open spec fn typedefs_view(m: Seq<(String, TypeDef)>) -> Seq<(Text, TypeDefV)> {
    m.map_values(|e: (String, TypeDef)| (e.0@, e.1@))
}

/// Finds one of the record type definitions by its key.
pub fn find_typedef<'a>(m: &'a Vec<(String, TypeDef)>, k: &str) -> (r: Option<&'a TypeDef>)
    ensures
        match r {
            Some(x) => table::lookup(typedefs_view(m@), k@) == Some(x@),
            None => table::lookup(typedefs_view(m@), k@) is None,
        },
{
    assert(table::keys_of(typedefs_view(m@)) =~= table::raw_keys(m@));
    match find_key(m, k) {
        Some(i) => Some(&m[i].1),
        None => None,
    }
}

/// Stores one of the record type definitions under a key.
pub fn put_typedef(m: &mut Vec<(String, TypeDef)>, k: String, v: TypeDef)
    ensures
        typedefs_view(final(m)@) == table::store(typedefs_view(old(m)@), k@, v@),
{
    proof {
        assert(table::keys_of(typedefs_view(m@)) =~= table::raw_keys(m@));
        table::lemma_index_of_text(table::raw_keys(m@), k@, 0);
    }
    put(m, k, v);
    assert(typedefs_view(m@) =~= table::store(typedefs_view(old(m)@), k@, v@));
}

/// A copy of a table of record type definitions.
pub fn copy_typedefs(m: &Vec<(String, TypeDef)>) -> (r: Vec<(String, TypeDef)>)
    ensures
        typedefs_view(r@) == typedefs_view(m@),
{
    let mut out: Vec<(String, TypeDef)> = Vec::new();
    let mut i: usize = 0;
    while i < m.len()
        invariant
            i <= m.len(),
            out.len() == i,
            forall|j: int|
                0 <= j < i ==> (#[trigger] out@[j]).0@ == m@[j].0@ && out@[j].1@ == m@[j].1@,
        decreases m.len() - i,
    {
        let e = &m[i];
        out.push((e.0.clone(), e.1.clone()));
        i = i + 1;
    }
    assert(typedefs_view(out@) =~= typedefs_view(m@));
    out
}

/// The models of a table of sum types.
pub open spec fn enums_view(m: Seq<(String, EnumDef)>) -> Seq<(Text, EnumDefV)> {
    m.map_values(|e: (String, EnumDef)| (e.0@, e.1@))
}

/// Finds one of the sum types by its key.
pub fn find_enum<'a>(m: &'a Vec<(String, EnumDef)>, k: &str) -> (r: Option<&'a EnumDef>)
    ensures
        match r {
            Some(x) => table::lookup(enums_view(m@), k@) == Some(x@),
            None => table::lookup(enums_view(m@), k@) is None,
        },
{
    assert(table::keys_of(enums_view(m@)) =~= table::raw_keys(m@));
    match find_key(m, k) {
        Some(i) => Some(&m[i].1),
        None => None,
    }
}

/// Stores one of the sum types under a key.
pub fn put_enum(m: &mut Vec<(String, EnumDef)>, k: String, v: EnumDef)
    ensures
        enums_view(final(m)@) == table::store(enums_view(old(m)@), k@, v@),
{
    proof {
        assert(table::keys_of(enums_view(m@)) =~= table::raw_keys(m@));
        table::lemma_index_of_text(table::raw_keys(m@), k@, 0);
    }
    put(m, k, v);
    assert(enums_view(m@) =~= table::store(enums_view(old(m)@), k@, v@));
}

/// A copy of a table of sum types.
pub fn copy_enums(m: &Vec<(String, EnumDef)>) -> (r: Vec<(String, EnumDef)>)
    ensures
        enums_view(r@) == enums_view(m@),
{
    let mut out: Vec<(String, EnumDef)> = Vec::new();
    let mut i: usize = 0;
    while i < m.len()
        invariant
            i <= m.len(),
            out.len() == i,
            forall|j: int|
                0 <= j < i ==> (#[trigger] out@[j]).0@ == m@[j].0@ && out@[j].1@ == m@[j].1@,
        decreases m.len() - i,
    {
        let e = &m[i];
        out.push((e.0.clone(), e.1.clone()));
        i = i + 1;
    }
    assert(enums_view(out@) =~= enums_view(m@));
    out
}

impl TypeEnv {
    /// The model of this environment.
    pub open spec fn view(&self) -> EnvV
        decreases self,
    {
        EnvV {
            vars: schemes_view(self.vars@),
            types: typedefs_view(self.types@),
            enums: enums_view(self.enums@),
            linear_vars: text::texts(self.linear_vars@),
            modules: modules_view(self.modules@),
        }
    }
}

/// The models of a table of modules.
pub open spec fn modules_view(m: Seq<(String, TypeEnv)>) -> Seq<(Text, EnvV)>
    decreases m,
{
    Seq::new(
        m.len(),
        |i: int|
            if 0 <= i < m.len() {
                (m[i].0@, m[i].1.view())
            } else {
                arbitrary()
            },
    )
}

/// Finds a module by its name.
pub fn find_module<'a>(m: &'a Vec<(String, TypeEnv)>, k: &str) -> (r: Option<&'a TypeEnv>)
    ensures
        match r {
            Some(x) => table::lookup(modules_view(m@), k@) == Some(x@),
            None => table::lookup(modules_view(m@), k@) is None,
        },
{
    assert(table::keys_of(modules_view(m@)) =~= table::raw_keys(m@));
    match find_key(m, k) {
        Some(i) => Some(&m[i].1),
        None => None,
    }
}

/// Stores a module under a name.
pub fn put_module(m: &mut Vec<(String, TypeEnv)>, k: String, v: TypeEnv)
    ensures
        modules_view(final(m)@) == table::store(modules_view(old(m)@), k@, v@),
{
    proof {
        assert(table::keys_of(modules_view(m@)) =~= table::raw_keys(m@));
        table::lemma_index_of_text(table::raw_keys(m@), k@, 0);
    }
    put(m, k, v);
    assert(modules_view(m@) =~= table::store(modules_view(old(m)@), k@, v@));
}

impl Clone for TypeEnv {
    fn clone(&self) -> (r: Self)
        ensures
            r@ == self@,
        decreases self,
    {
        TypeEnv {
            vars: copy_schemes(&self.vars),
            types: copy_typedefs(&self.types),
            enums: copy_enums(&self.enums),
            linear_vars: copy_texts(&self.linear_vars),
            modules: copy_modules(&self.modules),
        }
    }
}

/// A copy of a table of modules.
pub fn copy_modules(m: &Vec<(String, TypeEnv)>) -> (r: Vec<(String, TypeEnv)>)
    ensures
        modules_view(r@) == modules_view(m@),
    decreases m,
{
    let mut out: Vec<(String, TypeEnv)> = Vec::new();
    let mut i: usize = 0;
    while i < m.len()
        invariant
            i <= m.len(),
            out.len() == i,
            forall|j: int|
                0 <= j < i ==> (#[trigger] out@[j]).0@ == m@[j].0@ && out@[j].1@ == m@[j].1@,
        decreases m.len() - i,
    {
        let e = &m[i];
        out.push((e.0.clone(), e.1.clone()));
        i = i + 1;
    }
    assert(modules_view(out@) =~= modules_view(m@));
    out
}

// ---------------------------------------------------------------------------
// Keys
// ---------------------------------------------------------------------------

/// Whether each table of an environment, and of the modules in it, holds a key at most once.
#[verifier::opaque]
pub open spec fn keys_apart(env: EnvV) -> bool
    decreases env,
{
    &&& table::distinct_keys(env.vars)
    &&& table::distinct_keys(env.types)
    &&& table::distinct_keys(env.enums)
    &&& env.linear_vars.no_duplicates()
    &&& table::distinct_keys(env.modules)
    &&& modules_apart(env.modules)
}

/// Whether `keys_apart` holds of each module of a table.
pub open spec fn modules_apart(m: Seq<(Text, EnvV)>) -> bool
    decreases m,
{
    forall|i: int| 0 <= i < m.len() ==> keys_apart((#[trigger] m[i]).1)
}

/// Whether an environment still holds each key at most once where an earlier one did.
pub open spec fn keys_kept(before: EnvV, after: EnvV) -> bool {
    keys_apart(before) ==> keys_apart(after)
}

/// A list that holds no text twice holds none twice with another one put in.
pub proof fn lemma_with_text_apart(s: Seq<Text>, x: Text)
    requires
        s.no_duplicates(),
    ensures
        text::with_text(s, x).no_duplicates(),
{
    table::lemma_index_of_text(s, x, 0);
}

proof fn lemma_without_text_apart(s: Seq<Text>, x: Text)
    requires
        s.no_duplicates(),
    ensures
        text::without_text(s, x).no_duplicates(),
{
    table::lemma_index_of_text(s, x, 0);
    if text::has_text(s, x) {
        let a = text::index_of_text(s, x, 0) as int;
        let n = s.remove(a);
        assert forall|j: int| 0 <= j < n.len() implies n[j] == s[if j < a {
            j
        } else {
            j + 1
        }] by {}
    }
}

/// The environment without bindings holds no key twice.
pub proof fn lemma_empty_keys_apart()
    ensures
        keys_apart(empty_env()),
{
    reveal(keys_apart);
}

/// The record types of an environment whose keys are apart.
pub proof fn lemma_types_apart(env: EnvV)
    ensures
        keys_apart(env) ==> table::distinct_keys(env.types),
{
    reveal(keys_apart);
}

/// Inserting a variable keeps keys apart.
pub proof fn lemma_insert_keeps_keys(env: EnvV, name: Text, s: SchemeV)
    ensures
        keys_kept(env, env_insert(env, name, s)),
{
    reveal(env_insert);
    reveal(keys_apart);
    if keys_apart(env) {
        table::law_store_keeps_keys_distinct(env.vars, name, s);
        lemma_with_text_apart(env.linear_vars, name);
    }
}

/// Consuming a name keeps keys apart.
pub proof fn lemma_consume_keeps_keys(env: EnvV, name: Text)
    ensures
        keys_kept(env, env_consume(env, name).1),
{
    reveal(env_consume);
    reveal(keys_apart);
    if keys_apart(env) {
        lemma_without_text_apart(env.linear_vars, name);
        lemma_without_text_apart(env.linear_vars, name.skip(1));
    }
}

/// Applying a substitution keeps keys apart.
pub proof fn lemma_apply_keeps_keys(s: SubstV, env: EnvV)
    ensures
        keys_kept(env, env_apply(s, env)),
    decreases env,
{
    reveal(env_apply);
    reveal(keys_apart);
    if keys_apart(env) {
        let m = env.modules;
        let n = modules_apply(s, m);
        assert forall|i: int| 0 <= i < n.len() implies keys_apart((#[trigger] n[i]).1) by {
            assert(keys_apart(m[i].1));
            lemma_apply_keeps_keys(s, m[i].1);
        }
        assert(modules_apart(n));
    }
}

/// Storing a record type keeps keys apart.
pub proof fn lemma_type_keeps_keys(env: EnvV, k: Text, td: TypeDefV)
    ensures
        keys_kept(env, EnvV { types: table::store(env.types, k, td), ..env }),
{
    reveal(keys_apart);
    if keys_apart(env) {
        table::law_store_keeps_keys_distinct(env.types, k, td);
    }
}

/// Storing a sum type keeps keys apart.
pub proof fn lemma_enum_keeps_keys(env: EnvV, k: Text, ed: EnumDefV)
    ensures
        keys_kept(env, EnvV { enums: table::store(env.enums, k, ed), ..env }),
{
    reveal(keys_apart);
    if keys_apart(env) {
        table::law_store_keeps_keys_distinct(env.enums, k, ed);
    }
}

/// Whether a table of modules holds a key at most once, and so does each module of it.
pub open spec fn module_table_apart(m: Seq<(Text, EnvV)>) -> bool {
    table::distinct_keys(m) && modules_apart(m)
}

/// Storing a module whose keys are apart keeps those of a table of modules apart.
pub proof fn lemma_module_stays_apart(m: Seq<(Text, EnvV)>, k: Text, pe: EnvV)
    requires
        module_table_apart(m),
        keys_apart(pe),
    ensures
        module_table_apart(table::store(m, k, pe)),
{
    reveal(keys_apart);
    table::law_store_keeps_keys_distinct(m, k, pe);
    let n = table::store(m, k, pe);
    assert forall|i: int| 0 <= i < n.len() implies keys_apart((#[trigger] n[i]).1) by {
        if i < m.len() {
            assert(keys_apart(m[i].1));
        }
    }
}

/// Storing a module whose keys are apart keeps keys apart.
pub proof fn lemma_module_keeps_keys(env: EnvV, k: Text, pe: EnvV)
    requires
        keys_apart(pe),
    ensures
        keys_kept(env, EnvV { modules: table::store(env.modules, k, pe), ..env }),
{
    reveal(keys_apart);
    if keys_apart(env) {
        lemma_module_stays_apart(env.modules, k, pe);
    }
}

/// Other linear bindings, none of them twice, keep keys apart.
pub proof fn lemma_linear_keeps_keys(env: EnvV, linear_vars: Seq<Text>)
    ensures
        linear_vars.no_duplicates() ==> keys_kept(env, EnvV { linear_vars, ..env }),
        keys_apart(env) ==> env.linear_vars.no_duplicates(),
{
    reveal(keys_apart);
}

// ---------------------------------------------------------------------------
// Lookup
// ---------------------------------------------------------------------------

/// The environment without bindings.
pub open spec fn empty_env() -> EnvV {
    EnvV {
        vars: Seq::empty(),
        types: Seq::empty(),
        enums: Seq::empty(),
        linear_vars: Seq::empty(),
        modules: Seq::empty(),
    }
}

/// Whether a scheme is that of a linear or lazy value.
pub open spec fn linear_scheme(s: SchemeV) -> bool {
    s.typ is Linear || s.typ is Lazy
}

/// The scheme stored under a key, if it is that of a linear or lazy value.
pub open spec fn lookup_linear(vars: Seq<(Text, SchemeV)>, k: Text) -> Option<SchemeV> {
    match table::lookup(vars, k) {
        Some(s) => {
            if linear_scheme(s) {
                Some(s)
            } else {
                None
            }
        },
        None => None,
    }
}

/// What a name stands for in an environment's own table: the key itself; for `%name` a linear
/// `name`; for a name without a sigil a linear `%name`.
pub open spec fn own_scheme(vars: Seq<(Text, SchemeV)>, name: Text) -> Option<SchemeV> {
    match table::lookup(vars, name) {
        Some(s) => Some(s),
        None => {
            if text::begins_with_char(name, '%') {
                lookup_linear(vars, name.skip(1))
            } else if text::begins_with_char(name, '&') || text::begins_with_char(name, '~') {
                None
            } else {
                lookup_linear(vars, text::prefixed('%', name))
            }
        },
    }
}

/// What a name stands for: in the environment itself, or as `module.item`.
pub open spec fn env_get(env: EnvV, name: Text) -> Option<SchemeV>
    decreases name.len(),
{
    match own_scheme(env.vars, name) {
        Some(s) => Some(s),
        None => match text::split_at_char(name, '.') {
            Some((m, item)) => match table::lookup(env.modules, m) {
                Some(me) => {
                    if item.len() < name.len() {
                        env_get(me, item)
                    } else {
                        None
                    }
                },
                None => None,
            },
            None => None,
        },
    }
}

/// The record type definition of a name, or of `module.item`.
pub open spec fn env_type(env: EnvV, name: Text) -> Option<TypeDefV>
    decreases name.len(),
{
    match text::split_at_char(name, '.') {
        Some((m, item)) => match table::lookup(env.modules, m) {
            Some(me) => {
                if item.len() < name.len() {
                    env_type(me, item)
                } else {
                    None
                }
            },
            None => None,
        },
        None => table::lookup(env.types, name),
    }
}

/// The sum type of a name, or of `module.item`.
pub open spec fn env_enum(env: EnvV, name: Text) -> Option<EnumDefV>
    decreases name.len(),
{
    match text::split_at_char(name, '.') {
        Some((m, item)) => match table::lookup(env.modules, m) {
            Some(me) => {
                if item.len() < name.len() {
                    env_enum(me, item)
                } else {
                    None
                }
            },
            None => None,
        },
        None => table::lookup(env.enums, name),
    }
}

fn find_linear_scheme<'a>(vars: &'a Vec<(String, Scheme)>, k: &str) -> (r: Option<&'a Scheme>)
    ensures
        match r {
            Some(x) => lookup_linear(schemes_view(vars@), k@) == Some(x@),
            None => lookup_linear(schemes_view(vars@), k@) is None,
        },
{
    match find_scheme(vars, k) {
        Some(s) => {
            if matches!(&s.typ, Type::Linear(_) | Type::Lazy(_)) {
                Some(s)
            } else {
                None
            }
        },
        None => None,
    }
}

fn find_own_scheme<'a>(vars: &'a Vec<(String, Scheme)>, name: &str) -> (r: Option<&'a Scheme>)
    ensures
        match r {
            Some(x) => own_scheme(schemes_view(vars@), name@) == Some(x@),
            None => own_scheme(schemes_view(vars@), name@) is None,
        },
{
    match find_scheme(vars, name) {
        Some(s) => Some(s),
        None => {
            if starts_with_char(name, '%') {
                let stripped = skip_chars(name, 1);
                find_linear_scheme(vars, stripped.as_str())
            } else if starts_with_char(name, '&') || starts_with_char(name, '~') {
                None
            } else {
                let key = prefix_char('%', name);
                find_linear_scheme(vars, key.as_str())
            }
        },
    }
}

/// The substitution `s` extended by the parameters from index `i` on, each bound to the
/// argument at its place.
pub open spec fn bound_params_from(
    s: SubstV,
    params: Seq<Text>,
    args: Seq<TypeV>,
    i: nat,
) -> SubstV
    decreases params.len() - i,
{
    if i >= params.len() || i >= args.len() {
        s
    } else {
        bound_params_from(table::store(s, params[i as int], args[i as int]), params, args, i + 1)
    }
}

/// The substitution that binds type parameters to arguments.
pub open spec fn bound_params(params: Seq<Text>, args: Seq<TypeV>) -> SubstV {
    bound_params_from(subst::no_subst(), params, args, 0)
}

/// Binds type parameters to arguments.
pub fn bind_params(params: &Vec<String>, args: &Vec<Type>) -> (r: Subst)
    ensures
        types::fields_view(r@) == bound_params(text::texts(params@), types::types_view(args@)),
{
    let mut s = empty_subst();
    let mut i: usize = 0;
    while i < params.len() && i < args.len()
        invariant
            i <= params.len(),
            i <= args.len(),
            bound_params_from(types::fields_view(s@), text::texts(params@), types::types_view(args@), i as nat)
                == bound_params(text::texts(params@), types::types_view(args@)),
        decreases params.len() - i,
    {
        subst_put(&mut s, params[i].clone(), args[i].clone());
        i = i + 1;
    }
    s
}

// ---------------------------------------------------------------------------
// Linear data
// ---------------------------------------------------------------------------

/// Whether a type holds linear data. Definitions in `visiting` are being looked at already;
/// `depth` bounds the number of nested definitions.
pub open spec fn linear_in(env: EnvV, t: TypeV, visiting: Seq<Text>, depth: nat) -> bool
    decreases depth, 0nat, t, 0nat,
{
    match t {
        TypeV::Linear(_) => true,
        TypeV::Lazy(_) => true,
        TypeV::Array(_) => true,
        TypeV::Ref(i) => linear_in(env, *i, visiting, depth),
        TypeV::List(i) => linear_in(env, *i, visiting, depth),
        TypeV::UserDefined(name, args) => {
            linear_any(env, args, 0, visiting, depth) || (depth > 0 && !text::has_text(visiting, name)
                && linear_definition(
                env,
                name,
                args,
                visiting.push(name),
                (depth - 1) as nat,
            ))
        },
        TypeV::Row(es, tail) => {
            linear_any(env, es, 0, visiting, depth) || match tail {
                Some(x) => linear_in(env, *x, visiting, depth),
                None => false,
            }
        },
        TypeV::Record(fs) => linear_field(env, fs, 0, visiting, depth),
        _ => false,
    }
}

/// `linear_in` on one of the types from index `i` on.
pub open spec fn linear_any(
    env: EnvV,
    ts: Seq<TypeV>,
    i: nat,
    visiting: Seq<Text>,
    depth: nat,
) -> bool
    decreases depth, 0nat, ts, ts.len() - i,
{
    i < ts.len() && (linear_in(env, ts[i as int], visiting, depth) || linear_any(
        env,
        ts,
        i + 1,
        visiting,
        depth,
    ))
}

/// `linear_in` on one of the labelled types from index `i` on.
pub open spec fn linear_field(
    env: EnvV,
    fs: Seq<(Text, TypeV)>,
    i: nat,
    visiting: Seq<Text>,
    depth: nat,
) -> bool
    decreases depth, 0nat, fs, fs.len() - i,
{
    i < fs.len() && (linear_in(env, fs[i as int].1, visiting, depth) || linear_field(
        env,
        fs,
        i + 1,
        visiting,
        depth,
    ))
}

/// Whether the definition of a name, taken at its arguments, holds linear data.
pub open spec fn linear_definition(
    env: EnvV,
    name: Text,
    args: Seq<TypeV>,
    visiting: Seq<Text>,
    depth: nat,
) -> bool
    decreases depth, 4nat, args, 0nat,
{
    match env_type(env, name) {
        Some(td) => linear_instance(
            env,
            bound_params(td.type_params, args),
            td.fields,
            0,
            visiting,
            depth,
        ),
        None => match env_enum(env, name) {
            Some(ed) => linear_variants(
                env,
                bound_params(ed.type_params, args),
                ed.variants,
                0,
                visiting,
                depth,
            ),
            None => false,
        },
    }
}

/// Whether one of the fields from index `i` on, under a substitution, holds linear data.
pub open spec fn linear_instance(
    env: EnvV,
    s: SubstV,
    fs: Seq<(Text, TypeV)>,
    i: nat,
    visiting: Seq<Text>,
    depth: nat,
) -> bool
    decreases depth, 2nat, fs, fs.len() - i,
{
    i < fs.len() && (linear_in(env, subst::substituted(s, fs[i as int].1), visiting, depth)
        || linear_instance(env, s, fs, i + 1, visiting, depth))
}

/// Whether one of the constructor fields from index `i` on, under a substitution, holds linear
/// data.
pub open spec fn linear_ctor_fields(
    env: EnvV,
    s: SubstV,
    fs: Seq<(Option<Text>, TypeV)>,
    i: nat,
    visiting: Seq<Text>,
    depth: nat,
) -> bool
    decreases depth, 2nat, fs, fs.len() - i,
{
    i < fs.len() && (linear_in(env, subst::substituted(s, fs[i as int].1), visiting, depth)
        || linear_ctor_fields(env, s, fs, i + 1, visiting, depth))
}

/// Whether one of the constructors from index `i` on, under a substitution, holds linear data.
pub open spec fn linear_variants(
    env: EnvV,
    s: SubstV,
    vs: Seq<VariantDefV>,
    i: nat,
    visiting: Seq<Text>,
    depth: nat,
) -> bool
    decreases depth, 3nat, vs, vs.len() - i,
{
    i < vs.len() && (linear_ctor_fields(env, s, vs[i as int].fields, 0, visiting, depth)
        || linear_variants(env, s, vs, i + 1, visiting, depth))
}

/// Whether a type holds linear data anywhere inside it. More definitions than fit in memory
/// would have to be nested for the bound to matter.
pub open spec fn has_linear(env: EnvV, t: TypeV) -> bool {
    linear_in(env, t, Seq::empty(), usize::MAX as nat)
}

impl TypeEnv {
    /// Creates an empty typing environment.
    pub fn new() -> (r: TypeEnv)
        ensures
            r@ == empty_env(),
            keys_apart(r@),
    {
        let r = TypeEnv {
            vars: Vec::new(),
            types: Vec::new(),
            enums: Vec::new(),
            linear_vars: Vec::new(),
            modules: Vec::new(),
        };
        proof {
            assert(schemes_view(r.vars@) =~= Seq::<(Text, SchemeV)>::empty());
            assert(typedefs_view(r.types@) =~= Seq::<(Text, TypeDefV)>::empty());
            assert(enums_view(r.enums@) =~= Seq::<(Text, EnumDefV)>::empty());
            assert(text::texts(r.linear_vars@) =~= Seq::<Text>::empty());
            assert(modules_view(r.modules@) =~= Seq::<(Text, EnvV)>::empty());
            lemma_empty_keys_apart();
        }
        r
    }

    /// Resolves a value binding by local name or `module.item`. For `%name` a linear `name` is
    /// found too, and for `name` a linear `%name`.
    pub fn get(&self, name: &str) -> (r: Option<&Scheme>)
        ensures
            match r {
                Some(s) => env_get(self@, name@) == Some(s@),
                None => env_get(self@, name@) is None,
            },
        decreases name@.len(),
    {
        match find_own_scheme(&self.vars, name) {
            Some(s) => Some(s),
            None => match split_once(name, '.') {
                Some((m, item)) => {
                    proof {
                        lemma_split_shorter(name@, '.');
                    }
                    match find_module(&self.modules, m.as_str()) {
                        Some(me) => me.get(item.as_str()),
                        None => None,
                    }
                },
                None => None,
            },
        }
    }

    /// Resolves a type definition by local name or `module.item`.
    pub fn get_type(&self, name: &str) -> (r: Option<&TypeDef>)
        ensures
            match r {
                Some(s) => env_type(self@, name@) == Some(s@),
                None => env_type(self@, name@) is None,
            },
        decreases name@.len(),
    {
        match split_once(name, '.') {
            Some((m, item)) => {
                proof {
                    lemma_split_shorter(name@, '.');
                }
                match find_module(&self.modules, m.as_str()) {
                    Some(me) => me.get_type(item.as_str()),
                    None => None,
                }
            },
            None => find_typedef(&self.types, name),
        }
    }

    /// Resolves an enum definition by local name or `module.item`.
    pub fn get_enum(&self, name: &str) -> (r: Option<&EnumDef>)
        ensures
            match r {
                Some(s) => env_enum(self@, name@) == Some(s@),
                None => env_enum(self@, name@) is None,
            },
        decreases name@.len(),
    {
        match split_once(name, '.') {
            Some((m, item)) => {
                proof {
                    lemma_split_shorter(name@, '.');
                }
                match find_module(&self.modules, m.as_str()) {
                    Some(me) => me.get_enum(item.as_str()),
                    None => None,
                }
            },
            None => find_enum(&self.enums, name),
        }
    }

    /// Returns whether a type contains linear data anywhere inside it.
    pub fn contains_linear_type(&self, typ: &Type) -> (r: bool)
        ensures
            r == has_linear(self@, typ@),
    {
        let visiting: Vec<String> = Vec::new();
        assert(text::texts(visiting@) =~= Seq::<Text>::empty());
        self.contains_linear_type_inner(typ, &visiting, usize::MAX)
    }

    fn contains_linear_type_inner(
        &self,
        typ: &Type,
        visiting: &Vec<String>,
        depth: usize,
    ) -> (r: bool)
        ensures
            r == linear_in(self@, typ@, text::texts(visiting@), depth as nat),
        decreases depth, 0nat, typ, 0nat,
    {
        match typ {
            Type::Linear(_) => true,
            Type::Lazy(_) => true,
            Type::Array(_) => true,
            Type::Ref(i) => self.contains_linear_type_inner(i, visiting, depth),
            Type::List(i) => self.contains_linear_type_inner(i, visiting, depth),
            Type::UserDefined(name, args) => {
                if self.linear_any_type(args, visiting, depth) {
                    return true;
                }
                if depth == 0 || list_has(visiting, name.as_str()) {
                    return false;
                }
                let mut inner = copy_texts(visiting);
                inner.push(name.clone());
                assert(text::texts(inner@) =~= text::texts(visiting@).push(name@));
                self.definition_is_linear(name.as_str(), args, &inner, depth - 1)
            },
            Type::Row(es, tail) => {
                self.linear_any_type(es, visiting, depth) || match tail {
                    Some(x) => self.contains_linear_type_inner(x, visiting, depth),
                    None => false,
                }
            },
            Type::Record(fs) => self.linear_any_field(fs, visiting, depth),
            _ => false,
        }
    }

    fn linear_any_type(&self, ts: &Vec<Type>, visiting: &Vec<String>, depth: usize) -> (r: bool)
        ensures
            r == linear_any(self@, types::types_view(ts@), 0, text::texts(visiting@), depth as nat),
        decreases depth, 0nat, ts, 0nat,
    {
        let ghost v = text::texts(visiting@);
        let mut i: usize = 0;
        while i < ts.len()
            invariant
                i <= ts.len(),
                v == text::texts(visiting@),
                linear_any(self@, types::types_view(ts@), 0, v, depth as nat) == linear_any(
                    self@,
                    types::types_view(ts@),
                    i as nat,
                    v,
                    depth as nat,
                ),
            decreases ts.len() - i,
        {
            if self.contains_linear_type_inner(&ts[i], visiting, depth) {
                return true;
            }
            i = i + 1;
        }
        false
    }

    fn linear_any_field(
        &self,
        fs: &Vec<(String, Type)>,
        visiting: &Vec<String>,
        depth: usize,
    ) -> (r: bool)
        ensures
            r == linear_field(self@, types::fields_view(fs@), 0, text::texts(visiting@), depth as nat),
        decreases depth, 0nat, fs, 0nat,
    {
        let ghost v = text::texts(visiting@);
        let mut i: usize = 0;
        while i < fs.len()
            invariant
                i <= fs.len(),
                v == text::texts(visiting@),
                linear_field(self@, types::fields_view(fs@), 0, v, depth as nat) == linear_field(
                    self@,
                    types::fields_view(fs@),
                    i as nat,
                    v,
                    depth as nat,
                ),
            decreases fs.len() - i,
        {
            if self.contains_linear_type_inner(&fs[i].1, visiting, depth) {
                return true;
            }
            i = i + 1;
        }
        false
    }

    fn definition_is_linear(
        &self,
        name: &str,
        args: &Vec<Type>,
        visiting: &Vec<String>,
        depth: usize,
    ) -> (r: bool)
        ensures
            r == linear_definition(
                self@,
                name@,
                types::types_view(args@),
                text::texts(visiting@),
                depth as nat,
            ),
        decreases depth, 4nat, args, 0nat,
    {
        match self.get_type(name) {
            Some(td) => {
                let s = bind_params(&td.type_params, args);
                self.instance_is_linear(&s, &td.fields, visiting, depth)
            },
            None => match self.get_enum(name) {
                Some(ed) => {
                    let s = bind_params(&ed.type_params, args);
                    self.variants_are_linear(&s, &ed.variants, visiting, depth)
                },
                None => false,
            },
        }
    }

    fn instance_is_linear(
        &self,
        s: &Vec<(String, Type)>,
        fs: &Vec<(String, Type)>,
        visiting: &Vec<String>,
        depth: usize,
    ) -> (r: bool)
        ensures
            r == linear_instance(
                self@,
                types::fields_view(s@),
                types::fields_view(fs@),
                0,
                text::texts(visiting@),
                depth as nat,
            ),
        decreases depth, 2nat, fs, 0nat,
    {
        let ghost v = text::texts(visiting@);
        let ghost f = types::fields_view(fs@);
        let ghost sv = types::fields_view(s@);
        let mut i: usize = 0;
        while i < fs.len()
            invariant
                i <= fs.len(),
                v == text::texts(visiting@),
                f == types::fields_view(fs@),
                sv == types::fields_view(s@),
                linear_instance(self@, sv, f, 0, v, depth as nat) == linear_instance(
                    self@,
                    sv,
                    f,
                    i as nat,
                    v,
                    depth as nat,
                ),
            decreases fs.len() - i,
        {
            let t = apply_subst_type(s, &fs[i].1);
            if self.contains_linear_type_inner(&t, visiting, depth) {
                return true;
            }
            i = i + 1;
        }
        false
    }

    fn ctor_fields_are_linear(
        &self,
        s: &Vec<(String, Type)>,
        fs: &Vec<(Option<String>, Type)>,
        visiting: &Vec<String>,
        depth: usize,
    ) -> (r: bool)
        ensures
            r == linear_ctor_fields(
                self@,
                types::fields_view(s@),
                ast::ctor_fields(fs@),
                0,
                text::texts(visiting@),
                depth as nat,
            ),
        decreases depth, 2nat, fs, 0nat,
    {
        let ghost v = text::texts(visiting@);
        let ghost f = ast::ctor_fields(fs@);
        let ghost sv = types::fields_view(s@);
        let mut i: usize = 0;
        while i < fs.len()
            invariant
                i <= fs.len(),
                v == text::texts(visiting@),
                f == ast::ctor_fields(fs@),
                sv == types::fields_view(s@),
                linear_ctor_fields(self@, sv, f, 0, v, depth as nat) == linear_ctor_fields(
                    self@,
                    sv,
                    f,
                    i as nat,
                    v,
                    depth as nat,
                ),
            decreases fs.len() - i,
        {
            let t = apply_subst_type(s, &fs[i].1);
            if self.contains_linear_type_inner(&t, visiting, depth) {
                return true;
            }
            i = i + 1;
        }
        false
    }

    fn variants_are_linear(
        &self,
        s: &Vec<(String, Type)>,
        vs: &Vec<VariantDef>,
        visiting: &Vec<String>,
        depth: usize,
    ) -> (r: bool)
        ensures
            r == linear_variants(
                self@,
                types::fields_view(s@),
                ast::variants_view(vs@),
                0,
                text::texts(visiting@),
                depth as nat,
            ),
        decreases depth, 3nat, vs, 0nat,
    {
        let ghost v = text::texts(visiting@);
        let ghost f = ast::variants_view(vs@);
        let ghost sv = types::fields_view(s@);
        let mut i: usize = 0;
        while i < vs.len()
            invariant
                i <= vs.len(),
                v == text::texts(visiting@),
                f == ast::variants_view(vs@),
                sv == types::fields_view(s@),
                linear_variants(self@, sv, f, 0, v, depth as nat) == linear_variants(
                    self@,
                    sv,
                    f,
                    i as nat,
                    v,
                    depth as nat,
                ),
            decreases vs.len() - i,
        {
            if self.ctor_fields_are_linear(s, &vs[i].fields, visiting, depth) {
                return true;
            }
            i = i + 1;
        }
        false
    }

    /// Fails if a linear binding is left that may not be dropped.
    pub fn check_unused_linear(&self, span: &Span) -> (r: Result<(), TypeError>)
        ensures
            match r {
                Ok(()) => unused_error(self@, *span) is None,
                Err(e) => unused_error(self@, *span) == Some(e@),
            },
    {
        proof {
            reveal(unused_error);
        }
        let unused = undroppable(&self.vars, &self.linear_vars);
        assert(text::texts(unused@).len() == unused.len());
        if unused.len() > 0 {
            let parts = quote_all(&unused);
            let inner = join(&parts, ", ");
            return Err(TypeError::new(cat3("Unused linear: [", inner.as_str(), "]"), *span));
        }
        Ok(())
    }

    /// Inserts a variable scheme and tracks linear consumption state.
    pub fn insert(&mut self, name: String, scheme: Scheme)
        ensures
            final(self)@ == env_insert(old(self)@, name@, scheme@),
            keys_kept(old(self)@, final(self)@),
    {
        proof {
            lemma_insert_keeps_keys(self@, name@, scheme@);
            reveal(env_insert);
        }
        if self.contains_linear_type(&scheme.typ) {
            list_add(&mut self.linear_vars, name.clone());
        }
        put_scheme(&mut self.vars, name, scheme);
    }

    /// Applies a substitution to all variable schemes in this environment.
    pub fn apply(&mut self, subst: &Vec<(String, Type)>)
        ensures
            final(self)@ == env_apply(types::fields_view(subst@), old(self)@),
            keys_kept(old(self)@, final(self)@),
    {
        proof {
            lemma_apply_keeps_keys(types::fields_view(subst@), self@);
        }
        *self = applied(subst, self);
    }

    /// Marks a linear binding as consumed. For `%name` the binding `name` is tried too.
    pub fn consume(&mut self, name: &str) -> (r: Result<(), String>)
        ensures
            final(self)@ == env_consume(old(self)@, name@).1,
            match r {
                Ok(()) => env_consume(old(self)@, name@).0 is Ok,
                Err(m) => env_consume(old(self)@, name@).0 == Err::<(), Text>(m@),
            },
            keys_kept(old(self)@, final(self)@),
    {
        proof {
            lemma_consume_keeps_keys(self@, name@);
            reveal(env_consume);
        }
        if list_remove(&mut self.linear_vars, name) {
            return Ok(());
        }
        if starts_with_char(name, '%') {
            let stripped = skip_chars(name, 1);
            if list_remove(&mut self.linear_vars, stripped.as_str()) {
                return Ok(());
            }
        }
        let found = match find_scheme(&self.vars, name) {
            Some(s) => Some(s),
            None => {
                if starts_with_char(name, '%') {
                    let stripped = skip_chars(name, 1);
                    find_scheme(&self.vars, stripped.as_str())
                } else {
                    None
                }
            },
        };
        match found {
            Some(s) => {
                if self.contains_linear_type(&s.typ) {
                    Err(cat3("Linear variable ", name, " already consumed"))
                } else {
                    Ok(())
                }
            },
            None => Err(cat3("Variable ", name, " not found")),
        }
    }
}

proof fn lemma_split_shorter(s: Text, c: char)
    ensures
        match text::split_at_char(s, c) {
            Some((_, b)) => b.len() < s.len(),
            None => true,
        },
{
}

/// The bindings from index `i` on that may not be dropped.
pub open spec fn undroppable_from(
    vars: Seq<(Text, SchemeV)>,
    names: Seq<Text>,
    i: nat,
) -> Seq<Text>
    decreases names.len() - i,
{
    if i >= names.len() {
        Seq::empty()
    } else if droppable_binding(vars, names[i as int]) {
        undroppable_from(vars, names, i + 1)
    } else {
        seq![names[i as int]] + undroppable_from(vars, names, i + 1)
    }
}

/// Whether a binding may be dropped without being consumed.
pub open spec fn droppable_binding(vars: Seq<(Text, SchemeV)>, name: Text) -> bool {
    match table::lookup(vars, name) {
        Some(s) => helpers::auto_droppable(s.typ),
        None => false,
    }
}

/// The error for linear bindings that are left, if there are any that may not be dropped.
#[verifier::opaque]
pub open spec fn unused_error(env: EnvV, span: Span) -> Option<TypeErrorV> {
    let unused = undroppable_from(env.vars, env.linear_vars, 0);
    if unused.len() > 0 {
        Some(error_at("Unused linear: ["@ + text::joined(render::quoted_list(unused), ", "@) + "]"@, span))
    } else {
        None
    }
}

/// The bindings among `names` that may not be dropped.
pub fn undroppable(vars: &Vec<(String, Scheme)>, names: &Vec<String>) -> (r: Vec<String>)
    ensures
        text::texts(r@) == undroppable_from(schemes_view(vars@), text::texts(names@), 0),
{
    let ghost vs = schemes_view(vars@);
    let ghost ns = text::texts(names@);
    let mut out: Vec<String> = Vec::new();
    let mut i: usize = 0;
    assert(text::texts(out@) + undroppable_from(vs, ns, 0) =~= undroppable_from(vs, ns, 0));
    while i < names.len()
        invariant
            i <= names.len(),
            vs == schemes_view(vars@),
            ns == text::texts(names@),
            text::texts(out@) + undroppable_from(vs, ns, i as nat) == undroppable_from(vs, ns, 0),
        decreases names.len() - i,
    {
        let ghost before = text::texts(out@);
        let droppable = match find_scheme(vars, names[i].as_str()) {
            Some(s) => is_auto_droppable(&s.typ),
            None => false,
        };
        if !droppable {
            out.push(names[i].clone());
            proof {
                let rest = undroppable_from(vs, ns, (i + 1) as nat);
                assert(text::texts(out@) =~= before.push(ns[i as int]));
                assert(text::texts(out@) + rest =~= before + (seq![ns[i as int]] + rest));
            }
        }
        i = i + 1;
    }
    assert(text::texts(out@) + Seq::<Text>::empty() =~= text::texts(out@));
    out
}

/// The environment with a variable inserted; a scheme with linear data becomes a linear
/// binding.
#[verifier::opaque]
pub open spec fn env_insert(env: EnvV, name: Text, s: SchemeV) -> EnvV {
    EnvV {
        vars: table::store(env.vars, name, s),
        linear_vars: if has_linear(env, s.typ) {
            text::with_text(env.linear_vars, name)
        } else {
            env.linear_vars
        },
        ..env
    }
}

/// Consuming a name: the outcome, and the environment after it.
#[verifier::opaque]
pub open spec fn env_consume(env: EnvV, name: Text) -> (Result<(), Text>, EnvV) {
    if text::has_text(env.linear_vars, name) {
        (Ok(()), EnvV { linear_vars: text::without_text(env.linear_vars, name), ..env })
    } else if text::begins_with_char(name, '%') && text::has_text(env.linear_vars, name.skip(1)) {
        (Ok(()), EnvV { linear_vars: text::without_text(env.linear_vars, name.skip(1)), ..env })
    } else {
        let found = match table::lookup(env.vars, name) {
            Some(s) => Some(s),
            None => if text::begins_with_char(name, '%') {
                table::lookup(env.vars, name.skip(1))
            } else {
                None
            },
        };
        match found {
            Some(s) => {
                if has_linear(env, s.typ) {
                    (Err("Linear variable "@ + name + " already consumed"@), env)
                } else {
                    (Ok(()), env)
                }
            },
            None => (Err("Variable "@ + name + " not found"@), env),
        }
    }
}

// ---------------------------------------------------------------------------
// Substitution and generalisation
// ---------------------------------------------------------------------------

/// A substitution applied to the schemes of a table.
pub open spec fn schemes_apply(s: SubstV, m: Seq<(Text, SchemeV)>) -> Seq<(Text, SchemeV)> {
    m.map_values(
        |e: (Text, SchemeV)| (e.0, SchemeV { vars: e.1.vars, typ: subst::substituted(s, e.1.typ) }),
    )
}

/// A substitution applied to all variable schemes of an environment and its modules.
#[verifier::opaque]
pub open spec fn env_apply(s: SubstV, env: EnvV) -> EnvV
    decreases env,
{
    EnvV {
        vars: schemes_apply(s, env.vars),
        types: env.types,
        enums: env.enums,
        linear_vars: env.linear_vars,
        modules: modules_apply(s, env.modules),
    }
}

/// A substitution applied to the modules of a table.
pub open spec fn modules_apply(s: SubstV, m: Seq<(Text, EnvV)>) -> Seq<(Text, EnvV)>
    decreases m,
{
    Seq::new(
        m.len(),
        |i: int|
            if 0 <= i < m.len() {
                (m[i].0, env_apply(s, m[i].1))
            } else {
                arbitrary()
            },
    )
}

fn applied(subst: &Vec<(String, Type)>, env: &TypeEnv) -> (r: TypeEnv)
    ensures
        r@ == env_apply(types::fields_view(subst@), env@),
    decreases env,
{
    proof {
        reveal(env_apply);
    }
    TypeEnv {
        vars: applied_schemes(subst, &env.vars),
        types: copy_typedefs(&env.types),
        enums: copy_enums(&env.enums),
        linear_vars: copy_texts(&env.linear_vars),
        modules: applied_modules(subst, &env.modules),
    }
}

fn applied_schemes(subst: &Vec<(String, Type)>, m: &Vec<(String, Scheme)>) -> (r: Vec<
    (String, Scheme),
>)
    ensures
        schemes_view(r@) == schemes_apply(types::fields_view(subst@), schemes_view(m@)),
{
    let mut out: Vec<(String, Scheme)> = Vec::new();
    let mut i: usize = 0;
    while i < m.len()
        invariant
            i <= m.len(),
            out.len() == i,
            forall|j: int|
                0 <= j < i ==> (#[trigger] out@[j]).0@ == m@[j].0@ && out@[j].1@ == (SchemeV {
                    vars: m@[j].1@.vars,
                    typ: subst::substituted(types::fields_view(subst@), m@[j].1@.typ),
                }),
        decreases m.len() - i,
    {
        let e = &m[i];
        let s = Scheme {
            vars: copy_texts(&e.1.vars),
            typ: apply_subst_type(subst, &e.1.typ),
        };
        out.push((e.0.clone(), s));
        i = i + 1;
    }
    assert(schemes_view(out@) =~= schemes_apply(types::fields_view(subst@), schemes_view(m@)));
    out
}

fn applied_modules(subst: &Vec<(String, Type)>, m: &Vec<(String, TypeEnv)>) -> (r: Vec<
    (String, TypeEnv),
>)
    ensures
        modules_view(r@) == modules_apply(types::fields_view(subst@), modules_view(m@)),
    decreases m,
{
    proof {
        reveal(env_apply);
    }
    let mut out: Vec<(String, TypeEnv)> = Vec::new();
    let mut i: usize = 0;
    while i < m.len()
        invariant
            i <= m.len(),
            out.len() == i,
            forall|j: int|
                0 <= j < i ==> (#[trigger] out@[j]).0@ == m@[j].0@ && out@[j].1@ == env_apply(
                    types::fields_view(subst@),
                    m@[j].1@,
                ),
        decreases m.len() - i,
    {
        let e = &m[i];
        out.push((e.0.clone(), applied(subst, &e.1)));
        i = i + 1;
    }
    assert(modules_view(out@) =~= modules_apply(types::fields_view(subst@), modules_view(m@)));
    out
}

/// `acc` extended by the variables that are free in the schemes from index `i` on.
pub open spec fn free_in_schemes(acc: Seq<Text>, m: Seq<(Text, SchemeV)>, i: nat) -> Seq<Text>
    decreases m.len() - i,
{
    if i >= m.len() {
        acc
    } else {
        let sch = m[i as int].1;
        free_in_schemes(
            text::union_texts(acc, text::difference_texts(subst::free_vars(Seq::empty(), sch.typ), sch.vars)),
            m,
            i + 1,
        )
    }
}

/// The variables that are free in the schemes of an environment.
pub fn get_free_vars_env(env: &TypeEnv) -> (r: Vec<String>)
    ensures
        text::texts(r@) == free_in_schemes(Seq::empty(), env@.vars, 0),
{
    let ghost m = env@.vars;
    let mut acc: Vec<String> = Vec::new();
    assert(text::texts(acc@) =~= Seq::<Text>::empty());
    let mut i: usize = 0;
    while i < env.vars.len()
        invariant
            i <= env.vars.len(),
            m == schemes_view(env.vars@),
            free_in_schemes(text::texts(acc@), m, i as nat) == free_in_schemes(Seq::empty(), m, 0),
        decreases env.vars.len() - i,
    {
        let sch = &env.vars[i].1;
        let free = get_free_vars_type(&sch.typ);
        let own = list_difference(&free, &sch.vars);
        list_extend(&mut acc, &own);
        i = i + 1;
    }
    acc
}

/// The scheme of a type that is general in the variables not free in the environment.
#[verifier::opaque]
pub open spec fn generalized(env: EnvV, t: TypeV) -> SchemeV {
    SchemeV {
        vars: text::difference_texts(
            subst::free_vars(Seq::empty(), t),
            free_in_schemes(Seq::empty(), env.vars, 0),
        ),
        typ: t,
    }
}

/// Generalises a type over the variables that are not free in the environment.
pub fn generalize(env: &TypeEnv, typ: Type) -> (r: Scheme)
    ensures
        r@ == generalized(env@, typ@),
{
    proof {
        reveal(generalized);
    }
    let evs = get_free_vars_env(env);
    let tvs = get_free_vars_type(&typ);
    let vars = list_difference(&tvs, &evs);
    Scheme { vars, typ }
}

} // verus!
