//! Exhaustiveness of pattern matches, by specialising a matrix of patterns.

use crate::ast;
use crate::ast::{EnumDefV, MatchCase, MatchCaseV, Pattern, PatternV, VariantDefV};
use crate::table;
use crate::table::find_key;
use crate::text;
use crate::text::{Text, cat3, cat4, cat5, owned, str_eq, suffix_after_last, usize_to_text};
use crate::typecheck::env;
use crate::typecheck::env::{EnvV, TypeEnv, bind_params, find_enum};
use crate::typecheck::helpers;
use crate::typecheck::helpers::summarize_ctor_args;
use crate::typecheck::subst;
use crate::typecheck::subst::{SubstV, apply_subst_type, apply_subst_type_fields};
use crate::typecheck::unify;
use crate::types;
use crate::types::{EnumDef, Literal, LiteralV, Spanned, Type, TypeV, VariantDef};
use vstd::prelude::*;

verus! {

/// A pattern of a matrix: one of the program, or a wildcard put in for a field that a pattern
/// does not name.
#[derive(Clone, Copy)]
pub enum PatRef<'a> {
    Original(&'a Pattern),
    Synthetic,
}

impl<'a> PatRef<'a> {
    /// The model of the pattern.
    pub open spec fn view(&self) -> PatternV {
        match self {
            PatRef::Original(p) => p@,
            PatRef::Synthetic => PatternV::Wildcard,
        }
    }
}

/// The models of a row of patterns.
pub open spec fn row_view(r: Seq<PatRef>) -> Seq<PatternV> {
    r.map_values(|p: PatRef| p@)
}

/// The models of a matrix of patterns.
pub open spec fn matrix_view(m: Seq<Vec<PatRef>>) -> Seq<Seq<PatternV>> {
    m.map_values(|r: Vec<PatRef>| row_view(r@))
}

/// Whether a pattern matches every value.
pub open spec fn irrefutable(p: PatternV) -> bool {
    p is Wildcard || p is Variable
}

/// `n` wildcards.
pub open spec fn wildcards(n: nat) -> Seq<PatternV> {
    Seq::new(n, |i: int| PatternV::Wildcard)
}

/// The constructor that a literal pattern stands for; the empty text where it stands for none.
pub open spec fn literal_ctor(l: LiteralV) -> Text {
    match l {
        LiteralV::Bool(b) => if b {
            "true"@
        } else {
            "false"@
        },
        LiteralV::Unit => "()"@,
        _ => ""@,
    }
}

/// The patterns of the arguments of a constructor pattern.
pub open spec fn arg_patterns(args: Seq<(Option<Text>, Spanned<PatternV>)>) -> Seq<PatternV> {
    args.map_values(|a: (Option<Text>, Spanned<PatternV>)| a.1.node)
}

/// The message for a pattern with the wrong number of arguments.
pub open spec fn pattern_arity_message(
    ctor: Text,
    arity: nat,
    given: nat,
    labels: Seq<Option<Text>>,
) -> Text {
    "Arity mismatch in pattern `"@ + ctor + "`: expected "@ + text::decimal(arity) + " fields, got "@
        + text::decimal(given) + ".\nProvided pattern arguments: "@ + helpers::ctor_args_summary(labels)
}

/// What a row becomes when its first value is known to be of a constructor: nothing where its
/// first pattern is of another one.
pub open spec fn ctor_row(row: Seq<PatternV>, ctor: Text, arity: nat) -> Result<
    Option<Seq<PatternV>>,
    Text,
> {
    let rest = row.skip(1);
    match row[0] {
        PatternV::Constructor(c, args) => {
            if text::after_last_char(c, '.') != ctor {
                Ok(None)
            } else if args.len() != arity {
                Err(pattern_arity_message(ctor, arity, args.len(), helpers::labels_of(args)))
            } else {
                Ok(Some(arg_patterns(args) + rest))
            }
        },
        PatternV::Literal(l) => {
            if literal_ctor(l) == ctor {
                Ok(Some(rest))
            } else {
                Ok(None)
            }
        },
        PatternV::Record(_, _) => Ok(None),
        _ => Ok(Some(wildcards(arity) + rest)),
    }
}

/// `acc` extended by the rows from index `i` on, specialised to a constructor.
pub open spec fn ctor_rows(
    acc: Seq<Seq<PatternV>>,
    matrix: Seq<Seq<PatternV>>,
    ctor: Text,
    arity: nat,
    i: nat,
) -> Result<Seq<Seq<PatternV>>, Text>
    decreases matrix.len() - i,
{
    if i >= matrix.len() {
        Ok(acc)
    } else {
        match ctor_row(matrix[i as int], ctor, arity) {
            Ok(Some(r)) => ctor_rows(acc.push(r), matrix, ctor, arity, i + 1),
            Ok(None) => ctor_rows(acc, matrix, ctor, arity, i + 1),
            Err(e) => Err(e),
        }
    }
}

/// `acc` extended by the rows from index `i` on whose first pattern matches every value,
/// without that pattern.
pub open spec fn default_rows(
    acc: Seq<Seq<PatternV>>,
    matrix: Seq<Seq<PatternV>>,
    i: nat,
) -> Seq<Seq<PatternV>>
    decreases matrix.len() - i,
{
    if i >= matrix.len() {
        acc
    } else if irrefutable(matrix[i as int][0]) {
        default_rows(acc.push(matrix[i as int].skip(1)), matrix, i + 1)
    } else {
        default_rows(acc, matrix, i + 1)
    }
}

/// The pattern that a record pattern gives a field; a wildcard where it gives none.
pub open spec fn field_pattern(pfs: Seq<(Text, Spanned<PatternV>)>, name: Text) -> PatternV {
    match table::lookup(pfs, name) {
        Some(p) => p.node,
        None => PatternV::Wildcard,
    }
}

/// The patterns that a record pattern gives the fields of a record type.
pub open spec fn field_patterns(
    pfs: Seq<(Text, Spanned<PatternV>)>,
    fields: Seq<(Text, TypeV)>,
) -> Seq<PatternV> {
    fields.map_values(|f: (Text, TypeV)| field_pattern(pfs, f.0))
}

/// `acc` extended by the rows from index `i` on, with the first value taken apart into the
/// fields of a record.
pub open spec fn record_rows(
    acc: Seq<Seq<PatternV>>,
    matrix: Seq<Seq<PatternV>>,
    fields: Seq<(Text, TypeV)>,
    i: nat,
) -> Seq<Seq<PatternV>>
    decreases matrix.len() - i,
{
    if i >= matrix.len() {
        acc
    } else {
        let row = matrix[i as int];
        match row[0] {
            PatternV::Record(pfs, _) => record_rows(
                acc.push(field_patterns(pfs, fields) + row.skip(1)),
                matrix,
                fields,
                i + 1,
            ),
            PatternV::Wildcard => record_rows(
                acc.push(wildcards(fields.len()) + row.skip(1)),
                matrix,
                fields,
                i + 1,
            ),
            PatternV::Variable(_, _) => record_rows(
                acc.push(wildcards(fields.len()) + row.skip(1)),
                matrix,
                fields,
                i + 1,
            ),
            _ => record_rows(acc, matrix, fields, i + 1),
        }
    }
}

/// Whether one of the rows from index `i` on is empty.
pub open spec fn some_row_empty(matrix: Seq<Seq<PatternV>>, i: nat) -> bool
    decreases matrix.len() - i,
{
    i < matrix.len() && (matrix[i as int].len() == 0 || some_row_empty(matrix, i + 1))
}

/// Whether the first pattern of every row from index `i` on matches every value.
pub open spec fn all_irrefutable(matrix: Seq<Seq<PatternV>>, i: nat) -> bool
    decreases matrix.len() - i,
{
    i < matrix.len() ==> irrefutable(matrix[i as int][0]) && all_irrefutable(matrix, i + 1)
}

/// A type without its outermost linear or borrow wrapper.
pub open spec fn unwrapped(t: TypeV) -> TypeV {
    match t {
        TypeV::Linear(i) => *i,
        TypeV::Borrow(i) => *i,
        _ => t,
    }
}

/// The first of the environments from index `i` on that has a sum type of the given name.
pub open spec fn enum_in_modules(m: Seq<(Text, EnvV)>, name: Text, i: nat) -> Option<EnumDefV>
    decreases m.len() - i,
{
    if i >= m.len() {
        None
    } else {
        match table::lookup(m[i as int].1.enums, name) {
            Some(ed) => Some(ed),
            None => enum_in_modules(m, name, i + 1),
        }
    }
}

/// The sum type of a name: in the environment, in a module imported before, or in a module
/// of the environment.
pub open spec fn resolved_enum(env: EnvV, cache: Seq<(Text, EnvV)>, name: Text) -> Option<
    EnumDefV,
> {
    match env::env_enum(env, name) {
        Some(ed) => Some(ed),
        None => match enum_in_modules(cache, name, 0) {
            Some(ed) => Some(ed),
            None => enum_in_modules(env.modules, name, 0),
        },
    }
}

/// The types of the fields of a constructor under a substitution.
pub open spec fn ctor_field_types(s: SubstV, fields: Seq<(Option<Text>, TypeV)>) -> Seq<TypeV> {
    fields.map_values(|f: (Option<Text>, TypeV)| subst::substituted(s, f.1))
}

/// The types of the fields of a record.
pub open spec fn field_types(fields: Seq<(Text, TypeV)>) -> Seq<TypeV> {
    fields.map_values(|f: (Text, TypeV)| f.1)
}

/// Whether a matrix of patterns covers all values of the given types. `cache` holds the modules
/// imported before, and `depth` bounds the nesting of the search.
pub open spec fn covers_all(
    env: EnvV,
    cache: Seq<(Text, EnvV)>,
    matrix: Seq<Seq<PatternV>>,
    types: Seq<TypeV>,
    depth: nat,
) -> Result<(), Text>
    decreases depth, 0nat, 0nat,
{
    if matrix.len() == 0 {
        Err("Non-exhaustive"@)
    } else if types.len() == 0 {
        Ok(())
    } else if some_row_empty(matrix, 0) {
        Err(
            "Internal typechecker error: malformed pattern matrix (empty row with remaining types)."@,
        )
    } else if depth == 0 {
        Err("Recursion limit"@)
    } else {
        let d = (depth - 1) as nat;
        let rest = types.skip(1);
        match unwrapped(types[0]) {
            TypeV::Bool => match covers_ctor(
                env,
                cache,
                matrix,
                "true"@,
                Seq::empty(),
                rest,
                d,
            ) {
                Ok(()) => covers_ctor(env, cache, matrix, "false"@, Seq::empty(), rest, d),
                Err(e) => Err(e),
            },
            TypeV::Record(fields) => covers_all(
                env,
                cache,
                record_rows(Seq::empty(), matrix, fields, 0),
                field_types(fields) + rest,
                d,
            ),
            TypeV::Unit => covers_ctor(env, cache, matrix, "()"@, Seq::empty(), rest, d),
            TypeV::List(inner) => covers_all(
                env,
                cache,
                matrix,
                seq![TypeV::UserDefined("List"@, seq![*inner])] + rest,
                d,
            ),
            TypeV::UserDefined(name, args) => {
                if all_irrefutable(matrix, 0) {
                    covers_default(env, cache, matrix, rest, d)
                } else if env::env_type(env, name) is Some && env::env_enum(env, name) is None {
                    let td = env::env_type(env, name)->Some_0;
                    covers_all(env, cache, matrix, seq![unify::expanded_record(td, args)] + rest, d)
                } else {
                    match resolved_enum(env, cache, name) {
                        Some(ed) => covers_variants(
                            env,
                            cache,
                            matrix,
                            env::bound_params(ed.type_params, args),
                            ed.variants,
                            0,
                            rest,
                            d,
                        ),
                        None => covers_default(env, cache, matrix, rest, d),
                    }
                }
            },
            _ => covers_default(env, cache, matrix, rest, d),
        }
    }
}

/// Whether the rows whose first pattern matches every value cover the remaining types.
pub open spec fn covers_default(
    env: EnvV,
    cache: Seq<(Text, EnvV)>,
    matrix: Seq<Seq<PatternV>>,
    rest: Seq<TypeV>,
    depth: nat,
) -> Result<(), Text>
    decreases depth, 1nat, 0nat,
{
    let rows = default_rows(Seq::empty(), matrix, 0);
    if rows.len() == 0 {
        Err("Non-exhaustive"@)
    } else {
        covers_all(env, cache, rows, rest, depth)
    }
}

/// Whether a matrix covers the values whose first component is of a constructor with fields
/// of the given types.
pub open spec fn covers_ctor(
    env: EnvV,
    cache: Seq<(Text, EnvV)>,
    matrix: Seq<Seq<PatternV>>,
    ctor: Text,
    fields: Seq<TypeV>,
    rest: Seq<TypeV>,
    depth: nat,
) -> Result<(), Text>
    decreases depth, 1nat, 0nat,
{
    match ctor_rows(Seq::empty(), matrix, ctor, fields.len(), 0) {
        Err(e) => Err(e),
        Ok(rows) => match covers_all(env, cache, rows, fields + rest, depth) {
            Ok(()) => Ok(()),
            Err(_) => Err("Non-exhaustive match: missing constructor `"@ + ctor + "`."@),
        },
    }
}

/// Whether a matrix covers the values of each constructor from index `i` on.
pub open spec fn covers_variants(
    env: EnvV,
    cache: Seq<(Text, EnvV)>,
    matrix: Seq<Seq<PatternV>>,
    s: SubstV,
    variants: Seq<VariantDefV>,
    i: nat,
    rest: Seq<TypeV>,
    depth: nat,
) -> Result<(), Text>
    decreases depth, 2nat, variants.len() - i,
{
    if i >= variants.len() {
        Ok(())
    } else {
        let v = variants[i as int];
        match covers_ctor(env, cache, matrix, v.name, ctor_field_types(s, v.fields), rest, depth) {
            Ok(()) => covers_variants(env, cache, matrix, s, variants, i + 1, rest, depth),
            Err(e) => Err(e),
        }
    }
}

/// The patterns of a list of cases, one row each.
pub open spec fn case_rows(cases: Seq<MatchCaseV>) -> Seq<Seq<PatternV>> {
    cases.map_values(|c: MatchCaseV| seq![c.pattern.node])
}

/// Whether the cases of a match cover all values of a type.
#[verifier::opaque]
pub open spec fn exhaustive(
    env: EnvV,
    cache: Seq<(Text, EnvV)>,
    t: TypeV,
    rows: Seq<Seq<PatternV>>,
) -> Result<(), Text> {
    covers_all(env, cache, rows, seq![t], usize::MAX as nat)
}

/// Whether a failure is the one that its model says.
pub open spec fn failure_matches(r: Result<(), String>, m: Result<(), Text>) -> bool {
    match r {
        Ok(()) => m is Ok,
        Err(e) => m == Err::<(), Text>(e@),
    }
}

fn head<'a>(row: &Vec<PatRef<'a>>) -> (r: PatRef<'a>)
    requires
        row.len() > 0,
    ensures
        r@ == row_view(row@)[0],
        r == row@[0],
{
    row[0]
}

fn is_irrefutable(p: PatRef) -> (r: bool)
    ensures
        r == irrefutable(p@),
{
    match p {
        PatRef::Original(q) => matches!(q, Pattern::Wildcard | Pattern::Variable(_, _)),
        PatRef::Synthetic => true,
    }
}

/// Adds the patterns of `row` from index `i` on to `out`.
fn push_rest<'a>(out: &mut Vec<PatRef<'a>>, row: &Vec<PatRef<'a>>)
    requires
        row.len() > 0,
    ensures
        row_view(final(out)@) == row_view(old(out)@) + row_view(row@).skip(1),
{
    let mut i: usize = 1;
    while i < row.len()
        invariant
            1 <= i <= row.len(),
            row_view(out@) =~= row_view(old(out)@) + row_view(row@).subrange(1, i as int),
        decreases row.len() - i,
    {
        let ghost before = row_view(out@);
        out.push(row[i]);
        assert(row_view(out@) =~= before.push(row_view(row@)[i as int]));
        i = i + 1;
        assert(row_view(row@).subrange(1, i as int) =~= row_view(row@).subrange(1, i - 1).push(
            row_view(row@)[i - 1],
        ));
    }
    assert(row_view(row@).subrange(1, i as int) =~= row_view(row@).skip(1));
}

fn wildcard_row<'a>(n: usize) -> (r: Vec<PatRef<'a>>)
    ensures
        row_view(r@) == wildcards(n as nat),
{
    let mut out: Vec<PatRef<'a>> = Vec::new();
    let mut i: usize = 0;
    while i < n
        invariant
            i <= n,
            row_view(out@) =~= wildcards(i as nat),
        decreases n - i,
    {
        let ghost before = row_view(out@);
        out.push(PatRef::Synthetic);
        assert(row_view(out@) =~= before.push(PatternV::Wildcard));
        i = i + 1;
    }
    out
}

fn literal_ctor_name(l: &Literal) -> (r: &'static str)
    ensures
        r@ == literal_ctor(l@),
{
    match l {
        Literal::Bool(b) => if *b {
            "true"
        } else {
            "false"
        },
        Literal::Unit => "()",
        _ => "",
    }
}

fn arg_row<'a>(args: &'a Vec<(Option<String>, Spanned<Pattern>)>) -> (r: Vec<PatRef<'a>>)
    ensures
        row_view(r@) == arg_patterns(ast::ctor_pats_view(args@)),
{
    let mut out: Vec<PatRef<'a>> = Vec::new();
    let mut i: usize = 0;
    while i < args.len()
        invariant
            i <= args.len(),
            out.len() == i,
            forall|j: int| 0 <= j < i ==> (#[trigger] out@[j])@ == args@[j].1.node@,
        decreases args.len() - i,
    {
        out.push(PatRef::Original(&args[i].1.node));
        i = i + 1;
    }
    assert(row_view(out@) =~= arg_patterns(ast::ctor_pats_view(args@)));
    out
}

fn specialize_row<'a>(row: &Vec<PatRef<'a>>, ctor: &str, arity: usize) -> (r: Result<
    Option<Vec<PatRef<'a>>>,
    String,
>)
    requires
        row.len() > 0,
    ensures
        match r {
            Ok(Some(x)) => ctor_row(row_view(row@), ctor@, arity as nat) == Ok::<
                Option<Seq<PatternV>>,
                Text,
            >(Some(row_view(x@))),
            Ok(None) => ctor_row(row_view(row@), ctor@, arity as nat) == Ok::<
                Option<Seq<PatternV>>,
                Text,
            >(None),
            Err(e) => ctor_row(row_view(row@), ctor@, arity as nat) == Err::<
                Option<Seq<PatternV>>,
                Text,
            >(e@),
        },
{
    let h = head(row);
    match h {
        PatRef::Original(p) => match p {
            Pattern::Constructor(c, args) => {
                assert(ast::ctor_pats_view(args@).len() == args.len());
                let bare = suffix_after_last(c.as_str(), '.');
                if !str_eq(bare.as_str(), ctor) {
                    return Ok(None);
                }
                if args.len() != arity {
                    assert(helpers::raw_labels(args@) =~= helpers::labels_of(ast::ctor_pats_view(args@)));
                    let a = usize_to_text(arity);
                    let g = usize_to_text(args.len());
                    let sum = summarize_ctor_args(args);
                    let m = cat5(
                        "Arity mismatch in pattern `",
                        ctor,
                        "`: expected ",
                        a.as_str(),
                        " fields, got ",
                    );
                    return Err(
                        cat4(
                            m.as_str(),
                            g.as_str(),
                            ".\nProvided pattern arguments: ",
                            sum.as_str(),
                        ),
                    );
                }
                let mut out = arg_row(args);
                push_rest(&mut out, row);
                Ok(Some(out))
            },
            Pattern::Literal(l) => {
                if str_eq(literal_ctor_name(l), ctor) {
                    let mut out: Vec<PatRef<'a>> = Vec::new();
                    push_rest(&mut out, row);
                    assert(row_view(out@) =~= row_view(row@).skip(1));
                    Ok(Some(out))
                } else {
                    Ok(None)
                }
            },
            Pattern::Record(_, _) => Ok(None),
            _ => {
                let mut out = wildcard_row(arity);
                push_rest(&mut out, row);
                Ok(Some(out))
            },
        },
        PatRef::Synthetic => {
            let mut out = wildcard_row(arity);
            push_rest(&mut out, row);
            Ok(Some(out))
        },
    }
}

/// Whether no row is empty.
pub open spec fn no_empty_row(matrix: Seq<Vec<PatRef>>) -> bool {
    forall|i: int| 0 <= i < matrix.len() ==> (#[trigger] matrix[i]).len() > 0
}

fn has_empty_row(matrix: &Vec<Vec<PatRef>>) -> (r: bool)
    ensures
        r == some_row_empty(matrix_view(matrix@), 0),
        !r ==> no_empty_row(matrix@),
{
    let mut i: usize = 0;
    while i < matrix.len()
        invariant
            i <= matrix.len(),
            some_row_empty(matrix_view(matrix@), 0) == some_row_empty(
                matrix_view(matrix@),
                i as nat,
            ),
            forall|j: int| 0 <= j < i ==> (#[trigger] matrix@[j]).len() > 0,
        decreases matrix.len() - i,
    {
        assert(matrix_view(matrix@)[i as int].len() == matrix@[i as int].len());
        if matrix[i].len() == 0 {
            return true;
        }
        i = i + 1;
    }
    false
}

fn heads_irrefutable(matrix: &Vec<Vec<PatRef>>) -> (r: bool)
    requires
        no_empty_row(matrix@),
    ensures
        r == all_irrefutable(matrix_view(matrix@), 0),
{
    let mut i: usize = 0;
    while i < matrix.len()
        invariant
            i <= matrix.len(),
            no_empty_row(matrix@),
            all_irrefutable(matrix_view(matrix@), 0) == all_irrefutable(
                matrix_view(matrix@),
                i as nat,
            ),
        decreases matrix.len() - i,
    {
        if !is_irrefutable(head(&matrix[i])) {
            return false;
        }
        i = i + 1;
    }
    true
}

fn make_ctor_rows<'a>(matrix: &Vec<Vec<PatRef<'a>>>, ctor: &str, arity: usize) -> (r: Result<
    Vec<Vec<PatRef<'a>>>,
    String,
>)
    requires
        no_empty_row(matrix@),
    ensures
        match r {
            Ok(m) => ctor_rows(Seq::empty(), matrix_view(matrix@), ctor@, arity as nat, 0) == Ok::<
                Seq<Seq<PatternV>>,
                Text,
            >(matrix_view(m@)),
            Err(e) => ctor_rows(Seq::empty(), matrix_view(matrix@), ctor@, arity as nat, 0)
                == Err::<Seq<Seq<PatternV>>, Text>(e@),
        },
{
    let ghost mv = matrix_view(matrix@);
    let mut out: Vec<Vec<PatRef<'a>>> = Vec::new();
    assert(matrix_view(out@) =~= Seq::<Seq<PatternV>>::empty());
    let mut i: usize = 0;
    while i < matrix.len()
        invariant
            i <= matrix.len(),
            no_empty_row(matrix@),
            mv == matrix_view(matrix@),
            ctor_rows(matrix_view(out@), mv, ctor@, arity as nat, i as nat) == ctor_rows(
                Seq::empty(),
                mv,
                ctor@,
                arity as nat,
                0,
            ),
        decreases matrix.len() - i,
    {
        let ghost before = matrix_view(out@);
        match specialize_row(&matrix[i], ctor, arity) {
            Ok(Some(row)) => {
                out.push(row);
                assert(matrix_view(out@) =~= before.push(row_view(row@)));
            },
            Ok(None) => {},
            Err(e) => {
                return Err(e);
            },
        }
        i = i + 1;
    }
    Ok(out)
}

fn make_default_rows<'a>(matrix: &Vec<Vec<PatRef<'a>>>) -> (r: Vec<Vec<PatRef<'a>>>)
    requires
        no_empty_row(matrix@),
    ensures
        matrix_view(r@) == default_rows(Seq::empty(), matrix_view(matrix@), 0),
{
    let ghost mv = matrix_view(matrix@);
    let mut out: Vec<Vec<PatRef<'a>>> = Vec::new();
    assert(matrix_view(out@) =~= Seq::<Seq<PatternV>>::empty());
    let mut i: usize = 0;
    while i < matrix.len()
        invariant
            i <= matrix.len(),
            no_empty_row(matrix@),
            mv == matrix_view(matrix@),
            default_rows(matrix_view(out@), mv, i as nat) == default_rows(Seq::empty(), mv, 0),
        decreases matrix.len() - i,
    {
        let ghost before = matrix_view(out@);
        if is_irrefutable(head(&matrix[i])) {
            let mut row: Vec<PatRef<'a>> = Vec::new();
            push_rest(&mut row, &matrix[i]);
            out.push(row);
            assert(row_view(row@) =~= mv[i as int].skip(1));
            assert(matrix_view(out@) =~= before.push(mv[i as int].skip(1)));
        }
        i = i + 1;
    }
    out
}

fn field_row<'a>(
    pfs: &'a Vec<(String, Spanned<Pattern>)>,
    fields: &Vec<(String, Type)>,
) -> (r: Vec<PatRef<'a>>)
    ensures
        row_view(r@) == field_patterns(ast::record_pats_view(pfs@), types::fields_view(fields@)),
{
    let ghost pv = ast::record_pats_view(pfs@);
    let mut out: Vec<PatRef<'a>> = Vec::new();
    let mut i: usize = 0;
    assert(table::keys_of(pv) =~= table::raw_keys(pfs@));
    while i < fields.len()
        invariant
            i <= fields.len(),
            out.len() == i,
            pv == ast::record_pats_view(pfs@),
            table::keys_of(pv) == table::raw_keys(pfs@),
            forall|j: int| 0 <= j < i ==> (#[trigger] out@[j])@ == field_pattern(pv, fields@[j].0@),
        decreases fields.len() - i,
    {
        match find_key(pfs, fields[i].0.as_str()) {
            Some(k) => {
                out.push(PatRef::Original(&pfs[k].1.node));
            },
            None => {
                out.push(PatRef::Synthetic);
            },
        }
        i = i + 1;
    }
    assert(row_view(out@) =~= field_patterns(pv, types::fields_view(fields@)));
    out
}

fn make_record_rows<'a>(matrix: &Vec<Vec<PatRef<'a>>>, fields: &Vec<(String, Type)>) -> (r: Vec<
    Vec<PatRef<'a>>,
>)
    requires
        no_empty_row(matrix@),
    ensures
        matrix_view(r@) == record_rows(
            Seq::empty(),
            matrix_view(matrix@),
            types::fields_view(fields@),
            0,
        ),
{
    let ghost mv = matrix_view(matrix@);
    let ghost fv = types::fields_view(fields@);
    let mut out: Vec<Vec<PatRef<'a>>> = Vec::new();
    assert(matrix_view(out@) =~= Seq::<Seq<PatternV>>::empty());
    let mut i: usize = 0;
    while i < matrix.len()
        invariant
            i <= matrix.len(),
            no_empty_row(matrix@),
            mv == matrix_view(matrix@),
            fv == types::fields_view(fields@),
            record_rows(matrix_view(out@), mv, fv, i as nat) == record_rows(
                Seq::empty(),
                mv,
                fv,
                0,
            ),
        decreases matrix.len() - i,
    {
        let ghost before = matrix_view(out@);
        let h = head(&matrix[i]);
        assert(h@ == mv[i as int][0]);
        let start: Option<Vec<PatRef<'a>>> = match h {
            PatRef::Original(p) => match p {
                Pattern::Record(pfs, _) => Some(field_row(pfs, fields)),
                Pattern::Wildcard => Some(wildcard_row(fields.len())),
                Pattern::Variable(_, _) => Some(wildcard_row(fields.len())),
                _ => None,
            },
            PatRef::Synthetic => Some(wildcard_row(fields.len())),
        };
        match start {
            Some(mut row) => {
                let ghost first = row_view(row@);
                push_rest(&mut row, &matrix[i]);
                out.push(row);
                assert(matrix_view(out@) =~= before.push(first + mv[i as int].skip(1)));
            },
            None => {},
        }
        i = i + 1;
    }
    out
}

fn find_enum_in_modules<'a>(m: &'a Vec<(String, TypeEnv)>, name: &str) -> (r: Option<&'a EnumDef>)
    ensures
        match r {
            Some(ed) => enum_in_modules(env::modules_view(m@), name@, 0) == Some(ed@),
            None => enum_in_modules(env::modules_view(m@), name@, 0) is None,
        },
{
    let mut i: usize = 0;
    while i < m.len()
        invariant
            i <= m.len(),
            enum_in_modules(env::modules_view(m@), name@, 0) == enum_in_modules(
                env::modules_view(m@),
                name@,
                i as nat,
            ),
        decreases m.len() - i,
    {
        assert(env::modules_view(m@)[i as int].1 == m@[i as int].1@);
        match find_enum(&m[i].1.enums, name) {
            Some(ed) => {
                return Some(ed);
            },
            None => {},
        }
        i = i + 1;
    }
    None
}

fn resolve_enum<'a>(
    env: &'a TypeEnv,
    cache: &'a Vec<(String, TypeEnv)>,
    name: &str,
) -> (r: Option<&'a EnumDef>)
    ensures
        match r {
            Some(ed) => resolved_enum(env@, env::modules_view(cache@), name@) == Some(ed@),
            None => resolved_enum(env@, env::modules_view(cache@), name@) is None,
        },
{
    match env.get_enum(name) {
        Some(ed) => Some(ed),
        None => match find_enum_in_modules(cache, name) {
            Some(ed) => Some(ed),
            None => find_enum_in_modules(&env.modules, name),
        },
    }
}

/// The types of `types` from index `from` on, behind those of `front`.
fn with_rest(front: Vec<Type>, types: &Vec<Type>, from: usize) -> (r: Vec<Type>)
    requires
        from <= types.len(),
    ensures
        types::types_view(r@) == types::types_view(front@) + types::types_view(types@).skip(from as int),
{
    let ghost f = types::types_view(front@);
    let mut out = front;
    let mut i: usize = from;
    assert(types::types_view(out@) =~= f + types::types_view(types@).subrange(from as int, from as int));
    while i < types.len()
        invariant
            from <= i <= types.len(),
            types::types_view(out@) == f + types::types_view(types@).subrange(from as int, i as int),
        decreases types.len() - i,
    {
        let ghost before = types::types_view(out@);
        out.push(types[i].clone());
        proof {
            assert(types::types_view(out@) =~= before.push(types::types_view(types@)[i as int]));
            assert(types::types_view(types@).subrange(from as int, i + 1) =~= types::types_view(types@).subrange(
                from as int,
                i as int,
            ).push(types::types_view(types@)[i as int]));
        }
        i = i + 1;
        assert(types::types_view(out@) =~= f + types::types_view(types@).subrange(from as int, i as int));
    }
    assert(types::types_view(types@).subrange(from as int, i as int) =~= types::types_view(types@).skip(
        from as int,
    ));
    out
}

fn instance_types(s: &Vec<(String, Type)>, fields: &Vec<(Option<String>, Type)>) -> (r: Vec<Type>)
    ensures
        types::types_view(r@) == ctor_field_types(types::fields_view(s@), ast::ctor_fields(fields@)),
        r.len() == fields.len(),
{
    let mut out: Vec<Type> = Vec::new();
    let mut i: usize = 0;
    while i < fields.len()
        invariant
            i <= fields.len(),
            out.len() == i,
            forall|j: int|
                0 <= j < i ==> (#[trigger] out@[j])@ == subst::substituted(
                    types::fields_view(s@),
                    fields@[j].1@,
                ),
        decreases fields.len() - i,
    {
        out.push(apply_subst_type(s, &fields[i].1));
        i = i + 1;
    }
    assert(types::types_view(out@) =~= ctor_field_types(types::fields_view(s@), ast::ctor_fields(fields@)));
    out
}

fn types_of_fields(fields: &Vec<(String, Type)>) -> (r: Vec<Type>)
    ensures
        types::types_view(r@) == field_types(types::fields_view(fields@)),
{
    let mut out: Vec<Type> = Vec::new();
    let mut i: usize = 0;
    while i < fields.len()
        invariant
            i <= fields.len(),
            out.len() == i,
            forall|j: int| 0 <= j < i ==> (#[trigger] out@[j])@ == fields@[j].1@,
        decreases fields.len() - i,
    {
        out.push(fields[i].1.clone());
        i = i + 1;
    }
    assert(types::types_view(out@) =~= field_types(types::fields_view(fields@)));
    out
}

fn no_types() -> (r: Vec<Type>)
    ensures
        types::types_view(r@) == Seq::<TypeV>::empty(),
{
    let v: Vec<Type> = Vec::new();
    assert(types::types_view(v@) =~= Seq::<TypeV>::empty());
    v
}

fn one_type(t: Type) -> (r: Vec<Type>)
    ensures
        types::types_view(r@) == seq![t@],
{
    let mut v: Vec<Type> = Vec::new();
    v.push(t);
    assert(types::types_view(v@) =~= seq![t@]);
    v
}

/// A type without its outermost linear or borrow wrapper.
pub fn unwrap_type(t: &Type) -> (r: &Type)
    ensures
        r@ == unwrapped(t@),
{
    match t {
        Type::Linear(i) => i,
        Type::Borrow(i) => i,
        _ => t,
    }
}

fn check_matrix(
    env: &TypeEnv,
    cache: &Vec<(String, TypeEnv)>,
    matrix: &Vec<Vec<PatRef>>,
    types: &Vec<Type>,
    depth: usize,
) -> (r: Result<(), String>)
    ensures
        failure_matches(
            r,
            covers_all(
                env@,
                env::modules_view(cache@),
                matrix_view(matrix@),
                types::types_view(types@),
                depth as nat,
            ),
        ),
    decreases depth, 0nat, 0nat,
{
    proof {
        assert(matrix_view(matrix@).len() == matrix.len());
        assert(types::types_view(types@).len() == types.len());
    }
    if matrix.len() == 0 {
        return Err(owned("Non-exhaustive"));
    }
    if types.len() == 0 {
        return Ok(());
    }
    if has_empty_row(matrix) {
        return Err(
            owned(
                "Internal typechecker error: malformed pattern matrix (empty row with remaining types).",
            ),
        );
    }
    if depth == 0 {
        return Err(owned("Recursion limit"));
    }
    let d: usize = depth - 1;
    let rest = with_rest(no_types(), types, 1);
    assert(types::types_view(rest@) =~= types::types_view(types@).skip(1));
    let ft = unwrap_type(&types[0]);
    match ft {
        Type::Bool => {
            match check_constructor_matrix(env, cache, matrix, "true", no_types(), &rest, d) {
                Ok(()) => {},
                Err(e) => {
                    return Err(e);
                },
            }
            check_constructor_matrix(env, cache, matrix, "false", no_types(), &rest, d)
        },
        Type::Record(fields) => {
            let rows = make_record_rows(matrix, fields);
            let fts = with_rest(types_of_fields(fields), types, 1);
            check_matrix(env, cache, &rows, &fts, d)
        },
        Type::Unit => check_constructor_matrix(env, cache, matrix, "()", no_types(), &rest, d),
        Type::List(inner) => {
            let args = one_type((**inner).clone());
            let as_ud = Type::UserDefined(owned("List"), args);
            let ts = with_rest(one_type(as_ud), types, 1);
            check_matrix(env, cache, matrix, &ts, d)
        },
        Type::UserDefined(name, args) => {
            if heads_irrefutable(matrix) {
                return check_wildcard_matrix(env, cache, matrix, &rest, d);
            }
            match env.get_type(name.as_str()) {
                Some(td) => {
                    if env.get_enum(name.as_str()).is_none() {
                        let s = bind_params(&td.type_params, args);
                        let resolved = Type::Record(apply_subst_type_fields(&s, &td.fields));
                        let ts = with_rest(one_type(resolved), types, 1);
                        return check_matrix(env, cache, matrix, &ts, d);
                    }
                },
                None => {},
            }
            match resolve_enum(env, cache, name.as_str()) {
                Some(ed) => {
                    let s = bind_params(&ed.type_params, args);
                    check_variants(env, cache, matrix, &s, &ed.variants, &rest, d)
                },
                None => check_wildcard_matrix(env, cache, matrix, &rest, d),
            }
        },
        _ => check_wildcard_matrix(env, cache, matrix, &rest, d),
    }
}

#[verifier::loop_isolation(false)]
fn check_variants(
    env: &TypeEnv,
    cache: &Vec<(String, TypeEnv)>,
    matrix: &Vec<Vec<PatRef>>,
    s: &Vec<(String, Type)>,
    variants: &Vec<VariantDef>,
    rest: &Vec<Type>,
    depth: usize,
) -> (r: Result<(), String>)
    requires
        no_empty_row(matrix@),
    ensures
        failure_matches(
            r,
            covers_variants(
                env@,
                env::modules_view(cache@),
                matrix_view(matrix@),
                types::fields_view(s@),
                ast::variants_view(variants@),
                0,
                types::types_view(rest@),
                depth as nat,
            ),
        ),
    decreases depth, 2nat, 0nat,
{
    let ghost all = covers_variants(
        env@,
        env::modules_view(cache@),
        matrix_view(matrix@),
        types::fields_view(s@),
        ast::variants_view(variants@),
        0,
        types::types_view(rest@),
        depth as nat,
    );
    let mut i: usize = 0;
    while i < variants.len()
        invariant
            i <= variants.len(),
            no_empty_row(matrix@),
            all == covers_variants(
                env@,
                env::modules_view(cache@),
                matrix_view(matrix@),
                types::fields_view(s@),
                ast::variants_view(variants@),
                i as nat,
                types::types_view(rest@),
                depth as nat,
            ),
        decreases variants.len() - i,
    {
        let v = &variants[i];
        assert(ast::variants_view(variants@)[i as int] == v@);
        let ats = instance_types(s, &v.fields);
        match check_constructor_matrix(env, cache, matrix, v.name.as_str(), ats, rest, depth) {
            Ok(()) => {},
            Err(e) => {
                return Err(e);
            },
        }
        i = i + 1;
    }
    Ok(())
}

fn check_wildcard_matrix(
    env: &TypeEnv,
    cache: &Vec<(String, TypeEnv)>,
    matrix: &Vec<Vec<PatRef>>,
    rest: &Vec<Type>,
    depth: usize,
) -> (r: Result<(), String>)
    requires
        no_empty_row(matrix@),
    ensures
        failure_matches(
            r,
            covers_default(
                env@,
                env::modules_view(cache@),
                matrix_view(matrix@),
                types::types_view(rest@),
                depth as nat,
            ),
        ),
    decreases depth, 1nat, 0nat,
{
    let rows = make_default_rows(matrix);
    assert(matrix_view(rows@).len() == rows.len());
    if rows.len() == 0 {
        return Err(owned("Non-exhaustive"));
    }
    check_matrix(env, cache, &rows, rest, depth)
}

fn check_constructor_matrix(
    env: &TypeEnv,
    cache: &Vec<(String, TypeEnv)>,
    matrix: &Vec<Vec<PatRef>>,
    ctor: &str,
    ats: Vec<Type>,
    rest: &Vec<Type>,
    depth: usize,
) -> (r: Result<(), String>)
    requires
        no_empty_row(matrix@),
    ensures
        failure_matches(
            r,
            covers_ctor(
                env@,
                env::modules_view(cache@),
                matrix_view(matrix@),
                ctor@,
                types::types_view(ats@),
                types::types_view(rest@),
                depth as nat,
            ),
        ),
    decreases depth, 1nat, 0nat,
{
    assert(types::types_view(ats@).len() == ats.len());
    match make_ctor_rows(matrix, ctor, ats.len()) {
        Err(e) => Err(e),
        Ok(rows) => {
            let ghost a = types::types_view(ats@);
            let nt = with_rest(ats, rest, 0);
            assert(types::types_view(rest@).skip(0) =~= types::types_view(rest@));
            match check_matrix(env, cache, &rows, &nt, depth) {
                Ok(()) => Ok(()),
                Err(_) => Err(cat3("Non-exhaustive match: missing constructor `", ctor, "`.")),
            }
        },
    }
}

/// Checks that the cases of a match cover all values of a type. `cache` holds the modules
/// imported before.
pub fn check_exhaustiveness(
    env: &TypeEnv,
    cache: &Vec<(String, TypeEnv)>,
    tt: &Type,
    cases: &Vec<MatchCase>,
) -> (r: Result<(), String>)
    ensures
        failure_matches(
            r,
            exhaustive(env@, env::modules_view(cache@), tt@, case_rows(ast::cases_view(cases@))),
        ),
{
    proof {
        reveal(exhaustive);
    }
    let mut matrix: Vec<Vec<PatRef>> = Vec::new();
    let mut i: usize = 0;
    while i < cases.len()
        invariant
            i <= cases.len(),
            matrix.len() == i,
            forall|j: int|
                0 <= j < i ==> row_view((#[trigger] matrix@[j])@) == seq![
                    cases@[j].pattern.node@,
                ],
        decreases cases.len() - i,
    {
        let mut row: Vec<PatRef> = Vec::new();
        row.push(PatRef::Original(&cases[i].pattern.node));
        assert(row_view(row@) =~= seq![cases@[i as int].pattern.node@]);
        matrix.push(row);
        i = i + 1;
    }
    assert(matrix_view(matrix@) =~= case_rows(ast::cases_view(cases@)));
    let types = one_type(tt.clone());
    check_matrix(env, cache, &matrix, &types, usize::MAX)
}

/// Checks that one pattern covers all values of a type.
pub fn check_irrefutable(
    env: &TypeEnv,
    cache: &Vec<(String, TypeEnv)>,
    tt: &Type,
    pattern: &Pattern,
) -> (r: Result<(), String>)
    ensures
        failure_matches(
            r,
            exhaustive(env@, env::modules_view(cache@), tt@, seq![seq![pattern@]]),
        ),
{
    proof {
        reveal(exhaustive);
    }
    let mut row: Vec<PatRef> = Vec::new();
    row.push(PatRef::Original(pattern));
    assert(row_view(row@) =~= seq![pattern@]);
    let mut matrix: Vec<Vec<PatRef>> = Vec::new();
    matrix.push(row);
    assert(matrix_view(matrix@) =~= seq![seq![pattern@]]);
    let types = one_type(tt.clone());
    check_matrix(env, cache, &matrix, &types, usize::MAX)
}

} // verus!
