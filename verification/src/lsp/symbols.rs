//! The symbols of a program, as an editor lists them.

use crate::ast;
use crate::ast::{
    Expr, Function, FunctionSignature, Import, Param, ParamV, Program, ProgramV, SignatureV,
    TopLevel, TopLevelV, VariantDefV,
};
use crate::lsp::position;
use crate::lsp::position::{CheckRange, LineIndex, LineIndexV};
use crate::lsp::server::Method;
use crate::text;
use crate::text::{Text, cat3, cat4, join};
use crate::typecheck::render;
use crate::typecheck::render::type_to_text;
use crate::types;
use crate::types::{Spanned, Type, TypeV, VariantDef};
use vstd::prelude::*;

verus! {

/// What a symbol stands for.
#[derive(Debug, Clone, Copy, PartialEq, Eq, Structural)]
pub enum SymbolKind {
    Function,
    Constant,
    Struct,
    Enum,
    EnumMember,
    Event,
    Interface,
    Method,
}

/// A symbol, with the symbols inside it.
#[derive(Debug)]
pub struct DocumentSymbol {
    pub name: String,
    pub detail: Option<String>,
    pub kind: SymbolKind,
    pub range: CheckRange,
    pub selection_range: CheckRange,
    pub children: Option<Vec<DocumentSymbol>>,
}

/// The model of a symbol.
pub struct SymbolV {
    pub name: Text,
    pub detail: Option<Text>,
    pub kind: SymbolKind,
    pub range: CheckRange,
    pub selection_range: CheckRange,
    pub children: Option<Seq<SymbolV>>,
}

impl DocumentSymbol {
    /// The model of this symbol.
    pub open spec fn view(&self) -> SymbolV
        decreases self,
    {
        SymbolV {
            name: self.name@,
            detail: types::opt_text(self.detail),
            kind: self.kind,
            range: self.range,
            selection_range: self.selection_range,
            children: match self.children {
                Some(v) => Some(symbols_view(v@)),
                None => None,
            },
        }
    }
}

/// The models of a list of symbols.
pub open spec fn symbols_view(v: Seq<DocumentSymbol>) -> Seq<SymbolV>
    decreases v,
{
    Seq::new(
        v.len(),
        |i: int|
            if 0 <= i < v.len() {
                v[i].view()
            } else {
                arbitrary()
            },
    )
}

/// The model of a list of inner symbols, where there are any.
pub open spec fn children_view(c: Option<Vec<DocumentSymbol>>) -> Option<Seq<SymbolV>> {
    match c {
        Some(v) => Some(symbols_view(v@)),
        None => None,
    }
}

/// A symbol without inner symbols.
pub open spec fn leaf(
    name: Text,
    detail: Option<Text>,
    kind: SymbolKind,
    range: CheckRange,
) -> SymbolV {
    SymbolV { name, detail, kind, range, selection_range: range, children: None }
}

/// A symbol with inner symbols; an empty list counts as none.
pub open spec fn branch(
    name: Text,
    kind: SymbolKind,
    range: CheckRange,
    children: Seq<SymbolV>,
) -> SymbolV {
    SymbolV {
        name,
        detail: None,
        kind,
        range,
        selection_range: range,
        children: if children.len() == 0 {
            None
        } else {
            Some(children)
        },
    }
}

/// Type parameters in angle brackets, where there are any.
pub open spec fn params_detail(params: Seq<Text>) -> Option<Text> {
    if params.len() == 0 {
        None
    } else {
        Some("<"@ + text::joined(params, ", "@) + ">"@)
    }
}

/// Parameters as `name: type`.
pub open spec fn param_texts(params: Seq<ParamV>) -> Seq<Text> {
    params.map_values(|p: ParamV| p.name + ": "@ + render::type_text(p.typ))
}

/// A signature as `(parameters) -> result`.
pub open spec fn arrow_signature(params: Seq<ParamV>, ret: TypeV) -> Text {
    "("@ + text::joined(param_texts(params), ", "@) + ") -> "@ + render::type_text(ret)
}

/// The symbol of a constructor.
pub open spec fn variant_symbol(v: VariantDefV, range: CheckRange) -> SymbolV {
    leaf(v.name, None, SymbolKind::EnumMember, range)
}

/// The symbol of an operation of a port.
pub open spec fn method_symbol(f: SignatureV, range: CheckRange) -> SymbolV {
    leaf(f.name, Some(arrow_signature(f.params, f.ret_type)), SymbolKind::Method, range)
}

/// The type that a binding is annotated with, as text.
pub open spec fn annotation_detail(t: Option<TypeV>) -> Option<Text> {
    match t {
        Some(t) => Some(render::type_text(t)),
        None => None,
    }
}

/// The symbol of a definition; an import has none.
pub open spec fn symbol_of(def: Spanned<TopLevelV>, ix: LineIndexV) -> Option<SymbolV> {
    let range = position::range_of(ix, def.span);
    match def.node {
        TopLevelV::Let(gl) => Some(
            leaf(
                gl.name,
                annotation_detail(gl.typ),
                if gl.value.node is Lambda {
                    SymbolKind::Function
                } else {
                    SymbolKind::Constant
                },
                range,
            ),
        ),
        TopLevelV::TypeDef(td) => Some(
            leaf(td.name, params_detail(td.type_params), SymbolKind::Struct, range),
        ),
        TopLevelV::Enum(ed) => Some(
            branch(
                ed.name,
                SymbolKind::Enum,
                range,
                ed.variants.map_values(|v: VariantDefV| variant_symbol(v, range)),
            ),
        ),
        TopLevelV::Exception(x) => Some(leaf(x.name, None, SymbolKind::Event, range)),
        TopLevelV::Port(p) => Some(
            branch(
                p.name,
                SymbolKind::Interface,
                range,
                p.functions.map_values(|f: SignatureV| method_symbol(f, range)),
            ),
        ),
        TopLevelV::Import(_) => None,
    }
}

/// The symbols of the first `n` definitions.
pub open spec fn symbols_to(defs: Seq<Spanned<TopLevelV>>, ix: LineIndexV, n: nat) -> Seq<SymbolV>
    decreases n,
{
    if n == 0 || n > defs.len() {
        Seq::empty()
    } else {
        let before = symbols_to(defs, ix, (n - 1) as nat);
        match symbol_of(defs[n - 1], ix) {
            Some(s) => before.push(s),
            None => before,
        }
    }
}

/// The symbols of a program.
pub open spec fn symbols_of(p: ProgramV, ix: LineIndexV) -> Seq<SymbolV> {
    symbols_to(p.definitions, ix, p.definitions.len())
}

/// Renders type parameters in angle brackets, where there are any.
pub fn params_to_detail(params: &Vec<String>) -> (r: Option<String>)
    ensures
        types::opt_text(r) == params_detail(text::texts(params@)),
{
    assert(text::texts(params@).len() == params.len());
    if params.len() == 0 {
        None
    } else {
        let list = join(params, ", ");
        Some(cat3("<", list.as_str(), ">"))
    }
}

/// Renders parameters as `name: type`.
pub fn params_to_texts(params: &Vec<Param>) -> (r: Vec<String>)
    ensures
        text::texts(r@) == param_texts(ast::params_view(params@)),
{
    let mut out: Vec<String> = Vec::new();
    let mut i: usize = 0;
    while i < params.len()
        invariant
            i <= params.len(),
            out.len() == i,
            forall|j: int|
                0 <= j < i ==> (#[trigger] out@[j])@ == params@[j].name@ + ": "@ + render::type_text(
                    params@[j].typ@,
                ),
        decreases params.len() - i,
    {
        let t = type_to_text(&params[i].typ);
        out.push(cat3(params[i].name.as_str(), ": ", t.as_str()));
        i = i + 1;
    }
    assert(text::texts(out@) =~= param_texts(ast::params_view(params@)));
    out
}

/// Renders a signature as `(parameters) -> result`.
pub fn format_arrow_sig(params: &Vec<Param>, ret: &Type) -> (r: String)
    ensures
        r@ == arrow_signature(ast::params_view(params@), ret@),
{
    let list = params_to_texts(params);
    let inner = join(&list, ", ");
    let t = type_to_text(ret);
    cat4("(", inner.as_str(), ") -> ", t.as_str())
}

fn leaf_symbol(
    name: &String,
    detail: Option<String>,
    kind: SymbolKind,
    range: CheckRange,
) -> (r: DocumentSymbol)
    ensures
        r@ == leaf(name@, types::opt_text(detail), kind, range),
{
    DocumentSymbol {
        name: name.clone(),
        detail,
        kind,
        range,
        selection_range: range,
        children: None,
    }
}

fn branch_symbol(
    name: &String,
    kind: SymbolKind,
    range: CheckRange,
    children: Vec<DocumentSymbol>,
) -> (r: DocumentSymbol)
    ensures
        r@ == branch(name@, kind, range, symbols_view(children@)),
{
    assert(symbols_view(children@).len() == children.len());
    DocumentSymbol {
        name: name.clone(),
        detail: None,
        kind,
        range,
        selection_range: range,
        children: if children.len() == 0 {
            None
        } else {
            Some(children)
        },
    }
}

fn variant_symbols(variants: &Vec<VariantDef>, range: CheckRange) -> (r: Vec<DocumentSymbol>)
    ensures
        symbols_view(r@) == ast::variants_view(variants@).map_values(
            |v: VariantDefV| variant_symbol(v, range),
        ),
{
    let mut out: Vec<DocumentSymbol> = Vec::new();
    let mut i: usize = 0;
    while i < variants.len()
        invariant
            i <= variants.len(),
            out.len() == i,
            forall|j: int|
                0 <= j < i ==> (#[trigger] out@[j])@ == variant_symbol(variants@[j]@, range),
        decreases variants.len() - i,
    {
        out.push(leaf_symbol(&variants[i].name, None, SymbolKind::EnumMember, range));
        i = i + 1;
    }
    assert(symbols_view(out@) =~= ast::variants_view(variants@).map_values(
        |v: VariantDefV| variant_symbol(v, range),
    ));
    out
}

fn method_symbols(functions: &Vec<FunctionSignature>, range: CheckRange) -> (r: Vec<
    DocumentSymbol,
>)
    ensures
        symbols_view(r@) == functions@.map_values(|f: FunctionSignature| f@).map_values(
            |f: SignatureV| method_symbol(f, range),
        ),
{
    let mut out: Vec<DocumentSymbol> = Vec::new();
    let mut i: usize = 0;
    while i < functions.len()
        invariant
            i <= functions.len(),
            out.len() == i,
            forall|j: int|
                0 <= j < i ==> (#[trigger] out@[j])@ == method_symbol(functions@[j]@, range),
        decreases functions.len() - i,
    {
        let f = &functions[i];
        let detail = format_arrow_sig(&f.params, &f.ret_type);
        out.push(leaf_symbol(&f.name, Some(detail), SymbolKind::Method, range));
        i = i + 1;
    }
    assert(symbols_view(out@) =~= functions@.map_values(|f: FunctionSignature| f@).map_values(
        |f: SignatureV| method_symbol(f, range),
    ));
    out
}

fn symbol_for(def: &Spanned<TopLevel>, idx: &LineIndex) -> (r: Option<DocumentSymbol>)
    ensures
        match r {
            Some(s) => symbol_of(def@, idx@) == Some(s@),
            None => symbol_of(def@, idx@) is None,
        },
{
    let range = idx.span_to_range(&def.span);
    match &def.node {
        TopLevel::Let(gl) => {
            let kind = match &gl.value.node {
                Expr::Lambda { .. } => SymbolKind::Function,
                _ => SymbolKind::Constant,
            };
            let detail = match &gl.typ {
                Some(t) => Some(type_to_text(t)),
                None => None,
            };
            Some(leaf_symbol(&gl.name, detail, kind, range))
        },
        TopLevel::TypeDef(td) => {
            let detail = params_to_detail(&td.type_params);
            Some(leaf_symbol(&td.name, detail, SymbolKind::Struct, range))
        },
        TopLevel::Enum(ed) => {
            let children = variant_symbols(&ed.variants, range);
            Some(branch_symbol(&ed.name, SymbolKind::Enum, range, children))
        },
        TopLevel::Exception(x) => {
            Some(leaf_symbol(&x.name, None, SymbolKind::Event, range))
        },
        TopLevel::Port(p) => {
            let children = method_symbols(&p.functions, range);
            Some(branch_symbol(&p.name, SymbolKind::Interface, range, children))
        },
        TopLevel::Import(_) => None,
    }
}

/// Lists the symbols of a program.
pub fn extract(program: &Program, idx: &LineIndex) -> (r: Vec<DocumentSymbol>)
    ensures
        symbols_view(r@) == symbols_of(program@, idx@),
{
    let mut out: Vec<DocumentSymbol> = Vec::new();
    let mut i: usize = 0;
    assert(symbols_view(out@) =~= Seq::<SymbolV>::empty());
    while i < program.definitions.len()
        invariant
            i <= program.definitions.len(),
            symbols_view(out@) == symbols_to(program@.definitions, idx@, i as nat),
        decreases program.definitions.len() - i,
    {
        let ghost before = symbols_view(out@);
        assert(program@.definitions[i as int] == program.definitions@[i as int]@);
        match symbol_for(&program.definitions[i], idx) {
            Some(s) => {
                let ghost sv = s@;
                out.push(s);
                assert(symbols_view(out@) =~= before.push(sv));
            },
            None => {},
        }
        i = i + 1;
    }
    out
}

/// Whether a definition gets a symbol: all but imports do.
pub open spec fn has_symbol(def: Spanned<TopLevelV>) -> bool {
    !(def.node is Import)
}

/// The number of the first `n` definitions that get a symbol.
pub open spec fn symbol_count(defs: Seq<Spanned<TopLevelV>>, n: nat) -> nat
    decreases n,
{
    if n == 0 || n > defs.len() {
        0
    } else {
        symbol_count(defs, (n - 1) as nat) + if has_symbol(defs[n - 1]) {
            1nat
        } else {
            0
        }
    }
}

/// Every definition but the imports has a symbol, in the order of the definitions.
pub proof fn law_each_definition_has_a_symbol(
    defs: Seq<Spanned<TopLevelV>>,
    ix: LineIndexV,
    n: nat,
    i: int,
)
    requires
        0 <= i < n <= defs.len(),
        has_symbol(defs[i]),
    ensures
        symbols_to(defs, ix, n).len() == symbol_count(defs, n),
        symbol_count(defs, i as nat) < symbols_to(defs, ix, n).len(),
        symbol_of(defs[i], ix) == Some(
            symbols_to(defs, ix, n)[symbol_count(defs, i as nat) as int],
        ),
    decreases n,
{
    if i < n - 1 {
        law_each_definition_has_a_symbol(defs, ix, (n - 1) as nat, i);
    } else {
        lemma_symbol_count(defs, ix, (n - 1) as nat);
    }
}

proof fn lemma_symbol_count(defs: Seq<Spanned<TopLevelV>>, ix: LineIndexV, n: nat)
    requires
        n <= defs.len(),
    ensures
        symbols_to(defs, ix, n).len() == symbol_count(defs, n),
    decreases n,
{
    if n > 0 {
        lemma_symbol_count(defs, ix, (n - 1) as nat);
    }
}

/// The symbol of a definition has its name and its place, tells what kind of definition it is, and
/// holds the constructors of a sum type or the functions of a port in their order. An import has
/// none.
pub proof fn law_symbol_tells_its_definition(def: Spanned<TopLevelV>, ix: LineIndexV)
    ensures
        match (def.node, symbol_of(def, ix)) {
            (TopLevelV::Import(_), s) => s is None,
            (_, None) => false,
            (node, Some(s)) => s.range == position::range_of(ix, def.span) && s.selection_range == s.range
                && match node {
                TopLevelV::Let(gl) => s.name == gl.name && s.children is None && (
                gl.value.node is Lambda <==> s.kind is Function) && (!(gl.value.node is Lambda)
                    <==> s.kind is Constant),
                TopLevelV::TypeDef(td) => s.name == td.name && s.children is None && s.kind
                    is Struct,
                TopLevelV::Exception(x) => s.name == x.name && s.children is None && s.kind
                    is Event,
                TopLevelV::Enum(ed) => s.name == ed.name && s.kind is Enum && (s.children is None
                    <==> ed.variants.len() == 0) && (s.children matches Some(cs) ==> cs.len()
                    == ed.variants.len() && forall|k: int|
                    0 <= k < cs.len() ==> (#[trigger] cs[k]).name == ed.variants[k].name
                        && cs[k].kind is EnumMember),
                TopLevelV::Port(p) => s.name == p.name && s.kind is Interface && (s.children is None
                    <==> p.functions.len() == 0) && (s.children matches Some(cs) ==> cs.len()
                    == p.functions.len() && forall|k: int|
                    0 <= k < cs.len() ==> (#[trigger] cs[k]).name == p.functions[k].name
                        && cs[k].kind is Method),
                TopLevelV::Import(_) => false,
            },
        },
{
}

} // verus!
