//! The open documents of an editor, and the answers to its requests.

use crate::ast::{Program, ProgramV};
use crate::lexer;
use crate::lexer::{LexErrorV, TokenV};
use crate::lexer_laws;
use crate::lsp::analysis;
use crate::lsp::analysis::{
    AnalysisV, CheckDiagnostic, DiagnosticV, LspDiagnostic, PublishedV, analyze_checked,
    to_lsp_diagnostic,
};
use crate::lsp::completion;
use crate::lsp::completion::{CompletionItem, CompletionV, completions};
use crate::lsp::hover;
use crate::lsp::hover::{find_definition, hover_at};
use crate::lsp::position;
use crate::lsp::position::{CheckPosition, CheckRange, LineIndex, LineIndexV};
use crate::lsp::references;
use crate::lsp::references::{ReferencesV, find_all_references};
use crate::lsp::symbols;
use crate::lsp::symbols::{DocumentSymbol, SymbolV, extract};
use crate::lsp::uri;
use crate::lsp::uri::uri_to_filename;
use crate::parser;
use crate::table;
use crate::table::{find_key, put};
use crate::text;
use crate::text::{Text, cat2, owned, str_eq};
use crate::typecheck::env::{EnvV, TypeEnv};
use crate::typecheck::program::{World, WorldV};
use crate::types;
use crate::types::Span;
use vstd::prelude::*;
use vstd::utf8::encode_utf8;

verus! {

// ---------------------------------------------------------------------------
// Documents
// ---------------------------------------------------------------------------

/// An open document, with what its last analysis found. Its integer literals fit machine
/// integers, so that it can be read again.
pub struct DocumentState {
    text: String,
    line_index: LineIndex,
    env: Option<TypeEnv>,
    program: Option<Program>,
}

/// The model of an open document.
pub struct DocumentV {
    pub text: Text,
    pub index: LineIndexV,
    pub env: Option<EnvV>,
    pub program: Option<ProgramV>,
}

impl DocumentState {
    /// The model of this document.
    pub closed spec fn view(&self) -> DocumentV {
        DocumentV {
            text: self.text@,
            index: self.line_index@,
            env: analysis::opt_env(self.env),
            program: analysis::opt_program(self.program),
        }
    }

    #[verifier::type_invariant]
    spec fn can_be_read(self) -> bool {
        lexer::literals_fit(self.text@)
    }
}

/// The models of a table of documents.
pub open spec fn documents_view(v: Seq<(String, DocumentState)>) -> Seq<(Text, DocumentV)> {
    v.map_values(|e: (String, DocumentState)| (e.0@, e.1@))
}

/// The document that an analysis leaves.
pub open spec fn analyzed_document(text: Text, a: AnalysisV) -> DocumentV {
    DocumentV { text, index: a.index, env: a.env, program: a.program }
}

/// The analysis of a text under an address.
pub open spec fn analysis_at(uri: Text, text: Text, w: WorldV) -> AnalysisV {
    analysis::analysis_of(
        uri::filename_of(uri),
        position::index_of_source(text),
        parser::program_of(text, lexer::classes(text)),
        w,
    )
}

/// The tokens of a document, or the reports about it.
pub open spec fn document_tokens(d: DocumentV) -> Result<Seq<TokenV>, Seq<LexErrorV>> {
    lexer::source_tokens(d.text, lexer::classes(d.text))
}

/// Finds an open document by its address.
pub fn find_document<'a>(docs: &'a Vec<(String, DocumentState)>, uri: &str) -> (r: Option<
    &'a DocumentState,
>)
    ensures
        match r {
            Some(d) => table::lookup(documents_view(docs@), uri@) == Some(d@),
            None => table::lookup(documents_view(docs@), uri@) is None,
        },
{
    assert(table::keys_of(documents_view(docs@)) =~= table::raw_keys(docs@));
    match find_key(docs, uri) {
        Some(i) => Some(&docs[i].1),
        None => None,
    }
}

// ---------------------------------------------------------------------------
// Notifications
// ---------------------------------------------------------------------------

/// What an editor tells about a document.
#[derive(Debug)]
pub enum Notification {
    /// It was opened with a text.
    Opened { uri: String, text: String },
    /// Its text was replaced; the last of the texts counts.
    Changed { uri: String, texts: Vec<String> },
    /// It was closed.
    Closed { uri: String },
    /// Something that does not concern the documents.
    Other,
}

/// The model of what an editor tells.
pub enum NotificationV {
    Opened { uri: Text, text: Text },
    Changed { uri: Text, texts: Seq<Text> },
    Closed { uri: Text },
    Other,
}

impl Notification {
    /// The model of this notification.
    pub open spec fn view(&self) -> NotificationV {
        match self {
            Notification::Opened { uri, text } => NotificationV::Opened {
                uri: uri@,
                text: text@,
            },
            Notification::Changed { uri, texts: ts } => NotificationV::Changed {
                uri: uri@,
                texts: text::texts(ts@),
            },
            Notification::Closed { uri } => NotificationV::Closed { uri: uri@ },
            Notification::Other => NotificationV::Other,
        }
    }
}

/// The reports that are published for a document.
#[derive(Debug)]
pub struct Publication {
    pub uri: String,
    pub diagnostics: Vec<LspDiagnostic>,
}

/// The model of the reports that are published.
pub struct PublicationV {
    pub uri: Text,
    pub diagnostics: Seq<PublishedV>,
}

/// The models of a list of published reports.
pub open spec fn published_view(v: Seq<LspDiagnostic>) -> Seq<PublishedV> {
    v.map_values(|d: LspDiagnostic| d@)
}

impl Publication {
    /// The model of this publication.
    pub open spec fn view(&self) -> PublicationV {
        PublicationV { uri: self.uri@, diagnostics: published_view(self.diagnostics@) }
    }
}

/// The documents after an event, and what is published.
pub struct DeskV {
    pub documents: Seq<(Text, DocumentV)>,
    pub publication: Option<PublicationV>,
}

/// A text is given to a document: it is analyzed and kept, and its reports are published. A text
/// with an integer literal that does not fit is not taken.
pub open spec fn document_updated(
    docs: Seq<(Text, DocumentV)>,
    uri: Text,
    text: Text,
    w: WorldV,
) -> DeskV {
    if lexer::literals_fit(text) {
        let a = analysis_at(uri, text, w);
        DeskV {
            documents: table::store(docs, uri, analyzed_document(text, a)),
            publication: Some(
                PublicationV {
                    uri,
                    diagnostics: a.check.diagnostics.map_values(|d: DiagnosticV| analysis::published(d)),
                },
            ),
        }
    } else {
        DeskV { documents: docs, publication: None }
    }
}

/// What a notification does to the documents.
pub open spec fn notified(docs: Seq<(Text, DocumentV)>, n: NotificationV, w: WorldV) -> DeskV {
    match n {
        NotificationV::Opened { uri, text } => document_updated(docs, uri, text, w),
        NotificationV::Changed { uri, texts: ts } => {
            if ts.len() > 0 {
                document_updated(docs, uri, ts.last(), w)
            } else {
                DeskV { documents: docs, publication: None }
            }
        },
        NotificationV::Closed { uri } => DeskV {
            documents: table::unstored(docs, uri),
            publication: Some(PublicationV { uri, diagnostics: Seq::empty() }),
        },
        NotificationV::Other => DeskV { documents: docs, publication: None },
    }
}

/// The model of a publication that may be missing.
pub open spec fn opt_publication(p: Option<Publication>) -> Option<PublicationV> {
    match p {
        Some(p) => Some(p@),
        None => None,
    }
}

fn publish(diagnostics: &Vec<CheckDiagnostic>) -> (r: Vec<LspDiagnostic>)
    ensures
        published_view(r@) == analysis::diagnostics_view(diagnostics@).map_values(
            |d: DiagnosticV| analysis::published(d),
        ),
{
    let mut out: Vec<LspDiagnostic> = Vec::new();
    let mut i: usize = 0;
    while i < diagnostics.len()
        invariant
            i <= diagnostics.len(),
            out.len() == i,
            forall|j: int|
                0 <= j < i ==> (#[trigger] out@[j])@ == analysis::published(diagnostics@[j]@),
        decreases diagnostics.len() - i,
    {
        out.push(to_lsp_diagnostic(&diagnostics[i]));
        i = i + 1;
    }
    assert(published_view(out@) =~= analysis::diagnostics_view(diagnostics@).map_values(
        |d: DiagnosticV| analysis::published(d),
    ));
    out
}

/// Analyzes the text of a document, keeps it, and says what to publish.
pub fn update_document(
    docs: &mut Vec<(String, DocumentState)>,
    uri: String,
    text: String,
    world: &World,
) -> (r: Option<Publication>)
    ensures
        documents_view(final(docs)@) == document_updated(
            documents_view(old(docs)@),
            uri@,
            text@,
            world@,
        ).documents,
        opt_publication(r) == document_updated(
            documents_view(old(docs)@),
            uri@,
            text@,
            world@,
        ).publication,
{
    let filename = uri_to_filename(uri.as_str());
    match analyze_checked(filename.as_str(), text.as_str(), world) {
        Some(result) => {
            let ghost av = result@;
            let diagnostics = publish(&result.check.diagnostics);
            let state = DocumentState {
                text,
                line_index: result.line_index,
                env: result.env,
                program: result.program,
            };
            proof {
                assert(state@ == analyzed_document(text@, av));
                assert(table::keys_of(documents_view(docs@)) =~= table::raw_keys(docs@));
                table::lemma_index_of_text(table::raw_keys(docs@), uri@, 0);
            }
            put(docs, uri.clone(), state);
            assert(documents_view(docs@) =~= table::store(
                documents_view(old(docs)@),
                uri@,
                analyzed_document(text@, av),
            ));
            Some(Publication { uri, diagnostics })
        },
        None => None,
    }
}

fn close_document(docs: &mut Vec<(String, DocumentState)>, uri: &str)
    ensures
        documents_view(final(docs)@) == table::unstored(documents_view(old(docs)@), uri@),
{
    assert(table::keys_of(documents_view(docs@)) =~= table::raw_keys(docs@));
    match find_key(docs, uri) {
        Some(i) => {
            docs.remove(i);
            assert(documents_view(docs@) =~= documents_view(old(docs)@).remove(i as int));
        },
        None => {},
    }
}

/// Takes a notification in, and says what to publish.
pub fn handle_notification(
    docs: &mut Vec<(String, DocumentState)>,
    notification: Notification,
    world: &World,
) -> (r: Option<Publication>)
    ensures
        documents_view(final(docs)@) == notified(
            documents_view(old(docs)@),
            notification@,
            world@,
        ).documents,
        opt_publication(r) == notified(
            documents_view(old(docs)@),
            notification@,
            world@,
        ).publication,
{
    match notification {
        Notification::Opened { uri, text } => update_document(docs, uri, text, world),
        Notification::Changed { uri, texts: ts } => {
            assert(text::texts(ts@).len() == ts.len());
            if ts.len() > 0 {
                let last = ts[ts.len() - 1].clone();
                assert(text::texts(ts@).last() == last@);
                update_document(docs, uri, last, world)
            } else {
                None
            }
        },
        Notification::Closed { uri } => {
            close_document(docs, uri.as_str());
            let diagnostics: Vec<LspDiagnostic> = Vec::new();
            assert(published_view(diagnostics@) =~= Seq::<PublishedV>::empty());
            Some(Publication { uri, diagnostics })
        },
        Notification::Other => None,
    }
}

// ---------------------------------------------------------------------------
// Requests
// ---------------------------------------------------------------------------

/// The requests that are answered, by method.
#[derive(Debug, Clone, Copy, PartialEq, Eq, Structural)]
pub enum Method {
    Hover,
    DocumentSymbol,
    Definition,
    References,
    Rename,
    PrepareRename,
    Completion,
}

/// The request of a method's name.
pub open spec fn method_named(name: Text) -> Option<Method> {
    if name == "textDocument/hover"@ {
        Some(Method::Hover)
    } else if name == "textDocument/documentSymbol"@ {
        Some(Method::DocumentSymbol)
    } else if name == "textDocument/definition"@ {
        Some(Method::Definition)
    } else if name == "textDocument/references"@ {
        Some(Method::References)
    } else if name == "textDocument/rename"@ {
        Some(Method::Rename)
    } else if name == "textDocument/prepareRename"@ {
        Some(Method::PrepareRename)
    } else if name == "textDocument/completion"@ {
        Some(Method::Completion)
    } else {
        None
    }
}

/// Reads a method's name.
pub fn parse_method_name(name: &str) -> (r: Option<Method>)
    ensures
        r == method_named(name@),
{
    if str_eq(name, "textDocument/hover") {
        Some(Method::Hover)
    } else if str_eq(name, "textDocument/documentSymbol") {
        Some(Method::DocumentSymbol)
    } else if str_eq(name, "textDocument/definition") {
        Some(Method::Definition)
    } else if str_eq(name, "textDocument/references") {
        Some(Method::References)
    } else if str_eq(name, "textDocument/rename") {
        Some(Method::Rename)
    } else if str_eq(name, "textDocument/prepareRename") {
        Some(Method::PrepareRename)
    } else if str_eq(name, "textDocument/completion") {
        Some(Method::Completion)
    } else {
        None
    }
}

/// What a request asks about: a document, a position in it, and a new name. A request that does
/// not speak of a position or of a name leaves them as they are.
#[derive(Debug)]
pub struct RequestParams {
    pub uri: String,
    pub position: CheckPosition,
    pub new_name: String,
}

/// The model of what a request asks about.
pub struct RequestParamsV {
    pub uri: Text,
    pub position: CheckPosition,
    pub new_name: Text,
}

impl RequestParams {
    /// The model of these parameters.
    pub open spec fn view(&self) -> RequestParamsV {
        RequestParamsV {
            uri: self.uri@,
            position: self.position,
            new_name: self.new_name@,
        }
    }
}

/// Why a request is refused.
#[derive(Debug, Clone, Copy, PartialEq, Eq, Structural)]
pub enum RefusalKind {
    InvalidParams,
    MethodNotFound,
}

/// The answer to a request.
#[derive(Debug)]
pub enum Reply {
    Hover(Option<String>),
    Symbols(Option<Vec<DocumentSymbol>>),
    Definition(Option<CheckRange>),
    References(Option<Vec<CheckRange>>),
    Rename(Option<Vec<(CheckRange, String)>>),
    PrepareRename(Option<(CheckRange, String)>),
    Completions(Vec<CompletionItem>),
    Refused(RefusalKind, String),
}

/// The model of an answer.
pub enum ReplyV {
    Hover(Option<Text>),
    Symbols(Option<Seq<SymbolV>>),
    Definition(Option<CheckRange>),
    References(Option<Seq<CheckRange>>),
    Rename(Option<Seq<(CheckRange, Text)>>),
    PrepareRename(Option<(CheckRange, Text)>),
    Completions(Seq<CompletionV>),
    Refused(RefusalKind, Text),
}

/// The models of a list of edits.
pub open spec fn edits_view(v: Seq<(CheckRange, String)>) -> Seq<(CheckRange, Text)> {
    v.map_values(|e: (CheckRange, String)| (e.0, e.1@))
}

impl Reply {
    /// The model of this answer.
    pub open spec fn view(&self) -> ReplyV {
        match self {
            Reply::Hover(t) => ReplyV::Hover(types::opt_text(*t)),
            Reply::Symbols(s) => ReplyV::Symbols(symbols::children_view(*s)),
            Reply::Definition(r) => ReplyV::Definition(*r),
            Reply::References(Some(v)) => ReplyV::References(Some(v@)),
            Reply::References(None) => ReplyV::References(None),
            Reply::Rename(Some(v)) => ReplyV::Rename(Some(edits_view(v@))),
            Reply::Rename(None) => ReplyV::Rename(None),
            Reply::PrepareRename(Some(e)) => ReplyV::PrepareRename(Some((e.0, e.1@))),
            Reply::PrepareRename(None) => ReplyV::PrepareRename(None),
            Reply::Completions(v) => ReplyV::Completions(completion::completions_view(v@)),
            Reply::Refused(k, m) => ReplyV::Refused(*k, m@),
        }
    }
}

/// The offset of a position in a document.
pub open spec fn offset_in(d: DocumentV, pos: CheckPosition) -> usize {
    position::offset_of(d.index, pos) as usize
}

/// The occurrences of the name at a position of a document.
pub open spec fn document_references(d: DocumentV, pos: CheckPosition) -> Option<ReferencesV> {
    references::references_in(document_tokens(d), offset_in(d, pos))
}

/// The ranges of spans of a document.
pub open spec fn ranges_of(ix: LineIndexV, spans: Seq<Span>) -> Seq<CheckRange> {
    spans.map_values(|s: Span| position::range_of(ix, s))
}

/// The edits that put a name at spans of a document.
pub open spec fn edits_of(ix: LineIndexV, spans: Seq<Span>, name: Text) -> Seq<
    (CheckRange, Text),
> {
    spans.map_values(|s: Span| (position::range_of(ix, s), name))
}

/// What is shown at a position of a document.
pub open spec fn document_hover(d: DocumentV, pos: CheckPosition) -> Option<Text> {
    match (d.env, d.program) {
        (Some(env), Some(p)) => hover::hover_of(document_tokens(d), offset_in(d, pos), p, env),
        _ => None,
    }
}

/// Where the name at a position of a document is defined.
pub open spec fn document_definition(d: DocumentV, pos: CheckPosition) -> Option<CheckRange> {
    match d.program {
        Some(p) => match hover::definition_in(document_tokens(d), offset_in(d, pos), p) {
            Some(span) => Some(position::range_of(d.index, span)),
            None => None,
        },
        None => None,
    }
}

/// The answer to a request about an open document.
pub open spec fn document_reply(d: DocumentV, m: Method, q: RequestParamsV) -> ReplyV {
    match m {
        Method::Hover => ReplyV::Hover(document_hover(d, q.position)),
        Method::DocumentSymbol => ReplyV::Symbols(
            match d.program {
                Some(p) => Some(symbols::symbols_of(p, d.index)),
                None => None,
            },
        ),
        Method::Definition => ReplyV::Definition(document_definition(d, q.position)),
        Method::References => ReplyV::References(
            match document_references(d, q.position) {
                Some(f) => Some(ranges_of(d.index, f.places)),
                None => None,
            },
        ),
        Method::Rename => ReplyV::Rename(
            match document_references(d, q.position) {
                Some(f) => Some(edits_of(d.index, f.places, q.new_name)),
                None => None,
            },
        ),
        Method::PrepareRename => ReplyV::PrepareRename(
            match document_references(d, q.position) {
                Some(f) => Some((position::range_of(d.index, f.origin), f.name)),
                None => None,
            },
        ),
        Method::Completion => ReplyV::Completions(completion::completions_of(d.env)),
    }
}

/// The answer to a request about a document that is not open.
pub open spec fn absent_reply(m: Method) -> ReplyV {
    match m {
        Method::Hover => ReplyV::Hover(None),
        Method::DocumentSymbol => ReplyV::Symbols(None),
        Method::Definition => ReplyV::Definition(None),
        Method::References => ReplyV::References(None),
        Method::Rename => ReplyV::Rename(None),
        Method::PrepareRename => ReplyV::PrepareRename(None),
        Method::Completion => ReplyV::Completions(Seq::empty()),
    }
}

/// The answer to a request, given its method and its parameters or why they cannot be read.
pub open spec fn reply_to(
    docs: Seq<(Text, DocumentV)>,
    method: Text,
    params: Result<RequestParamsV, Text>,
) -> ReplyV {
    match method_named(method) {
        None => ReplyV::Refused(
            RefusalKind::MethodNotFound,
            "method not found: "@ + method,
        ),
        Some(m) => match params {
            Err(why) => ReplyV::Refused(RefusalKind::InvalidParams, why),
            Ok(q) => match table::lookup(docs, q.uri) {
                Some(d) => document_reply(d, m, q),
                None => absent_reply(m),
            },
        },
    }
}

impl DocumentState {
    fn references_at(&self, pos: CheckPosition) -> (r: Option<(String, Span, Vec<Span>)>)
        ensures
            references::references_view(r) == document_references(self@, pos),
    {
        proof {
            use_type_invariant(self);
        }
        let offset = self.line_index.position_to_offset(pos);
        find_all_references(self.text.as_str(), offset)
    }

    fn hover(&self, pos: CheckPosition) -> (r: Option<String>)
        ensures
            types::opt_text(r) == document_hover(self@, pos),
    {
        proof {
            use_type_invariant(self);
        }
        let offset = self.line_index.position_to_offset(pos);
        match (&self.env, &self.program) {
            (Some(env), Some(program)) => hover_at(self.text.as_str(), offset, program, env),
            _ => None,
        }
    }

    fn definition(&self, pos: CheckPosition) -> (r: Option<CheckRange>)
        ensures
            r == document_definition(self@, pos),
    {
        proof {
            use_type_invariant(self);
        }
        match &self.program {
            Some(program) => {
                let offset = self.line_index.position_to_offset(pos);
                match find_definition(program, self.text.as_str(), offset) {
                    Some(span) => Some(self.line_index.span_to_range(&span)),
                    None => None,
                }
            },
            None => None,
        }
    }

    fn ranges(&self, spans: &Vec<Span>) -> (r: Vec<CheckRange>)
        ensures
            r@ == ranges_of(self@.index, spans@),
    {
        let mut out: Vec<CheckRange> = Vec::new();
        let mut i: usize = 0;
        while i < spans.len()
            invariant
                i <= spans.len(),
                out.len() == i,
                forall|j: int|
                    0 <= j < i ==> #[trigger] out@[j] == position::range_of(self@.index, spans@[j]),
            decreases spans.len() - i,
        {
            out.push(self.line_index.span_to_range(&spans[i]));
            i = i + 1;
        }
        assert(out@ =~= ranges_of(self@.index, spans@));
        out
    }

    fn edits(&self, spans: &Vec<Span>, name: &str) -> (r: Vec<(CheckRange, String)>)
        ensures
            edits_view(r@) == edits_of(self@.index, spans@, name@),
    {
        let mut out: Vec<(CheckRange, String)> = Vec::new();
        let mut i: usize = 0;
        while i < spans.len()
            invariant
                i <= spans.len(),
                out.len() == i,
                forall|j: int|
                    0 <= j < i ==> (#[trigger] out@[j]).0 == position::range_of(self@.index, spans@[j])
                        && out@[j].1@ == name@,
            decreases spans.len() - i,
        {
            out.push((self.line_index.span_to_range(&spans[i]), owned(name)));
            i = i + 1;
        }
        assert(edits_view(out@) =~= edits_of(self@.index, spans@, name@));
        out
    }

    /// Answers a request about this document.
    pub fn answer(&self, method: Method, params: &RequestParams) -> (r: Reply)
        ensures
            r@ == document_reply(self@, method, params@),
    {
        match method {
            Method::Hover => Reply::Hover(self.hover(params.position)),
            Method::DocumentSymbol => Reply::Symbols(
                match &self.program {
                    Some(program) => Some(extract(program, &self.line_index)),
                    None => None,
                },
            ),
            Method::Definition => Reply::Definition(self.definition(params.position)),
            Method::References => match self.references_at(params.position) {
                Some((_, _, spans)) => Reply::References(Some(self.ranges(&spans))),
                None => Reply::References(None),
            },
            Method::Rename => match self.references_at(params.position) {
                Some((_, _, spans)) => Reply::Rename(
                    Some(self.edits(&spans, params.new_name.as_str())),
                ),
                None => Reply::Rename(None),
            },
            Method::PrepareRename => match self.references_at(params.position) {
                Some((name, origin, _)) => Reply::PrepareRename(
                    Some((self.line_index.span_to_range(&origin), name)),
                ),
                None => Reply::PrepareRename(None),
            },
            Method::Completion => Reply::Completions(completions(self.env.as_ref())),
        }
    }
}

fn answer_absent(m: Method) -> (r: Reply)
    ensures
        r@ == absent_reply(m),
{
    match m {
        Method::Hover => Reply::Hover(None),
        Method::DocumentSymbol => Reply::Symbols(None),
        Method::Definition => Reply::Definition(None),
        Method::References => Reply::References(None),
        Method::Rename => Reply::Rename(None),
        Method::PrepareRename => Reply::PrepareRename(None),
        Method::Completion => {
            let items: Vec<CompletionItem> = Vec::new();
            assert(completion::completions_view(items@) =~= Seq::<CompletionV>::empty());
            Reply::Completions(items)
        },
    }
}

/// Answers a request.
pub fn handle_request(
    docs: &Vec<(String, DocumentState)>,
    method: &str,
    params: Result<RequestParams, String>,
) -> (r: Reply)
    ensures
        match params {
            Ok(q) => r@ == reply_to(documents_view(docs@), method@, Ok(q@)),
            Err(why) => r@ == reply_to(documents_view(docs@), method@, Err(why@)),
        },
{
    match parse_method_name(method) {
        None => Reply::Refused(
            RefusalKind::MethodNotFound,
            cat2("method not found: ", method),
        ),
        Some(m) => match params {
            Err(why) => Reply::Refused(RefusalKind::InvalidParams, why),
            Ok(q) => match find_document(docs, q.uri.as_str()) {
                Some(d) => d.answer(m, &q),
                None => answer_absent(m),
            },
        },
    }
}

// ---------------------------------------------------------------------------
// Laws
// ---------------------------------------------------------------------------

/// After a text was given to a document, requests about that document are answered from the
/// analysis of that text, and requests about other documents as before.
pub proof fn law_requests_see_the_last_text(
    docs: Seq<(Text, DocumentV)>,
    uri: Text,
    text: Text,
    w: WorldV,
    method: Text,
    q: RequestParamsV,
)
    requires
        lexer::literals_fit(text),
    ensures
        q.uri == uri && method_named(method) is Some ==> reply_to(
            document_updated(docs, uri, text, w).documents,
            method,
            Ok(q),
        ) == document_reply(
            analyzed_document(text, analysis_at(uri, text, w)),
            method_named(method)->0,
            q,
        ),
        q.uri != uri ==> reply_to(
            document_updated(docs, uri, text, w).documents,
            method,
            Ok(q),
        ) == reply_to(docs, method, Ok(q)),
{
    table::law_lookup_after_store(
        docs,
        uri,
        analyzed_document(text, analysis_at(uri, text, w)),
        q.uri,
    );
}

/// After a document was closed, requests about it find nothing.
pub proof fn law_closed_documents_are_gone(
    docs: Seq<(Text, DocumentV)>,
    uri: Text,
    w: WorldV,
    method: Text,
    q: RequestParamsV,
)
    requires
        table::distinct_keys(docs),
        q.uri == uri,
    ensures
        method_named(method) matches Some(m) ==> reply_to(
            notified(docs, NotificationV::Closed { uri }, w).documents,
            method,
            Ok(q),
        ) == absent_reply(m),
{
    table::law_lookup_after_unstore(docs, uri, uri);
}

/// No notification makes a document occur twice.
pub proof fn law_documents_stay_distinct(
    docs: Seq<(Text, DocumentV)>,
    n: NotificationV,
    w: WorldV,
)
    requires
        table::distinct_keys(docs),
    ensures
        table::distinct_keys(notified(docs, n, w).documents),
{
    match n {
        NotificationV::Opened { uri, text } => {
            table::law_store_keeps_keys_distinct(
                docs,
                uri,
                analyzed_document(text, analysis_at(uri, text, w)),
            );
        },
        NotificationV::Changed { uri, texts: ts } => {
            table::law_store_keeps_keys_distinct(
                docs,
                uri,
                analyzed_document(ts.last(), analysis_at(uri, ts.last(), w)),
            );
        },
        NotificationV::Closed { uri } => {
            table::law_lookup_after_unstore(docs, uri, uri);
        },
        NotificationV::Other => {},
    }
}

/// A renaming edits exactly the ranges that a request for the occurrences lists.
pub proof fn law_rename_edits_the_occurrences(d: DocumentV, q: RequestParamsV)
    ensures
        match (document_reply(d, Method::Rename, q), document_reply(d, Method::References, q)) {
            (ReplyV::Rename(Some(edits)), ReplyV::References(Some(ranges))) => {
                &&& edits.len() == ranges.len()
                &&& forall|i: int|
                    0 <= i < edits.len() ==> #[trigger] edits[i] == (ranges[i], q.new_name)
            },
            (ReplyV::Rename(None), ReplyV::References(None)) => true,
            _ => false,
        },
{
}

/// A renaming replaces the name under the cursor: the bytes between the two ends of each range
/// that it edits are those of the name, and no two ranges overlap.
pub proof fn law_rename_replaces_the_name(d: DocumentV, q: RequestParamsV)
    requires
        d.index == position::index_of_source(d.text),
        encode_utf8(d.text).len() <= u32::MAX,
    ensures
        match (document_references(d, q.position), document_reply(d, Method::Rename, q)) {
            (Some(f), ReplyV::Rename(Some(edits))) => {
                &&& forall|i: int|
                    0 <= i < edits.len() ==> encode_utf8(d.text).subrange(
                        position::offset_of(d.index, (#[trigger] edits[i]).0.start),
                        position::offset_of(d.index, edits[i].0.end),
                    ) == encode_utf8(f.name) && edits[i].1 == q.new_name
                &&& forall|i: int, j: int|
                    0 <= i < j < edits.len() ==> position::offset_of(d.index, (#[trigger] edits[i]).0.end)
                        <= position::offset_of(d.index, (#[trigger] edits[j]).0.start)
            },
            (None, ReplyV::Rename(None)) => true,
            _ => false,
        },
{
    let bytes = encode_utf8(d.text);
    let ks = lexer::classes(d.text);
    assert(ks.len() == d.text.len());
    position::law_index_is_valid(bytes);
    let offset = position::offset_of(d.index, q.position) as usize;
    lexer_laws::law_tokens_follow_the_bytes(d.text, ks);
    references::law_references_stand_in_the_text(d.text, ks, offset);
    if let Some(f) = document_references(d, q.position) {
        let toks = document_tokens(d)->Ok_0;
        let edits = edits_of(d.index, f.places, q.new_name);
        assert forall|i: int| 0 <= i < f.places.len() implies {
            &&& position::offset_of(d.index, (#[trigger] edits[i]).0.start) == f.places[i].start
            &&& position::offset_of(d.index, edits[i].0.end) == f.places[i].end
        } by {
            let place = f.places[i];
            references::law_references_are_the_occurrences(toks, offset, place);
            assert(f.places.contains(place));
            let k = choose|k: int|
                0 <= k < toks.len() && references::token_name(#[trigger] toks[k]) == Some(f.name)
                    && toks[k].span == place;
            assert(lexer_laws::token_stands_in(bytes, toks[k]));
            position::law_position_leads_back(d.index, place.start);
            position::law_position_leads_back(d.index, place.end);
        }
    }
}

} // verus!
