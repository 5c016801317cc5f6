//! What is found in a text, in the terms of an editor's protocol.

use ruff_source_file::LineIndex;

use vstd::prelude::*;

use crate::convert::{Position, Range};
use crate::edits::{is_range, lsp_range_from_text_range};
use crate::positions::indexes;
use crate::syntax::Span;

verus! {

/// How bad a diagnostic is.
#[derive(Clone, Copy, Debug, PartialEq, Eq, Structural)]
pub enum Severity {
    Info,
    Warning,
    Error,
    Fatal,
}

/// The number of a severity in the protocol.
pub open spec fn severity_number(severity: Severity) -> u8 {
    match severity {
        Severity::Error | Severity::Fatal => 1,
        Severity::Warning => 2,
        Severity::Info => 3,
    }
}

/// The number of a severity in the protocol.
pub fn lsp_severity_from_native(severity: Severity) -> (r: u8)
    ensures
        r == severity_number(severity),
{
    match severity {
        Severity::Error => 1,
        Severity::Fatal => 1,
        Severity::Warning => 2,
        Severity::Info => 3,
    }
}

/// What a diagnostic says of its range besides.
#[derive(Clone, Copy, Debug, PartialEq, Eq, Structural)]
pub enum DiagnosticTag {
    Unnecessary,
    Deprecated,
}

/// The number of a tag in the protocol.
pub open spec fn tag_number(tag: DiagnosticTag) -> u8 {
    match tag {
        DiagnosticTag::Unnecessary => 1,
        DiagnosticTag::Deprecated => 2,
    }
}

/// A diagnostic of a text.
#[derive(Debug)]
pub struct Diagnostic {
    pub range: Option<Span>,
    pub severity: Severity,
    pub message: String,
    pub tags: Vec<DiagnosticTag>,
}

/// A diagnostic in the protocol.
#[derive(Debug)]
pub struct LspDiagnostic {
    pub range: Range,
    pub severity: u8,
    pub source: String,
    pub message: String,
    pub tags: Option<Vec<u8>>,
}

/// Whether `r` is a diagnostic in the protocol. One without a range that is there
/// has none.
pub open spec fn is_diagnostic(s: Seq<char>, d: Diagnostic, r: Option<LspDiagnostic>) -> bool {
    match r {
        Some(lsp) => {
            &&& d.range is Some && is_range(s, d.range->0, Some(lsp.range))
            &&& lsp.severity == severity_number(d.severity)
            &&& lsp.source@ == "starpls"@
            &&& lsp.message@ == d.message@
            &&& match lsp.tags {
                Some(tags) => d.tags@.len() > 0 && tags@ == d.tags@.map_values(
                    |t: DiagnosticTag| tag_number(t),
                ),
                None => d.tags@.len() == 0,
            }
        },
        None => d.range is None || is_range(s, d.range->0, None),
    }
}

/// A diagnostic in the protocol.
pub fn lsp_diagnostic_from_native(diagnostic: &Diagnostic, text: &str, index: &LineIndex) -> (r: Option<
    LspDiagnostic,
>)
    requires
        indexes(*index, text@),
    ensures
        is_diagnostic(text@, *diagnostic, r),
{
    let span = match diagnostic.range {
        Some(span) => span,
        None => {
            return None;
        },
    };
    let range = match lsp_range_from_text_range(span, text, index) {
        Some(range) => range,
        None => {
            return None;
        },
    };
    let tags = if diagnostic.tags.len() == 0 {
        None
    } else {
        Some(tag_numbers(&diagnostic.tags))
    };
    Some(
        LspDiagnostic {
            range,
            severity: lsp_severity_from_native(diagnostic.severity),
            source: "starpls".to_owned(),
            message: diagnostic.message.clone(),
            tags,
        },
    )
}

/// The numbers of tags.
fn tag_numbers(tags: &Vec<DiagnosticTag>) -> (r: Vec<u8>)
    ensures
        r@ == tags@.map_values(|t: DiagnosticTag| tag_number(t)),
{
    let mut r: Vec<u8> = Vec::new();
    let mut i: usize = 0;
    while i < tags.len()
        invariant
            i <= tags@.len(),
            r@.len() == i,
            forall|k: int| 0 <= k < i ==> r@[k] == tag_number(#[trigger] tags@[k]),
        decreases tags@.len() - i,
    {
        r.push(
            match tags[i] {
                DiagnosticTag::Unnecessary => 1,
                DiagnosticTag::Deprecated => 2,
            },
        );
        i = i + 1;
    }
    proof {
        assert(r@ =~= tags@.map_values(|t: DiagnosticTag| tag_number(t)));
    }
    r
}

/// What a symbol of a document is.
#[derive(Clone, Copy, Debug, PartialEq, Eq, Structural)]
pub enum SymbolKind {
    File,
    Module,
    Namespace,
    Package,
    Class,
    Method,
    Property,
    Field,
    Constructor,
    Enum,
    Interface,
    Function,
    Variable,
    Constant,
    Text,
    Number,
    Boolean,
    Array,
    Object,
    Key,
    Null,
    EnumMember,
    Struct,
    Event,
    Operator,
    TypeParameter,
}

/// The number of a kind in the protocol.
pub open spec fn symbol_number(kind: SymbolKind) -> u8 {
    match kind {
        SymbolKind::File => 1,
        SymbolKind::Module => 2,
        SymbolKind::Namespace => 3,
        SymbolKind::Package => 4,
        SymbolKind::Class => 5,
        SymbolKind::Method => 6,
        SymbolKind::Property => 7,
        SymbolKind::Field => 8,
        SymbolKind::Constructor => 9,
        SymbolKind::Enum => 10,
        SymbolKind::Interface => 11,
        SymbolKind::Function => 12,
        SymbolKind::Variable => 13,
        SymbolKind::Constant => 14,
        SymbolKind::Text => 15,
        SymbolKind::Number => 16,
        SymbolKind::Boolean => 17,
        SymbolKind::Array => 18,
        SymbolKind::Object => 19,
        SymbolKind::Key => 20,
        SymbolKind::Null => 21,
        SymbolKind::EnumMember => 22,
        SymbolKind::Struct => 23,
        SymbolKind::Event => 24,
        SymbolKind::Operator => 25,
        SymbolKind::TypeParameter => 26,
    }
}

/// The number of a kind in the protocol.
pub fn lsp_symbol_kind(kind: SymbolKind) -> (r: u8)
    ensures
        r == symbol_number(kind),
{
    match kind {
        SymbolKind::File => 1,
        SymbolKind::Module => 2,
        SymbolKind::Namespace => 3,
        SymbolKind::Package => 4,
        SymbolKind::Class => 5,
        SymbolKind::Method => 6,
        SymbolKind::Property => 7,
        SymbolKind::Field => 8,
        SymbolKind::Constructor => 9,
        SymbolKind::Enum => 10,
        SymbolKind::Interface => 11,
        SymbolKind::Function => 12,
        SymbolKind::Variable => 13,
        SymbolKind::Constant => 14,
        SymbolKind::Text => 15,
        SymbolKind::Number => 16,
        SymbolKind::Boolean => 17,
        SymbolKind::Array => 18,
        SymbolKind::Object => 19,
        SymbolKind::Key => 20,
        SymbolKind::Null => 21,
        SymbolKind::EnumMember => 22,
        SymbolKind::Struct => 23,
        SymbolKind::Event => 24,
        SymbolKind::Operator => 25,
        SymbolKind::TypeParameter => 26,
    }
}

/// A symbol of a document, and those inside it.
#[derive(Debug)]
pub struct DocumentSymbol {
    pub name: String,
    pub detail: Option<String>,
    pub kind: SymbolKind,
    pub deprecated: Option<bool>,
    pub range: Span,
    pub selection_range: Span,
    pub children: Option<Vec<DocumentSymbol>>,
}

/// A symbol of a document in the protocol.
#[derive(Debug)]
pub struct LspDocumentSymbol {
    pub name: String,
    pub detail: Option<String>,
    pub kind: u8,
    pub deprecated: Option<bool>,
    pub range: Range,
    pub selection_range: Range,
    pub children: Option<Vec<LspDocumentSymbol>>,
}

/// Whether `r` is a symbol in the protocol, with those inside it that have ranges
/// that are there. A symbol without them has none.
pub open spec fn is_symbol(s: Seq<char>, symbol: DocumentSymbol, r: Option<LspDocumentSymbol>) -> bool
    decreases symbol,
{
    match r {
        Some(lsp) => {
            &&& is_range(s, symbol.range, Some(lsp.range))
            &&& is_range(s, symbol.selection_range, Some(lsp.selection_range))
            &&& lsp.name == symbol.name
            &&& lsp.detail == symbol.detail
            &&& lsp.kind == symbol_number(symbol.kind)
            &&& lsp.deprecated == symbol.deprecated
            &&& match (symbol.children, lsp.children) {
                (Some(children), Some(converted)) => are_symbols(
                    s,
                    children@,
                    children@.len() as int,
                    converted@,
                ),
                (None, None) => true,
                _ => false,
            }
        },
        None => is_range(s, symbol.range, None) || is_range(s, symbol.selection_range, None),
    }
}

/// Whether `out` are the first of some symbols in the protocol, those that have
/// ranges that are there.
pub open spec fn are_symbols(
    s: Seq<char>,
    symbols: Seq<DocumentSymbol>,
    n: int,
    out: Seq<LspDocumentSymbol>,
) -> bool
    decreases symbols, n,
{
    if n <= 0 || n > symbols.len() {
        out.len() == 0
    } else {
        ||| is_symbol(s, symbols[n - 1], None) && are_symbols(s, symbols, n - 1, out)
        ||| out.len() > 0 && is_symbol(s, symbols[n - 1], Some(out.last())) && are_symbols(
            s,
            symbols,
            n - 1,
            out.drop_last(),
        )
    }
}

/// The same optional text.
fn dup_text(s: &Option<String>) -> (r: Option<String>)
    ensures
        r == *s,
{
    match s {
        Some(s) => Some(s.clone()),
        None => None,
    }
}

/// A symbol in the protocol.
pub fn lsp_document_symbol_from_native(symbol: &DocumentSymbol, text: &str, index: &LineIndex) -> (r:
    Option<LspDocumentSymbol>)
    requires
        indexes(*index, text@),
    ensures
        is_symbol(text@, *symbol, r),
    decreases *symbol,
{
    let range = match lsp_range_from_text_range(symbol.range, text, index) {
        Some(range) => range,
        None => {
            return None;
        },
    };
    let selection_range = match lsp_range_from_text_range(symbol.selection_range, text, index) {
        Some(range) => range,
        None => {
            return None;
        },
    };
    let children = match &symbol.children {
        Some(children) => Some(lsp_document_symbols(children, text, index)),
        None => None,
    };
    Some(
        LspDocumentSymbol {
            name: symbol.name.clone(),
            detail: dup_text(&symbol.detail),
            kind: lsp_symbol_kind(symbol.kind),
            deprecated: symbol.deprecated,
            range,
            selection_range,
            children,
        },
    )
}

/// Symbols in the protocol.
pub fn lsp_document_symbols(symbols: &Vec<DocumentSymbol>, text: &str, index: &LineIndex) -> (out: Vec<
    LspDocumentSymbol,
>)
    requires
        indexes(*index, text@),
    ensures
        are_symbols(text@, symbols@, symbols@.len() as int, out@),
    decreases symbols@, symbols@.len() + 1,
{
    let mut out: Vec<LspDocumentSymbol> = Vec::new();
    let mut i: usize = 0;
    while i < symbols.len()
        invariant
            i <= symbols@.len(),
            indexes(*index, text@),
            are_symbols(text@, symbols@, i as int, out@),
        decreases symbols@.len() - i,
    {
        let ghost before = out@;
        proof {
            assert(decreases_to!(symbols@ => symbols@[i as int]));
        }
        match lsp_document_symbol_from_native(&symbols[i], text, index) {
            Some(symbol) => {
                out.push(symbol);
                proof {
                    assert(out@.drop_last() =~= before);
                }
            },
            None => {},
        }
        i = i + 1;
    }
    out
}

/// What a completion is.
#[derive(Clone, Copy, Debug, PartialEq, Eq, Structural)]
pub enum CompletionItemKind {
    Function,
    Field,
    Variable,
    Module,
    Keyword,
    File,
    Folder,
    Constant,
}

/// The number of a completion in the protocol.
pub open spec fn completion_number(kind: CompletionItemKind) -> u8 {
    match kind {
        CompletionItemKind::Function => 3,
        CompletionItemKind::Field => 5,
        CompletionItemKind::Variable => 6,
        CompletionItemKind::Module => 9,
        CompletionItemKind::Keyword => 14,
        CompletionItemKind::File => 17,
        CompletionItemKind::Folder => 19,
        CompletionItemKind::Constant => 21,
    }
}

/// The number of a completion in the protocol.
pub fn lsp_completion_kind(kind: CompletionItemKind) -> (r: u8)
    ensures
        r == completion_number(kind),
{
    match kind {
        CompletionItemKind::Function => 3,
        CompletionItemKind::Field => 5,
        CompletionItemKind::Variable => 6,
        CompletionItemKind::Module => 9,
        CompletionItemKind::Keyword => 14,
        CompletionItemKind::File => 17,
        CompletionItemKind::Folder => 19,
        CompletionItemKind::Constant => 21,
    }
}

/// What a completion does to the text.
#[derive(Debug)]
pub enum CompletionMode {
    InsertText(String),
    TextEdit { range: Span, new_text: String },
    InsertReplaceEdit { insert: Span, replace: Span, new_text: String },
}

/// A completion.
#[derive(Debug)]
pub struct CompletionItem {
    pub label: String,
    pub kind: CompletionItemKind,
    pub mode: Option<CompletionMode>,
    pub filter_text: Option<String>,
    pub sort_text: String,
}

/// What a completion does to the text, in the protocol.
#[derive(Debug)]
pub enum CompletionTextEdit {
    Edit { range: Range, new_text: String },
    InsertAndReplace { insert: Range, replace: Range, new_text: String },
}

/// A completion in the protocol.
#[derive(Debug)]
pub struct LspCompletionItem {
    pub label: String,
    pub kind: u8,
    pub sort_text: String,
    pub insert_text: Option<String>,
    pub text_edit: Option<CompletionTextEdit>,
    pub filter_text: Option<String>,
}

/// Whether a completion can be sent: its ranges are there, and the client knows
/// how to insert and replace if it does both.
pub open spec fn can_complete(
    s: Seq<char>,
    mode: Option<CompletionMode>,
    insert_replace: bool,
) -> bool {
    match mode {
        Some(CompletionMode::TextEdit { range, new_text: _ }) => !is_range(s, range, None),
        Some(CompletionMode::InsertReplaceEdit { insert, replace, new_text: _ }) => insert_replace
            && !is_range(s, insert, None) && !is_range(s, replace, None),
        _ => true,
    }
}

/// Whether the edit of a completion in the protocol is that of its mode.
pub open spec fn is_completion_edit(
    s: Seq<char>,
    mode: Option<CompletionMode>,
    lsp: LspCompletionItem,
) -> bool {
    match mode {
        None => lsp.insert_text is None && lsp.text_edit is None,
        Some(CompletionMode::InsertText(text)) => lsp.insert_text == Some(text)
            && lsp.text_edit is None,
        Some(CompletionMode::TextEdit { range, new_text }) => {
            &&& lsp.insert_text is None
            &&& lsp.text_edit matches Some(CompletionTextEdit::Edit { range: r, new_text: t })
                && is_range(s, range, Some(r)) && t == new_text
        },
        Some(CompletionMode::InsertReplaceEdit { insert, replace, new_text }) => {
            &&& lsp.insert_text is None
            &&& lsp.text_edit matches Some(
                CompletionTextEdit::InsertAndReplace { insert: i, replace: r, new_text: t },
            ) && is_range(s, insert, Some(i)) && is_range(s, replace, Some(r)) && t == new_text
        },
    }
}

/// Whether `r` is a completion in the protocol, if it can be sent.
pub open spec fn is_completion(
    s: Seq<char>,
    item: CompletionItem,
    insert_replace: bool,
    r: Option<LspCompletionItem>,
) -> bool {
    match r {
        Some(lsp) => {
            &&& can_complete(s, item.mode, insert_replace)
            &&& lsp.label == item.label
            &&& lsp.kind == completion_number(item.kind)
            &&& lsp.sort_text == item.sort_text
            &&& lsp.filter_text == item.filter_text
            &&& is_completion_edit(s, item.mode, lsp)
        },
        None => !can_complete(s, item.mode, insert_replace),
    }
}

/// A range has one answer: it is there, or it is not.
proof fn range_is_there(s: Seq<char>, span: Span, range: Range)
    requires
        is_range(s, span, Some(range)),
    ensures
        !is_range(s, span, None),
{
}

/// A completion in the protocol.
pub fn lsp_completion(item: &CompletionItem, insert_replace: bool, text: &str, index: &LineIndex) -> (r:
    Option<LspCompletionItem>)
    requires
        indexes(*index, text@),
    ensures
        is_completion(text@, *item, insert_replace, r),
{
    let mut insert_text: Option<String> = None;
    let mut text_edit: Option<CompletionTextEdit> = None;
    match &item.mode {
        None => {},
        Some(CompletionMode::InsertText(inserted)) => {
            insert_text = Some(inserted.clone());
        },
        Some(CompletionMode::TextEdit { range, new_text }) => {
            match lsp_range_from_text_range(*range, text, index) {
                Some(found) => {
                    proof {
                        range_is_there(text@, *range, found);
                    }
                    text_edit = Some(
                        CompletionTextEdit::Edit { range: found, new_text: new_text.clone() },
                    );
                },
                None => {
                    return None;
                },
            }
        },
        Some(CompletionMode::InsertReplaceEdit { insert, replace, new_text }) => {
            if !insert_replace {
                return None;
            }
            let inserted = lsp_range_from_text_range(*insert, text, index);
            let replaced = lsp_range_from_text_range(*replace, text, index);
            match (inserted, replaced) {
                (Some(inserted), Some(replaced)) => {
                    proof {
                        range_is_there(text@, *insert, inserted);
                        range_is_there(text@, *replace, replaced);
                    }
                    text_edit = Some(
                        CompletionTextEdit::InsertAndReplace {
                            insert: inserted,
                            replace: replaced,
                            new_text: new_text.clone(),
                        },
                    );
                },
                _ => {
                    return None;
                },
            }
        },
    }
    Some(
        LspCompletionItem {
            label: item.label.clone(),
            kind: lsp_completion_kind(item.kind),
            sort_text: item.sort_text.clone(),
            insert_text,
            text_edit,
            filter_text: dup_text(&item.filter_text),
        },
    )
}

/// Whether `out` are the first of some completions in the protocol, those that can
/// be sent.
pub open spec fn are_completions(
    s: Seq<char>,
    items: Seq<CompletionItem>,
    insert_replace: bool,
    n: int,
    out: Seq<LspCompletionItem>,
) -> bool
    decreases n,
{
    if n <= 0 {
        out.len() == 0
    } else if can_complete(s, items[n - 1].mode, insert_replace) {
        &&& out.len() > 0
        &&& is_completion(s, items[n - 1], insert_replace, Some(out.last()))
        &&& are_completions(s, items, insert_replace, n - 1, out.drop_last())
    } else {
        are_completions(s, items, insert_replace, n - 1, out)
    }
}

/// Completions in the protocol.
pub fn completion(items: &Vec<CompletionItem>, insert_replace: bool, text: &str, index: &LineIndex) -> (out:
    Vec<LspCompletionItem>)
    requires
        indexes(*index, text@),
    ensures
        are_completions(text@, items@, insert_replace, items@.len() as int, out@),
{
    let mut out: Vec<LspCompletionItem> = Vec::new();
    let mut i: usize = 0;
    while i < items.len()
        invariant
            i <= items@.len(),
            indexes(*index, text@),
            are_completions(text@, items@, insert_replace, i as int, out@),
        decreases items@.len() - i,
    {
        let ghost before = out@;
        match lsp_completion(&items[i], insert_replace, text, index) {
            Some(item) => {
                out.push(item);
                proof {
                    assert(out@.drop_last() =~= before);
                }
            },
            None => {},
        }
        i = i + 1;
    }
    out
}

/// What a hint in a text is.
#[derive(Clone, Copy, Debug, PartialEq, Eq, Structural)]
pub enum InlayHintKind {
    Type,
    CallArgumentName,
}

/// A place in a file.
#[derive(Debug)]
pub struct Location {
    pub uri: String,
    pub range: Range,
}

/// A place that something leads to, as far as it could be found: its file, and its
/// range there.
#[derive(Debug)]
pub struct Target {
    pub uri: Option<String>,
    pub range: Option<Range>,
}

/// Whether `r` is the place of a target: its file and its range have to be there.
pub open spec fn is_location(target: Target, r: Option<Location>) -> bool {
    match (target.uri, target.range) {
        (Some(uri), Some(range)) => r == Some(Location { uri, range }),
        _ => r is None,
    }
}

/// The place of a target.
pub fn location_of(target: &Target) -> (r: Option<Location>)
    ensures
        is_location(*target, r),
{
    match (&target.uri, target.range) {
        (Some(uri), Some(range)) => Some(Location { uri: uri.clone(), range }),
        _ => None,
    }
}

/// A part of the label of a hint, and what it leads to.
#[derive(Debug)]
pub struct InlayHintPart {
    pub text: String,
    pub target: Option<Target>,
}

/// A hint in a text.
#[derive(Debug)]
pub struct InlayHint {
    pub position: u32,
    pub kind: InlayHintKind,
    pub label: Vec<InlayHintPart>,
}

/// A part of the label of a hint in the protocol.
#[derive(Debug)]
pub struct LspInlayHintPart {
    pub value: String,
    pub location: Option<Location>,
}

/// A hint in the protocol.
#[derive(Debug)]
pub struct LspInlayHint {
    pub position: Position,
    pub kind: u8,
    pub label: Vec<LspInlayHintPart>,
}

/// Whether `r` is a part of a label in the protocol.
pub open spec fn is_hint_part(part: InlayHintPart, r: LspInlayHintPart) -> bool {
    &&& r.value == part.text
    &&& match part.target {
        Some(target) => is_location(target, r.location),
        None => r.location is None,
    }
}

/// Whether `r` is a hint in the protocol. One whose position is not there has
/// none.
pub open spec fn is_hint(s: Seq<char>, hint: InlayHint, r: Option<LspInlayHint>) -> bool {
    match r {
        Some(lsp) => {
            &&& crate::convert::is_position(s, hint.position, Some(lsp.position))
            &&& lsp.kind == match hint.kind {
                InlayHintKind::Type => 1u8,
                InlayHintKind::CallArgumentName => 2u8,
            }
            &&& lsp.label@.len() == hint.label@.len()
            &&& forall|k: int|
                0 <= k < hint.label@.len() ==> is_hint_part(
                    #[trigger] hint.label@[k],
                    lsp.label@[k],
                )
        },
        None => crate::convert::is_position(s, hint.position, None),
    }
}

/// A hint in the protocol.
pub fn lsp_inlay_hint(hint: &InlayHint, text: &str, index: &LineIndex) -> (r: Option<LspInlayHint>)
    requires
        indexes(*index, text@),
    ensures
        is_hint(text@, *hint, r),
{
    let position = match crate::convert::lsp_position_from_offset(text, index, hint.position) {
        Some(position) => position,
        None => {
            return None;
        },
    };
    let mut label: Vec<LspInlayHintPart> = Vec::new();
    let mut i: usize = 0;
    while i < hint.label.len()
        invariant
            i <= hint.label@.len(),
            label@.len() == i,
            forall|k: int| 0 <= k < i ==> is_hint_part(#[trigger] hint.label@[k], label@[k]),
        decreases hint.label@.len() - i,
    {
        let part = &hint.label[i];
        let location = match &part.target {
            Some(target) => location_of(target),
            None => None,
        };
        label.push(LspInlayHintPart { value: part.text.clone(), location });
        i = i + 1;
    }
    let kind = match hint.kind {
        InlayHintKind::Type => 1u8,
        InlayHintKind::CallArgumentName => 2u8,
    };
    Some(LspInlayHint { position, kind, label })
}

/// Whether `out` are the first of some hints in the protocol, those whose positions
/// are there.
pub open spec fn are_hints(
    s: Seq<char>,
    hints: Seq<InlayHint>,
    n: int,
    out: Seq<LspInlayHint>,
) -> bool
    decreases n,
{
    if n <= 0 {
        out.len() == 0
    } else {
        ||| is_hint(s, hints[n - 1], None) && are_hints(s, hints, n - 1, out)
        ||| out.len() > 0 && is_hint(s, hints[n - 1], Some(out.last())) && are_hints(
            s,
            hints,
            n - 1,
            out.drop_last(),
        )
    }
}

/// Hints in the protocol.
pub fn inlay_hints(hints: &Vec<InlayHint>, text: &str, index: &LineIndex) -> (out: Vec<LspInlayHint>)
    requires
        indexes(*index, text@),
    ensures
        are_hints(text@, hints@, hints@.len() as int, out@),
{
    let mut out: Vec<LspInlayHint> = Vec::new();
    let mut i: usize = 0;
    while i < hints.len()
        invariant
            i <= hints@.len(),
            indexes(*index, text@),
            are_hints(text@, hints@, i as int, out@),
        decreases hints@.len() - i,
    {
        let ghost before = out@;
        match lsp_inlay_hint(&hints[i], text, index) {
            Some(hint) => {
                out.push(hint);
                proof {
                    assert(out@.drop_last() =~= before);
                }
            },
            None => {},
        }
        i = i + 1;
    }
    out
}

/// What a name leads to: a range of a file that is analyzed, or another file.
#[derive(Debug)]
pub enum LocationLink {
    Local { origin: Option<Span>, target: Target },
    External { origin: Option<Span>, uri: Option<String> },
}

/// A link in the protocol: where it starts, and where it leads.
#[derive(Debug)]
pub struct LspLocationLink {
    pub origin_selection_range: Option<Range>,
    pub target_uri: String,
    pub target_range: Range,
}

/// The start of a file.
pub open spec fn file_start() -> Range {
    Range { start: Position { line: 0, character: 0 }, end: Position { line: 0, character: 0 } }
}

/// Where a link leads. One to a file that is not analyzed leads to its start.
pub open spec fn target_of(link: LocationLink) -> Target {
    match link {
        LocationLink::Local { origin: _, target } => target,
        LocationLink::External { origin: _, uri } => Target { uri, range: Some(file_start()) },
    }
}

/// Where a link starts.
pub open spec fn origin_of(link: LocationLink) -> Option<Span> {
    match link {
        LocationLink::Local { origin, target: _ } => origin,
        LocationLink::External { origin, uri: _ } => origin,
    }
}

/// Whether a link leads somewhere.
pub open spec fn is_reached(link: LocationLink) -> bool {
    target_of(link).uri is Some && target_of(link).range is Some
}

/// Whether `r` is a link in the protocol.
pub open spec fn is_link(s: Seq<char>, link: LocationLink, r: LspLocationLink) -> bool {
    &&& target_of(link).uri == Some(r.target_uri)
    &&& target_of(link).range == Some(r.target_range)
    &&& match origin_of(link) {
        Some(origin) => is_range(s, origin, r.origin_selection_range),
        None => r.origin_selection_range is None,
    }
}

/// The places that links lead to, of the first ones, those that lead somewhere.
pub open spec fn are_locations(links: Seq<LocationLink>, n: int, out: Seq<Location>) -> bool
    decreases n,
{
    if n <= 0 {
        out.len() == 0
    } else if is_reached(links[n - 1]) {
        &&& out.len() > 0
        &&& is_location(target_of(links[n - 1]), Some(out.last()))
        &&& are_locations(links, n - 1, out.drop_last())
    } else {
        are_locations(links, n - 1, out)
    }
}

/// The first links in the protocol, those that lead somewhere.
pub open spec fn are_links(
    s: Seq<char>,
    links: Seq<LocationLink>,
    n: int,
    out: Seq<LspLocationLink>,
) -> bool
    decreases n,
{
    if n <= 0 {
        out.len() == 0
    } else if is_reached(links[n - 1]) {
        &&& out.len() > 0
        &&& is_link(s, links[n - 1], out.last())
        &&& are_links(s, links, n - 1, out.drop_last())
    } else {
        are_links(s, links, n - 1, out)
    }
}

/// The answer to a request for where a name leads, in the form that the client
/// takes.
#[derive(Debug)]
pub enum LocationResponse {
    Locations(Vec<Location>),
    Links(Vec<LspLocationLink>),
}

/// Where a link starts and leads, if it leads somewhere.
fn link_parts(link: &LocationLink) -> (r: Option<(Option<Span>, String, Range)>)
    ensures
        match r {
            Some((origin, uri, range)) => {
                &&& is_reached(*link)
                &&& origin == origin_of(*link)
                &&& Some(uri) == target_of(*link).uri
                &&& Some(range) == target_of(*link).range
            },
            None => !is_reached(*link),
        },
{
    match link {
        LocationLink::Local { origin, target } => match (&target.uri, target.range) {
            (Some(uri), Some(range)) => Some((*origin, uri.clone(), range)),
            _ => None,
        },
        LocationLink::External { origin, uri } => match uri {
            Some(uri) => {
                let start = Position { line: 0, character: 0 };
                Some((*origin, uri.clone(), Range { start, end: start }))
            },
            None => None,
        },
    }
}

/// The answer to a request for where a name leads.
pub fn response_from_locations(
    links: &Vec<LocationLink>,
    link_support: bool,
    text: &str,
    index: &LineIndex,
) -> (r: LocationResponse)
    requires
        indexes(*index, text@),
    ensures
        match r {
            LocationResponse::Links(out) => link_support && are_links(
                text@,
                links@,
                links@.len() as int,
                out@,
            ),
            LocationResponse::Locations(out) => !link_support && are_locations(
                links@,
                links@.len() as int,
                out@,
            ),
        },
{
    let mut locations: Vec<Location> = Vec::new();
    let mut out: Vec<LspLocationLink> = Vec::new();
    let mut i: usize = 0;
    while i < links.len()
        invariant
            i <= links@.len(),
            indexes(*index, text@),
            link_support ==> are_links(text@, links@, i as int, out@),
            !link_support ==> are_locations(links@, i as int, locations@),
        decreases links@.len() - i,
    {
        let ghost links_before = out@;
        let ghost locations_before = locations@;
        match link_parts(&links[i]) {
            Some((origin, uri, range)) => {
                if link_support {
                    let origin_selection_range = match origin {
                        Some(origin) => lsp_range_from_text_range(origin, text, index),
                        None => None,
                    };
                    out.push(
                        LspLocationLink {
                            origin_selection_range,
                            target_uri: uri,
                            target_range: range,
                        },
                    );
                    proof {
                        assert(out@.drop_last() =~= links_before);
                    }
                } else {
                    locations.push(Location { uri, range });
                    proof {
                        assert(locations@.drop_last() =~= locations_before);
                    }
                }
            },
            None => {},
        }
        i = i + 1;
    }
    if link_support {
        LocationResponse::Links(out)
    } else {
        LocationResponse::Locations(locations)
    }
}

/// How a name is used in a document.
#[derive(Clone, Copy, Debug, PartialEq, Eq, Structural)]
pub enum ReferenceKind {
    Read,
    Write,
    Other,
}

/// The number of a highlight in the protocol.
pub open spec fn highlight_number(kind: ReferenceKind) -> u8 {
    match kind {
        ReferenceKind::Other => 1,
        ReferenceKind::Read => 2,
        ReferenceKind::Write => 3,
    }
}

/// The number of a highlight in the protocol.
pub fn highlight_kind(kind: ReferenceKind) -> (r: u8)
    ensures
        r == highlight_number(kind),
{
    match kind {
        ReferenceKind::Other => 1,
        ReferenceKind::Read => 2,
        ReferenceKind::Write => 3,
    }
}

/// A use of a name in a document.
#[derive(Clone, Copy, Debug)]
pub struct Reference {
    pub range: Span,
    pub kind: ReferenceKind,
}

/// A highlight in the protocol.
#[derive(Clone, Copy, Debug)]
pub struct DocumentHighlight {
    pub range: Range,
    pub kind: u8,
}

/// Whether `out` are the first uses of a name in the protocol, those whose ranges
/// are there.
pub open spec fn are_highlights(
    s: Seq<char>,
    references: Seq<Reference>,
    n: int,
    out: Seq<DocumentHighlight>,
) -> bool
    decreases n,
{
    if n <= 0 {
        out.len() == 0
    } else {
        ||| is_range(s, references[n - 1].range, None) && are_highlights(s, references, n - 1, out)
        ||| out.len() > 0 && is_range(s, references[n - 1].range, Some(out.last().range))
            && out.last().kind == highlight_number(references[n - 1].kind) && are_highlights(
            s,
            references,
            n - 1,
            out.drop_last(),
        )
    }
}

/// The uses of a name in a document, in the protocol.
pub fn document_highlights(references: &Vec<Reference>, text: &str, index: &LineIndex) -> (out: Vec<
    DocumentHighlight,
>)
    requires
        indexes(*index, text@),
    ensures
        are_highlights(text@, references@, references@.len() as int, out@),
{
    let mut out: Vec<DocumentHighlight> = Vec::new();
    let mut i: usize = 0;
    while i < references.len()
        invariant
            i <= references@.len(),
            indexes(*index, text@),
            are_highlights(text@, references@, i as int, out@),
        decreases references@.len() - i,
    {
        let ghost before = out@;
        let reference = references[i];
        match lsp_range_from_text_range(reference.range, text, index) {
            Some(range) => {
                out.push(DocumentHighlight { range, kind: highlight_kind(reference.kind) });
                proof {
                    assert(out@.drop_last() =~= before);
                }
            },
            None => {},
        }
        i = i + 1;
    }
    out
}

/// The places of the first targets, those that could be found.
pub open spec fn are_places(targets: Seq<Target>, n: int, out: Seq<Location>) -> bool
    decreases n,
{
    if n <= 0 {
        out.len() == 0
    } else if targets[n - 1].uri is Some && targets[n - 1].range is Some {
        &&& out.len() > 0
        &&& is_location(targets[n - 1], Some(out.last()))
        &&& are_places(targets, n - 1, out.drop_last())
    } else {
        are_places(targets, n - 1, out)
    }
}

/// The places where a name is used, of those that could be found. There is no
/// answer while the workspace is not ready.
pub fn find_references(ready: Result<(), String>, targets: &Vec<Target>) -> (r: Result<
    Vec<Location>,
    String,
>)
    ensures
        match ready {
            Ok(()) => r matches Ok(out) && are_places(targets@, targets@.len() as int, out@),
            Err(error) => r == Err::<Vec<Location>, String>(error),
        },
{
    match ready {
        Ok(()) => {},
        Err(error) => {
            return Err(error);
        },
    }
    let mut out: Vec<Location> = Vec::new();
    let mut i: usize = 0;
    while i < targets.len()
        invariant
            i <= targets@.len(),
            are_places(targets@, i as int, out@),
        decreases targets@.len() - i,
    {
        let ghost before = out@;
        match location_of(&targets[i]) {
            Some(location) => {
                out.push(location);
                proof {
                    assert(out@.drop_last() =~= before);
                }
            },
            None => {},
        }
        i = i + 1;
    }
    Ok(out)
}

/// A parameter of a signature, and what is said of it.
#[derive(Debug)]
pub struct ParameterInfo {
    pub label: String,
    pub documentation: Option<String>,
}

/// A signature of a function that is called.
#[derive(Debug)]
pub struct SignatureInfo {
    pub label: String,
    pub documentation: Option<String>,
    pub parameters: Option<Vec<ParameterInfo>>,
    pub active_parameter: Option<usize>,
}

/// A signature in the protocol, where parameters are counted in 32 bits.
#[derive(Debug)]
pub struct LspSignature {
    pub label: String,
    pub documentation: Option<String>,
    pub parameters: Option<Vec<ParameterInfo>>,
    pub active_parameter: Option<u32>,
}

/// Whether `r` is a signature in the protocol: only the number of its parameter
/// changes, to its low 32 bits.
pub open spec fn is_signature(signature: SignatureInfo, r: LspSignature) -> bool {
    &&& r.label == signature.label
    &&& r.documentation == signature.documentation
    &&& r.parameters == signature.parameters
    &&& match signature.active_parameter {
        Some(i) => r.active_parameter matches Some(n) && n as int == i as int % 0x1_0000_0000,
        None => r.active_parameter is None,
    }
}

/// Signatures in the protocol.
pub fn signature_help(signatures: Vec<SignatureInfo>) -> (out: Vec<LspSignature>)
    ensures
        out@.len() == signatures@.len(),
        forall|k: int|
            0 <= k < signatures@.len() ==> is_signature(#[trigger] signatures@[k], out@[k]),
{
    let ghost all = signatures@;
    let mut rest = signatures;
    let mut out: Vec<LspSignature> = Vec::new();
    while rest.len() > 0
        invariant
            out@.len() <= all.len(),
            rest@ == all.skip(out@.len() as int),
            forall|k: int| 0 <= k < out@.len() ==> is_signature(#[trigger] all[k], out@[k]),
        decreases rest@.len(),
    {
        let ghost done = out@.len() as int;
        let signature = rest.remove(0);
        let active_parameter = match signature.active_parameter {
            Some(i) => Some((i as u64 % 0x1_0000_0000u64) as u32),
            None => None,
        };
        out.push(
            LspSignature {
                label: signature.label,
                documentation: signature.documentation,
                parameters: signature.parameters,
                active_parameter,
            },
        );
        proof {
            assert(signature == all[done]);
            assert(rest@ =~= all.skip(done + 1));
        }
    }
    out
}

/// Ranges around a position in the protocol, from the outermost in. There is none
/// if one of them is not there, or if there are none.
pub fn selection_ranges(spans: &Vec<Span>, text: &str, index: &LineIndex) -> (r: Option<Vec<Range>>)
    requires
        indexes(*index, text@),
    ensures
        match r {
            Some(ranges) => {
                &&& ranges@.len() == spans@.len() > 0
                &&& forall|k: int|
                    0 <= k < spans@.len() ==> is_range(text@, #[trigger] spans@[k], Some(ranges@[k]))
            },
            None => spans@.len() == 0 || exists|k: int|
                0 <= k < spans@.len() && is_range(text@, #[trigger] spans@[k], None),
        },
{
    let mut ranges: Vec<Range> = Vec::new();
    let mut i: usize = 0;
    while i < spans.len()
        invariant
            i <= spans@.len(),
            indexes(*index, text@),
            ranges@.len() == i,
            forall|k: int|
                0 <= k < i ==> is_range(text@, #[trigger] spans@[k], Some(ranges@[k])),
        decreases spans@.len() - i,
    {
        match lsp_range_from_text_range(spans[i], text, index) {
            Some(range) => {
                ranges.push(range);
            },
            None => {
                proof {
                    assert(is_range(text@, spans@[i as int], None));
                }
                return None;
            },
        }
        i = i + 1;
    }
    if ranges.len() == 0 {
        return None;
    }
    Some(ranges)
}

} // verus!
