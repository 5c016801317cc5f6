//! What holds of the numbers of the protocol.

use vstd::prelude::*;

use crate::protocol::{
    completion_number, highlight_number, severity_number, symbol_number, tag_number,
    CompletionItemKind, DiagnosticTag, ReferenceKind, Severity, SymbolKind,
};

verus! {

/// What is worse has no larger number, and only errors have the first.
pub proof fn worse_diagnostics_come_first(severity: Severity)
    ensures
        severity_number(severity) == 1 <==> severity == Severity::Error || severity
            == Severity::Fatal,
        severity_number(severity) == 2 <==> severity == Severity::Warning,
        severity_number(severity) == 3 <==> severity == Severity::Info,
{
}

/// A tag says that something is not needed, or that it is deprecated.
pub proof fn tags_have_numbers(tag: DiagnosticTag)
    ensures
        tag_number(tag) == 1 <==> tag == DiagnosticTag::Unnecessary,
        tag_number(tag) == 2 <==> tag == DiagnosticTag::Deprecated,
{
}

/// The kinds of symbols have the numbers from 1 to 26, each its own, and what this
/// language has is told apart by them.
pub proof fn kinds_of_symbols_have_their_own_numbers(a: SymbolKind, b: SymbolKind)
    ensures
        1 <= symbol_number(a) <= 26,
        symbol_number(a) == symbol_number(b) <==> a == b,
        symbol_number(a) == 1 <==> a == SymbolKind::File,
        symbol_number(a) == 2 <==> a == SymbolKind::Module,
        symbol_number(a) == 3 <==> a == SymbolKind::Namespace,
        symbol_number(a) == 4 <==> a == SymbolKind::Package,
        symbol_number(a) == 5 <==> a == SymbolKind::Class,
        symbol_number(a) == 6 <==> a == SymbolKind::Method,
        symbol_number(a) == 7 <==> a == SymbolKind::Property,
        symbol_number(a) == 8 <==> a == SymbolKind::Field,
        symbol_number(a) == 9 <==> a == SymbolKind::Constructor,
        symbol_number(a) == 10 <==> a == SymbolKind::Enum,
        symbol_number(a) == 11 <==> a == SymbolKind::Interface,
        symbol_number(a) == 12 <==> a == SymbolKind::Function,
        symbol_number(a) == 13 <==> a == SymbolKind::Variable,
        symbol_number(a) == 14 <==> a == SymbolKind::Constant,
        symbol_number(a) == 15 <==> a == SymbolKind::Text,
        symbol_number(a) == 16 <==> a == SymbolKind::Number,
        symbol_number(a) == 17 <==> a == SymbolKind::Boolean,
        symbol_number(a) == 18 <==> a == SymbolKind::Array,
        symbol_number(a) == 19 <==> a == SymbolKind::Object,
        symbol_number(a) == 20 <==> a == SymbolKind::Key,
        symbol_number(a) == 21 <==> a == SymbolKind::Null,
        symbol_number(a) == 22 <==> a == SymbolKind::EnumMember,
        symbol_number(a) == 23 <==> a == SymbolKind::Struct,
        symbol_number(a) == 24 <==> a == SymbolKind::Event,
        symbol_number(a) == 25 <==> a == SymbolKind::Operator,
        symbol_number(a) == 26 <==> a == SymbolKind::TypeParameter,
{
}

/// A completion has the number of its kind in the protocol, and no other kind has it.
pub proof fn kinds_of_completions_have_their_own_numbers(kind: CompletionItemKind)
    ensures
        completion_number(kind) == 3 <==> kind == CompletionItemKind::Function,
        completion_number(kind) == 5 <==> kind == CompletionItemKind::Field,
        completion_number(kind) == 6 <==> kind == CompletionItemKind::Variable,
        completion_number(kind) == 9 <==> kind == CompletionItemKind::Module,
        completion_number(kind) == 14 <==> kind == CompletionItemKind::Keyword,
        completion_number(kind) == 17 <==> kind == CompletionItemKind::File,
        completion_number(kind) == 19 <==> kind == CompletionItemKind::Folder,
        completion_number(kind) == 21 <==> kind == CompletionItemKind::Constant,
{
}

/// A use of a name is shown as one that reads or one that writes, or else as text.
pub proof fn uses_are_told_apart(kind: ReferenceKind)
    ensures
        highlight_number(kind) == 1 <==> kind == ReferenceKind::Other,
        highlight_number(kind) == 2 <==> kind == ReferenceKind::Read,
        highlight_number(kind) == 3 <==> kind == ReferenceKind::Write,
{
}

} // verus!
