//! Positions, edits, and what is sent in positions.

use ruff_source_file::LineIndex;
use starpls::convert::{
    lsp_position_from_offset, offset_from_lsp_position, Position, Range,
};
use starpls::edits::{
    apply_document_content_changes, lsp_range_from_text_range, text_range_from_lsp_range,
    ContentChange,
};
use starpls::protocol::{
    completion, document_highlights, find_references, highlight_kind, inlay_hints, lsp_diagnostic_from_native, lsp_document_symbols,
    response_from_locations, selection_ranges, signature_help, CompletionItem, CompletionItemKind, CompletionMode,
    CompletionTextEdit, Diagnostic, DiagnosticTag, DocumentSymbol, InlayHint, InlayHintKind,
    InlayHintPart, LocationLink, LocationResponse, ParameterInfo, Reference, ReferenceKind, Severity,
    SignatureInfo, SymbolKind, Target,
};
use starpls::positions::line_index;
use starpls::syntax::Span;
use starpls::tokens::{lsp_semantic_tokens, SemanticToken};

fn position(line: u32, character: u32) -> Position {
    Position { line, character }
}

fn edit(start: (u32, u32), end: (u32, u32), text: &str) -> ContentChange {
    ContentChange {
        range: Some(Range { start: position(start.0, start.1), end: position(end.0, end.1) }),
        text: text.to_owned(),
    }
}

#[test]
fn utf16_positions_preserve_bom_and_crlf() {
    let text = "\u{feff}a😀\r\nβ\n";
    let index = LineIndex::from_source_text(text);
    for (offset, line, character) in [
        (0, 0, 0),
        (3, 0, 1),
        (4, 0, 2),
        (8, 0, 4),
        (10, 1, 0),
        (12, 1, 1),
        (13, 2, 0),
    ] {
        let place = position(line, character);
        assert_eq!(lsp_position_from_offset(text, &index, offset), Some(place));
        assert_eq!(offset_from_lsp_position(text, &index, place), Some(offset));
    }
    assert_eq!(offset_from_lsp_position(text, &index, position(0, 3)), None);
    assert_eq!(offset_from_lsp_position(text, &index, position(3, 0)), None);
    assert_eq!(lsp_position_from_offset(text, &index, 2), None);
    assert_eq!(lsp_position_from_offset(text, &index, 14), None);
    assert_eq!(offset_from_lsp_position(text, &index, position(0, 99)), Some(8));
    assert_eq!(offset_from_lsp_position(text, &index, position(1, 99)), Some(12));
}

#[test]
fn line_endings_use_the_parser_convention() {
    for text in ["a\nb", "a\r\nb", "a\rb"] {
        let index = LineIndex::from_source_text(text);
        let offset = u32::try_from(text.find('b').unwrap()).unwrap();
        let place = position(1, 0);
        assert_eq!(lsp_position_from_offset(text, &index, offset), Some(place));
        assert_eq!(offset_from_lsp_position(text, &index, place), Some(offset));
        assert_eq!(offset_from_lsp_position(text, &index, position(0, 99)), Some(1));
    }
}

#[test]
fn every_offset_of_a_line_leads_back() {
    for text in ["", "\n", "ab\r\nc😀d\n\ne", "a\rb\r\r\nc", "x\u{2028}y\n"] {
        let index = LineIndex::from_source_text(text);
        for (offset, _) in text.char_indices() {
            let offset = offset as u32;
            let place = lsp_position_from_offset(text, &index, offset).unwrap();
            let inside_break = text.as_bytes()[offset as usize] == b'\n'
                && offset > 0
                && text.as_bytes()[offset as usize - 1] == b'\r';
            if !inside_break {
                assert_eq!(offset_from_lsp_position(text, &index, place), Some(offset), "{text:?}");
            }
        }
    }
}

#[test]
fn edits_use_each_preceding_revision() {
    let contents = apply_document_content_changes(
        "a😀\r\nb\n".to_owned(),
        &vec![edit((0, 1), (0, 3), "xy\n"), edit((2, 0), (2, 1), "β")],
    );
    assert_eq!(contents, "axy\n\r\nβ\n");
    let contents = apply_document_content_changes(
        contents,
        &vec![
            ContentChange { range: None, text: "😀".to_owned() },
            edit((0, 0), (0, 2), "done"),
        ],
    );
    assert_eq!(contents, "done");
}

#[test]
fn invalid_edits_preserve_contents() {
    for change in [
        edit((0, 1), (0, 2), "x"),
        edit((0, 2), (0, 0), "x"),
        edit((1, 0), (1, 0), "x"),
    ] {
        assert_eq!(apply_document_content_changes("😀".to_owned(), &vec![change]), "😀");
    }
}

#[test]
fn semantic_tokens_split_multiline_strings_and_encode_utf16_deltas() {
    let text = "x = \"\"\"😀\r\nβ\r\n\"\"\"; y\n";
    let index = LineIndex::from_source_text(text);
    let tokens = vec![
        SemanticToken { range: Span { start: 4, end: 20 }, token_type: 12, modifiers: 0 },
        SemanticToken { range: Span { start: 22, end: 23 }, token_type: 8, modifiers: 4 },
    ];
    let actual = lsp_semantic_tokens(&tokens, text, &index);
    let positions: Vec<_> = actual
        .iter()
        .map(|token| (token.delta_line, token.delta_start, token.length))
        .collect();
    assert_eq!(positions, [(0, 4, 5), (1, 0, 1), (1, 0, 3), (0, 5, 1)]);
    assert_eq!(actual[3].token_type, 8);
    assert_eq!(actual[3].token_modifiers_bitset, 4);
}

#[test]
fn diagnostic_conversion_preserves_protocol_fields() {
    let text = "😀x\n";
    let index = LineIndex::from_source_text(text);
    for (severity, tag, severity_number, tag_number) in [
        (Severity::Error, None, 1, None),
        (Severity::Warning, Some(DiagnosticTag::Unnecessary), 2, Some(1)),
        (Severity::Info, Some(DiagnosticTag::Deprecated), 3, Some(2)),
    ] {
        let diagnostic = Diagnostic {
            range: Some(Span { start: 4, end: 5 }),
            severity,
            message: "message".to_owned(),
            tags: tag.into_iter().collect(),
        };
        let converted = lsp_diagnostic_from_native(&diagnostic, text, &index).unwrap();
        assert_eq!(converted.range, Range { start: position(0, 2), end: position(0, 3) });
        assert_eq!(converted.severity, severity_number);
        assert_eq!(converted.source, "starpls");
        assert_eq!(converted.message, "message");
        assert_eq!(converted.tags, tag_number.map(|tag| vec![tag]));
    }
    let nowhere = Diagnostic {
        range: Some(Span { start: 1, end: 5 }),
        severity: Severity::Fatal,
        message: String::new(),
        tags: Vec::new(),
    };
    assert!(lsp_diagnostic_from_native(&nowhere, text, &index).is_none());
}

#[test]
fn ranges_need_both_ends_in_order() {
    let text = "ab\ncd\n";
    let index = LineIndex::from_source_text(text);
    let range = Range { start: position(0, 1), end: position(1, 1) };
    let span = Span { start: 1, end: 4 };
    assert_eq!(text_range_from_lsp_range(range, text, &index), Some(span));
    assert_eq!(lsp_range_from_text_range(span, text, &index), Some(range));
    let backwards = Range { start: range.end, end: range.start };
    assert_eq!(text_range_from_lsp_range(backwards, text, &index), None);
    let outside = Range { start: range.start, end: position(9, 0) };
    assert_eq!(text_range_from_lsp_range(outside, text, &index), None);
    assert_eq!(lsp_range_from_text_range(Span { start: 0, end: 99 }, text, &index), None);
}

fn symbol(name: &str, span: Span, children: Option<Vec<DocumentSymbol>>) -> DocumentSymbol {
    DocumentSymbol {
        name: name.to_owned(),
        detail: None,
        kind: SymbolKind::Function,
        deprecated: None,
        range: span,
        selection_range: span,
        children,
    }
}

#[test]
fn symbols_without_a_place_are_left_out() {
    let text = "a\nb\n";
    let index = LineIndex::from_source_text(text);
    let inner = vec![
        symbol("gone", Span { start: 0, end: 70 }, None),
        symbol("inner", Span { start: 2, end: 3 }, None),
    ];
    let symbols = vec![symbol("outer", Span { start: 0, end: 3 }, Some(inner))];
    let converted = lsp_document_symbols(&symbols, text, &index);
    assert_eq!(converted.len(), 1);
    assert_eq!(converted[0].kind, 12);
    let children = converted[0].children.as_ref().unwrap();
    assert_eq!(children.len(), 1);
    assert_eq!(children[0].name, "inner");
    assert_eq!(children[0].range.start, position(1, 0));
}

#[test]
fn completions_need_a_client_that_can_replace() {
    let text = "ab\n";
    let index = LineIndex::from_source_text(text);
    let item = |mode: Option<CompletionMode>| CompletionItem {
        label: "l".to_owned(),
        kind: CompletionItemKind::Folder,
        mode,
        filter_text: None,
        sort_text: "0".to_owned(),
    };
    let span = Span { start: 0, end: 2 };
    let items = vec![
        item(None),
        item(Some(CompletionMode::InsertText("x".to_owned()))),
        item(Some(CompletionMode::TextEdit { range: span, new_text: "y".to_owned() })),
        item(Some(CompletionMode::TextEdit {
            range: Span { start: 0, end: 50 },
            new_text: "z".to_owned(),
        })),
        item(Some(CompletionMode::InsertReplaceEdit {
            insert: span,
            replace: span,
            new_text: "r".to_owned(),
        })),
    ];
    let without = completion(&items, false, text, &index);
    assert_eq!(without.len(), 3);
    assert_eq!(without[0].kind, 19);
    assert_eq!(without[1].insert_text.as_deref(), Some("x"));
    assert!(matches!(without[2].text_edit, Some(CompletionTextEdit::Edit { .. })));
    let with = completion(&items, true, text, &index);
    assert_eq!(with.len(), 4);
    assert!(matches!(with[3].text_edit, Some(CompletionTextEdit::InsertAndReplace { .. })));
}

#[test]
fn hints_and_links_lead_where_they_can() {
    let text = "ab\ncd\n";
    let index = LineIndex::from_source_text(text);
    let found = || Target {
        uri: Some("file:///a".to_owned()),
        range: Some(Range { start: position(0, 0), end: position(0, 1) }),
    };
    let lost = || Target { uri: None, range: None };
    let hints = vec![
        InlayHint {
            position: 4,
            kind: InlayHintKind::CallArgumentName,
            label: vec![
                InlayHintPart { text: "x".to_owned(), target: Some(found()) },
                InlayHintPart { text: "y".to_owned(), target: Some(lost()) },
                InlayHintPart { text: "z".to_owned(), target: None },
            ],
        },
        InlayHint { position: 77, kind: InlayHintKind::Type, label: Vec::new() },
    ];
    let converted = inlay_hints(&hints, text, &index);
    assert_eq!(converted.len(), 1);
    assert_eq!(converted[0].position, position(1, 1));
    assert_eq!(converted[0].kind, 2);
    assert!(converted[0].label[0].location.is_some());
    assert!(converted[0].label[1].location.is_none());
    let links = vec![
        LocationLink::Local { origin: Some(Span { start: 0, end: 2 }), target: found() },
        LocationLink::Local { origin: None, target: lost() },
        LocationLink::External { origin: None, uri: Some("file:///b".to_owned()) },
    ];
    match response_from_locations(&links, true, text, &index) {
        LocationResponse::Links(out) => {
            assert_eq!(out.len(), 2);
            assert!(out[0].origin_selection_range.is_some());
            assert_eq!(out[1].target_range.start, position(0, 0));
        }
        other => panic!("{other:?}"),
    }
    match response_from_locations(&links, false, text, &index) {
        LocationResponse::Locations(out) => {
            assert_eq!(out.len(), 2);
            assert_eq!(out[1].uri, "file:///b");
        }
        other => panic!("{other:?}"),
    }
    assert_eq!(highlight_kind(ReferenceKind::Write), 3);
    let spans = vec![Span { start: 0, end: 6 }, Span { start: 0, end: 2 }];
    assert_eq!(selection_ranges(&spans, text, &index).unwrap().len(), 2);
    assert!(selection_ranges(&Vec::new(), text, &index).is_none());
    assert!(selection_ranges(&vec![Span { start: 0, end: 60 }], text, &index).is_none());
}

#[test]
fn uses_are_highlighted_where_they_are_in_the_text() {
    let text = "a = 1\nb = a\n";
    let index = line_index(text).unwrap();
    let reference = |start, end, kind| Reference { range: Span { start, end }, kind };
    let found = document_highlights(
        &vec![
            reference(0, 1, ReferenceKind::Write),
            reference(90, 91, ReferenceKind::Other),
            reference(10, 11, ReferenceKind::Read),
        ],
        text,
        &index,
    );
    assert_eq!(found.len(), 2);
    assert_eq!(found[0].kind, 3);
    assert_eq!(found[0].range, Range { start: position(0, 0), end: position(0, 1) });
    assert_eq!(found[1].kind, 2);
    assert_eq!(found[1].range, Range { start: position(1, 4), end: position(1, 5) });
}

#[test]
fn references_wait_for_the_workspace() {
    let range = Range { start: position(1, 0), end: position(1, 4) };
    let target = |uri: Option<&str>, range| Target { uri: uri.map(str::to_owned), range };
    let targets = vec![
        target(Some("file:///a.bzl"), Some(range)),
        target(None, Some(range)),
        target(Some("file:///b.bzl"), None),
        target(Some("file:///c.bzl"), Some(range)),
    ];
    let found = find_references(Ok(()), &targets).unwrap();
    let uris: Vec<&str> = found.iter().map(|location| location.uri.as_str()).collect();
    assert_eq!(uris, ["file:///a.bzl", "file:///c.bzl"]);
    assert_eq!(found[1].range, range);
    assert_eq!(find_references(Err("not ready".to_owned()), &targets).unwrap_err(), "not ready");
}

#[test]
fn signatures_keep_their_order_and_parameters() {
    let signature = |label: &str, active_parameter| SignatureInfo {
        label: label.to_owned(),
        documentation: Some("text".to_owned()),
        parameters: Some(vec![ParameterInfo { label: "x".to_owned(), documentation: None }]),
        active_parameter,
    };
    let found = signature_help(vec![signature("f(x)", Some(1)), signature("g(x)", None)]);
    assert_eq!(found.len(), 2);
    assert_eq!(found[0].label, "f(x)");
    assert_eq!(found[0].active_parameter, Some(1));
    assert_eq!(found[0].parameters.as_ref().unwrap()[0].label, "x");
    assert_eq!(found[1].label, "g(x)");
    assert_eq!(found[1].documentation.as_deref(), Some("text"));
    assert_eq!(found[1].active_parameter, None);
}

#[test]
fn changes_in_two_lists_are_changes_in_a_row() {
    let first = || vec![edit((0, 0), (0, 1), "xy"), edit((0, 2), (0, 2), "\n")];
    let second = || vec![edit((1, 0), (1, 1), "z")];
    let text = || "abc".to_owned();
    let both = first().into_iter().chain(second()).collect();
    let turned = apply_document_content_changes(text(), &first());
    assert_eq!(turned, "xy\nbc");
    let turned = apply_document_content_changes(turned, &second());
    assert_eq!(turned, "xy\nzc");
    assert_eq!(apply_document_content_changes(text(), &both), turned);
    assert_eq!(apply_document_content_changes(text(), &Vec::new()), "abc");
    let whole = ContentChange { range: None, text: "new".to_owned() };
    assert_eq!(apply_document_content_changes(text(), &vec![edit((0, 0), (0, 1), "q"), whole]), "new");
}
