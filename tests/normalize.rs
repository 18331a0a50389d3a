use rust_analyzer_mcp::normalize::{
    completion_entries, definition_locations, diagnostic_list, document_outline,
    formatting_edit_count, hover_text, location_starts, rename_changes, workspace_symbol_list,
    ChangeLine,
};
use rust_analyzer_mcp::protocol::{
    CompletionItem, CompletionResponse, Diagnostic, DiagnosticReport, DocumentChangeOperation,
    DocumentChanges, DocumentSymbol, Documentation, GotoDefinitionResponse, HoverContents,
    Location, LocationLink, MarkedString, Position, Range, Severity, SymbolInformation,
    TextDocumentEdit, TextEdit, WorkspaceEdit,
};

fn range(l1: u32, c1: u32, l2: u32, c2: u32) -> Range {
    Range {
        start: Position { line: l1, character: c1 },
        end: Position { line: l2, character: c2 },
    }
}

fn loc(file: &str, l: u32, c: u32) -> Location {
    Location { file: file.to_string(), range: range(l, c, l, c + 1) }
}

#[test]
fn hover_markup_is_returned_as_is() {
    let c = HoverContents::Markup("User { name, age, email }".to_string());
    assert_eq!(hover_text(c), "User { name, age, email }");
}

#[test]
fn hover_scalar_plain_and_code() {
    assert_eq!(hover_text(HoverContents::Scalar(MarkedString::Plain("a".to_string()))), "a");
    let code = MarkedString::Code { language: "rust".to_string(), value: "fn f()".to_string() };
    assert_eq!(hover_text(HoverContents::Scalar(code)), "fn f()");
}

#[test]
fn hover_list_joined_by_blank_line_in_order() {
    let list = vec![
        MarkedString::Code { language: "rust".to_string(), value: "struct User".to_string() },
        MarkedString::Plain("A user.".to_string()),
        MarkedString::Plain("Third".to_string()),
    ];
    assert_eq!(hover_text(HoverContents::Array(list)), "struct User\n\nA user.\n\nThird");
    assert_eq!(hover_text(HoverContents::Array(vec![])), "");
}

fn item(i: usize) -> CompletionItem {
    CompletionItem {
        label: format!("item{}", i),
        detail: if i % 2 == 0 { Some(format!("detail{}", i)) } else { None },
        documentation: match i % 3 {
            0 => Some(Documentation::Plain(format!("doc{}", i))),
            1 => Some(Documentation::Markup(format!("md{}", i))),
            _ => None,
        },
    }
}

#[test]
fn completion_capped_at_ten_in_server_order() {
    let items: Vec<CompletionItem> = (0..25).map(item).collect();
    let r = completion_entries(CompletionResponse::List { is_incomplete: true, items });
    assert_eq!(r.len(), 10);
    for (i, e) in r.iter().enumerate() {
        assert_eq!(e.label, format!("item{}", i));
    }
    assert_eq!(r[0].detail, "detail0");
    assert_eq!(r[1].detail, "");
    assert_eq!(r[0].documentation, "doc0");
    assert_eq!(r[1].documentation, "md1");
    assert_eq!(r[2].documentation, "");
}

#[test]
fn completion_short_array_kept_whole() {
    let items: Vec<CompletionItem> = (0..3).map(item).collect();
    let r = completion_entries(CompletionResponse::Array(items));
    let labels: Vec<&str> = r.iter().map(|e| e.label.as_str()).collect();
    assert_eq!(labels, vec!["item0", "item1", "item2"]);
}

#[test]
fn diagnostics_unchanged_is_empty_not_error() {
    assert!(diagnostic_list(DiagnosticReport::Unchanged).is_empty());
    assert!(diagnostic_list(DiagnosticReport::Partial).is_empty());
}

#[test]
fn diagnostics_full_kept_in_order() {
    let d = vec![
        Diagnostic {
            range: range(1, 2, 1, 5),
            severity: Some(Severity::Error),
            message: "mismatched types".to_string(),
            source: Some("rustc".to_string()),
        },
        Diagnostic {
            range: range(3, 0, 3, 1),
            severity: None,
            message: "unused".to_string(),
            source: None,
        },
    ];
    let r = diagnostic_list(DiagnosticReport::Full(d));
    assert_eq!(r.len(), 2);
    assert_eq!(r[0].message, "mismatched types");
    assert_eq!(r[1].message, "unused");
}

#[test]
fn definition_link_uses_target_range() {
    let link = LocationLink {
        target_file: "/a/b.rs".to_string(),
        target_range: range(12, 4, 12, 8),
        target_selection_range: range(13, 9, 13, 10),
        origin_selection_range: Some(range(1, 1, 1, 2)),
    };
    let r = definition_locations(GotoDefinitionResponse::Link(vec![link]));
    assert_eq!(r.len(), 1);
    assert_eq!((r[0].file.as_str(), r[0].line, r[0].column), ("/a/b.rs", 12, 4));
}

#[test]
fn definition_scalar_and_array() {
    let r = definition_locations(GotoDefinitionResponse::Scalar(loc("/x.rs", 3, 7)));
    assert_eq!((r[0].file.as_str(), r[0].line, r[0].column), ("/x.rs", 3, 7));
    let r = definition_locations(GotoDefinitionResponse::Array(vec![
        loc("/p.rs", 1, 2),
        loc("/q.rs", 5, 0),
    ]));
    let got: Vec<(String, u32, u32)> =
        r.into_iter().map(|f| (f.file, f.line, f.column)).collect();
    assert_eq!(got, vec![("/p.rs".to_string(), 1, 2), ("/q.rs".to_string(), 5, 0)]);
    assert!(definition_locations(GotoDefinitionResponse::Array(vec![])).is_empty());
}

#[test]
fn references_start_points() {
    let r = location_starts(&vec![loc("/m.rs", 10, 1), loc("/m.rs", 20, 4)]);
    assert_eq!(r.len(), 2);
    assert_eq!((r[1].line, r[1].column), (20, 4));
}

#[test]
fn formatting_counts_edits() {
    let edits = vec![
        TextEdit { range: range(0, 0, 0, 1), new_text: "a".to_string() },
        TextEdit { range: range(1, 0, 1, 1), new_text: "b".to_string() },
    ];
    assert_eq!(formatting_edit_count(&Some(edits)), 2);
    assert_eq!(formatting_edit_count(&Some(vec![])), 0);
    assert_eq!(formatting_edit_count(&None), 0);
}

fn symbol(i: usize) -> SymbolInformation {
    SymbolInformation {
        name: format!("sym{}", i),
        kind: "Function".to_string(),
        location: loc("/s.rs", i as u32, 0),
        container_name: None,
    }
}

#[test]
fn workspace_symbols_capped_at_twenty() {
    let r = workspace_symbol_list((0..30).map(symbol).collect());
    assert_eq!(r.len(), 20);
    assert_eq!(r[19].name, "sym19");
    let r = workspace_symbol_list((0..5).map(symbol).collect());
    assert_eq!(r.len(), 5);
}

fn edit(l: u32, text: &str) -> TextEdit {
    TextEdit { range: range(l, 0, l, 3), new_text: text.to_string() }
}

#[test]
fn rename_flat_map_and_document_changes() {
    let we = WorkspaceEdit {
        changes: Some(vec![("/a.rs".to_string(), vec![edit(1, "New"), edit(4, "New")])]),
        document_changes: Some(DocumentChanges::Operations(vec![
            DocumentChangeOperation::Edit(TextDocumentEdit {
                file: "/b.rs".to_string(),
                edits: vec![edit(2, "New")],
            }),
            DocumentChangeOperation::Other,
        ])),
    };
    let lines = rename_changes(&we);
    assert_eq!(lines.len(), 6);
    assert!(matches!(&lines[0], ChangeLine::File(f) if f == "/a.rs"));
    assert!(matches!(&lines[1], ChangeLine::Replace { range, new_text } if range.start.line == 1 && new_text == "New"));
    assert!(matches!(&lines[2], ChangeLine::Replace { range, .. } if range.start.line == 4));
    assert!(matches!(&lines[3], ChangeLine::File(f) if f == "/b.rs"));
    assert!(matches!(&lines[4], ChangeLine::Edit { range, .. } if range.start.line == 2));
    assert!(matches!(&lines[5], ChangeLine::Other));
}

#[test]
fn rename_document_edits_and_empty() {
    let we = WorkspaceEdit {
        changes: None,
        document_changes: Some(DocumentChanges::Edits(vec![TextDocumentEdit {
            file: "/c.rs".to_string(),
            edits: vec![],
        }])),
    };
    let lines = rename_changes(&we);
    assert_eq!(lines.len(), 1);
    assert!(matches!(&lines[0], ChangeLine::File(f) if f == "/c.rs"));
    let none = WorkspaceEdit { changes: None, document_changes: None };
    assert!(rename_changes(&none).is_empty());
}

fn sym(name: &str, line: u32, children: Option<Vec<DocumentSymbol>>) -> DocumentSymbol {
    DocumentSymbol {
        name: name.to_string(),
        kind: "Struct".to_string(),
        range: range(line, 0, line + 1, 0),
        children,
    }
}

#[test]
fn outline_is_depth_first_with_nesting() {
    let tree = vec![
        sym(
            "User",
            0,
            Some(vec![sym("name", 1, None), sym("inner", 2, Some(vec![sym("deep", 3, None)]))]),
        ),
        sym("main", 10, Some(vec![])),
    ];
    let rows = document_outline(&tree);
    let got: Vec<(usize, &str, u32)> =
        rows.iter().map(|r| (r.depth, r.name.as_str(), r.range.start.line)).collect();
    assert_eq!(
        got,
        vec![(0, "User", 0), (1, "name", 1), (1, "inner", 2), (2, "deep", 3), (0, "main", 10)]
    );
    assert!(document_outline(&vec![]).is_empty());
}
