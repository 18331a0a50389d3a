use rust_analyzer_mcp::normalize::{
    code_action_summary, document_end, inlay_hint_entries, selection_chains, signature_entries,
    ActionLine,
};
use rust_analyzer_mcp::protocol::{
    CodeAction, CodeActionOrCommand, DocumentChangeOperation, DocumentChanges, Documentation,
    InlayHint, InlayHintKind, InlayHintLabel, ParameterInformation, ParameterLabel, Position,
    Range, SelectionRange, SignatureHelp, SignatureInformation, TextDocumentEdit, TextEdit,
    WorkspaceEdit,
};

fn pos(l: u32, c: u32) -> Position {
    Position { line: l, character: c }
}

fn range(l1: u32, c1: u32, l2: u32, c2: u32) -> Range {
    Range { start: pos(l1, c1), end: pos(l2, c2) }
}

#[test]
fn inlay_hints_capped_at_fifty_with_joined_labels() {
    let mut hints = Vec::new();
    for i in 0..60u32 {
        let label = if i % 2 == 0 {
            InlayHintLabel::String(format!(": T{}", i))
        } else {
            InlayHintLabel::Parts(vec!["a".to_string(), "b".to_string(), format!("{}", i)])
        };
        hints.push(InlayHint {
            position: pos(i, 4),
            label,
            kind: if i % 3 == 0 { Some(InlayHintKind::Type) } else { None },
        });
    }
    let r = inlay_hint_entries(&hints);
    assert_eq!(r.len(), 50);
    assert_eq!(r[0].label, ": T0");
    assert_eq!(r[1].label, "ab1");
    assert_eq!(r[49].position, pos(49, 4));
    assert_eq!(r[3].kind, Some(InlayHintKind::Type));
    assert_eq!(r[4].kind, None);
}

#[test]
fn document_end_of_texts() {
    assert_eq!(document_end(""), pos(0, 0));
    assert_eq!(document_end("fn main() {}"), pos(0, 12));
    assert_eq!(document_end("a\nbcd\n"), pos(1, 3));
    assert_eq!(document_end("a\r\nbc\r\n"), pos(1, 2));
    assert_eq!(document_end("a\nbc"), pos(1, 2));
    assert_eq!(document_end("a\n\n"), pos(1, 0));
    assert_eq!(document_end("\n"), pos(0, 0));
    assert_eq!(document_end("x\n\u{e9}t\u{e9}"), pos(1, 5));
}

#[test]
fn document_end_matches_lines() {
    for text in ["one\ntwo\nthree", "one\ntwo\n", "  \r\n\r\nz", "abc\r", "\r\n"] {
        let lines: Vec<&str> = text.lines().collect();
        let line = lines.len().saturating_sub(1) as u32;
        let character = lines.last().map(|l| l.len()).unwrap_or(0) as u32;
        assert_eq!(document_end(text), pos(line, character), "{:?}", text);
    }
}

#[test]
fn selection_chain_innermost_first() {
    let outer = SelectionRange { range: range(0, 0, 10, 0), parent: None };
    let mid = SelectionRange { range: range(2, 0, 4, 1), parent: Some(Box::new(outer)) };
    let inner = SelectionRange { range: range(3, 4, 3, 8), parent: Some(Box::new(mid)) };
    let lone = SelectionRange { range: range(7, 1, 7, 2), parent: None };
    let r = selection_chains(&vec![inner, lone]);
    assert_eq!(r.len(), 2);
    assert_eq!(r[0], vec![range(3, 4, 3, 8), range(2, 0, 4, 1), range(0, 0, 10, 0)]);
    assert_eq!(r[1], vec![range(7, 1, 7, 2)]);
}

fn param(label: ParameterLabel, doc: Option<&str>) -> ParameterInformation {
    ParameterInformation { label, documentation: doc.map(|d| Documentation::Plain(d.to_string())) }
}

#[test]
fn signature_marks_active_parameter() {
    let sig = SignatureInformation {
        label: "fn f(a: u8, b: u8)".to_string(),
        documentation: Some(Documentation::Markup("Adds.".to_string())),
        parameters: Some(vec![
            param(ParameterLabel::Simple("a: u8".to_string()), Some("first")),
            param(ParameterLabel::Offsets(12, 17), None),
        ]),
    };
    let bare = SignatureInformation { label: "fn g()".to_string(), documentation: None, parameters: None };
    let help = SignatureHelp { signatures: vec![sig, bare], active_parameter: Some(1) };
    let r = signature_entries(&help);
    assert_eq!(r.len(), 2);
    assert_eq!(r[0].label, "fn f(a: u8, b: u8)");
    assert_eq!(r[0].documentation, "Adds.");
    let ps = r[0].parameters.as_ref().unwrap();
    assert_eq!(ps[0].label, ParameterLabel::Simple("a: u8".to_string()));
    assert_eq!(ps[0].documentation, "first");
    assert!(!ps[0].active);
    assert_eq!(ps[1].label, ParameterLabel::Offsets(12, 17));
    assert!(ps[1].active);
    assert!(r[1].parameters.is_none());
    assert_eq!(r[1].documentation, "");
}

#[test]
fn signature_without_active_marks_first() {
    let sig = SignatureInformation {
        label: "fn h(x: i32)".to_string(),
        documentation: None,
        parameters: Some(vec![param(ParameterLabel::Simple("x".to_string()), None)]),
    };
    let r = signature_entries(&SignatureHelp { signatures: vec![sig], active_parameter: None });
    assert!(r[0].parameters.as_ref().unwrap()[0].active);
}

#[test]
fn code_actions_summarised_in_order() {
    let edit = TextEdit { range: range(1, 0, 1, 2), new_text: "x".to_string() };
    let action = CodeAction {
        title: "Add missing import".to_string(),
        kind: Some("quickfix".to_string()),
        diagnostics: Some(2),
        edit: Some(WorkspaceEdit {
            changes: Some(vec![
                ("/a.rs".to_string(), vec![edit]),
                ("/empty.rs".to_string(), vec![]),
            ]),
            document_changes: Some(DocumentChanges::Operations(vec![
                DocumentChangeOperation::Other,
                DocumentChangeOperation::Edit(TextDocumentEdit { file: "/b.rs".to_string(), edits: vec![] }),
            ])),
        }),
    };
    let plain = CodeAction { title: "Inline".to_string(), kind: None, diagnostics: None, edit: None };
    let command = CodeActionOrCommand::Command { title: "Run".to_string(), command: "rust-analyzer.run".to_string() };
    let r = code_action_summary(&vec![
        CodeActionOrCommand::Action(action),
        CodeActionOrCommand::Action(plain),
        command,
    ]);
    assert_eq!(r.len(), 5);
    assert!(matches!(&r[0], ActionLine::Action { title, kind: Some(k), fixes: 2 } if title == "Add missing import" && k == "quickfix"));
    assert!(matches!(&r[1], ActionLine::Modifies(f) if f == "/a.rs"));
    assert!(matches!(&r[2], ActionLine::Operations(2)));
    assert!(matches!(&r[3], ActionLine::Action { kind: None, fixes: 0, .. }));
    assert!(matches!(&r[4], ActionLine::Command { command, .. } if command == "rust-analyzer.run"));
}

#[test]
fn code_action_document_edits_listed() {
    let action = CodeAction {
        title: "Fix".to_string(),
        kind: None,
        diagnostics: Some(0),
        edit: Some(WorkspaceEdit {
            changes: None,
            document_changes: Some(DocumentChanges::Edits(vec![
                TextDocumentEdit { file: "/x.rs".to_string(), edits: vec![] },
                TextDocumentEdit { file: "/y.rs".to_string(), edits: vec![] },
            ])),
        }),
    };
    let r = code_action_summary(&vec![CodeActionOrCommand::Action(action)]);
    assert_eq!(r.len(), 3);
    assert!(matches!(&r[2], ActionLine::Modifies(f) if f == "/y.rs"));
    assert!(code_action_summary(&vec![]).is_empty());
}
