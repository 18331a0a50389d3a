//! The shapes of the server's answers that the operations read, with each
//! protocol-level alternative as a variant.

use vstd::prelude::*;

verus! {

/// A zero-based line and character offset.
#[derive(PartialEq, Eq, Structural, Clone, Copy, Debug)]
pub struct Position {
    pub line: u32,
    pub character: u32,
}

#[derive(PartialEq, Eq, Structural, Clone, Copy, Debug)]
pub struct Range {
    pub start: Position,
    pub end: Position,
}

/// A range in a file, the file given by its path (or by its URI where it has
/// no path).
#[derive(Debug)]
pub struct Location {
    pub file: String,
    pub range: Range,
}

/// A link to a definition: the whole target range, the part of it to
/// select, and the part of the request's own document it came from.
#[derive(Debug)]
pub struct LocationLink {
    pub target_file: String,
    pub target_range: Range,
    pub target_selection_range: Range,
    pub origin_selection_range: Option<Range>,
}

/// A piece of hover text: plain, or code in a language.
#[derive(Debug)]
pub enum MarkedString {
    Plain(String),
    Code { language: String, value: String },
}

/// The three shapes of hover contents.
#[derive(Debug)]
pub enum HoverContents {
    Scalar(MarkedString),
    Array(Vec<MarkedString>),
    Markup(String),
}

/// Documentation: plain text or markup, of which only the text is read.
#[derive(Debug)]
pub enum Documentation {
    Plain(String),
    Markup(String),
}

#[derive(Debug)]
pub struct CompletionItem {
    pub label: String,
    pub detail: Option<String>,
    pub documentation: Option<Documentation>,
}

/// The two shapes of a completion answer.
#[derive(Debug)]
pub enum CompletionResponse {
    Array(Vec<CompletionItem>),
    List { is_incomplete: bool, items: Vec<CompletionItem> },
}

#[derive(PartialEq, Eq, Structural, Clone, Copy, Debug)]
pub enum Severity {
    Error,
    Warning,
    Information,
    Hint,
}

#[derive(Debug)]
pub struct Diagnostic {
    pub range: Range,
    pub severity: Option<Severity>,
    pub message: String,
    pub source: Option<String>,
}

/// A diagnostics report: the full list, or word that nothing changed since
/// an earlier report, or a partial result.
#[derive(Debug)]
pub enum DiagnosticReport {
    Full(Vec<Diagnostic>),
    Unchanged,
    Partial,
}

/// The three shapes of a definition answer.
#[derive(Debug)]
pub enum GotoDefinitionResponse {
    Scalar(Location),
    Array(Vec<Location>),
    Link(Vec<LocationLink>),
}

#[derive(Debug)]
pub struct TextEdit {
    pub range: Range,
    pub new_text: String,
}

/// The edits to one document.
#[derive(Debug)]
pub struct TextDocumentEdit {
    pub file: String,
    pub edits: Vec<TextEdit>,
}

/// One step of a structured workspace edit: an edit, or a file being
/// created, renamed or deleted.
#[derive(Debug)]
pub enum DocumentChangeOperation {
    Edit(TextDocumentEdit),
    Other,
}

#[derive(Debug)]
pub enum DocumentChanges {
    Edits(Vec<TextDocumentEdit>),
    Operations(Vec<DocumentChangeOperation>),
}

/// A workspace edit: a flat map from file to edits, structured document
/// changes, or both.
#[derive(Debug)]
pub struct WorkspaceEdit {
    pub changes: Option<Vec<(String, Vec<TextEdit>)>>,
    pub document_changes: Option<DocumentChanges>,
}

/// A symbol with its location, as a flat list of them gives it.
#[derive(Debug)]
pub struct SymbolInformation {
    pub name: String,
    pub kind: String,
    pub location: Location,
    pub container_name: Option<String>,
}

/// A symbol of a document's outline, with the symbols nested in it.
#[derive(Debug)]
pub struct DocumentSymbol {
    pub name: String,
    pub kind: String,
    pub range: Range,
    pub children: Option<Vec<DocumentSymbol>>,
}

/// The two shapes of a document outline.
#[derive(Debug)]
pub enum DocumentSymbolResponse {
    Flat(Vec<SymbolInformation>),
    Nested(Vec<DocumentSymbol>),
}


#[derive(PartialEq, Eq, Structural, Clone, Copy, Debug)]
pub enum InlayHintKind {
    Type,
    Parameter,
}

/// An inlay hint's label: one string, or parts to be read one after another.
#[derive(Debug)]
pub enum InlayHintLabel {
    String(String),
    Parts(Vec<String>),
}

#[derive(Debug)]
pub struct InlayHint {
    pub position: Position,
    pub label: InlayHintLabel,
    pub kind: Option<InlayHintKind>,
}

/// A selection range and the ranges that enclose it, innermost first.
#[derive(Debug)]
pub struct SelectionRange {
    pub range: Range,
    pub parent: Option<Box<SelectionRange>>,
}

/// A parameter's label: its text, or the offsets of its text in the
/// signature's label.
#[derive(PartialEq, Eq, Debug)]
pub enum ParameterLabel {
    Simple(String),
    Offsets(u32, u32),
}

#[derive(Debug)]
pub struct ParameterInformation {
    pub label: ParameterLabel,
    pub documentation: Option<Documentation>,
}

#[derive(Debug)]
pub struct SignatureInformation {
    pub label: String,
    pub documentation: Option<Documentation>,
    pub parameters: Option<Vec<ParameterInformation>>,
}

#[derive(Debug)]
pub struct SignatureHelp {
    pub signatures: Vec<SignatureInformation>,
    pub active_parameter: Option<u32>,
}

/// A code action: its title and kind, how many diagnostics it fixes, and
/// the edit it would make.
#[derive(Debug)]
pub struct CodeAction {
    pub title: String,
    pub kind: Option<String>,
    pub diagnostics: Option<usize>,
    pub edit: Option<WorkspaceEdit>,
}

#[derive(Debug)]
pub enum CodeActionOrCommand {
    Action(CodeAction),
    Command { title: String, command: String },
}

} // verus!
