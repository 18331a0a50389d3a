//! Each operation's answer, in whichever of its protocol shapes it came,
//! reduced to the one shape its caller reads.

use crate::protocol::{
    CompletionItem, CompletionResponse, Diagnostic, DiagnosticReport, DocumentChangeOperation,
    DocumentChanges, DocumentSymbol, Documentation, GotoDefinitionResponse, HoverContents, Location, LocationLink,
    MarkedString, Range, SymbolInformation, TextDocumentEdit, TextEdit, WorkspaceEdit,
    CodeActionOrCommand, InlayHint, InlayHintKind, InlayHintLabel, ParameterInformation,
    ParameterLabel, Position, SelectionRange, SignatureHelp, SignatureInformation,
};
use vstd::string::StringSliceAdditionalSpecFns;
use vstd::prelude::*;
use vstd::string::StringExecFns;

verus! {

/// What separates the fragments of a hover given as a list.
pub const PARAGRAPH_BREAK: &'static str = "\n\n";

/// How many completions are kept, in the server's order.
pub const COMPLETION_LIMIT: usize = 10;

/// How many workspace symbols are kept, in the server's order.
pub const SYMBOL_LIMIT: usize = 20;

pub open spec fn marked_text(m: MarkedString) -> Seq<char> {
    match m {
        MarkedString::Plain(s) => s@,
        MarkedString::Code { value, .. } => value@,
    }
}

/// The parts, in order, with `sep` between each two.
pub open spec fn joined(parts: Seq<Seq<char>>, sep: Seq<char>) -> Seq<char>
    decreases parts.len(),
{
    if parts.len() == 0 {
        Seq::empty()
    } else if parts.len() == 1 {
        parts[0]
    } else {
        joined(parts.drop_last(), sep) + sep + parts.last()
    }
}

/// The text of a hover, whatever its shape.
pub open spec fn hover_text_of(c: HoverContents) -> Seq<char> {
    match c {
        HoverContents::Scalar(m) => marked_text(m),
        HoverContents::Markup(v) => v@,
        HoverContents::Array(list) => joined(
            list@.map_values(|m: MarkedString| marked_text(m)),
            PARAGRAPH_BREAK@,
        ),
    }
}

fn marked_str(m: &MarkedString) -> (r: &str)
    ensures
        r@ == marked_text(*m),
{
    match m {
        MarkedString::Plain(s) => s.as_str(),
        MarkedString::Code { value, .. } => value.as_str(),
    }
}

/// The text of a hover: plain or markup as it is, a list of fragments
/// joined by an empty line, in their order.
pub fn hover_text(c: HoverContents) -> (r: String)
    ensures
        r@ == hover_text_of(c),
{
    match c {
        HoverContents::Scalar(m) => String::from_str(marked_str(&m)),
        HoverContents::Markup(v) => v,
        HoverContents::Array(list) => {
            let ghost parts = list@.map_values(|m: MarkedString| marked_text(m));
            let mut out = String::new();
            let mut i: usize = 0;
            while i < list.len()
                invariant
                    i <= list@.len(),
                    parts == list@.map_values(|m: MarkedString| marked_text(m)),
                    out@ == joined(parts.take(i as int), PARAGRAPH_BREAK@),
                decreases list@.len() - i,
            {
                if i > 0 {
                    out.append(PARAGRAPH_BREAK);
                }
                out.append(marked_str(&list[i]));
                proof {
                    let t = parts.take(i + 1);
                    assert(t.drop_last() =~= parts.take(i as int));
                    if i == 0 {
                        assert(parts.take(0) =~= Seq::<Seq<char>>::empty());
                    }
                }
                i = i + 1;
            }
            assert(parts.take(list@.len() as int) =~= parts);
            out
        },
    }
}

/// A completion as its caller reads it: label, detail and documentation
/// text, the last two empty where the server gave none.
#[derive(Debug)]
pub struct CompletionEntry {
    pub label: String,
    pub detail: String,
    pub documentation: String,
}

pub open spec fn text_or_empty(s: Option<String>) -> Seq<char> {
    match s {
        Some(t) => t@,
        None => Seq::empty(),
    }
}

pub open spec fn documentation_text(d: Option<Documentation>) -> Seq<char> {
    match d {
        Some(Documentation::Plain(s)) => s@,
        Some(Documentation::Markup(s)) => s@,
        None => Seq::empty(),
    }
}

pub open spec fn entry_of(e: CompletionEntry, item: CompletionItem) -> bool {
    &&& e.label@ == item.label@
    &&& e.detail@ == text_or_empty(item.detail)
    &&& e.documentation@ == documentation_text(item.documentation)
}

pub open spec fn completion_items(r: CompletionResponse) -> Seq<CompletionItem> {
    match r {
        CompletionResponse::Array(items) => items@,
        CompletionResponse::List { items, .. } => items@,
    }
}

fn entry(item: &CompletionItem) -> (r: CompletionEntry)
    ensures
        entry_of(r, *item),
{
    let detail = match &item.detail {
        Some(d) => d.clone(),
        None => String::new(),
    };
    let documentation = match &item.documentation {
        Some(Documentation::Plain(s)) => s.clone(),
        Some(Documentation::Markup(s)) => s.clone(),
        None => String::new(),
    };
    CompletionEntry { label: item.label.clone(), detail, documentation }
}

/// The first completions, at most `COMPLETION_LIMIT`, in the server's order,
/// from either shape of the answer.
pub fn completion_entries(resp: CompletionResponse) -> (r: Vec<CompletionEntry>)
    ensures
        r@.len() == vstd::math::min(
            COMPLETION_LIMIT as int,
            completion_items(resp).len() as int,
        ),
        forall|i: int| 0 <= i < r@.len() ==> entry_of(#[trigger] r@[i], completion_items(resp)[i]),
{
    let items = match resp {
        CompletionResponse::Array(items) => items,
        CompletionResponse::List { items, .. } => items,
    };
    let n: usize = if items.len() < COMPLETION_LIMIT {
        items.len()
    } else {
        COMPLETION_LIMIT
    };
    let mut out: Vec<CompletionEntry> = Vec::new();
    let mut i: usize = 0;
    while i < n
        invariant
            n <= items@.len(),
            i <= n,
            out@.len() == i,
            forall|j: int| 0 <= j < i ==> entry_of(#[trigger] out@[j], items@[j]),
        decreases n - i,
    {
        out.push(entry(&items[i]));
        i = i + 1;
    }
    out
}

/// The diagnostics of a report: the full list as it came, and none where the
/// server says nothing changed or sent only part of a result.
pub fn diagnostic_list(report: DiagnosticReport) -> (r: Vec<Diagnostic>)
    ensures
        match report {
            DiagnosticReport::Full(items) => r@ == items@,
            _ => r@.len() == 0,
        },
{
    match report {
        DiagnosticReport::Full(items) => items,
        _ => Vec::new(),
    }
}

/// A point in a file: its path, and a zero-based line and column.
#[derive(Debug)]
pub struct FileLocation {
    pub file: String,
    pub line: u32,
    pub column: u32,
}

pub open spec fn point(f: FileLocation) -> (Seq<char>, u32, u32) {
    (f.file@, f.line, f.column)
}

/// Where a location starts.
pub open spec fn location_point(l: Location) -> (Seq<char>, u32, u32) {
    (l.file@, l.range.start.line, l.range.start.character)
}

/// Where a link's target range starts; the range it came from is not read.
pub open spec fn link_point(l: LocationLink) -> (Seq<char>, u32, u32) {
    (l.target_file@, l.target_range.start.line, l.target_range.start.character)
}

pub open spec fn definition_points(r: GotoDefinitionResponse) -> Seq<(Seq<char>, u32, u32)> {
    match r {
        GotoDefinitionResponse::Scalar(l) => seq![location_point(l)],
        GotoDefinitionResponse::Array(v) => v@.map_values(|l: Location| location_point(l)),
        GotoDefinitionResponse::Link(v) => v@.map_values(|l: LocationLink| link_point(l)),
    }
}

fn location_start(l: &Location) -> (r: FileLocation)
    ensures
        point(r) == location_point(*l),
{
    FileLocation { file: l.file.clone(), line: l.range.start.line, column: l.range.start.character }
}

/// Where each location starts, in order.
pub fn location_starts(locations: &Vec<Location>) -> (r: Vec<FileLocation>)
    ensures
        r@.len() == locations@.len(),
        forall|i: int| 0 <= i < r@.len() ==> point(#[trigger] r@[i]) == location_point(locations@[i]),
{
    let mut out: Vec<FileLocation> = Vec::new();
    let mut i: usize = 0;
    while i < locations.len()
        invariant
            i <= locations@.len(),
            out@.len() == i,
            forall|j: int| 0 <= j < i ==> point(#[trigger] out@[j]) == location_point(locations@[j]),
        decreases locations@.len() - i,
    {
        out.push(location_start(&locations[i]));
        i = i + 1;
    }
    out
}

/// Where each definition starts, whichever shape the answer has: one
/// location, several, or links (read at their target range).
pub fn definition_locations(resp: GotoDefinitionResponse) -> (r: Vec<FileLocation>)
    ensures
        r@.len() == definition_points(resp).len(),
        forall|i: int|
            0 <= i < r@.len() ==> point(#[trigger] r@[i]) == definition_points(resp)[i],
{
    match resp {
        GotoDefinitionResponse::Scalar(l) => {
            let mut out: Vec<FileLocation> = Vec::new();
            out.push(location_start(&l));
            out
        },
        GotoDefinitionResponse::Array(v) => location_starts(&v),
        GotoDefinitionResponse::Link(v) => {
            let mut out: Vec<FileLocation> = Vec::new();
            let mut i: usize = 0;
            while i < v.len()
                invariant
                    i <= v@.len(),
                    out@.len() == i,
                    forall|j: int|
                        0 <= j < i ==> point(#[trigger] out@[j]) == link_point(v@[j]),
                decreases v@.len() - i,
            {
                let l = &v[i];
                out.push(
                    FileLocation {
                        file: l.target_file.clone(),
                        line: l.target_range.start.line,
                        column: l.target_range.start.character,
                    },
                );
                i = i + 1;
            }
            out
        },
    }
}

/// How many edits formatting would make; none where the server sent none.
pub fn formatting_edit_count(edits: &Option<Vec<TextEdit>>) -> (r: usize)
    ensures
        r == match *edits {
            Some(v) => v@.len(),
            None => 0,
        },
{
    match edits {
        Some(v) => v.len(),
        None => 0,
    }
}

/// The first workspace symbols, at most `SYMBOL_LIMIT`, in the server's order.
pub fn workspace_symbol_list(symbols: Vec<SymbolInformation>) -> (r: Vec<SymbolInformation>)
    ensures
        r@ == symbols@.take(vstd::math::min(SYMBOL_LIMIT as int, symbols@.len() as int)),
{
    let mut symbols = symbols;
    symbols.truncate(SYMBOL_LIMIT);
    proof {
        if symbols@.len() < SYMBOL_LIMIT {
            assert(symbols@ =~= symbols@.take(symbols@.len() as int));
        }
    }
    symbols
}


/// One line of the description of a workspace edit, which is reported and
/// not applied.
#[derive(Debug)]
pub enum ChangeLine {
    /// The edits that follow are to this file.
    File(String),
    /// An edit from the flat map of a workspace edit.
    Replace { range: Range, new_text: String },
    /// An edit from the structured document changes.
    Edit { range: Range, new_text: String },
    /// A file created, renamed or deleted.
    Other,
}

pub open spec fn edit_line(e: TextEdit, structured: bool) -> ChangeLine {
    if structured {
        ChangeLine::Edit { range: e.range, new_text: e.new_text }
    } else {
        ChangeLine::Replace { range: e.range, new_text: e.new_text }
    }
}

/// A file's line, then one line per edit to it, in order.
pub open spec fn file_block(file: String, edits: Seq<TextEdit>, structured: bool) -> Seq<
    ChangeLine,
> {
    seq![ChangeLine::File(file)] + edits.map_values(|e: TextEdit| edit_line(e, structured))
}

pub open spec fn map_lines(changes: Seq<(String, Vec<TextEdit>)>) -> Seq<ChangeLine>
    decreases changes.len(),
{
    if changes.len() == 0 {
        Seq::empty()
    } else {
        map_lines(changes.drop_last()) + file_block(changes.last().0, changes.last().1@, false)
    }
}

pub open spec fn operation_lines(op: DocumentChangeOperation) -> Seq<ChangeLine> {
    match op {
        DocumentChangeOperation::Edit(e) => file_block(e.file, e.edits@, true),
        DocumentChangeOperation::Other => seq![ChangeLine::Other],
    }
}

pub open spec fn operations_lines(ops: Seq<DocumentChangeOperation>) -> Seq<ChangeLine>
    decreases ops.len(),
{
    if ops.len() == 0 {
        Seq::empty()
    } else {
        operations_lines(ops.drop_last()) + operation_lines(ops.last())
    }
}

pub open spec fn document_edits_lines(edits: Seq<TextDocumentEdit>) -> Seq<ChangeLine>
    decreases edits.len(),
{
    if edits.len() == 0 {
        Seq::empty()
    } else {
        document_edits_lines(edits.drop_last()) + file_block(
            edits.last().file,
            edits.last().edits@,
            true,
        )
    }
}

/// The description of a workspace edit: the flat map's files first, then
/// the structured changes, each in the order given.
pub open spec fn rename_lines(we: WorkspaceEdit) -> Seq<ChangeLine> {
    (match we.changes {
        Some(c) => map_lines(c@),
        None => Seq::empty(),
    }) + (match we.document_changes {
        Some(DocumentChanges::Edits(v)) => document_edits_lines(v@),
        Some(DocumentChanges::Operations(ops)) => operations_lines(ops@),
        None => Seq::empty(),
    })
}

fn push_file_block(out: &mut Vec<ChangeLine>, file: &String, edits: &Vec<TextEdit>, structured: bool)
    ensures
        final(out)@ == old(out)@ + file_block(*file, edits@, structured),
{
    out.push(ChangeLine::File(file.clone()));
    let ghost base = old(out)@ + seq![ChangeLine::File(*file)];
    let ghost f = |e: TextEdit| edit_line(e, structured);
    let mut j: usize = 0;
    while j < edits.len()
        invariant
            j <= edits@.len(),
            f == (|e: TextEdit| edit_line(e, structured)),
            out@ == base + edits@.take(j as int).map_values(f),
        decreases edits@.len() - j,
    {
        let e = &edits[j];
        let line = if structured {
            ChangeLine::Edit { range: e.range, new_text: e.new_text.clone() }
        } else {
            ChangeLine::Replace { range: e.range, new_text: e.new_text.clone() }
        };
        out.push(line);
        proof {
            assert(edits@.take(j + 1).map_values(f) =~= edits@.take(j as int).map_values(f).push(
                f(edits@[j as int]),
            ));
        }
        j = j + 1;
    }
    assert(edits@.take(edits@.len() as int) =~= edits@);
    assert(out@ =~= old(out)@ + file_block(*file, edits@, structured));
}

/// Describes a workspace edit line by line, without applying it: each file
/// of the flat map with its edits, then each structured change, where a file
/// created, renamed or deleted is one opaque line.
pub fn rename_changes(we: &WorkspaceEdit) -> (r: Vec<ChangeLine>)
    ensures
        r@ == rename_lines(*we),
{
    let mut out: Vec<ChangeLine> = Vec::new();
    if let Some(changes) = &we.changes {
        let mut i: usize = 0;
        while i < changes.len()
            invariant
                i <= changes@.len(),
                out@ == map_lines(changes@.take(i as int)),
            decreases changes@.len() - i,
        {
            push_file_block(&mut out, &changes[i].0, &changes[i].1, false);
            assert(changes@.take(i + 1).drop_last() =~= changes@.take(i as int));
            i = i + 1;
        }
        assert(changes@.take(changes@.len() as int) =~= changes@);
    }
    let ghost first = out@;
    match &we.document_changes {
        Some(DocumentChanges::Edits(v)) => {
            let mut i: usize = 0;
            while i < v.len()
                invariant
                    i <= v@.len(),
                    out@ == first + document_edits_lines(v@.take(i as int)),
                decreases v@.len() - i,
            {
                push_file_block(&mut out, &v[i].file, &v[i].edits, true);
                assert(v@.take(i + 1).drop_last() =~= v@.take(i as int));
                i = i + 1;
            }
            assert(v@.take(v@.len() as int) =~= v@);
        },
        Some(DocumentChanges::Operations(ops)) => {
            let mut i: usize = 0;
            while i < ops.len()
                invariant
                    i <= ops@.len(),
                    out@ == first + operations_lines(ops@.take(i as int)),
                decreases ops@.len() - i,
            {
                match &ops[i] {
                    DocumentChangeOperation::Edit(e) => {
                        push_file_block(&mut out, &e.file, &e.edits, true);
                    },
                    DocumentChangeOperation::Other => {
                        out.push(ChangeLine::Other);
                    },
                }
                assert(ops@.take(i + 1).drop_last() =~= ops@.take(i as int));
                i = i + 1;
            }
            assert(ops@.take(ops@.len() as int) =~= ops@);
        },
        None => {},
    }
    assert(out@ =~= rename_lines(*we));
    out
}


/// One row of a document outline: a symbol at its nesting depth.
#[derive(Debug)]
pub struct OutlineRow {
    pub depth: usize,
    pub name: String,
    pub kind: String,
    pub range: Range,
}

pub open spec fn row(r: OutlineRow) -> (nat, Seq<char>, Seq<char>, Range) {
    (r.depth as nat, r.name@, r.kind@, r.range)
}

/// A symbol's row, then the rows of what is nested in it, one level deeper.
pub open spec fn outline_of(s: DocumentSymbol, depth: nat) -> Seq<
    (nat, Seq<char>, Seq<char>, Range),
>
    decreases s,
{
    seq![(depth, s.name@, s.kind@, s.range)] + match s.children {
        Some(c) => outline_seq(c@, (depth + 1) as nat),
        None => Seq::empty(),
    }
}

/// The outlines of the symbols, one after another: depth first, in order.
pub open spec fn outline_seq(ss: Seq<DocumentSymbol>, depth: nat) -> Seq<
    (nat, Seq<char>, Seq<char>, Range),
>
    decreases ss,
{
    if ss.len() == 0 {
        Seq::empty()
    } else {
        outline_seq(ss.subrange(0, ss.len() - 1), depth) + outline_of(ss[ss.len() - 1], depth)
    }
}

fn push_outline(symbols: &Vec<DocumentSymbol>, depth: usize, out: &mut Vec<OutlineRow>)
    requires
        depth <= old(out)@.len(),
    ensures
        final(out)@.len() >= old(out)@.len(),
        final(out)@.map_values(|r: OutlineRow| row(r)) == old(out)@.map_values(
            |r: OutlineRow| row(r),
        ) + outline_seq(symbols@, depth as nat),
    decreases symbols@,
{
    let ghost f = |r: OutlineRow| row(r);
    let ghost base = old(out)@.map_values(f);
    let mut i: usize = 0;
    while i < symbols.len()
        invariant
            i <= symbols@.len(),
            depth <= out@.len(),
            old(out)@.len() <= out@.len(),
            f == (|r: OutlineRow| row(r)),
            out@.map_values(f) == base + outline_seq(symbols@.take(i as int), depth as nat),
        decreases symbols@.len() - i,
    {
        let s = &symbols[i];
        let ghost before = out@.map_values(f);
        out.push(
            OutlineRow { depth, name: s.name.clone(), kind: s.kind.clone(), range: s.range },
        );
        let ghost with_row = out@.map_values(f);
        assert(with_row =~= before + seq![(depth as nat, s.name@, s.kind@, s.range)]);
        // Each level pushes its row before descending, so the depth stays
        // below the number of rows, which fits in `usize`.
        let _rows = out.len();
        match &s.children {
            Some(c) => {
                assert(decreases_to!(symbols@ => symbols@[i as int]));
                assert(decreases_to!(symbols@[i as int] => symbols@[i as int].children));
                push_outline(c, depth + 1, out);
            },
            None => {},
        }
        proof {
            let t = symbols@.take(i + 1);
            assert(t.subrange(0, t.len() - 1) =~= symbols@.take(i as int));
            assert(t[t.len() - 1] == symbols@[i as int]);
            let sub = match symbols@[i as int].children {
                Some(c) => outline_seq(c@, (depth + 1) as nat),
                None => Seq::empty(),
            };
            assert(out@.map_values(f) =~= with_row + sub);
            assert(outline_of(symbols@[i as int], depth as nat) == seq![
                (depth as nat, s.name@, s.kind@, s.range),
            ] + sub);
            assert(outline_seq(t, depth as nat) == outline_seq(symbols@.take(i as int), depth as nat)
                + outline_of(symbols@[i as int], depth as nat));
            assert(out@.map_values(f) =~= base + outline_seq(t, depth as nat));
        }
        i = i + 1;
    }
    assert(symbols@.take(symbols@.len() as int) =~= symbols@);
}

/// The outline of a document given as nested symbols: each symbol's row,
/// then those nested in it one level deeper, depth first and in order.
pub fn document_outline(symbols: &Vec<DocumentSymbol>) -> (r: Vec<OutlineRow>)
    ensures
        r@.map_values(|r: OutlineRow| row(r)) == outline_seq(symbols@, 0),
{
    let mut out: Vec<OutlineRow> = Vec::new();
    push_outline(symbols, 0, &mut out);
    assert(Seq::<OutlineRow>::empty().map_values(|r: OutlineRow| row(r)) =~= Seq::<
        (nat, Seq<char>, Seq<char>, Range),
    >::empty());
    out
}


/// How many inlay hints are kept, in the server's order.
pub const HINT_LIMIT: usize = 50;

/// The parts, one after another, with nothing between them.
pub open spec fn concatenated(parts: Seq<Seq<char>>) -> Seq<char>
    decreases parts.len(),
{
    if parts.len() == 0 {
        Seq::empty()
    } else {
        concatenated(parts.drop_last()) + parts.last()
    }
}

pub open spec fn hint_label(l: InlayHintLabel) -> Seq<char> {
    match l {
        InlayHintLabel::String(s) => s@,
        InlayHintLabel::Parts(v) => concatenated(v@.map_values(|p: String| p@)),
    }
}

/// An inlay hint as its caller reads it: where, what, and of which kind.
#[derive(Debug)]
pub struct HintEntry {
    pub position: Position,
    pub label: String,
    pub kind: Option<InlayHintKind>,
}

fn label_text(l: &InlayHintLabel) -> (r: String)
    ensures
        r@ == hint_label(*l),
{
    match l {
        InlayHintLabel::String(s) => s.clone(),
        InlayHintLabel::Parts(v) => {
            let ghost parts = v@.map_values(|p: String| p@);
            let mut out = String::new();
            let mut i: usize = 0;
            while i < v.len()
                invariant
                    i <= v@.len(),
                    parts == v@.map_values(|p: String| p@),
                    out@ == concatenated(parts.take(i as int)),
                decreases v@.len() - i,
            {
                out.append(v[i].as_str());
                assert(parts.take(i + 1).drop_last() =~= parts.take(i as int));
                i = i + 1;
            }
            assert(parts.take(v@.len() as int) =~= parts);
            out
        },
    }
}

/// The first inlay hints, at most `HINT_LIMIT`, in the server's order, each
/// label read as one text.
pub fn inlay_hint_entries(hints: &Vec<InlayHint>) -> (r: Vec<HintEntry>)
    ensures
        r@.len() == vstd::math::min(HINT_LIMIT as int, hints@.len() as int),
        forall|i: int|
            0 <= i < r@.len() ==> {
                &&& (#[trigger] r@[i]).position == hints@[i].position
                &&& r@[i].label@ == hint_label(hints@[i].label)
                &&& r@[i].kind == hints@[i].kind
            },
{
    let n: usize = if hints.len() < HINT_LIMIT {
        hints.len()
    } else {
        HINT_LIMIT
    };
    let mut out: Vec<HintEntry> = Vec::new();
    let mut i: usize = 0;
    while i < n
        invariant
            n <= hints@.len(),
            n == vstd::math::min(HINT_LIMIT as int, hints@.len() as int),
            i <= n,
            out@.len() == i,
            forall|j: int|
                0 <= j < i ==> {
                    &&& (#[trigger] out@[j]).position == hints@[j].position
                    &&& out@[j].label@ == hint_label(hints@[j].label)
                    &&& out@[j].kind == hints@[j].kind
                },
        decreases n - i,
    {
        let h = &hints[i];
        out.push(HintEntry { position: h.position, label: label_text(&h.label), kind: h.kind });
        i = i + 1;
    }
    out
}

/// Index of the last line feed in `s[0..j]`, or -1.
pub open spec fn last_line_feed(s: Seq<u8>, j: int) -> int
    decreases j,
{
    if j <= 0 {
        -1
    } else if s[j - 1] == 10 {
        j - 1
    } else {
        last_line_feed(s, j - 1)
    }
}

pub open spec fn line_feeds(s: Seq<u8>) -> nat
    decreases s.len(),
{
    if s.len() == 0 {
        0
    } else {
        line_feeds(s.drop_last()) + if s.last() == 10 {
            1nat
        } else {
            0nat
        }
    }
}

/// Where a text ends, as a line and a byte offset in it: the last line's
/// index and length. A final line end closes the last line rather than
/// opening another, and takes a carriage return before it along.
pub open spec fn text_end(s: Seq<u8>) -> (nat, nat) {
    if s.len() == 0 {
        (0, 0)
    } else {
        let closed = s.last() == 10;
        let t = if closed {
            s.drop_last()
        } else {
            s
        };
        let piece = t.subrange(last_line_feed(t, t.len() as int) + 1, t.len() as int);
        let last = if closed && piece.len() > 0 && piece.last() == 13 {
            piece.drop_last()
        } else {
            piece
        };
        (line_feeds(t), last.len())
    }
}

/// The end of a document's text, so that a range from the start to it
/// covers the whole document.
pub fn document_end(text: &str) -> (r: Position)
    ensures
        r.line == text_end(text.spec_bytes()).0 as u32,
        r.character == text_end(text.spec_bytes()).1 as u32,
{
    let s = text.as_bytes();
    let n = s.len();
    if n == 0 {
        return Position { line: 0, character: 0 };
    }
    let closed = s[n - 1] == 10;
    let m: usize = if closed {
        n - 1
    } else {
        n
    };
    let ghost t = s@.subrange(0, m as int);
    assert(t =~= if closed {
        s@.drop_last()
    } else {
        s@
    });
    let mut feeds: usize = 0;
    let mut start: usize = 0;
    let mut i: usize = 0;
    while i < m
        invariant
            m <= s@.len(),
            t == s@.subrange(0, m as int),
            i <= m,
            start <= i,
            feeds <= i,
            feeds == line_feeds(t.subrange(0, i as int)),
            start as int == last_line_feed(t, i as int) + 1,
        decreases m - i,
    {
        assert(t.subrange(0, i + 1).drop_last() =~= t.subrange(0, i as int));
        if s[i] == 10 {
            feeds = feeds + 1;
            start = i + 1;
        }
        i = i + 1;
    }
    assert(t.subrange(0, m as int) =~= t);
    let mut len: usize = m - start;
    if closed && len > 0 && s[m - 1] == 13 {
        len = len - 1;
    }
    Position { line: feeds as u32, character: len as u32 }
}

/// A range and those that enclose it, innermost first.
pub open spec fn chain(s: SelectionRange) -> Seq<Range>
    decreases s,
{
    seq![s.range] + match s.parent {
        Some(p) => chain(*p),
        None => Seq::empty(),
    }
}

fn push_chain(s: &SelectionRange, out: &mut Vec<Range>)
    ensures
        final(out)@ == old(out)@ + chain(*s),
    decreases s,
{
    out.push(s.range);
    match &s.parent {
        Some(p) => {
            assert(decreases_to!(s => s.parent));
            push_chain(p, out);
        },
        None => {},
    }
    assert(final(out)@ =~= old(out)@ + chain(*s));
}

/// For each position asked about, its selection range and each enclosing
/// one out to the outermost.
pub fn selection_chains(ranges: &Vec<SelectionRange>) -> (r: Vec<Vec<Range>>)
    ensures
        r@.len() == ranges@.len(),
        forall|i: int| 0 <= i < r@.len() ==> (#[trigger] r@[i])@ == chain(ranges@[i]),
{
    let mut out: Vec<Vec<Range>> = Vec::new();
    let mut i: usize = 0;
    while i < ranges.len()
        invariant
            i <= ranges@.len(),
            out@.len() == i,
            forall|j: int| 0 <= j < i ==> (#[trigger] out@[j])@ == chain(ranges@[j]),
        decreases ranges@.len() - i,
    {
        let mut levels: Vec<Range> = Vec::new();
        push_chain(&ranges[i], &mut levels);
        assert(levels@ =~= chain(ranges@[i as int]));
        out.push(levels);
        i = i + 1;
    }
    out
}

/// A parameter as its caller reads it, marked where it is the active one.
#[derive(Debug)]
pub struct ParameterEntry {
    pub label: ParameterLabel,
    pub documentation: String,
    pub active: bool,
}

/// A signature as its caller reads it.
#[derive(Debug)]
pub struct SignatureEntry {
    pub label: String,
    pub documentation: String,
    pub parameters: Option<Vec<ParameterEntry>>,
}

/// The active parameter's index: the first where the server names none.
pub open spec fn active_index(h: SignatureHelp) -> int {
    match h.active_parameter {
        Some(a) => a as int,
        None => 0,
    }
}

pub open spec fn parameter_entry_of(
    e: ParameterEntry,
    p: ParameterInformation,
    index: int,
    active: int,
) -> bool {
    &&& e.label == p.label
    &&& e.documentation@ == documentation_text(p.documentation)
    &&& e.active == (index == active)
}

pub open spec fn signature_entry_of(e: SignatureEntry, s: SignatureInformation, active: int) -> bool {
    &&& e.label@ == s.label@
    &&& e.documentation@ == documentation_text(s.documentation)
    &&& match (e.parameters, s.parameters) {
        (Some(pe), Some(ps)) => pe@.len() == ps@.len() && forall|j: int|
            0 <= j < pe@.len() ==> parameter_entry_of(#[trigger] pe@[j], ps@[j], j, active),
        (None, None) => true,
        _ => false,
    }
}

fn documentation_string(d: &Option<Documentation>) -> (r: String)
    ensures
        r@ == documentation_text(*d),
{
    match d {
        Some(Documentation::Plain(s)) => s.clone(),
        Some(Documentation::Markup(s)) => s.clone(),
        None => String::new(),
    }
}

fn parameter_label(l: &ParameterLabel) -> (r: ParameterLabel)
    ensures
        r == *l,
{
    match l {
        ParameterLabel::Simple(s) => ParameterLabel::Simple(s.clone()),
        ParameterLabel::Offsets(a, b) => ParameterLabel::Offsets(*a, *b),
    }
}

fn parameter_entries(ps: &Vec<ParameterInformation>, active: u32) -> (r: Vec<ParameterEntry>)
    ensures
        r@.len() == ps@.len(),
        forall|j: int|
            0 <= j < r@.len() ==> parameter_entry_of(#[trigger] r@[j], ps@[j], j, active as int),
{
    let mut out: Vec<ParameterEntry> = Vec::new();
    let mut j: usize = 0;
    while j < ps.len()
        invariant
            j <= ps@.len(),
            out@.len() == j,
            forall|k: int|
                0 <= k < j ==> parameter_entry_of(#[trigger] out@[k], ps@[k], k, active as int),
        decreases ps@.len() - j,
    {
        let p = &ps[j];
        out.push(
            ParameterEntry {
                label: parameter_label(&p.label),
                documentation: documentation_string(&p.documentation),
                active: j as u64 == active as u64,
            },
        );
        j = j + 1;
    }
    out
}

/// Each signature with its documentation text and its parameters, the
/// active one marked.
pub fn signature_entries(help: &SignatureHelp) -> (r: Vec<SignatureEntry>)
    ensures
        r@.len() == help.signatures@.len(),
        forall|i: int|
            0 <= i < r@.len() ==> signature_entry_of(
                #[trigger] r@[i],
                help.signatures@[i],
                active_index(*help),
            ),
{
    let active: u32 = match help.active_parameter {
        Some(a) => a,
        None => 0,
    };
    let mut out: Vec<SignatureEntry> = Vec::new();
    let mut i: usize = 0;
    while i < help.signatures.len()
        invariant
            i <= help.signatures@.len(),
            out@.len() == i,
            active as int == active_index(*help),
            forall|k: int|
                0 <= k < i ==> signature_entry_of(
                    #[trigger] out@[k],
                    help.signatures@[k],
                    active as int,
                ),
        decreases help.signatures@.len() - i,
    {
        let sig = &help.signatures[i];
        let parameters = match &sig.parameters {
            Some(ps) => Some(parameter_entries(ps, active)),
            None => None,
        };
        out.push(
            SignatureEntry {
                label: sig.label.clone(),
                documentation: documentation_string(&sig.documentation),
                parameters,
            },
        );
        i = i + 1;
    }
    out
}

/// One line of the summary of the code actions on offer.
#[derive(Debug)]
pub enum ActionLine {
    /// An action: its title, its kind, and how many diagnostics it fixes.
    Action { title: String, kind: Option<String>, fixes: usize },
    /// A file that the action above would edit.
    Modifies(String),
    /// How many structured changes the action above would make.
    Operations(usize),
    /// A command to run.
    Command { title: String, command: String },
}

/// The files of a flat edit map that have at least one edit, in order.
pub open spec fn modified_files(changes: Seq<(String, Vec<TextEdit>)>) -> Seq<ActionLine>
    decreases changes.len(),
{
    if changes.len() == 0 {
        Seq::empty()
    } else {
        modified_files(changes.drop_last()) + if changes.last().1@.len() > 0 {
            seq![ActionLine::Modifies(changes.last().0)]
        } else {
            Seq::empty()
        }
    }
}

pub open spec fn edited_documents(edits: Seq<TextDocumentEdit>) -> Seq<ActionLine>
    decreases edits.len(),
{
    if edits.len() == 0 {
        Seq::empty()
    } else {
        edited_documents(edits.drop_last()) + seq![ActionLine::Modifies(edits.last().file)]
    }
}

/// What an action's edit would touch: the files of its map, then its
/// structured changes, one line per edited document or one line counting
/// the operations.
pub open spec fn edit_summary(we: WorkspaceEdit) -> Seq<ActionLine> {
    (match we.changes {
        Some(c) => modified_files(c@),
        None => Seq::empty(),
    }) + (match we.document_changes {
        Some(DocumentChanges::Edits(v)) => edited_documents(v@),
        Some(DocumentChanges::Operations(ops)) => seq![ActionLine::Operations(ops@.len() as usize)],
        None => Seq::empty(),
    })
}

pub open spec fn action_summary(a: CodeActionOrCommand) -> Seq<ActionLine> {
    match a {
        CodeActionOrCommand::Action(ca) => seq![
            ActionLine::Action {
                title: ca.title,
                kind: ca.kind,
                fixes: match ca.diagnostics {
                    Some(n) => n,
                    None => 0,
                },
            },
        ] + match ca.edit {
            Some(we) => edit_summary(we),
            None => Seq::empty(),
        },
        CodeActionOrCommand::Command { title, command } => seq![
            ActionLine::Command { title, command },
        ],
    }
}

pub open spec fn actions_summary(v: Seq<CodeActionOrCommand>) -> Seq<ActionLine>
    decreases v.len(),
{
    if v.len() == 0 {
        Seq::empty()
    } else {
        actions_summary(v.drop_last()) + action_summary(v.last())
    }
}

fn push_edit_summary(out: &mut Vec<ActionLine>, we: &WorkspaceEdit)
    ensures
        final(out)@ == old(out)@ + edit_summary(*we),
{
    let ghost start = out@;
    if let Some(changes) = &we.changes {
        let mut i: usize = 0;
        while i < changes.len()
            invariant
                i <= changes@.len(),
                out@ == start + modified_files(changes@.take(i as int)),
            decreases changes@.len() - i,
        {
            if changes[i].1.len() > 0 {
                out.push(ActionLine::Modifies(changes[i].0.clone()));
            }
            assert(changes@.take(i + 1).drop_last() =~= changes@.take(i as int));
            i = i + 1;
        }
        assert(changes@.take(changes@.len() as int) =~= changes@);
    }
    let ghost first = out@;
    match &we.document_changes {
        Some(DocumentChanges::Edits(v)) => {
            let mut i: usize = 0;
            while i < v.len()
                invariant
                    i <= v@.len(),
                    out@ == first + edited_documents(v@.take(i as int)),
                decreases v@.len() - i,
            {
                out.push(ActionLine::Modifies(v[i].file.clone()));
                assert(v@.take(i + 1).drop_last() =~= v@.take(i as int));
                i = i + 1;
            }
            assert(v@.take(v@.len() as int) =~= v@);
        },
        Some(DocumentChanges::Operations(ops)) => {
            out.push(ActionLine::Operations(ops.len()));
        },
        None => {},
    }
    assert(out@ =~= old(out)@ + edit_summary(*we));
}

fn option_string(s: &Option<String>) -> (r: Option<String>)
    ensures
        r == *s,
{
    match s {
        Some(t) => Some(t.clone()),
        None => None,
    }
}

/// The code actions on offer, line by line: each action with what its edit
/// would touch, and each command.
pub fn code_action_summary(actions: &Vec<CodeActionOrCommand>) -> (r: Vec<ActionLine>)
    ensures
        r@ == actions_summary(actions@),
{
    let mut out: Vec<ActionLine> = Vec::new();
    let mut i: usize = 0;
    while i < actions.len()
        invariant
            i <= actions@.len(),
            out@ == actions_summary(actions@.take(i as int)),
        decreases actions@.len() - i,
    {
        let ghost before = out@;
        match &actions[i] {
            CodeActionOrCommand::Action(ca) => {
                let fixes: usize = match ca.diagnostics {
                    Some(n) => n,
                    None => 0,
                };
                out.push(
                    ActionLine::Action {
                        title: ca.title.clone(),
                        kind: option_string(&ca.kind),
                        fixes,
                    },
                );
                if let Some(we) = &ca.edit {
                    push_edit_summary(&mut out, we);
                }
            },
            CodeActionOrCommand::Command { title, command } => {
                out.push(ActionLine::Command { title: title.clone(), command: command.clone() });
            },
        }
        assert(out@ =~= before + action_summary(actions@[i as int]));
        assert(actions@.take(i + 1).drop_last() =~= actions@.take(i as int));
        i = i + 1;
    }
    assert(actions@.take(actions@.len() as int) =~= actions@);
    out
}

} // verus!
