//! The two messages that the server sends: the answer to `initialize`, and
//! the diagnostics of a document.

use crate::json::{
    array_value,
    json_of,
    no_members,
    number_value,
    object_value,
    put_member,
    text_value,
    Json,
};
use crate::position::{
    lemma_empty_range_resolved,
    resolve,
    resolved_end,
    resolved_start,
    Position,
    Range,
};
use vstd::prelude::*;
use vstd::string::StringSliceAdditionalSpecFns;

verus! {

/// A byte range of a source text that a diagnostic points at, from `start` up
/// to `end`.
#[derive(Clone, Copy, Debug, PartialEq, Eq, Structural)]
pub struct Label {
    pub start: usize,
    pub end: usize,
}

/// A problem that the front end reports: a message, and the places that it
/// points at. The first place is where the editor shows the problem.
#[derive(Clone, Debug, PartialEq, Eq)]
pub struct Diagnostic {
    pub message: String,
    pub labels: Vec<Label>,
}

/// How the check of a document ended.
#[derive(Clone, Debug, PartialEq, Eq)]
pub enum Outcome {
    /// The text was parsed and checked, and nothing was found.
    Clean,
    /// The parser gave up on the text, with this diagnostic.
    SyntaxError(Diagnostic),
    /// The text was parsed, and the type checker reported these.
    TypeErrors(Vec<Diagnostic>),
}

/// The severity under which every diagnostic is published: an error.
pub const SEVERITY_ERROR: usize = 1;

/// The diagnostics that an outcome holds, in their order.
pub open spec fn outcome_diagnostics(outcome: Outcome) -> Seq<Diagnostic> {
    match outcome {
        Outcome::Clean => Seq::empty(),
        Outcome::SyntaxError(diagnostic) => seq![diagnostic],
        Outcome::TypeErrors(diagnostics) => diagnostics@,
    }
}

/// The byte range that a diagnostic is shown at: its first label, and the
/// empty range at the beginning of the text where it has no label.
pub open spec fn shown_range(diagnostic: Diagnostic) -> (int, int) {
    if diagnostic.labels@.len() > 0 {
        (diagnostic.labels@[0].start as int, diagnostic.labels@[0].end as int)
    } else {
        (0, 0)
    }
}

/// A position as a JSON object.
pub open spec fn position_json(position: (int, int)) -> Json {
    Json::Object(
        map![
            "line"@ => Json::Integer(position.0),
            "character"@ => Json::Integer(position.1),
        ],
    )
}

/// A range of positions as a JSON object.
pub open spec fn range_json(start: (int, int), end: (int, int)) -> Json {
    Json::Object(map!["start"@ => position_json(start), "end"@ => position_json(end)])
}

/// A diagnostic as the editor takes it: the range of positions that its byte
/// range is resolved to in the text `text`, the severity of an error, and its
/// message.
pub open spec fn diagnostic_json(text: Seq<u8>, diagnostic: Diagnostic) -> Json {
    let (start, end) = shown_range(diagnostic);
    Json::Object(
        map![
            "range"@ => range_json(resolved_start(text, start), resolved_end(text, start, end)),
            "severity"@ => Json::Integer(SEVERITY_ERROR as int),
            "message"@ => Json::Text(diagnostic.message@),
        ],
    )
}

/// The diagnostics of `diagnostics` as the editor takes them, in their order.
pub open spec fn diagnostics_json(text: Seq<u8>, diagnostics: Seq<Diagnostic>) -> Seq<Json> {
    Seq::new(diagnostics.len(), |i: int| diagnostic_json(text, diagnostics[i]))
}

/// The notification that publishes the diagnostics of the document `uri`,
/// whose text is `text`. It holds an array of diagnostics in every case, an
/// empty one where there are none.
pub open spec fn publication(uri: Seq<char>, text: Seq<u8>, diagnostics: Seq<Diagnostic>) -> Json {
    Json::Object(
        map![
            "jsonrpc"@ => Json::Text("2.0"@),
            "method"@ => Json::Text("textDocument/publishDiagnostics"@),
            "params"@ => Json::Object(
                map![
                    "uri"@ => Json::Text(uri),
                    "diagnostics"@ => Json::Array(diagnostics_json(text, diagnostics)),
                ],
            ),
        ],
    )
}

/// The answer to an `initialize` request that came under `id`: the server
/// takes documents as full texts and provides diagnostics.
pub open spec fn initialize_result(id: Json) -> Json {
    Json::Object(
        map![
            "jsonrpc"@ => Json::Text("2.0"@),
            "id"@ => id,
            "result"@ => Json::Object(
                map![
                    "capabilities"@ => Json::Object(
                        map![
                            "textDocumentSync"@ => Json::Integer(1),
                            "diagnosticProvider"@ => Json::Object(Map::empty()),
                        ],
                    ),
                ],
            ),
        ],
    )
}

/// A diagnostic whose label holds no bytes is shown at a range that holds
/// none: its start and its end are one position.
pub proof fn lemma_empty_label_gives_empty_range(text: Seq<u8>, diagnostic: Diagnostic)
    requires
        shown_range(diagnostic).0 == shown_range(diagnostic).1,
    ensures
        diagnostic_json(text, diagnostic).member("range"@) matches Some(range) && range.member(
            "start"@,
        ) == range.member("end"@) && range.member("start"@) == Some(
            position_json(resolved_start(text, shown_range(diagnostic).0)),
        ),
{
    reveal_strlit("range");
    reveal_strlit("severity");
    reveal_strlit("message");
    reveal_strlit("start");
    reveal_strlit("end");
    assert("range"@.len() == 5 && "severity"@.len() == 8 && "message"@.len() == 7);
    assert("start"@.len() == 5 && "end"@.len() == 3);
    lemma_empty_range_resolved(text, shown_range(diagnostic).0);
}

/// The notification for a document without diagnostics names the document
/// and holds an empty array: it is a full notification, which clears what was
/// published for the document before.
pub proof fn lemma_publication_without_diagnostics(uri: Seq<char>, text: Seq<u8>)
    ensures
        publication(uri, text, Seq::empty()).member("params"@) matches Some(params)
            && params.member("uri"@) == Some(Json::Text(uri)) && params.member("diagnostics"@)
            == Some(Json::Array(Seq::empty())),
{
    reveal_strlit("uri");
    reveal_strlit("diagnostics");
    assert("uri"@.len() == 3 && "diagnostics"@.len() == 11);
    assert(diagnostics_json(text, Seq::empty()) =~= Seq::empty());
}

/// Every diagnostic is published with one entry of its own, in the order of
/// the diagnostics, and as an error.
pub proof fn lemma_publication_holds_each(
    uri: Seq<char>,
    text: Seq<u8>,
    diagnostics: Seq<Diagnostic>,
    i: int,
)
    requires
        0 <= i < diagnostics.len(),
    ensures
        diagnostics_json(text, diagnostics).len() == diagnostics.len(),
        diagnostics_json(text, diagnostics)[i] == diagnostic_json(text, diagnostics[i]),
        diagnostic_json(text, diagnostics[i]).member("severity"@) == Some(Json::Integer(1)),
        diagnostic_json(text, diagnostics[i]).member("message"@) == Some(
            Json::Text(diagnostics[i].message@),
        ),
{
    reveal_strlit("severity");
    reveal_strlit("message");
    assert("severity"@.len() == 8 && "message"@.len() == 7);
}

/// The diagnostics of an outcome, in their order.
pub fn diagnostics_of(outcome: Outcome) -> (r: Vec<Diagnostic>)
    ensures
        r@ == outcome_diagnostics(outcome),
{
    match outcome {
        Outcome::Clean => Vec::new(),
        Outcome::SyntaxError(diagnostic) => {
            let mut found = Vec::new();
            found.push(diagnostic);
            found
        },
        Outcome::TypeErrors(diagnostics) => diagnostics,
    }
}

/// A position as a JSON value.
fn position_value(position: Position) -> (r: serde_json::Value)
    ensures
        json_of(r) == position_json(position@),
{
    let mut members = no_members();
    put_member(&mut members, "line", number_value(position.line));
    put_member(&mut members, "character", number_value(position.character));
    object_value(members)
}

/// A range of positions as a JSON value.
fn range_value(range: Range) -> (r: serde_json::Value)
    ensures
        json_of(r) == range_json(range.start@, range.end@),
{
    let mut members = no_members();
    put_member(&mut members, "start", position_value(range.start));
    put_member(&mut members, "end", position_value(range.end));
    object_value(members)
}

/// The diagnostic `diagnostic` as the editor takes it, its place resolved in
/// `text`. A diagnostic without a label is shown at the beginning of the
/// text.
pub fn lsp_diagnostic(diagnostic: &Diagnostic, text: &str) -> (r: serde_json::Value)
    ensures
        json_of(r) == diagnostic_json(text.spec_bytes(), *diagnostic),
{
    let (start, end) = if diagnostic.labels.len() > 0 {
        (diagnostic.labels[0].start, diagnostic.labels[0].end)
    } else {
        (0, 0)
    };
    let range = resolve(text, start, end);
    let mut members = no_members();
    put_member(&mut members, "range", range_value(range));
    put_member(&mut members, "severity", number_value(SEVERITY_ERROR));
    put_member(&mut members, "message", text_value(diagnostic.message.clone()));
    object_value(members)
}

/// The notification that publishes `diagnostics` for the document `uri`,
/// whose text is `text`.
pub fn publish_diagnostics(uri: &str, text: &str, diagnostics: &Vec<Diagnostic>) -> (r:
    serde_json::Value)
    ensures
        json_of(r) == publication(uri@, text.spec_bytes(), diagnostics@),
{
    let mut items: Vec<serde_json::Value> = Vec::new();
    let mut i: usize = 0;
    while i < diagnostics.len()
        invariant
            i <= diagnostics@.len(),
            items@.len() == i,
            forall|j: int|
                0 <= j < i ==> json_of(#[trigger] items@[j]) == diagnostic_json(
                    text.spec_bytes(),
                    diagnostics@[j],
                ),
        decreases diagnostics@.len() - i,
    {
        items.push(lsp_diagnostic(&diagnostics[i], text));
        i += 1;
    }
    proof {
        assert(items@.map_values(|item: serde_json::Value| json_of(item)) =~= diagnostics_json(
            text.spec_bytes(),
            diagnostics@,
        ));
    }
    let mut params = no_members();
    put_member(&mut params, "uri", text_value(uri.to_owned()));
    put_member(&mut params, "diagnostics", array_value(items));
    let mut members = no_members();
    put_member(&mut members, "jsonrpc", text_value("2.0".to_owned()));
    put_member(&mut members, "method", text_value("textDocument/publishDiagnostics".to_owned()));
    put_member(&mut members, "params", object_value(params));
    object_value(members)
}

/// The answer to an `initialize` request that came under `id`.
pub fn initialize_response(id: serde_json::Value) -> (r: serde_json::Value)
    ensures
        json_of(r) == initialize_result(json_of(id)),
{
    let mut capabilities = no_members();
    put_member(&mut capabilities, "textDocumentSync", number_value(1));
    put_member(&mut capabilities, "diagnosticProvider", object_value(no_members()));
    let mut result = no_members();
    put_member(&mut result, "capabilities", object_value(capabilities));
    let mut members = no_members();
    put_member(&mut members, "jsonrpc", text_value("2.0".to_owned()));
    put_member(&mut members, "id", id);
    put_member(&mut members, "result", object_value(result));
    object_value(members)
}

} // verus!
