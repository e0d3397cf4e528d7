//! Routing of inbound messages by their method.

use crate::json::{json_of, member, number_value, text_of, Json};
use vstd::prelude::*;
use vstd::string::StringSliceAdditionalSpecFns;
use vstd::utf8::encode_utf8_decode_utf8;

verus! {

/// What an inbound message asks for.
#[derive(Clone, Debug, PartialEq, Eq)]
pub enum Request {
    /// An `initialize` request, to be answered under `id`.
    Initialize { id: serde_json::Value },
    /// A document was opened or changed: `text` is all of its new text, to be
    /// checked, and the diagnostics are to be published for `uri`.
    Check { uri: String, text: String },
    /// Nothing: the message names no method, or one that this server does not
    /// handle, or it lacks its parameters.
    Ignored,
}

/// What an inbound message asks for, by the documents and texts that the
/// request holds.
pub enum Routed {
    /// An `initialize` request, to be answered under `id`.
    Initialize { id: Json },
    /// The check of a document's new text.
    Check { uri: Seq<char>, text: Seq<char> },
    /// Nothing.
    Ignored,
}

impl View for Request {
    type V = Routed;

    /// The request by the document and the texts that it holds.
    open spec fn view(&self) -> Routed {
        match *self {
            Request::Initialize { id } => Routed::Initialize { id: json_of(id) },
            Request::Check { uri, text } => Routed::Check { uri: uri@, text: text@ },
            Request::Ignored => Routed::Ignored,
        }
    }
}

/// The member `field` of `document` where it is a text, and `default` where
/// there is no document, no such member, or a member that is no text.
pub open spec fn text_member(document: Option<Json>, field: Seq<char>, default: Seq<char>) -> Seq<
    char,
> {
    match document {
        Some(holder) => match holder.member(field) {
            Some(Json::Text(text)) => text,
            _ => default,
        },
        None => default,
    }
}

/// The check that a message about a document asks for, the text of the
/// document being the member `field` of `params.textDocument`. A message
/// without `params` asks for nothing. A `uri` that is missing or no text
/// stands for `file:///main.veil`, a text that is missing or no text for the
/// empty text.
pub open spec fn routed_check(message: Json, field: Seq<char>) -> Routed {
    match message.member("params"@) {
        Some(params) => {
            let document = params.member("textDocument"@);
            Routed::Check {
                uri: text_member(document, "uri"@, "file:///main.veil"@),
                text: text_member(document, field, ""@),
            }
        },
        None => Routed::Ignored,
    }
}

/// What the message `message` asks for. It goes by the member `method`, which
/// has to be a text and to match a method's name exactly.
///
/// `initialize` is answered under the member `id` of the message, whatever it
/// is. A message without `id` is a notification by the rules of JSON-RPC and
/// would get no answer; this server is lenient and answers it under the
/// number 1.
///
/// `textDocument/didOpen` brings the document's text as `text`,
/// `textDocument/didChange` as `newText`, the whole new text in both cases.
///
/// Every other message asks for nothing. That holds of requests too, whose
/// senders wait for an answer: a known limit of this server.
pub open spec fn routed(message: Json) -> Routed {
    match message.member("method"@) {
        Some(Json::Text(method)) => if method == "initialize"@ {
            Routed::Initialize {
                id: match message.member("id"@) {
                    Some(id) => id,
                    None => Json::Integer(1),
                },
            }
        } else if method == "textDocument/didOpen"@ {
            routed_check(message, "text"@)
        } else if method == "textDocument/didChange"@ {
            routed_check(message, "newText"@)
        } else {
            Routed::Ignored
        },
        _ => Routed::Ignored,
    }
}

/// Whether two texts are the same, character by character.
pub fn same_text(a: &str, b: &str) -> (r: bool)
    ensures
        r == (a@ == b@),
{
    let left = a.as_bytes();
    let right = b.as_bytes();
    proof {
        encode_utf8_decode_utf8(a@);
        encode_utf8_decode_utf8(b@);
    }
    if left.len() != right.len() {
        return false;
    }
    let mut i: usize = 0;
    while i < left.len()
        invariant
            i <= left@.len(),
            left@.len() == right@.len(),
            left@ == a.spec_bytes(),
            right@ == b.spec_bytes(),
            forall|j: int| 0 <= j < i ==> left@[j] == right@[j],
        decreases left@.len() - i,
    {
        if left[i] != right[i] {
            return false;
        }
        i += 1;
    }
    proof {
        assert(left@ =~= right@);
    }
    true
}

/// The member `field` of `document` as a text of its own, or `default`.
fn text_member_of(document: Option<&serde_json::Value>, field: &str, default: &str) -> (r: String)
    ensures
        r@ == text_member(
            match document {
                Some(holder) => Some(json_of(*holder)),
                None => None,
            },
            field@,
            default@,
        ),
{
    match document {
        Some(holder) => match member(holder, field) {
            Some(found) => match text_of(found) {
                Some(text) => text.to_owned(),
                None => default.to_owned(),
            },
            None => default.to_owned(),
        },
        None => default.to_owned(),
    }
}

/// The check that a message about a document asks for.
fn route_check(message: &serde_json::Value, field: &str) -> (r: Request)
    ensures
        r@ == routed_check(json_of(*message), field@),
{
    match member(message, "params") {
        Some(params) => {
            let document = member(params, "textDocument");
            let uri = text_member_of(document, "uri", "file:///main.veil");
            let text = text_member_of(document, field, "");
            Request::Check { uri, text }
        },
        None => Request::Ignored,
    }
}

/// Says what the message `message` asks for.
pub fn route(message: &serde_json::Value) -> (r: Request)
    ensures
        r@ == routed(json_of(*message)),
{
    let method = match member(message, "method") {
        Some(found) => match text_of(found) {
            Some(method) => method,
            None => {
                return Request::Ignored;
            },
        },
        None => {
            return Request::Ignored;
        },
    };
    if same_text(method, "initialize") {
        let id = match member(message, "id") {
            Some(id) => id.clone(),
            None => number_value(1),
        };
        Request::Initialize { id }
    } else if same_text(method, "textDocument/didOpen") {
        route_check(message, "text")
    } else if same_text(method, "textDocument/didChange") {
        route_check(message, "newText")
    } else {
        Request::Ignored
    }
}

} // verus!
