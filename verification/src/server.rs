//! One step of the server: from the body of an inbound message to what the
//! server does about it.
//!
//! The server keeps nothing between two messages. Each message is taken,
//! answered where it asks for an answer, and forgotten; a document is checked
//! anew, as a whole, whenever a message brings its text.

use crate::dispatch::{route, routed, Request, Routed};
use crate::json::{decode_lossy, json_of, json_parsed, json_text, parse, render, utf8_lossy, Json};
use crate::respond::{initialize_response, initialize_result, publication, publish_diagnostics, Diagnostic};
use crate::transport::{framed, write_message};
use vstd::prelude::*;
use vstd::string::StringSliceAdditionalSpecFns;
use vstd::utf8::{decode_utf8, encode_utf8, valid_utf8};

verus! {

/// What the server does about one inbound message.
#[derive(Clone, Debug, PartialEq, Eq)]
pub enum Step {
    /// Nothing: no answer is sent, and the next message is read.
    Nothing,
    /// It sends these bytes, the frame of its answer.
    Send(Vec<u8>),
    /// It has the front end check `text`, and then sends the diagnostics for
    /// `uri`, be there any or none.
    Check { uri: String, text: String },
}

/// What the server does about one inbound message, by the bytes and texts
/// that the step holds.
pub enum Reaction {
    /// Nothing is sent.
    Nothing,
    /// These bytes are sent.
    Send(Seq<u8>),
    /// The text is checked, and its diagnostics are sent for `uri`.
    Check { uri: Seq<char>, text: Seq<char> },
}

impl View for Step {
    type V = Reaction;

    /// The step by the bytes and the texts that it holds.
    open spec fn view(&self) -> Reaction {
        match *self {
            Step::Nothing => Reaction::Nothing,
            Step::Send(bytes) => Reaction::Send(bytes@),
            Step::Check { uri, text } => Reaction::Check { uri: uri@, text: text@ },
        }
    }
}

/// The bytes that go out for a message: the frame whose body is the JSON
/// text of the message, in UTF-8.
pub open spec fn wire(message: Json) -> Seq<u8> {
    framed(encode_utf8(json_text(message)))
}

/// What the server does about what a message asks for.
pub open spec fn reaction(request: Routed) -> Reaction {
    match request {
        Routed::Initialize { id } => Reaction::Send(wire(initialize_result(id))),
        Routed::Check { uri, text } => Reaction::Check { uri, text },
        Routed::Ignored => Reaction::Nothing,
    }
}

/// What the server does about the message that `serde_json` read from a body:
/// nothing about a body that it refused.
pub open spec fn reaction_to(message: Option<Json>) -> Reaction {
    match message {
        Some(message) => reaction(routed(message)),
        None => Reaction::Nothing,
    }
}

/// The answer to an `initialize` request is sent under the `id` of the
/// request, unchanged.
pub proof fn lemma_answer_echoes_id(message: Json, id: Json)
    requires
        message.member("method"@) == Some(Json::Text("initialize"@)),
        message.member("id"@) == Some(id),
    ensures
        reaction(routed(message)) == Reaction::Send(wire(initialize_result(id))),
        initialize_result(id).member("id"@) == Some(id),
{
    reveal_strlit("jsonrpc");
    reveal_strlit("id");
    reveal_strlit("result");
    assert("id"@.len() == 2 && "result"@.len() == 6);
}

/// A message whose method is none of the three that the server handles gets
/// no answer.
pub proof fn lemma_other_methods_get_no_answer(message: Json, method: Seq<char>)
    requires
        message.member("method"@) == Some(Json::Text(method)),
        method != "initialize"@,
        method != "textDocument/didOpen"@,
        method != "textDocument/didChange"@,
    ensures
        reaction(routed(message)) == Reaction::Nothing,
{
}

/// Writes the frame of the message `message` to the end of `out`.
pub fn send_message(out: &mut Vec<u8>, message: &serde_json::Value)
    ensures
        final(out)@ == old(out)@ + wire(json_of(*message)),
{
    let text = render(message);
    write_message(out, text.as_str().as_bytes());
}

/// Writes the frame of the notification that publishes `diagnostics` for the
/// document `uri`, whose text is `text`, to the end of `out`. The notification
/// is written where there are no diagnostics too: it clears what the editor
/// shows for the document.
pub fn send_diagnostics(out: &mut Vec<u8>, uri: &str, text: &str, diagnostics: &Vec<Diagnostic>)
    ensures
        final(out)@ == old(out)@ + wire(publication(uri@, text.spec_bytes(), diagnostics@)),
{
    let notification = publish_diagnostics(uri, text, diagnostics);
    send_message(out, &notification);
}

/// What the server does about the message `message`.
pub fn react(message: &serde_json::Value) -> (r: Step)
    ensures
        r@ == reaction(routed(json_of(*message))),
{
    match route(message) {
        Request::Initialize { id } => {
            let mut out: Vec<u8> = Vec::new();
            send_message(&mut out, &initialize_response(id));
            Step::Send(out)
        },
        Request::Check { uri, text } => Step::Check { uri, text },
        Request::Ignored => Step::Nothing,
    }
}

/// What the server does about a message that came with the body `body`. The
/// body is taken as UTF-8, with U+FFFD in place of what is none, and read as
/// a JSON document. A body that is no JSON document is dropped without an
/// answer.
pub fn handle_message(body: &[u8]) -> (r: Step)
    ensures
        r@ == reaction_to(json_parsed(utf8_lossy(body@))),
        valid_utf8(body@) ==> r@ == reaction_to(json_parsed(decode_utf8(body@))),
{
    let text = decode_lossy(body);
    match parse(text.as_str()) {
        Some(message) => react(&message),
        None => Step::Nothing,
    }
}

} // verus!
