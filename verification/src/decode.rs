//! The chunk decoder: from the bytes of one JSON document to a
//! `ChatCompletionChunk`, or a typed failure.

use crate::json::{
    documents, elements_of, error_text, is_null, is_object, json_of, member, member_of,
    parse_document, parsed_json, text_of, unsigned_of, JsonModel,
};
use crate::models::{
    choices_view, text_view, ChatCompletionChoice, ChatCompletionChunk, ChoiceView, ChunkView,
    Delta, DeltaView,
};
use vstd::prelude::*;
use vstd::string::*;

verus! {

/// Why a byte sequence did not decode into a chunk.
#[derive(Debug, Clone)]
pub enum DecodeError {
    /// The bytes are not one JSON document; the text is the parser's account.
    Syntax(String),
    /// The bytes are a JSON document that is not a chunk.
    Schema,
}

/// The kinds of decode failure, without the parser's account.
pub enum DecodeFailure {
    Syntax,
    Schema,
}

impl View for DecodeError {
    type V = DecodeFailure;

    open spec fn view(&self) -> DecodeFailure {
        match self {
            DecodeError::Syntax(_) => DecodeFailure::Syntax,
            DecodeError::Schema => DecodeFailure::Schema,
        }
    }
}

/// The account of a decode failure, for a record.
pub open spec fn failure_text(error: DecodeError) -> Seq<char> {
    match error {
        DecodeError::Syntax(account) => account@,
        DecodeError::Schema => "the document is not a completion chunk"@,
    }
}

impl DecodeError {
    /// The account of the failure, for a record.
    pub fn message(&self) -> (r: String)
        ensures
            r@ == failure_text(*self),
    {
        match self {
            DecodeError::Syntax(account) => account.clone(),
            DecodeError::Schema => String::from_str("the document is not a completion chunk"),
        }
    }
}

/// The text of a member that is a string; `None` where the member is
/// missing or of another kind.
pub open spec fn text_member(doc: JsonModel, key: Seq<char>) -> Option<Seq<char>> {
    match member_of(doc, key) {
        Some(JsonModel::Text(text)) => Some(text),
        _ => None,
    }
}

/// A member that may be left out or be `null`: `Some(None)` then,
/// `Some(Some(text))` for a string, and `None` for a value of another kind.
pub open spec fn optional_text(doc: JsonModel, key: Seq<char>) -> Option<Option<Seq<char>>> {
    match member_of(doc, key) {
        None => Some(None),
        Some(JsonModel::Null) => Some(None),
        Some(JsonModel::Text(text)) => Some(Some(text)),
        Some(_) => None,
    }
}

/// A member that must be an integer from 0 to `max`.
pub open spec fn required_unsigned(doc: JsonModel, key: Seq<char>, max: int) -> Option<int> {
    match member_of(doc, key) {
        Some(JsonModel::Int(n)) => if 0 <= n <= max {
            Some(n)
        } else {
            None
        },
        _ => None,
    }
}

/// The delta that the document `doc` stands for: an object whose `role` and
/// `content`, where present and not `null`, are strings.
pub open spec fn delta_of(doc: JsonModel) -> Option<DeltaView> {
    if doc is Object && optional_text(doc, "role"@) is Some && optional_text(doc, "content"@)
        is Some {
        Some(
            DeltaView {
                role: optional_text(doc, "role"@).unwrap(),
                content: optional_text(doc, "content"@).unwrap(),
            },
        )
    } else {
        None
    }
}

/// The choice that the document `doc` stands for: an `index` that fits in 32
/// bits, an optional `finish_reason` and a `delta`.
pub open spec fn choice_of(doc: JsonModel) -> Option<ChoiceView> {
    if required_unsigned(doc, "index"@, u32::MAX as int) is Some && optional_text(
        doc,
        "finish_reason"@,
    ) is Some && member_of(doc, "delta"@) is Some && delta_of(member_of(doc, "delta"@).unwrap())
        is Some {
        Some(
            ChoiceView {
                index: required_unsigned(doc, "index"@, u32::MAX as int).unwrap() as u32,
                finish_reason: optional_text(doc, "finish_reason"@).unwrap(),
                delta: delta_of(member_of(doc, "delta"@).unwrap()).unwrap(),
            },
        )
    } else {
        None
    }
}

/// The choices that the documents `items` stand for: there is at least one,
/// and every one of them is a choice.
pub open spec fn choices_of(items: Seq<JsonModel>) -> Option<Seq<ChoiceView>> {
    if items.len() > 0 && (forall|i: int|
        0 <= i < items.len() ==> (#[trigger] choice_of(items[i])) is Some) {
        Some(Seq::new(items.len(), |i: int| choice_of(items[i]).unwrap()))
    } else {
        None
    }
}

/// The choices listed under `choices`, which must be an array.
pub open spec fn listed_choices(doc: JsonModel) -> Option<Seq<ChoiceView>> {
    match member_of(doc, "choices"@) {
        Some(JsonModel::Array(items)) => choices_of(items),
        _ => None,
    }
}

/// The chunk that the document `doc` stands for.
///
/// `id` and `model` must be strings, `created` an integer that fits in 64
/// bits, `choices` a non-empty array of choices. `object`, `usage` and `p`
/// are kept where they are strings; every other member is passed over.
pub open spec fn chunk_of(doc: JsonModel) -> Option<ChunkView> {
    if text_member(doc, "id"@) is Some && required_unsigned(doc, "created"@, u64::MAX as int)
        is Some && text_member(doc, "model"@) is Some && listed_choices(doc) is Some {
        Some(
            ChunkView {
                id: text_member(doc, "id"@).unwrap(),
                created: required_unsigned(doc, "created"@, u64::MAX as int).unwrap() as u64,
                model: text_member(doc, "model"@).unwrap(),
                object: text_member(doc, "object"@),
                usage: text_member(doc, "usage"@),
                p: text_member(doc, "p"@),
                choices: listed_choices(doc).unwrap(),
            },
        )
    } else {
        None
    }
}

/// What decoding `bytes` comes to: the chunk, or the kind of failure.
pub open spec fn decoded(bytes: Seq<u8>) -> Result<ChunkView, DecodeFailure> {
    match parsed_json(bytes) {
        None => Err(DecodeFailure::Syntax),
        Some(doc) => match chunk_of(doc) {
            Some(chunk) => Ok(chunk),
            None => Err(DecodeFailure::Schema),
        },
    }
}

/// Every chunk that decodes has a first choice.
pub proof fn lemma_decoded_has_choice(bytes: Seq<u8>)
    ensures
        decoded(bytes) matches Ok(chunk) ==> chunk.choices.len() > 0,
{
}

/// The model of a decode result.
pub open spec fn decode_view(r: Result<ChatCompletionChunk, DecodeError>) -> Result<
    ChunkView,
    DecodeFailure,
> {
    match r {
        Ok(chunk) => Ok(chunk@),
        Err(e) => Err(e@),
    }
}

fn read_text_member(doc: &simd_json::OwnedValue, key: &str) -> (r: Option<String>)
    ensures
        text_view(r) == text_member(json_of(*doc), key@),
{
    match member(doc, key) {
        Some(found) => text_of(found),
        None => None,
    }
}

fn read_optional_text(doc: &simd_json::OwnedValue, key: &str) -> (r: Option<Option<String>>)
    ensures
        match r {
            Some(text) => optional_text(json_of(*doc), key@) == Some(text_view(text)),
            None => optional_text(json_of(*doc), key@) is None,
        },
{
    match member(doc, key) {
        None => Some(None),
        Some(found) => {
            if is_null(found) {
                Some(None)
            } else {
                match text_of(found) {
                    Some(text) => Some(Some(text)),
                    None => None,
                }
            }
        },
    }
}

fn read_required_unsigned(doc: &simd_json::OwnedValue, key: &str, max: u64) -> (r: Option<u64>)
    ensures
        match r {
            Some(n) => required_unsigned(json_of(*doc), key@, max as int) == Some(n as int),
            None => required_unsigned(json_of(*doc), key@, max as int) is None,
        },
{
    match member(doc, key) {
        Some(found) => match unsigned_of(found) {
            Some(n) => if n <= max {
                Some(n)
            } else {
                None
            },
            None => None,
        },
        None => None,
    }
}

/// Reads a delta from a parsed document.
pub fn delta_from_document(doc: &simd_json::OwnedValue) -> (r: Option<Delta>)
    ensures
        match r {
            Some(delta) => delta_of(json_of(*doc)) == Some(delta@),
            None => delta_of(json_of(*doc)) is None,
        },
{
    let role = read_optional_text(doc, "role");
    let content = read_optional_text(doc, "content");
    match (role, content) {
        (Some(role), Some(content)) => {
            if is_object(doc) {
                Some(Delta { role, content })
            } else {
                None
            }
        },
        _ => None,
    }
}

/// Reads a choice from a parsed document.
pub fn choice_from_document(doc: &simd_json::OwnedValue) -> (r: Option<ChatCompletionChoice>)
    ensures
        match r {
            Some(choice) => choice_of(json_of(*doc)) == Some(choice@),
            None => choice_of(json_of(*doc)) is None,
        },
{
    let index = match read_required_unsigned(doc, "index", 0xffff_ffff) {
        Some(n) => n as u32,
        None => { return None; },
    };
    let finish_reason = match read_optional_text(doc, "finish_reason") {
        Some(text) => text,
        None => { return None; },
    };
    let delta = match member(doc, "delta") {
        Some(found) => match delta_from_document(found) {
            Some(delta) => delta,
            None => { return None; },
        },
        None => { return None; },
    };
    Some(ChatCompletionChoice { index, finish_reason, delta })
}

fn read_choices(items: &Vec<simd_json::OwnedValue>) -> (r: Option<Vec<ChatCompletionChoice>>)
    ensures
        match r {
            Some(choices) => choices_of(documents(items@)) == Some(choices_view(choices@)),
            None => choices_of(documents(items@)) is None,
        },
{
    if items.len() == 0 {
        return None;
    }
    let ghost docs = documents(items@);
    let mut choices: Vec<ChatCompletionChoice> = Vec::new();
    let mut i: usize = 0;
    while i < items.len()
        invariant
            i <= items.len(),
            docs == documents(items@),
            choices@.len() == i,
            forall|j: int| 0 <= j < i ==> choice_of(#[trigger] docs[j]) == Some(choices@[j]@),
        decreases items.len() - i,
    {
        match choice_from_document(&items[i]) {
            Some(choice) => {
                choices.push(choice);
            },
            None => {
                assert(choice_of(docs[i as int]) is None);
                return None;
            },
        }
        i += 1;
    }
    proof {
        assert(choices_of(docs) is Some);
        assert(choices_of(docs).unwrap() =~= choices_view(choices@));
    }
    Some(choices)
}

/// Reads a chunk from a parsed document.
pub fn chunk_from_document(doc: &simd_json::OwnedValue) -> (r: Option<ChatCompletionChunk>)
    ensures
        match r {
            Some(chunk) => chunk_of(json_of(*doc)) == Some(chunk@),
            None => chunk_of(json_of(*doc)) is None,
        },
{
    let id = match read_text_member(doc, "id") {
        Some(text) => text,
        None => { return None; },
    };
    let created = match read_required_unsigned(doc, "created", 0xffff_ffff_ffff_ffff) {
        Some(n) => n,
        None => { return None; },
    };
    let model = match read_text_member(doc, "model") {
        Some(text) => text,
        None => { return None; },
    };
    let choices = match member(doc, "choices") {
        Some(found) => match elements_of(found) {
            Some(items) => match read_choices(items) {
                Some(choices) => choices,
                None => { return None; },
            },
            None => { return None; },
        },
        None => { return None; },
    };
    let object = read_text_member(doc, "object");
    let usage = read_text_member(doc, "usage");
    let p = read_text_member(doc, "p");
    Some(ChatCompletionChunk { id, created, model, object, usage, p, choices })
}

/// Decodes one JSON document into a chunk.
///
/// Succeeds exactly on the bytes that `simd_json` reads as a document which
/// is a chunk; the error tells a rejected document from one that is no chunk.
pub fn decode_chunk(bytes: Vec<u8>) -> (r: Result<ChatCompletionChunk, DecodeError>)
    ensures
        decode_view(r) == decoded(bytes@),
{
    match parse_document(bytes) {
        Ok(doc) => match chunk_from_document(&doc) {
            Some(chunk) => Ok(chunk),
            None => Err(DecodeError::Schema),
        },
        Err(e) => Err(DecodeError::Syntax(error_text(&e))),
    }
}

} // verus!
