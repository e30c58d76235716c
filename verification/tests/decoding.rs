use mistral_stream::decode::{
    choice_from_document, chunk_from_document, decode_chunk, delta_from_document, DecodeError,
};

fn decode(text: &str) -> Result<mistral_stream::models::ChatCompletionChunk, DecodeError> {
    decode_chunk(text.as_bytes().to_vec())
}

fn document(text: &str) -> simd_json::OwnedValue {
    let mut bytes = text.as_bytes().to_vec();
    simd_json::to_owned_value(&mut bytes).unwrap()
}

const MINIMAL: &str =
    "{\"id\":\"a\",\"created\":7,\"model\":\"m\",\"choices\":[{\"index\":0,\"delta\":{}}]}";

#[test]
fn minimal_chunk_decodes() {
    let chunk = decode(MINIMAL).unwrap();
    assert_eq!(chunk.id, "a");
    assert_eq!(chunk.created, 7);
    assert_eq!(chunk.model, "m");
    assert_eq!(chunk.object, None);
    assert_eq!(chunk.usage, None);
    assert_eq!(chunk.p, None);
    assert_eq!(chunk.choices.len(), 1);
    assert_eq!(chunk.choices[0].index, 0);
    assert_eq!(chunk.choices[0].finish_reason, None);
    assert_eq!(chunk.choices[0].delta.role, None);
    assert_eq!(chunk.choices[0].delta.content, None);
}

#[test]
fn all_members_are_read() {
    let chunk = decode(
        "{\"choices\":[{\"delta\":{\"content\":\"\",\"role\":\"assistant\"},\"finish_reason\":\"stop\",\"index\":3},{\"index\":4294967295,\"delta\":{\"content\":\"x\"}}],\"p\":\"pad\",\"usage\":\"u\",\"object\":\"chat.completion.chunk\",\"model\":\"mistral-tiny\",\"created\":18446744073709551615,\"id\":\"cb22\"}",
    )
    .unwrap();
    assert_eq!(chunk.id, "cb22");
    assert_eq!(chunk.created, u64::MAX);
    assert_eq!(chunk.model, "mistral-tiny");
    assert_eq!(chunk.object, Some("chat.completion.chunk".to_string()));
    assert_eq!(chunk.usage, Some("u".to_string()));
    assert_eq!(chunk.p, Some("pad".to_string()));
    assert_eq!(chunk.choices.len(), 2);
    assert_eq!(chunk.choices[0].index, 3);
    assert_eq!(chunk.choices[0].finish_reason, Some("stop".to_string()));
    assert_eq!(chunk.choices[0].delta.role, Some("assistant".to_string()));
    assert_eq!(chunk.choices[0].delta.content, Some("".to_string()));
    assert_eq!(chunk.choices[1].index, u32::MAX);
    assert_eq!(chunk.choices[1].delta.content, Some("x".to_string()));
}

#[test]
fn escapes_in_strings_are_resolved() {
    let chunk = decode(
        "{\"id\":\"a\",\"created\":7,\"model\":\"m\",\"choices\":[{\"index\":0,\"delta\":{\"content\":\" \\\"q\\\"\\n\\u00e5\"}}]}",
    )
    .unwrap();
    assert_eq!(chunk.choices[0].delta.content, Some(" \"q\"\n\u{e5}".to_string()));
}

#[test]
fn unknown_members_are_passed_over() {
    let chunk = decode(
        "{\"id\":\"a\",\"extra\":[1,{\"x\":null}],\"created\":7,\"model\":\"m\",\"choices\":[{\"index\":0,\"logprobs\":null,\"delta\":{\"tool_calls\":[]}}],\"usage\":{\"prompt_tokens\":12,\"total_tokens\":121},\"object\":5,\"p\":null}",
    )
    .unwrap();
    assert_eq!(chunk.usage, None);
    assert_eq!(chunk.object, None);
    assert_eq!(chunk.p, None);
    assert_eq!(chunk.choices.len(), 1);
}

#[test]
fn null_stands_for_an_absent_optional_member() {
    let chunk = decode(
        "{\"id\":\"a\",\"created\":7,\"model\":\"m\",\"choices\":[{\"index\":0,\"finish_reason\":null,\"delta\":{\"role\":null,\"content\":null}}]}",
    )
    .unwrap();
    assert_eq!(chunk.choices[0].finish_reason, None);
    assert_eq!(chunk.choices[0].delta.role, None);
    assert_eq!(chunk.choices[0].delta.content, None);
}

#[test]
fn broken_json_is_a_syntax_error() {
    for text in [
        "",
        "{",
        "{\"id\":\"a\",\"created\":7,\"model\":\"m\",\"choices\":[{\"index\":0,\"delta\":{\"content\":\"he",
        "{\"id\":\"a\",\"created\":7,\"model\":\"m\",\"choices\":[{\"index\":0,\"delta\":{}},\"usage\":{}}",
        "data: {}",
        "{\"id\":\"a\"} trailing",
    ] {
        assert!(matches!(decode(text), Err(DecodeError::Syntax(_))), "{text}");
    }
}

#[test]
fn syntax_error_carries_an_account() {
    match decode("{\"id\":") {
        Err(DecodeError::Syntax(account)) => {
            assert!(!account.is_empty());
            assert_eq!(DecodeError::Syntax(account.clone()).message(), account);
        }
        other => panic!("{other:?}"),
    }
}

#[test]
fn documents_that_are_no_chunk_are_schema_errors() {
    for text in [
        "null",
        "5",
        "\"text\"",
        "[]",
        "{}",
        "{\"created\":7,\"model\":\"m\",\"choices\":[{\"index\":0,\"delta\":{}}]}",
        "{\"id\":null,\"created\":7,\"model\":\"m\",\"choices\":[{\"index\":0,\"delta\":{}}]}",
        "{\"id\":5,\"created\":7,\"model\":\"m\",\"choices\":[{\"index\":0,\"delta\":{}}]}",
        "{\"id\":\"a\",\"model\":\"m\",\"choices\":[{\"index\":0,\"delta\":{}}]}",
        "{\"id\":\"a\",\"created\":-1,\"model\":\"m\",\"choices\":[{\"index\":0,\"delta\":{}}]}",
        "{\"id\":\"a\",\"created\":\"7\",\"model\":\"m\",\"choices\":[{\"index\":0,\"delta\":{}}]}",
        "{\"id\":\"a\",\"created\":7.5,\"model\":\"m\",\"choices\":[{\"index\":0,\"delta\":{}}]}",
        "{\"id\":\"a\",\"created\":7,\"choices\":[{\"index\":0,\"delta\":{}}]}",
        "{\"id\":\"a\",\"created\":7,\"model\":\"m\"}",
        "{\"id\":\"a\",\"created\":7,\"model\":\"m\",\"choices\":[]}",
        "{\"id\":\"a\",\"created\":7,\"model\":\"m\",\"choices\":{}}",
        "{\"id\":\"a\",\"created\":7,\"model\":\"m\",\"choices\":null}",
        "{\"id\":\"a\",\"created\":7,\"model\":\"m\",\"choices\":[5]}",
        "{\"id\":\"a\",\"created\":7,\"model\":\"m\",\"choices\":[{\"delta\":{}}]}",
        "{\"id\":\"a\",\"created\":7,\"model\":\"m\",\"choices\":[{\"index\":4294967296,\"delta\":{}}]}",
        "{\"id\":\"a\",\"created\":7,\"model\":\"m\",\"choices\":[{\"index\":-1,\"delta\":{}}]}",
        "{\"id\":\"a\",\"created\":7,\"model\":\"m\",\"choices\":[{\"index\":0}]}",
        "{\"id\":\"a\",\"created\":7,\"model\":\"m\",\"choices\":[{\"index\":0,\"delta\":null}]}",
        "{\"id\":\"a\",\"created\":7,\"model\":\"m\",\"choices\":[{\"index\":0,\"delta\":\"x\"}]}",
        "{\"id\":\"a\",\"created\":7,\"model\":\"m\",\"choices\":[{\"index\":0,\"delta\":{\"content\":5}}]}",
        "{\"id\":\"a\",\"created\":7,\"model\":\"m\",\"choices\":[{\"index\":0,\"delta\":{\"role\":[]}}]}",
        "{\"id\":\"a\",\"created\":7,\"model\":\"m\",\"choices\":[{\"index\":0,\"finish_reason\":false,\"delta\":{}}]}",
        "{\"id\":\"a\",\"created\":7,\"model\":\"m\",\"choices\":[{\"index\":0,\"delta\":{}},{\"index\":1}]}",
    ] {
        assert!(matches!(decode(text), Err(DecodeError::Schema)), "{text}");
    }
}

#[test]
fn schema_error_has_a_fixed_account() {
    assert_eq!(DecodeError::Schema.message(), "the document is not a completion chunk");
}

#[test]
fn decoding_reads_the_bytes_it_is_given() {
    let one = decode(MINIMAL).unwrap();
    let other = decode(
        "{\"id\":\"b\",\"created\":8,\"model\":\"n\",\"choices\":[{\"index\":1,\"delta\":{}}]}",
    )
    .unwrap();
    assert_ne!(one.id, other.id);
    assert_ne!(one.created, other.created);
    assert_ne!(one.choices[0].index, other.choices[0].index);
}

#[test]
fn delta_is_read_from_a_document() {
    let delta = delta_from_document(&document("{\"role\":\"assistant\",\"content\":\"ku\"}")).unwrap();
    assert_eq!(delta.role, Some("assistant".to_string()));
    assert_eq!(delta.content, Some("ku".to_string()));
    let empty = delta_from_document(&document("{}")).unwrap();
    assert_eq!(empty.role, None);
    assert_eq!(empty.content, None);
    assert!(delta_from_document(&document("[]")).is_none());
    assert!(delta_from_document(&document("null")).is_none());
    assert!(delta_from_document(&document("{\"content\":1}")).is_none());
}

#[test]
fn choice_is_read_from_a_document() {
    let choice = choice_from_document(&document(
        "{\"index\":2,\"finish_reason\":\"length\",\"delta\":{\"content\":\"x\"}}",
    ))
    .unwrap();
    assert_eq!(choice.index, 2);
    assert_eq!(choice.finish_reason, Some("length".to_string()));
    assert_eq!(choice.delta.content, Some("x".to_string()));
    assert!(choice_from_document(&document("{\"index\":2}")).is_none());
    assert!(choice_from_document(&document("{\"index\":\"2\",\"delta\":{}}")).is_none());
}

#[test]
fn chunk_is_read_from_a_document() {
    let chunk = chunk_from_document(&document(MINIMAL)).unwrap();
    assert_eq!(chunk.id, "a");
    assert_eq!(chunk.created, 7);
    assert!(chunk_from_document(&document("{\"id\":\"a\"}")).is_none());
    assert!(chunk_from_document(&document("[1,2]")).is_none());
}
