//! The records of the completion API that this library reads.

use vstd::prelude::*;

verus! {

/// The increment that one streamed chunk carries.
#[derive(Debug, Clone)]
pub struct Delta {
    pub role: Option<String>,
    pub content: Option<String>,
}

/// One alternative of a streamed chunk.
#[derive(Debug, Clone)]
pub struct ChatCompletionChoice {
    pub index: u32,
    pub finish_reason: Option<String>,
    pub delta: Delta,
}

/// One decoded chunk of a streamed completion.
#[derive(Debug, Clone)]
pub struct ChatCompletionChunk {
    pub id: String,
    pub created: u64,
    pub model: String,
    pub object: Option<String>,
    pub usage: Option<String>,
    pub p: Option<String>,
    pub choices: Vec<ChatCompletionChoice>,
}

/// What a model on offer can be used for.
#[derive(Debug, Clone, Copy, PartialEq, Eq)]
pub struct MistralModelCapabilities {
    pub audio: bool,
    pub classification: bool,
    pub completion_chat: bool,
    pub completion_fim: bool,
    pub fine_tuning: bool,
    pub function_calling: bool,
    pub moderation: bool,
    pub ocr: bool,
    pub vision: bool,
}

/// The characters of an optional string.
pub open spec fn text_view(text: Option<String>) -> Option<Seq<char>> {
    match text {
        Some(t) => Some(t@),
        None => None,
    }
}

/// A `Delta` as a mathematical value.
pub struct DeltaView {
    pub role: Option<Seq<char>>,
    pub content: Option<Seq<char>>,
}

/// A `ChatCompletionChoice` as a mathematical value.
pub struct ChoiceView {
    pub index: u32,
    pub finish_reason: Option<Seq<char>>,
    pub delta: DeltaView,
}

/// A `ChatCompletionChunk` as a mathematical value.
pub struct ChunkView {
    pub id: Seq<char>,
    pub created: u64,
    pub model: Seq<char>,
    pub object: Option<Seq<char>>,
    pub usage: Option<Seq<char>>,
    pub p: Option<Seq<char>>,
    pub choices: Seq<ChoiceView>,
}

impl View for Delta {
    type V = DeltaView;

    open spec fn view(&self) -> DeltaView {
        DeltaView { role: text_view(self.role), content: text_view(self.content) }
    }
}

impl View for ChatCompletionChoice {
    type V = ChoiceView;

    open spec fn view(&self) -> ChoiceView {
        ChoiceView {
            index: self.index,
            finish_reason: text_view(self.finish_reason),
            delta: self.delta@,
        }
    }
}

/// The choices of a chunk, each as a mathematical value.
pub open spec fn choices_view(choices: Seq<ChatCompletionChoice>) -> Seq<ChoiceView> {
    Seq::new(choices.len(), |i: int| choices[i]@)
}

impl View for ChatCompletionChunk {
    type V = ChunkView;

    open spec fn view(&self) -> ChunkView {
        ChunkView {
            id: self.id@,
            created: self.created,
            model: self.model@,
            object: text_view(self.object),
            usage: text_view(self.usage),
            p: text_view(self.p),
            choices: choices_view(self.choices@),
        }
    }
}

} // verus!
