//! The stitching state machine: fragments are decoded as they arrive, kept
//! while a chunk is incomplete, and their tokens gathered in order.

use crate::decode::{
    decode_chunk, decode_view, decoded, failure_text, lemma_decoded_has_choice, DecodeError,
    DecodeFailure,
};
use crate::frame::{clean_byte_chunk, cleaned_fragment};
use crate::models::{ChatCompletionChunk, ChunkView};
use crate::text::{debug_escaped, escape_debug, lossy_text, utf8_lossy};
use vstd::prelude::*;
use vstd::string::*;

verus! {

/// The byte `{`, with which a chunk begins.
pub const OPENING_BRACE: u8 = 0x7b;

/// The byte `}`, with which a chunk ends.
pub const CLOSING_BRACE: u8 = 0x7d;

/// Where the parser stands between two deliveries.
#[derive(Debug, Clone, Copy, PartialEq, Eq, Structural)]
pub enum StreamState {
    /// No delivery has been handled yet.
    FirstChunk,
    /// The last fragment was kept: a chunk is being stitched.
    PartialChunk,
    /// A delivery has been handled, and nothing is being stitched.
    SubsequentChunk,
}

/// The name of a state, as the records show it.
pub open spec fn state_name(state: StreamState) -> Seq<char> {
    match state {
        StreamState::FirstChunk => "FirstChunk"@,
        StreamState::PartialChunk => "PartialChunk"@,
        StreamState::SubsequentChunk => "SubsequentChunk"@,
    }
}

impl StreamState {
    /// The name of the state, as the records show it.
    pub fn name(&self) -> (r: String)
        ensures
            r@ == state_name(*self),
    {
        match self {
            StreamState::FirstChunk => String::from_str("FirstChunk"),
            StreamState::PartialChunk => String::from_str("PartialChunk"),
            StreamState::SubsequentChunk => String::from_str("SubsequentChunk"),
        }
    }
}

/// Why a stream was given up.
#[derive(Debug, Clone)]
pub enum StreamError {
    /// The source of deliveries failed; the text is its account.
    Transport(String),
    /// A fragment arrived for a pending buffer that already holds `}`.
    StitchInvariantViolation,
    /// The consumer of the tokens is gone.
    ChannelClosed,
}

/// A `StreamError` as a mathematical value.
pub enum StreamFailure {
    Transport(Seq<char>),
    StitchInvariantViolation,
    ChannelClosed,
}

impl View for StreamError {
    type V = StreamFailure;

    open spec fn view(&self) -> StreamFailure {
        match self {
            StreamError::Transport(message) => StreamFailure::Transport(message@),
            StreamError::StitchInvariantViolation => StreamFailure::StitchInvariantViolation,
            StreamError::ChannelClosed => StreamFailure::ChannelClosed,
        }
    }
}

/// Whether the parser still reads, and if not, why.
pub enum Status {
    Running,
    /// A chunk carried a finish reason.
    Finished,
    /// The caller asked the parser to stop.
    Cancelled,
    Failed(StreamFailure),
}

/// A record for the diagnostics sink.
#[derive(Debug, Clone)]
pub enum Diagnostic {
    /// The first fragment of the stream neither decodes nor begins a chunk.
    BrokenStart,
    /// A fragment arrived while the pending bytes already hold `}`.
    BufferComplete { pending: Vec<u8> },
    /// A fragment that neither decodes nor can be kept for stitching.
    Malformed { state: StreamState, fragment: Vec<u8>, error: DecodeError },
}

/// A `Diagnostic` as a mathematical value.
pub enum DiagnosticModel {
    BrokenStart,
    BufferComplete { pending: Seq<u8> },
    Malformed { state: StreamState, fragment: Seq<u8>, failure: DecodeFailure },
}

impl View for Diagnostic {
    type V = DiagnosticModel;

    open spec fn view(&self) -> DiagnosticModel {
        match self {
            Diagnostic::BrokenStart => DiagnosticModel::BrokenStart,
            Diagnostic::BufferComplete { pending } => DiagnosticModel::BufferComplete {
                pending: pending@,
            },
            Diagnostic::Malformed { state, fragment, error } => DiagnosticModel::Malformed {
                state: *state,
                fragment: fragment@,
                failure: error@,
            },
        }
    }
}

/// The text of the record of a fragment that arrived for pending bytes
/// which read as `held`.
pub open spec fn complete_buffer_text(held: Seq<char>) -> Seq<char> {
    "Can't stitch, buffer already contains a complete chunk\n"@ + held
}

/// The text of the record of a malformed fragment: the state it arrived in,
/// the fragment with its escapes written out, and the decoder's account.
pub open spec fn malformed_text(state: StreamState, escaped: Seq<char>, account: Seq<char>) -> Seq<
    char,
> {
    "State: "@ + state_name(state) + "\nBroken buffer: "@ + escaped + "\nError: "@ + account
}

/// The text of a record, as the diagnostics sink takes it.
pub open spec fn record_text(record: Diagnostic) -> Seq<char> {
    match record {
        Diagnostic::BrokenStart => "Token stream starts broken, can't stitch"@,
        Diagnostic::BufferComplete { pending } => complete_buffer_text(utf8_lossy(pending@)),
        Diagnostic::Malformed { state, fragment, error } => malformed_text(
            state,
            debug_escaped(utf8_lossy(fragment@)),
            failure_text(error),
        ),
    }
}

/// Writes the record of a fragment that arrived for pending bytes which
/// read as `held`.
pub fn complete_buffer_record(held: &str) -> (r: String)
    ensures
        r@ == complete_buffer_text(held@),
{
    let mut text = String::from_str("Can't stitch, buffer already contains a complete chunk\n");
    text.append(held);
    text
}

/// Writes the record of a malformed fragment.
pub fn malformed_record(state: StreamState, escaped: &str, account: &str) -> (r: String)
    ensures
        r@ == malformed_text(state, escaped@, account@),
{
    let mut text = String::from_str("State: ");
    let name = state.name();
    text.append(name.as_str());
    text.append("\nBroken buffer: ");
    text.append(escaped);
    text.append("\nError: ");
    text.append(account);
    text
}

impl Diagnostic {
    /// The text of the record, as the diagnostics sink takes it.
    pub fn message(&self) -> (r: String)
        ensures
            r@ == record_text(*self),
    {
        match self {
            Diagnostic::BrokenStart => String::from_str("Token stream starts broken, can't stitch"),
            Diagnostic::BufferComplete { pending } => {
                let held = lossy_text(pending.as_slice());
                complete_buffer_record(held.as_str())
            },
            Diagnostic::Malformed { state, fragment, error } => {
                let held = lossy_text(fragment.as_slice());
                let escaped = escape_debug(held.as_str());
                let account = error.message();
                malformed_record(*state, escaped.as_str(), account.as_str())
            },
        }
    }
}

/// What one delivery led to.
#[derive(Debug, Clone)]
pub enum Outcome {
    /// The parser had stopped before: the delivery was not read.
    Ignored,
    /// The delivery was blank or the end marker: nothing to process.
    Filtered,
    /// A chunk was decoded. `token` is its content, where it has one;
    /// `finished` says that it carried a finish reason.
    Decoded { token: Option<String>, finished: bool },
    /// The fragment was appended to the pending bytes.
    Buffered,
    /// The fragment was dropped; the stream goes on.
    Dropped(Diagnostic),
    /// The stream was given up.
    Fatal(Diagnostic),
}

/// An `Outcome` as a mathematical value.
pub enum OutcomeModel {
    Ignored,
    Filtered,
    Decoded { token: Option<Seq<char>>, finished: bool },
    Buffered,
    Dropped(DiagnosticModel),
    Fatal(DiagnosticModel),
}

impl View for Outcome {
    type V = OutcomeModel;

    open spec fn view(&self) -> OutcomeModel {
        match self {
            Outcome::Ignored => OutcomeModel::Ignored,
            Outcome::Filtered => OutcomeModel::Filtered,
            Outcome::Decoded { token, finished } => OutcomeModel::Decoded {
                token: crate::models::text_view(*token),
                finished: *finished,
            },
            Outcome::Buffered => OutcomeModel::Buffered,
            Outcome::Dropped(diagnostic) => OutcomeModel::Dropped(diagnostic@),
            Outcome::Fatal(diagnostic) => OutcomeModel::Fatal(diagnostic@),
        }
    }
}

/// The parser as a mathematical value.
pub struct ParserModel {
    pub state: StreamState,
    /// The bytes kept from fragments that did not decode yet.
    pub pending: Seq<u8>,
    /// The contents of all chunks decoded so far, in order.
    pub content: Seq<char>,
    pub status: Status,
}

/// The parser before the first delivery.
pub open spec fn fresh() -> ParserModel {
    ParserModel {
        state: StreamState::FirstChunk,
        pending: Seq::empty(),
        content: Seq::empty(),
        status: Status::Running,
    }
}

/// What is done with a fragment that does not decode.
pub enum Policy {
    /// Drop it: the stream began in the middle of a chunk.
    DropStart,
    /// Give the stream up.
    Abort,
    /// Keep it for stitching.
    Stitch,
    /// Drop it as malformed.
    DropMalformed,
}

/// The policy for a fragment that does not decode. The four cases are tried
/// in this order, and the first that applies is taken.
pub open spec fn failure_policy(state: StreamState, pending: Seq<u8>, fragment: Seq<u8>) -> Policy {
    if state == StreamState::FirstChunk && !(fragment.len() > 0 && fragment[0] == OPENING_BRACE) {
        Policy::DropStart
    } else if state == StreamState::PartialChunk && pending.contains(CLOSING_BRACE) {
        Policy::Abort
    } else if state != StreamState::FirstChunk && !(fragment.len() > 0 && fragment.last()
        == CLOSING_BRACE) {
        Policy::Stitch
    } else {
        Policy::DropMalformed
    }
}

/// The parser and the outcome after a chunk was decoded: the pending bytes
/// are cleared, the content of the first choice is appended, and a finish
/// reason on it stops the parser.
pub open spec fn dispatched(parser: ParserModel, chunk: ChunkView) -> (ParserModel, OutcomeModel)
    recommends
        chunk.choices.len() > 0,
{
    let choice = chunk.choices[0];
    let content = match choice.delta.content {
        Some(text) => parser.content + text,
        None => parser.content,
    };
    let finished = choice.finish_reason is Some;
    (
        ParserModel {
            state: if finished {
                parser.state
            } else {
                StreamState::SubsequentChunk
            },
            pending: Seq::empty(),
            content,
            status: if finished {
                Status::Finished
            } else {
                Status::Running
            },
        },
        OutcomeModel::Decoded { token: choice.delta.content, finished },
    )
}

/// The parser and the outcome after `fragment` did not decode. Only a
/// fragment that is kept leaves the parser stitching.
pub open spec fn rejected(parser: ParserModel, fragment: Seq<u8>, failure: DecodeFailure) -> (
    ParserModel,
    OutcomeModel,
) {
    match failure_policy(parser.state, parser.pending, fragment) {
        Policy::DropStart => (
            ParserModel { state: StreamState::SubsequentChunk, ..parser },
            OutcomeModel::Dropped(DiagnosticModel::BrokenStart),
        ),
        Policy::Abort => (
            ParserModel {
                state: StreamState::SubsequentChunk,
                status: Status::Failed(StreamFailure::StitchInvariantViolation),
                ..parser
            },
            OutcomeModel::Fatal(DiagnosticModel::BufferComplete { pending: parser.pending }),
        ),
        Policy::Stitch => (
            ParserModel {
                state: StreamState::PartialChunk,
                pending: parser.pending + fragment,
                ..parser
            },
            OutcomeModel::Buffered,
        ),
        Policy::DropMalformed => (
            ParserModel { state: StreamState::SubsequentChunk, ..parser },
            OutcomeModel::Dropped(
                DiagnosticModel::Malformed { state: parser.state, fragment, failure },
            ),
        ),
    }
}

/// The parser and the outcome after the pending bytes followed by
/// `fragment` were handed to the decoder and `result` came back.
pub open spec fn settled(
    parser: ParserModel,
    fragment: Seq<u8>,
    result: Result<ChunkView, DecodeFailure>,
) -> (ParserModel, OutcomeModel) {
    match result {
        Ok(chunk) => dispatched(parser, chunk),
        Err(failure) => rejected(parser, fragment, failure),
    }
}

/// The parser and the outcome after one raw delivery.
///
/// A parser that has stopped reads nothing. A delivery without a fragment
/// changes nothing. Any other fragment is decoded behind the pending bytes.
pub open spec fn step(parser: ParserModel, delivery: Seq<u8>) -> (ParserModel, OutcomeModel) {
    let fragment = cleaned_fragment(delivery);
    if !(parser.status is Running) {
        (parser, OutcomeModel::Ignored)
    } else if fragment.len() == 0 {
        (parser, OutcomeModel::Filtered)
    } else {
        settled(parser, fragment, decoded(parser.pending + fragment))
    }
}

/// Whether `bytes` holds the byte `wanted`.
fn holds_byte(bytes: &Vec<u8>, wanted: u8) -> (r: bool)
    ensures
        r == bytes@.contains(wanted),
{
    let mut i: usize = 0;
    while i < bytes.len()
        invariant
            i <= bytes.len(),
            forall|j: int| 0 <= j < i ==> bytes@[j] != wanted,
        decreases bytes.len() - i,
    {
        if bytes[i] == wanted {
            return true;
        }
        i += 1;
    }
    false
}

/// The bytes of `first` followed by those of `second`.
fn joined(first: &Vec<u8>, second: &Vec<u8>) -> (r: Vec<u8>)
    ensures
        r@ == first@ + second@,
{
    let mut out: Vec<u8> = Vec::new();
    let mut i: usize = 0;
    while i < first.len()
        invariant
            i <= first.len(),
            out@ == first@.take(i as int),
        decreases first.len() - i,
    {
        out.push(first[i]);
        assert(first@.take(i + 1) =~= first@.take(i as int).push(first@[i as int]));
        i += 1;
    }
    assert(first@.take(first@.len() as int) =~= first@);
    let mut j: usize = 0;
    while j < second.len()
        invariant
            j <= second.len(),
            out@ == first@ + second@.take(j as int),
        decreases second.len() - j,
    {
        out.push(second[j]);
        assert(first@ + second@.take(j + 1) =~= (first@ + second@.take(j as int)).push(
            second@[j as int],
        ));
        j += 1;
    }
    assert(second@.take(second@.len() as int) =~= second@);
    out
}

/// The stitching state machine of one stream.
pub struct StreamParser {
    state: StreamState,
    pending: Vec<u8>,
    content: String,
    finished: bool,
    cancelled: bool,
    error: Option<StreamError>,
}

impl StreamParser {
    /// The status that the private marks stand for.
    pub closed spec fn status(&self) -> Status {
        match self.error {
            Some(error) => Status::Failed(error@),
            None => if self.finished {
                Status::Finished
            } else if self.cancelled {
                Status::Cancelled
            } else {
                Status::Running
            },
        }
    }
}

impl View for StreamParser {
    type V = ParserModel;

    closed spec fn view(&self) -> ParserModel {
        ParserModel {
            state: self.state,
            pending: self.pending@,
            content: self.content@,
            status: self.status(),
        }
    }
}

impl StreamParser {
    /// A parser for a new stream.
    pub fn new() -> (r: Self)
        ensures
            r@ == fresh(),
    {
        StreamParser {
            state: StreamState::FirstChunk,
            pending: Vec::new(),
            content: String::new(),
            finished: false,
            cancelled: false,
            error: None,
        }
    }

    /// Whether the parser still reads deliveries.
    pub fn is_running(&self) -> (r: bool)
        ensures
            r == (self@.status is Running),
    {
        self.error.is_none() && !self.finished && !self.cancelled
    }

    /// Whether a chunk with a finish reason has ended the stream.
    pub fn is_finished(&self) -> (r: bool)
        ensures
            r == (self@.status is Finished),
    {
        self.error.is_none() && self.finished
    }

    /// Whether the caller has stopped the parser.
    pub fn is_cancelled(&self) -> (r: bool)
        ensures
            r == (self@.status is Cancelled),
    {
        self.error.is_none() && !self.finished && self.cancelled
    }

    /// Where the parser stands.
    pub fn state(&self) -> (r: StreamState)
        ensures
            r == self@.state,
    {
        self.state
    }

    /// The bytes kept for stitching.
    pub fn pending(&self) -> (r: &Vec<u8>)
        ensures
            r@ == self@.pending,
    {
        &self.pending
    }

    /// The text gathered so far.
    pub fn content(&self) -> (r: &String)
        ensures
            r@ == self@.content,
    {
        &self.content
    }

    /// The error that stopped the parser, if one did.
    pub fn error(&self) -> (r: &Option<StreamError>)
        ensures
            match *r {
                Some(error) => self@.status == Status::Failed(error@),
                None => !(self@.status is Failed),
            },
    {
        &self.error
    }

    /// Takes the result of decoding the pending bytes followed by
    /// `fragment`, and does what it calls for.
    pub fn resolve(
        &mut self,
        fragment: Vec<u8>,
        result: Result<ChatCompletionChunk, DecodeError>,
    ) -> (r: Outcome)
        requires
            old(self)@.status is Running,
            result matches Ok(chunk) ==> chunk.choices@.len() > 0,
        ensures
            (final(self)@, r@) == settled(old(self)@, fragment@, decode_view(result)),
    {
        match result {
            Ok(chunk) => {
                let choice = &chunk.choices[0];
                assert(chunk@.choices[0] == choice@);
                let finished = choice.finish_reason.is_some();
                let token = match &choice.delta.content {
                    Some(text) => {
                        self.content.append(text.as_str());
                        Some(text.clone())
                    },
                    None => None,
                };
                self.pending.clear();
                if finished {
                    self.finished = true;
                } else {
                    self.state = StreamState::SubsequentChunk;
                }
                Outcome::Decoded { token, finished }
            },
            Err(error) => {
                let broken_start = self.state == StreamState::FirstChunk && !(fragment.len() > 0
                    && fragment[0] == OPENING_BRACE);
                if broken_start {
                    self.state = StreamState::SubsequentChunk;
                    Outcome::Dropped(Diagnostic::BrokenStart)
                } else if self.state == StreamState::PartialChunk && holds_byte(
                    &self.pending,
                    CLOSING_BRACE,
                ) {
                    self.error = Some(StreamError::StitchInvariantViolation);
                    self.state = StreamState::SubsequentChunk;
                    Outcome::Fatal(Diagnostic::BufferComplete { pending: self.pending.clone() })
                } else if self.state != StreamState::FirstChunk && !(fragment.len() > 0
                    && fragment[fragment.len() - 1] == CLOSING_BRACE) {
                    let mut fragment = fragment;
                    self.pending.append(&mut fragment);
                    self.state = StreamState::PartialChunk;
                    Outcome::Buffered
                } else {
                    let state = self.state;
                    self.state = StreamState::SubsequentChunk;
                    Outcome::Dropped(Diagnostic::Malformed { state, fragment, error })
                }
            },
        }
    }

    /// Handles one raw delivery.
    pub fn feed(&mut self, delivery: &[u8]) -> (r: Outcome)
        ensures
            (final(self)@, r@) == step(old(self)@, delivery@),
    {
        if !self.is_running() {
            return Outcome::Ignored;
        }
        let fragment = clean_byte_chunk(delivery);
        if fragment.len() == 0 {
            return Outcome::Filtered;
        }
        let candidate = joined(&self.pending, &fragment);
        let result = decode_chunk(candidate);
        proof {
            lemma_decoded_has_choice(candidate@);
        }
        self.resolve(fragment, result)
    }
}


impl StreamParser {
    /// Records that the source of deliveries failed. The text gathered so
    /// far stays; a parser that has stopped already is left as it is.
    pub fn transport_failed(&mut self, message: String)
        ensures
            final(self)@ == given_up(old(self)@, StreamFailure::Transport(message@)),
    {
        if self.is_running() {
            self.error = Some(StreamError::Transport(message));
        }
    }

    /// Stops the parser at the caller's wish. The text gathered so far
    /// stays; a parser that has stopped already is left as it is.
    pub fn cancel(&mut self)
        ensures
            final(self)@ == cancelled(old(self)@),
    {
        if self.is_running() {
            self.cancelled = true;
        }
    }

    /// Records that the consumer of the tokens is gone. The text gathered so
    /// far stays; a parser that has stopped already is left as it is.
    pub fn channel_closed(&mut self)
        ensures
            final(self)@ == given_up(old(self)@, StreamFailure::ChannelClosed),
    {
        if self.is_running() {
            self.error = Some(StreamError::ChannelClosed);
        }
    }
}

/// The parser after its source or its consumer failed while it was running.
pub open spec fn given_up(parser: ParserModel, failure: StreamFailure) -> ParserModel {
    if parser.status is Running {
        ParserModel { status: Status::Failed(failure), ..parser }
    } else {
        parser
    }
}

/// The parser after the caller asked it to stop while it was running.
pub open spec fn cancelled(parser: ParserModel) -> ParserModel {
    if parser.status is Running {
        ParserModel { status: Status::Cancelled, ..parser }
    } else {
        parser
    }
}

/// One item of a source: a raw delivery, or the failure of the transport.
pub type SourceItem = Result<Seq<u8>, Seq<char>>;

/// The items of a source as mathematical values.
pub open spec fn source_view(source: Seq<Result<Vec<u8>, String>>) -> Seq<SourceItem> {
    Seq::new(
        source.len(),
        |i: int|
            match source[i] {
                Ok(delivery) => Ok(delivery@),
                Err(message) => Err(message@),
            },
    )
}

/// The texts of a sequence of strings.
pub open spec fn texts(strings: Seq<String>) -> Seq<Seq<char>> {
    Seq::new(strings.len(), |i: int| strings[i]@)
}

/// The models of a sequence of diagnostics.
pub open spec fn diagnostics_view(records: Seq<Diagnostic>) -> Seq<DiagnosticModel> {
    Seq::new(records.len(), |i: int| records[i]@)
}

/// The texts of `tokens` one after the other.
pub open spec fn concatenated(tokens: Seq<Seq<char>>) -> Seq<char>
    decreases tokens.len(),
{
    if tokens.len() == 0 {
        Seq::empty()
    } else {
        concatenated(tokens.drop_last()) + tokens.last()
    }
}

/// A run over a source, as far as it has come.
pub struct Run {
    pub parser: ParserModel,
    /// The tokens handed on, in order.
    pub tokens: Seq<Seq<char>>,
    /// The records for the diagnostics sink, in order.
    pub diagnostics: Seq<DiagnosticModel>,
    /// The number of items taken from the source.
    pub consumed: nat,
}

/// The tokens that an outcome hands on: the content of a decoded chunk.
pub open spec fn emitted(outcome: OutcomeModel) -> Seq<Seq<char>> {
    match outcome {
        OutcomeModel::Decoded { token: Some(text), .. } => seq![text],
        _ => Seq::empty(),
    }
}

/// The records that an outcome leaves for the diagnostics sink.
pub open spec fn recorded(outcome: OutcomeModel) -> Seq<DiagnosticModel> {
    match outcome {
        OutcomeModel::Dropped(diagnostic) => seq![diagnostic],
        OutcomeModel::Fatal(diagnostic) => seq![diagnostic],
        _ => Seq::empty(),
    }
}

/// The run before anything was read.
pub open spec fn start() -> Run {
    Run { parser: fresh(), tokens: Seq::empty(), diagnostics: Seq::empty(), consumed: 0 }
}

/// The run after one more item of the source. Once the parser has stopped,
/// nothing more is taken.
pub open spec fn advance(run: Run, item: SourceItem) -> Run {
    if !(run.parser.status is Running) {
        run
    } else {
        match item {
            Ok(delivery) => {
                let (parser, outcome) = step(run.parser, delivery);
                Run {
                    parser,
                    tokens: run.tokens + emitted(outcome),
                    diagnostics: run.diagnostics + recorded(outcome),
                    consumed: run.consumed + 1,
                }
            },
            Err(message) => Run {
                parser: given_up(run.parser, StreamFailure::Transport(message)),
                consumed: run.consumed + 1,
                ..run
            },
        }
    }
}

/// The run over all of `source`, item by item from the first.
pub open spec fn run(source: Seq<SourceItem>) -> Run
    decreases source.len(),
{
    if source.len() == 0 {
        start()
    } else {
        advance(run(source.drop_last()), source.last())
    }
}

/// Once the parser has stopped, further items change nothing.
pub proof fn lemma_run_stays_stopped(source: Seq<SourceItem>, n: int)
    requires
        0 <= n <= source.len(),
        !(run(source.take(n)).parser.status is Running),
    ensures
        run(source) == run(source.take(n)),
    decreases source.len() - n,
{
    if n < source.len() {
        assert(source.drop_last().take(n) =~= source.take(n));
        lemma_run_stays_stopped(source.drop_last(), n);
    } else {
        assert(source.take(n) =~= source);
    }
}

/// What a run over a whole source came to.
#[derive(Debug, Clone)]
pub struct StreamReport {
    /// The text gathered: the contents of all decoded chunks, in order.
    pub content: String,
    /// The tokens, each as it was handed on.
    pub tokens: Vec<String>,
    /// The records for the diagnostics sink.
    pub diagnostics: Vec<Diagnostic>,
    /// The number of items taken from the source.
    pub consumed: usize,
    /// Whether a chunk with a finish reason ended the stream.
    pub finished: bool,
    /// The error that ended the stream, if one did.
    pub error: Option<StreamError>,
}

/// A `StreamReport` as a mathematical value.
pub struct ReportModel {
    pub content: Seq<char>,
    pub tokens: Seq<Seq<char>>,
    pub diagnostics: Seq<DiagnosticModel>,
    pub consumed: nat,
    pub status: Status,
}

impl View for StreamReport {
    type V = ReportModel;

    open spec fn view(&self) -> ReportModel {
        ReportModel {
            content: self.content@,
            tokens: texts(self.tokens@),
            diagnostics: diagnostics_view(self.diagnostics@),
            consumed: self.consumed as nat,
            status: match self.error {
                Some(error) => Status::Failed(error@),
                None => if self.finished {
                    Status::Finished
                } else {
                    Status::Running
                },
            },
        }
    }
}

/// The report on a run.
pub open spec fn report_of(run: Run) -> ReportModel {
    ReportModel {
        content: run.parser.content,
        tokens: run.tokens,
        diagnostics: run.diagnostics,
        consumed: run.consumed,
        status: run.parser.status,
    }
}

/// Runs the parser over a source held in memory.
///
/// The items are taken in order until the source is exhausted, a chunk
/// carries a finish reason, or the stream has to be given up. The report
/// holds the text gathered up to that point, whatever ended the run.
pub fn parse_mistral_stream(source: &Vec<Result<Vec<u8>, String>>) -> (r: StreamReport)
    ensures
        r@ == report_of(run(source_view(source@))),
{
    let ghost items = source_view(source@);
    let mut parser = StreamParser::new();
    let mut tokens: Vec<String> = Vec::new();
    let mut diagnostics: Vec<Diagnostic> = Vec::new();
    let mut i: usize = 0;
    proof {
        assert(items.take(0) =~= Seq::<SourceItem>::empty());
        assert(texts(tokens@) =~= Seq::<Seq<char>>::empty());
        assert(diagnostics_view(diagnostics@) =~= Seq::<DiagnosticModel>::empty());
    }
    while i < source.len() && parser.is_running()
        invariant
            i <= source.len(),
            items == source_view(source@),
            !(parser@.status is Cancelled),
            run(items.take(i as int)) == (Run {
                parser: parser@,
                tokens: texts(tokens@),
                diagnostics: diagnostics_view(diagnostics@),
                consumed: i as nat,
            }),
        decreases source.len() - i,
    {
        let ghost before = run(items.take(i as int));
        proof {
            assert(items.take(i + 1).drop_last() =~= items.take(i as int));
            assert(items.take(i + 1).last() == items[i as int]);
        }
        match &source[i] {
            Ok(delivery) => {
                let ghost old_tokens = texts(tokens@);
                let ghost old_records = diagnostics_view(diagnostics@);
                let outcome = parser.feed(delivery.as_slice());
                match outcome {
                    Outcome::Decoded { token: Some(text), finished: _ } => {
                        tokens.push(text);
                        assert(texts(tokens@) =~= old_tokens + seq![text@]);
                    },
                    Outcome::Dropped(diagnostic) => {
                        diagnostics.push(diagnostic);
                        assert(diagnostics_view(diagnostics@) =~= old_records + seq![diagnostic@]);
                    },
                    Outcome::Fatal(diagnostic) => {
                        diagnostics.push(diagnostic);
                        assert(diagnostics_view(diagnostics@) =~= old_records + seq![diagnostic@]);
                    },
                    _ => {
                        assert(texts(tokens@) =~= old_tokens + Seq::<Seq<char>>::empty());
                        assert(diagnostics_view(diagnostics@) =~= old_records + Seq::<
                            DiagnosticModel,
                        >::empty());
                    },
                }
                assert(texts(tokens@) =~= before.tokens + emitted(outcome@));
                assert(diagnostics_view(diagnostics@) =~= before.diagnostics + recorded(outcome@));
            },
            Err(message) => {
                parser.transport_failed(message.clone());
            },
        }
        i += 1;
    }
    proof {
        if i < source.len() {
            lemma_run_stays_stopped(items, i as int);
        } else {
            assert(items.take(i as int) =~= items);
        }
    }
    let finished = parser.is_finished();
    StreamReport {
        content: parser.content,
        tokens,
        diagnostics,
        consumed: i,
        finished,
        error: parser.error,
    }
}

} // verus!
