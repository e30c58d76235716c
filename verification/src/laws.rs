//! What holds of the parser on every input.

use crate::config::{
    after_first_line, configured, first_line, model_name, saved_setting, setting_key, setting_of,
    Setting,
};
use crate::decode::decoded;
use crate::frame::{cleaned_fragment, end_marker, event_prefix, frame_body};
use crate::logger::{entries_at, entry_epoch, entry_text, in_epoch_order, is_sorted_copy};
use crate::number::{all_digits, decimal, decimal_digits, digit_char, is_digit};
use crate::stream::{
    cancelled, concatenated, emitted, lemma_run_stays_stopped, recorded, run, step,
    DiagnosticModel, OutcomeModel, ParserModel, SourceItem, Status, StreamFailure, StreamState,
    CLOSING_BRACE,
};
use crate::text::{
    all_white_space, is_white_space, lemma_distance_to, lemma_leading_space,
    lemma_trailing_space, trim_end, trim_start, unquoted, utf8_lossy, without_prefix,
};
use vstd::prelude::*;

verus! {

/// Appending one token appends its text.
pub proof fn lemma_concatenated_push(tokens: Seq<Seq<char>>, token: Seq<char>)
    ensures
        concatenated(tokens + seq![token]) == concatenated(tokens) + token,
{
    let all = tokens + seq![token];
    assert(all.drop_last() =~= tokens);
    assert(all.last() == token);
}

/// The text gathered is the tokens handed on, one after the other: at every
/// point of every run, whatever the source holds.
pub proof fn content_is_the_tokens_in_order(source: Seq<SourceItem>)
    ensures
        run(source).parser.content == concatenated(run(source).tokens),
    decreases source.len(),
{
    if source.len() > 0 {
        let before = run(source.drop_last());
        content_is_the_tokens_in_order(source.drop_last());
        if before.parser.status is Running {
            match source.last() {
                Ok(delivery) => {
                    let outcome = step(before.parser, delivery).1;
                    match outcome {
                        OutcomeModel::Decoded { token: Some(text), .. } => {
                            lemma_concatenated_push(before.tokens, text);
                        },
                        _ => {
                            assert(before.tokens + emitted(outcome) =~= before.tokens);
                        },
                    }
                },
                Err(_) => {},
            }
        }
    }
}

/// While the parser runs, every item of the source has been taken.
pub proof fn lemma_running_has_consumed_all(source: Seq<SourceItem>)
    ensures
        run(source).consumed <= source.len(),
        run(source).parser.status is Running ==> run(source).consumed == source.len(),
    decreases source.len(),
{
    if source.len() > 0 {
        lemma_running_has_consumed_all(source.drop_last());
    }
}

/// Whether `delivery` is a frame that holds one whole chunk without a
/// finish reason.
pub open spec fn carries_open_chunk(delivery: Seq<u8>) -> bool {
    &&& cleaned_fragment(delivery).len() > 0
    &&& decoded(cleaned_fragment(delivery)) matches Ok(chunk) && chunk.choices[0].finish_reason
        is None
}

/// Whether `item` is a delivery that holds one whole chunk without a finish
/// reason.
pub open spec fn is_open_chunk(item: SourceItem) -> bool {
    match item {
        Ok(delivery) => carries_open_chunk(delivery),
        Err(_) => false,
    }
}

/// The content that the frame `item` carries, where it holds a whole chunk
/// that has one.
pub open spec fn frame_content(item: SourceItem) -> Option<Seq<char>> {
    match item {
        Ok(delivery) => match decoded(cleaned_fragment(delivery)) {
            Ok(chunk) => chunk.choices[0].delta.content,
            Err(_) => None,
        },
        Err(_) => None,
    }
}

/// The contents that the frames of `source` carry, in the order of the
/// frames.
pub open spec fn frame_contents(source: Seq<SourceItem>) -> Seq<Seq<char>>
    decreases source.len(),
{
    if source.len() == 0 {
        Seq::empty()
    } else {
        frame_contents(source.drop_last()) + match frame_content(source.last()) {
            Some(text) => seq![text],
            None => Seq::empty(),
        }
    }
}

/// Over a source of whole chunks, none with a finish reason, the tokens
/// handed on are the contents of the chunks in the order of arrival, and
/// the text gathered is those contents one after the other. Every frame is
/// read, nothing is left pending and nothing is recorded as a failure.
pub proof fn whole_chunks_give_their_contents(source: Seq<SourceItem>)
    requires
        forall|i: int| 0 <= i < source.len() ==> is_open_chunk(#[trigger] source[i]),
    ensures
        run(source).tokens == frame_contents(source),
        run(source).parser.content == concatenated(frame_contents(source)),
        run(source).parser.status is Running,
        run(source).parser.pending.len() == 0,
        run(source).diagnostics.len() == 0,
        run(source).consumed == source.len(),
    decreases source.len(),
{
    content_is_the_tokens_in_order(source);
    if source.len() > 0 {
        let front = source.drop_last();
        assert forall|i: int| 0 <= i < front.len() implies is_open_chunk(#[trigger] front[i]) by {
            assert(front[i] == source[i]);
        }
        whole_chunks_give_their_contents(front);
        let before = run(front);
        let item = source[source.len() - 1];
        assert(item == source.last());
        let delivery = item->Ok_0;
        let fragment = cleaned_fragment(delivery);
        assert(before.parser.pending + fragment =~= fragment);
        let outcome = step(before.parser, delivery).1;
        assert(recorded(outcome) =~= Seq::<DiagnosticModel>::empty());
        assert(before.diagnostics + recorded(outcome) =~= before.diagnostics);
    }
}

/// A chunk that arrives in two deliveries gives the token that it gives in
/// one.
///
/// This holds where the parser has handled a delivery before and keeps
/// nothing pending, the first part neither decodes by itself nor ends in
/// `}`, and the two fragments together are the fragment of the whole. The
/// first delivery then gives no token, and the second gives what the whole
/// would have given, with the same text gathered and nothing left pending.
pub proof fn split_chunk_gives_the_same_token(
    parser: ParserModel,
    whole: Seq<u8>,
    first: Seq<u8>,
    second: Seq<u8>,
)
    requires
        parser.status is Running,
        parser.state != StreamState::FirstChunk,
        parser.pending.len() == 0,
        cleaned_fragment(whole).len() > 0,
        decoded(cleaned_fragment(whole)) is Ok,
        cleaned_fragment(first) + cleaned_fragment(second) == cleaned_fragment(whole),
        decoded(cleaned_fragment(first)) is Err,
        cleaned_fragment(first).len() > 0 ==> cleaned_fragment(first).last() != CLOSING_BRACE,
    ensures
        emitted(step(parser, first).1).len() == 0,
        recorded(step(parser, first).1).len() == 0,
        step(step(parser, first).0, second).1 == step(parser, whole).1,
        step(step(parser, first).0, second).0.content == step(parser, whole).0.content,
        step(step(parser, first).0, second).0.pending == step(parser, whole).0.pending,
        step(step(parser, first).0, second).0.status == step(parser, whole).0.status,
{
    let one = cleaned_fragment(first);
    let two = cleaned_fragment(second);
    let all = cleaned_fragment(whole);
    assert(parser.pending + all =~= all);
    if one.len() == 0 {
        assert(one + two =~= two);
    } else {
        assert(parser.pending + one =~= one);
        let kept = step(parser, first).0;
        assert(kept.pending =~= one);
        if two.len() == 0 {
            assert(one + two =~= one);
        }
    }
}

/// The end marker, with any white space around it, is filtered: it gives no
/// token and no record, and leaves the parser as it was.
pub proof fn end_marker_is_filtered(
    parser: ParserModel,
    delivery: Seq<u8>,
    lead: Seq<char>,
    trail: Seq<char>,
)
    requires
        all_white_space(lead),
        all_white_space(trail),
        utf8_lossy(delivery) == lead + "data: [DONE]"@ + trail,
    ensures
        cleaned_fragment(delivery).len() == 0,
        step(parser, delivery).0 == parser,
        parser.status is Running ==> step(parser, delivery).1 == OutcomeModel::Filtered,
        emitted(step(parser, delivery).1).len() == 0,
        recorded(step(parser, delivery).1).len() == 0,
{
    reveal_strlit("data: [DONE]");
    reveal_strlit("data: ");
    reveal_strlit("[DONE]");
    let frame = "data: [DONE]"@;
    let text = lead + frame + trail;
    assert(text[lead.len() as int] == frame[0]);
    assert forall|i: int| 0 <= i < lead.len() implies is_white_space(#[trigger] text[i]) by {
        assert(text[i] == lead[i]);
    }
    lemma_leading_space(text, lead.len() as int);
    let trimmed = trim_start(text);
    assert(trimmed =~= frame + trail);
    assert(event_prefix() =~= trimmed.subrange(0, event_prefix().len() as int));
    let stripped = without_prefix(trimmed, event_prefix());
    assert(stripped =~= end_marker() + trail);
    assert forall|i: int| stripped.len() - trail.len() <= i < stripped.len() implies is_white_space(
        #[trigger] stripped[i],
    ) by {
        assert(stripped[i] == trail[i - 6]);
    }
    assert(stripped[stripped.len() - trail.len() - 1] == end_marker()[5]);
    lemma_trailing_space(stripped, trail.len() as int);
    assert(trim_end(stripped) =~= end_marker());
    assert(frame_body(text) == end_marker());
}

/// A parser that has stopped reads nothing more: whatever is delivered, it
/// stays as it is.
pub proof fn stopped_parser_reads_nothing(parser: ParserModel, delivery: Seq<u8>)
    requires
        !(parser.status is Running),
    ensures
        step(parser, delivery) == (parser, OutcomeModel::Ignored),
{
}

/// Whether the parser `parser` decodes from `item` a chunk with a finish
/// reason.
pub open spec fn gives_last_chunk(parser: ParserModel, item: SourceItem) -> bool {
    match item {
        Ok(delivery) => step(parser, delivery).1 matches OutcomeModel::Decoded {
            finished: true,
            ..
        },
        Err(_) => false,
    }
}

/// Once a chunk has carried a finish reason, no further item of the source
/// is taken: the run is the run over the items up to that chunk.
pub proof fn finish_reason_ends_the_run(source: Seq<SourceItem>, n: int)
    requires
        0 <= n < source.len(),
        run(source.take(n)).parser.status is Running,
        gives_last_chunk(run(source.take(n)).parser, source[n]),
    ensures
        run(source) == run(source.take(n + 1)),
        run(source).parser.status is Finished,
        run(source).consumed == n + 1,
{
    let upto = source.take(n + 1);
    assert(upto.drop_last() =~= source.take(n));
    assert(upto.last() == source[n]);
    lemma_running_has_consumed_all(source.take(n));
    lemma_run_stays_stopped(source, n + 1);
}

/// A fragment that does not decode, arriving while a chunk is being
/// stitched and the pending bytes already hold `}`, ends the stream with
/// `StitchInvariantViolation`. The fragment is neither kept nor dropped in
/// silence, the pending bytes and the text stay, and nothing is read after.
pub proof fn complete_buffer_is_fatal(parser: ParserModel, delivery: Seq<u8>, next: Seq<u8>)
    requires
        parser.status is Running,
        parser.state == StreamState::PartialChunk,
        parser.pending.contains(CLOSING_BRACE),
        cleaned_fragment(delivery).len() > 0,
        decoded(parser.pending + cleaned_fragment(delivery)) is Err,
    ensures
        step(parser, delivery).1 == OutcomeModel::Fatal(
            DiagnosticModel::BufferComplete { pending: parser.pending },
        ),
        step(parser, delivery).0 == (ParserModel {
            state: StreamState::SubsequentChunk,
            status: Status::Failed(StreamFailure::StitchInvariantViolation),
            ..parser
        }),
        step(step(parser, delivery).0, next) == (step(parser, delivery).0, OutcomeModel::Ignored),
{
}

/// The pending bytes are cleared when a chunk decodes, grow by the fragment
/// when it is kept, and stay as they are in every other case.
pub proof fn pending_is_cleared_or_grows(parser: ParserModel, delivery: Seq<u8>)
    ensures
        match step(parser, delivery).1 {
            OutcomeModel::Decoded { .. } => step(parser, delivery).0.pending == Seq::<u8>::empty(),
            OutcomeModel::Buffered => step(parser, delivery).0.pending == parser.pending
                + cleaned_fragment(delivery),
            _ => step(parser, delivery).0.pending == parser.pending,
        },
{
}

/// Stitching is sticky. A fragment that is kept leaves the parser
/// stitching; every other fragment that does not decode, and a chunk
/// without a finish reason, leave it in the state that follows a handled
/// delivery; a delivery without a fragment, a chunk with a finish reason
/// and a delivery that is not read leave the state as it is.
pub proof fn stitching_is_sticky(parser: ParserModel, delivery: Seq<u8>)
    ensures
        match step(parser, delivery).1 {
            OutcomeModel::Buffered => step(parser, delivery).0.state == StreamState::PartialChunk,
            OutcomeModel::Dropped(_) => step(parser, delivery).0.state
                == StreamState::SubsequentChunk,
            OutcomeModel::Fatal(_) => step(parser, delivery).0.state
                == StreamState::SubsequentChunk,
            OutcomeModel::Decoded { finished: false, .. } => step(parser, delivery).0.state
                == StreamState::SubsequentChunk,
            _ => step(parser, delivery).0.state == parser.state,
        },
        step(parser, delivery).1 is Buffered ==> parser.state != StreamState::FirstChunk,
{
}

/// Stopping the parser keeps the text gathered so far, and nothing is read
/// after.
pub proof fn cancelled_parser_keeps_the_text(parser: ParserModel, delivery: Seq<u8>)
    requires
        parser.status is Running,
    ensures
        cancelled(parser).content == parser.content,
        cancelled(parser).status is Cancelled,
        step(cancelled(parser), delivery) == (cancelled(parser), OutcomeModel::Ignored),
{
}

/// The failure of the transport keeps the text gathered so far: the run
/// ends with the error, and with the text and tokens of the items before.
pub proof fn transport_failure_keeps_the_text(source: Seq<SourceItem>, message: Seq<char>)
    requires
        run(source).parser.status is Running,
    ensures
        run(source.push(Err(message))).parser.status == Status::Failed(
            StreamFailure::Transport(message),
        ),
        run(source.push(Err(message))).parser.content == run(source).parser.content,
        run(source.push(Err(message))).tokens == run(source).tokens,
{
    let longer = source.push(Err(message));
    assert(longer.drop_last() =~= source);
}

/// The end marker without the event prefix, with any white space around
/// it, is filtered as well.
pub proof fn bare_end_marker_is_filtered(
    parser: ParserModel,
    delivery: Seq<u8>,
    lead: Seq<char>,
    trail: Seq<char>,
)
    requires
        all_white_space(lead),
        all_white_space(trail),
        utf8_lossy(delivery) == lead + "[DONE]"@ + trail,
    ensures
        cleaned_fragment(delivery).len() == 0,
        step(parser, delivery).0 == parser,
        parser.status is Running ==> step(parser, delivery).1 == OutcomeModel::Filtered,
{
    reveal_strlit("data: ");
    reveal_strlit("[DONE]");
    let text = lead + end_marker() + trail;
    assert(text[lead.len() as int] == end_marker()[0]);
    assert forall|i: int| 0 <= i < lead.len() implies is_white_space(#[trigger] text[i]) by {
        assert(text[i] == lead[i]);
    }
    lemma_leading_space(text, lead.len() as int);
    let trimmed = trim_start(text);
    assert(trimmed =~= end_marker() + trail);
    assert(trimmed[0] != event_prefix()[0]);
    assert(!event_prefix().is_prefix_of(trimmed));
    assert forall|i: int| trimmed.len() - trail.len() <= i < trimmed.len() implies is_white_space(
        #[trigger] trimmed[i],
    ) by {
        assert(trimmed[i] == trail[i - 6]);
    }
    assert(trimmed[trimmed.len() - trail.len() - 1] == end_marker()[5]);
    lemma_trailing_space(trimmed, trail.len() as int);
    assert(trim_end(trimmed) =~= end_marker());
    assert(frame_body(text) == end_marker());
}

/// The digits of a number write that number.
pub proof fn lemma_digits_write_the_number(n: nat)
    ensures
        decimal_digits(n).len() > 0,
        all_digits(decimal_digits(n)),
        decimal(decimal_digits(n)) == n,
    decreases n,
{
    let digits = decimal_digits(n);
    if n < 10 {
        assert(digits.drop_last() =~= Seq::<char>::empty());
        assert(digits.last() == digit_char(n));
        assert(decimal(digits.drop_last()) == 0);
    } else {
        lemma_digits_write_the_number(n / 10);
        assert(digits.drop_last() =~= decimal_digits(n / 10));
        assert(digits.last() == digit_char(n % 10));
        assert forall|i: int| 0 <= i < digits.len() implies is_digit(#[trigger] digits[i]) by {
            if i < digits.len() - 1 {
                assert(digits[i] == decimal_digits(n / 10)[i]);
            }
        }
    }
}

/// The epoch of an entry is the moment it was written for, where that
/// moment is below 2^64.
pub proof fn entry_keeps_its_epoch(now: nat, content: Seq<char>)
    requires
        now <= u64::MAX,
    ensures
        entry_epoch(entry_text(now, content)) == now,
{
    lemma_digits_write_the_number(now);
    let digits = decimal_digits(now);
    let entry = entry_text(now, content);
    assert forall|i: int| 0 <= i < digits.len() implies #[trigger] entry[i] != '|' by {
        assert(entry[i] == digits[i]);
        assert(is_digit(digits[i]));
    }
    assert(entry[digits.len() as int] == '|');
    lemma_distance_to(entry, '|', digits.len() as int);
    assert(entry.take(digits.len() as int) =~= digits);
    assert(is_digit(digits[0]));
}

/// What is saved as the configuration is read back as the name of the
/// model, where the name holds neither `=` nor a line feed; quotes in it
/// are lost.
pub proof fn saved_model_name_is_read_back(name: Seq<char>)
    requires
        !name.contains('='),
        !name.contains('\n'),
    ensures
        model_name(saved_setting(name)) == Some(unquoted(name)),
{
    reveal_strlit("MISTRAL_MODEL=\"");
    reveal_strlit("MISTRAL_MODEL");
    reveal_strlit("\"");
    let head = "MISTRAL_MODEL=\""@;
    let quote = "\""@;
    let text = saved_setting(name);
    assert(text =~= head + name + quote);
    assert forall|i: int| 0 <= i < text.len() implies #[trigger] text[i] != '\n' by {
        if i < 15 {
            assert(text[i] == head[i]);
        } else if i < 15 + name.len() {
            assert(text[i] == name[i - 15]);
            assert(name.contains(name[i - 15]));
        } else {
            assert(text[i] == quote[0]);
        }
    }
    lemma_distance_to(text, '\n', text.len() as int);
    assert(first_line(text) =~= text);
    assert(after_first_line(text) =~= Seq::<char>::empty());
    assert(setting_key() =~= text.subrange(0, 13));
    assert forall|i: int| 0 <= i < 13 implies #[trigger] text[i] != '=' by {
        assert(text[i] == head[i]);
    }
    assert(text[13] == head[13]);
    lemma_distance_to(text, '=', 13);
    let rest = text.skip(14);
    assert(rest =~= quote + name + quote);
    assert forall|i: int| 0 <= i < rest.len() implies #[trigger] rest[i] != '=' by {
        if 1 <= i < 1 + name.len() {
            assert(rest[i] == name[i - 1]);
            assert(name.contains(name[i - 1]));
        }
    }
    lemma_distance_to(rest, '=', rest.len() as int);
    assert(rest.take(rest.len() as int) =~= rest);
    assert(setting_of(text) == Setting::Value(rest));
    assert(configured(after_first_line(text)) == Setting::Silent);
    let keep = |c: char| c != '"';
    Seq::filter_distributes_over_add(quote + name, quote, keep);
    Seq::filter_distributes_over_add(quote, name, keep);
    assert forall|i: int| 0 <= i < quote.len() implies !keep(#[trigger] quote[i]) by {}
    quote.lemma_all_neg_filter_empty(keep);
    assert(quote.filter(keep) + name.filter(keep) + quote.filter(keep) =~= name.filter(keep));
}

/// Two sequences in the order of their epochs that hold the same entries
/// at every epoch, in the same order, are one sequence.
proof fn lemma_same_order(a: Seq<Seq<char>>, b: Seq<Seq<char>>)
    requires
        a.len() == b.len(),
        in_epoch_order(a),
        in_epoch_order(b),
        forall|epoch: u64| #[trigger] entries_at(a, epoch) == entries_at(b, epoch),
    ensures
        a =~= b,
    decreases a.len(),
{
    if a.len() > 0 {
        let x = a.last();
        let y = b.last();
        let e = entry_epoch(x);
        let f = entry_epoch(y);
        let front_a = a.drop_last();
        let front_b = b.drop_last();
        reveal(Seq::filter);
        assert(entries_at(a, e) == entries_at(front_a, e).push(x));
        assert(entries_at(b, f) == entries_at(front_b, f).push(y));
        if f != e {
            let at_f = |line: Seq<char>| entry_epoch(line) == f;
            let at_e = |line: Seq<char>| entry_epoch(line) == e;
            assert(entries_at(a, f) == entries_at(b, f));
            assert(entries_at(a, f).last() == y);
            assert(entries_at(a, f).contains(y));
            a.lemma_filter_contains_rev(at_f, y);
            let i = choose|i: int| 0 <= i < a.len() && a[i] == y;
            assert(entries_at(b, e) == entries_at(a, e));
            assert(entries_at(b, e).last() == x);
            assert(entries_at(b, e).contains(x));
            b.lemma_filter_contains_rev(at_e, x);
            let j = choose|j: int| 0 <= j < b.len() && b[j] == x;
            assert(i < a.len() - 1);
            assert(j < b.len() - 1);
            assert(entry_epoch(a[i]) <= entry_epoch(a[a.len() - 1]));
            assert(entry_epoch(b[j]) <= entry_epoch(b[b.len() - 1]));
            assert(false);
        }
        assert(entries_at(a, e).last() == x);
        assert(entries_at(b, e).last() == y);
        assert(x == y);
        assert forall|epoch: u64| #[trigger]
            entries_at(front_a, epoch) == entries_at(front_b, epoch) by {
            assert(entries_at(a, epoch) == entries_at(b, epoch));
            if epoch == e {
                assert(entries_at(front_a, e) =~= entries_at(a, e).drop_last());
                assert(entries_at(front_b, e) =~= entries_at(b, e).drop_last());
            }
        }
        assert forall|i: int, j: int| 0 <= i < j < front_a.len() implies entry_epoch(
            #[trigger] front_a[i],
        ) <= entry_epoch(#[trigger] front_a[j]) by {
            assert(front_a[i] == a[i] && front_a[j] == a[j]);
        }
        assert forall|i: int, j: int| 0 <= i < j < front_b.len() implies entry_epoch(
            #[trigger] front_b[i],
        ) <= entry_epoch(#[trigger] front_b[j]) by {
            assert(front_b[i] == b[i] && front_b[j] == b[j]);
        }
        lemma_same_order(front_a, front_b);
        assert(a =~= front_a.push(x));
        assert(b =~= front_b.push(y));
    }
}

/// The entries have one sorted copy only: the order of the epochs, with
/// the order of logging among entries of one epoch, fixes every position.
pub proof fn sorted_copy_is_unique(
    one: Seq<Seq<char>>,
    other: Seq<Seq<char>>,
    lines: Seq<Seq<char>>,
)
    requires
        is_sorted_copy(one, lines),
        is_sorted_copy(other, lines),
    ensures
        one == other,
{
    assert forall|epoch: u64| #[trigger] entries_at(one, epoch) == entries_at(other, epoch) by {
        assert(entries_at(one, epoch) == entries_at(lines, epoch));
        assert(entries_at(other, epoch) == entries_at(lines, epoch));
    }
    lemma_same_order(one, other);
}

} // verus!
