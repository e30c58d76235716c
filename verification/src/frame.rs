//! The frame cleaner: from one raw delivery to the fragment it carries.

use crate::text::{
    begins_with, is_white_space, is_whitespace, lemma_leading_space, lemma_trailing_space,
    lossy_text, same_text, trim_end, trim_start, utf8_lossy, without_prefix,
};
use vstd::prelude::*;
use vstd::string::*;
use vstd::utf8::{decode_utf8, encode_utf8, valid_utf8};

verus! {

/// The prefix of an event line.
pub open spec fn event_prefix() -> Seq<char> {
    "data: "@
}

/// The payload that marks the end of the stream.
pub open spec fn end_marker() -> Seq<char> {
    "[DONE]"@
}

/// The payload of a delivery read as `text`: leading white space goes, then
/// the event prefix where there is one, then trailing white space.
pub open spec fn frame_body(text: Seq<char>) -> Seq<char> {
    trim_end(without_prefix(trim_start(text), event_prefix()))
}

/// The fragment that a delivery read as `text` carries: the bytes of its
/// payload, and nothing where the payload is blank or the end marker.
pub open spec fn fragment_of(text: Seq<char>) -> Seq<u8> {
    let body = frame_body(text);
    if body == end_marker() {
        Seq::empty()
    } else {
        encode_utf8(body)
    }
}

/// The fragment that a raw delivery carries. The bytes are read as text,
/// with U+FFFD for what is not UTF-8.
pub open spec fn cleaned_fragment(delivery: Seq<u8>) -> Seq<u8> {
    fragment_of(utf8_lossy(delivery))
}

/// The payload of `text`, as a slice of it.
fn payload<'a>(text: &'a str) -> (r: &'a str)
    ensures
        r@ == frame_body(text@),
{
    let n = text.unicode_len();
    let mut start: usize = 0;
    while start < n && is_whitespace(text.get_char(start))
        invariant
            start <= n,
            n == text@.len(),
            forall|i: int| 0 <= i < start ==> is_white_space(#[trigger] text@[i]),
        decreases n - start,
    {
        start += 1;
    }
    proof {
        lemma_leading_space(text@, start as int);
    }
    let ghost trimmed = trim_start(text@);
    assert(trimmed =~= text@.subrange(start as int, n as int));
    if begins_with(text, start, n, "data: ") {
        let width = "data: ".unicode_len();
        start += width;
    }
    let ghost stripped = without_prefix(trimmed, event_prefix());
    assert(stripped =~= text@.subrange(start as int, n as int));
    let mut end: usize = n;
    while end > start && is_whitespace(text.get_char(end - 1))
        invariant
            start <= end <= n,
            n == text@.len(),
            forall|i: int| end <= i < n ==> is_white_space(#[trigger] text@[i]),
        decreases end,
    {
        end -= 1;
    }
    proof {
        assert forall|i: int| stripped.len() - (n - end) <= i < stripped.len() implies is_white_space(
            #[trigger] stripped[i],
        ) by {
            assert(stripped[i] == text@[start + i]);
        }
        lemma_trailing_space(stripped, n - end);
        assert(trim_end(stripped) =~= text@.subrange(start as int, end as int));
    }
    text.substring_char(start, end)
}

/// Strips the event framing from a delivery that was read as `text`. The
/// result is empty where nothing is left to process: the payload is blank,
/// or it is the end marker.
pub fn clean_text(text: &str) -> (r: Vec<u8>)
    ensures
        r@ == fragment_of(text@),
{
    let body = payload(text);
    if same_text(body, "[DONE]") {
        Vec::new()
    } else {
        body.as_bytes_vec()
    }
}

/// Strips the event framing from one raw delivery.
///
/// The bytes are read as text, with U+FFFD for what is not UTF-8. The result
/// is empty where nothing is left to process: the payload is blank, or it is
/// the end marker.
pub fn clean_byte_chunk(buffer: &[u8]) -> (r: Vec<u8>)
    ensures
        r@ == cleaned_fragment(buffer@),
        valid_utf8(buffer@) ==> r@ == fragment_of(decode_utf8(buffer@)),
{
    let text = lossy_text(buffer);
    clean_text(text.as_str())
}

} // verus!
