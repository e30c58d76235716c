//! Text as sequences of characters: white space, trimming and prefixes.

use vstd::prelude::*;
use vstd::string::*;
use vstd::utf8::{decode_utf8, valid_utf8};

verus! {

/// The text that `String::from_utf8_lossy` makes of `bytes`.
pub uninterp spec fn utf8_lossy(bytes: Seq<u8>) -> Seq<char>;

/// `String::from_utf8_lossy`: reads `bytes` as UTF-8 and puts U+FFFD in the
/// place of what is not. The text is a function of the bytes alone, named
/// `utf8_lossy`; of bytes that are valid UTF-8 it is the text they encode.
#[verifier::external_body]
pub(crate) fn lossy_text(bytes: &[u8]) -> (r: String)
    ensures
        r@ == utf8_lossy(bytes@),
        valid_utf8(bytes@) ==> r@ == decode_utf8(bytes@),
{
    String::from_utf8_lossy(bytes).into_owned()
}

/// The text that `str::escape_debug` makes of `text`.
pub uninterp spec fn debug_escaped(text: Seq<char>) -> Seq<char>;

/// `str::escape_debug`: writes `text` with the escapes of a Rust string
/// literal. The result is a function of the text alone, named
/// `debug_escaped`.
#[verifier::external_body]
pub(crate) fn escape_debug(text: &str) -> (r: String)
    ensures
        r@ == debug_escaped(text@),
{
    text.escape_debug().to_string()
}

/// Whether `c` has the Unicode property `White_Space`.
pub open spec fn is_white_space(c: char) -> bool {
    let n = c as u32;
    (0x09 <= n <= 0x0d) || n == 0x20 || n == 0x85 || n == 0xa0 || n == 0x1680 || (0x2000 <= n
        <= 0x200a) || n == 0x2028 || n == 0x2029 || n == 0x202f || n == 0x205f || n == 0x3000
}

/// Whether every character of `s` is white space.
pub open spec fn all_white_space(s: Seq<char>) -> bool {
    forall|i: int| 0 <= i < s.len() ==> is_white_space(#[trigger] s[i])
}

/// The number of white space characters that `s` begins with.
pub open spec fn leading_space(s: Seq<char>) -> nat
    decreases s.len(),
{
    if s.len() > 0 && is_white_space(s[0]) {
        1 + leading_space(s.skip(1))
    } else {
        0
    }
}

/// The number of white space characters that `s` ends with.
pub open spec fn trailing_space(s: Seq<char>) -> nat
    decreases s.len(),
{
    if s.len() > 0 && is_white_space(s.last()) {
        1 + trailing_space(s.drop_last())
    } else {
        0
    }
}

/// `s` without the white space that it begins with.
pub open spec fn trim_start(s: Seq<char>) -> Seq<char> {
    s.skip(leading_space(s) as int)
}

/// `s` without the white space that it ends with.
pub open spec fn trim_end(s: Seq<char>) -> Seq<char> {
    s.take(s.len() - trailing_space(s))
}

/// `s` without `prefix` in front, where it begins with it; else `s`.
pub open spec fn without_prefix(s: Seq<char>, prefix: Seq<char>) -> Seq<char> {
    if prefix.is_prefix_of(s) {
        s.skip(prefix.len() as int)
    } else {
        s
    }
}

/// `leading_space(s)` is the first position that holds no white space.
pub proof fn lemma_leading_space(s: Seq<char>, k: int)
    requires
        0 <= k <= s.len(),
        forall|i: int| 0 <= i < k ==> is_white_space(#[trigger] s[i]),
        k < s.len() ==> !is_white_space(s[k]),
    ensures
        leading_space(s) == k,
    decreases k,
{
    if k > 0 {
        let rest = s.skip(1);
        assert forall|i: int| 0 <= i < k - 1 implies is_white_space(#[trigger] rest[i]) by {
            assert(rest[i] == s[i + 1]);
        }
        lemma_leading_space(rest, k - 1);
    }
}

/// `trailing_space(s)` counts back to the last position that holds no white
/// space.
pub proof fn lemma_trailing_space(s: Seq<char>, k: int)
    requires
        0 <= k <= s.len(),
        forall|i: int| s.len() - k <= i < s.len() ==> is_white_space(#[trigger] s[i]),
        k < s.len() ==> !is_white_space(s[s.len() - k - 1]),
    ensures
        trailing_space(s) == k,
    decreases k,
{
    if k > 0 {
        let rest = s.drop_last();
        assert forall|i: int| rest.len() - (k - 1) <= i < rest.len() implies is_white_space(
            #[trigger] rest[i],
        ) by {
            assert(rest[i] == s[i]);
        }
        lemma_trailing_space(rest, k - 1);
    }
}

/// Whether `c` is white space.
pub fn is_whitespace(c: char) -> (r: bool)
    ensures
        r == is_white_space(c),
{
    let n: u32 = c as u32;
    (0x09 <= n && n <= 0x0d) || n == 0x20 || n == 0x85 || n == 0xa0 || n == 0x1680 || (0x2000 <= n
        && n <= 0x200a) || n == 0x2028 || n == 0x2029 || n == 0x202f || n == 0x205f || n == 0x3000
}

/// Whether the characters of `text` from `from` up to `to` begin with
/// `pattern`.
pub fn begins_with(text: &str, from: usize, to: usize, pattern: &str) -> (r: bool)
    requires
        from <= to <= text@.len(),
    ensures
        r == pattern@.is_prefix_of(text@.subrange(from as int, to as int)),
{
    let width = pattern.unicode_len();
    let ghost part = text@.subrange(from as int, to as int);
    if to - from < width {
        return false;
    }
    let mut i: usize = 0;
    while i < width
        invariant
            i <= width,
            width == pattern@.len(),
            from + width <= to <= text@.len(),
            part == text@.subrange(from as int, to as int),
            forall|j: int| 0 <= j < i ==> pattern@[j] == part[j],
        decreases width - i,
    {
        if text.get_char(from + i) != pattern.get_char(i) {
            assert(part[i as int] != pattern@[i as int]);
            assert(!(pattern@ =~= part.subrange(0, pattern@.len() as int)));
            return false;
        }
        i += 1;
    }
    assert(pattern@ =~= part.subrange(0, pattern@.len() as int));
    true
}

/// Whether `text` is `pattern`.
pub fn same_text(text: &str, pattern: &str) -> (r: bool)
    ensures
        r == (text@ == pattern@),
{
    let n = text.unicode_len();
    if n != pattern.unicode_len() {
        return false;
    }
    let r = begins_with(text, 0, n, pattern);
    proof {
        assert(text@.subrange(0, n as int) =~= text@);
        if r {
            assert(pattern@ =~= text@.subrange(0, pattern@.len() as int));
        } else if text@ == pattern@ {
            assert(pattern@ =~= text@.subrange(0, pattern@.len() as int));
        }
    }
    r
}

/// The number of characters of `text` before the first `stop`, or all of
/// them where it holds none.
pub open spec fn distance_to(text: Seq<char>, stop: char) -> nat
    decreases text.len(),
{
    if text.len() == 0 || text[0] == stop {
        0
    } else {
        1 + distance_to(text.skip(1), stop)
    }
}

/// `distance_to(text, stop)` is the first position that holds `stop`.
pub proof fn lemma_distance_to(text: Seq<char>, stop: char, k: int)
    requires
        0 <= k <= text.len(),
        forall|i: int| 0 <= i < k ==> #[trigger] text[i] != stop,
        k < text.len() ==> text[k] == stop,
    ensures
        distance_to(text, stop) == k,
    decreases k,
{
    if k > 0 {
        let rest = text.skip(1);
        assert forall|i: int| 0 <= i < k - 1 implies #[trigger] rest[i] != stop by {
            assert(rest[i] == text[i + 1]);
        }
        lemma_distance_to(rest, stop, k - 1);
    }
}

/// The position of the first `stop` among the characters of `text` from
/// `from` up to `to`, or `to` where there is none.
pub fn find_char(text: &str, from: usize, to: usize, stop: char) -> (r: usize)
    requires
        from <= to <= text@.len(),
    ensures
        from <= r <= to,
        r - from == distance_to(text@.subrange(from as int, to as int), stop),
{
    let ghost part = text@.subrange(from as int, to as int);
    let mut k: usize = from;
    while k < to && text.get_char(k) != stop
        invariant
            from <= k <= to <= text@.len(),
            part == text@.subrange(from as int, to as int),
            forall|i: int| 0 <= i < k - from ==> #[trigger] part[i] != stop,
        decreases to - k,
    {
        k += 1;
    }
    proof {
        lemma_distance_to(part, stop, k - from);
    }
    k
}

/// `text` without the characters `"`.
pub open spec fn unquoted(text: Seq<char>) -> Seq<char> {
    text.filter(|c: char| c != '"')
}

/// Removes every `"` from `text`.
pub fn without_quotes(text: &str) -> (r: String)
    ensures
        r@ == unquoted(text@),
{
    let n = text.unicode_len();
    let mut out = String::new();
    let mut i: usize = 0;
    let ghost keep = |c: char| c != '"';
    assert(text@.take(0) =~= Seq::<char>::empty());
    assert(Seq::<char>::empty().filter(keep) =~= Seq::<char>::empty()) by {
        reveal(Seq::filter);
    }
    while i < n
        invariant
            i <= n,
            n == text@.len(),
            keep == |c: char| c != '"',
            out@ == text@.take(i as int).filter(keep),
        decreases n - i,
    {
        let c = text.get_char(i);
        proof {
            let upto = text@.take(i + 1);
            assert(upto.drop_last() =~= text@.take(i as int));
            assert(upto.last() == c);
            reveal(Seq::filter);
        }
        if c != '"' {
            let one = text.substring_char(i, i + 1);
            assert(one@ =~= seq![c]);
            out.append(one);
            assert(out@ =~= text@.take(i as int).filter(keep).push(c));
        }
        i += 1;
    }
    assert(text@.take(n as int) =~= text@);
    out
}

} // verus!
