//! The configuration file: lines of text, one of which names the model.

use crate::text::{
    begins_with, distance_to, find_char, unquoted, without_quotes,
};
use vstd::prelude::*;
use vstd::string::*;

verus! {

/// The key of the line that names the model.
pub open spec fn setting_key() -> Seq<char> {
    "MISTRAL_MODEL"@
}

/// The first line of `text`, without its line ending: a line feed, or a
/// carriage return and a line feed.
pub open spec fn first_line(text: Seq<char>) -> Seq<char> {
    let k = distance_to(text, '\n') as int;
    if k < text.len() && k > 0 && text[k - 1] == '\r' {
        text.take(k - 1)
    } else {
        text.take(k)
    }
}

/// What follows the first line of `text`.
pub open spec fn after_first_line(text: Seq<char>) -> Seq<char> {
    let k = distance_to(text, '\n') as int;
    if k < text.len() {
        text.skip(k + 1)
    } else {
        Seq::empty()
    }
}

/// What a line, or a whole text, says of the model.
pub enum Setting {
    /// Nothing.
    Silent,
    /// It begins with the key and holds no `=`.
    Broken,
    /// It gives this value.
    Value(Seq<char>),
}

/// What one line says of the model. A line that begins with the key gives
/// what stands between its first `=` and its second, or its end.
pub open spec fn setting_of(line: Seq<char>) -> Setting {
    let k = distance_to(line, '=') as int;
    if !setting_key().is_prefix_of(line) {
        Setting::Silent
    } else if k == line.len() {
        Setting::Broken
    } else {
        Setting::Value(line.skip(k + 1).take(distance_to(line.skip(k + 1), '=') as int))
    }
}

/// What the lines of `text` say of the model: the value of the first line
/// that begins with the key, unless one such line is broken.
pub open spec fn configured(text: Seq<char>) -> Setting
    decreases text.len(),
{
    if text.len() == 0 {
        Setting::Silent
    } else {
        match setting_of(first_line(text)) {
            Setting::Silent => configured(after_first_line(text)),
            Setting::Broken => Setting::Broken,
            Setting::Value(value) => if configured(after_first_line(text)) is Broken {
                Setting::Broken
            } else {
                Setting::Value(value)
            },
        }
    }
}

/// The name of the model that `contents` configures: the value of the
/// setting, without quotes.
pub open spec fn model_name(contents: Seq<char>) -> Option<Seq<char>> {
    match configured(contents) {
        Setting::Value(value) => Some(unquoted(value)),
        _ => None,
    }
}

/// What the lines seen so far and the lines to come say together.
pub open spec fn merged(seen: Option<Seq<char>>, coming: Setting) -> Setting {
    match seen {
        None => coming,
        Some(value) => if coming is Broken {
            Setting::Broken
        } else {
            Setting::Value(value)
        },
    }
}

/// The characters of `text` from `from` up to `to`, where the pair is there.
pub open spec fn span_text(text: Seq<char>, span: Option<(usize, usize)>) -> Option<Seq<char>> {
    match span {
        Some((from, to)) => Some(text.subrange(from as int, to as int)),
        None => None,
    }
}

/// Reads the name of the model from the contents of the configuration
/// file. `None` where no line begins with the key, or where a line that
/// does holds no `=`.
pub fn get_model_name(contents: &str) -> (r: Option<String>)
    ensures
        crate::models::text_view(r) == model_name(contents@),
{
    let n = contents.unicode_len();
    let mut pos: usize = 0;
    let mut found: Option<(usize, usize)> = None;
    assert(contents@.skip(0) =~= contents@);
    while pos < n
        invariant
            pos <= n,
            n == contents@.len(),
            found matches Some((from, to)) ==> from <= to <= n,
            configured(contents@) == merged(
                span_text(contents@, found),
                configured(contents@.skip(pos as int)),
            ),
        decreases n - pos,
    {
        let ghost rest = contents@.skip(pos as int);
        let end = find_char(contents, pos, n, '\n');
        assert(rest =~= contents@.subrange(pos as int, n as int));
        let mut line_end = end;
        if end < n && end > pos && contents.get_char(end - 1) == '\r' {
            line_end = end - 1;
        }
        let next = if end < n {
            end + 1
        } else {
            n
        };
        let ghost line = contents@.subrange(pos as int, line_end as int);
        proof {
            if end > pos {
                assert(rest[end - pos - 1] == contents@[end - 1]);
            }
            assert(first_line(rest) =~= line);
            assert(after_first_line(rest) =~= contents@.skip(next as int));
        }
        if begins_with(contents, pos, line_end, "MISTRAL_MODEL") {
            let eq = find_char(contents, pos, line_end, '=');
            if eq == line_end {
                return None;
            }
            let stop = find_char(contents, eq + 1, line_end, '=');
            proof {
                let value = line.skip(eq - pos + 1);
                assert(value =~= contents@.subrange(eq + 1, line_end as int));
                assert(value.take(stop - eq - 1) =~= contents@.subrange(eq + 1, stop as int));
            }
            if found.is_none() {
                found = Some((eq + 1, stop));
            }
        }
        pos = next;
    }
    match found {
        Some((from, to)) => Some(without_quotes(contents.substring_char(from, to))),
        None => None,
    }
}

/// The contents of the configuration file that names `model_name`.
pub open spec fn saved_setting(model_name: Seq<char>) -> Seq<char> {
    "MISTRAL_MODEL=\""@ + model_name + "\""@
}

/// Writes the contents of the configuration file for the model
/// `model_name`.
pub fn save_model_name(model_name: &str) -> (r: String)
    ensures
        r@ == saved_setting(model_name@),
{
    let mut text = String::from_str("MISTRAL_MODEL=\"");
    text.append(model_name);
    text.append("\"");
    text
}

} // verus!
