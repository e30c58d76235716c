//! The records of the diagnostics sink: error entries of the form
//! `epoch|content`, kept in memory and ordered by epoch, and the lines of
//! the stream log.

use crate::number::{decimal_digits, decimal_text, parse_u64, parsed_u64};
use crate::stream::texts;
use crate::text::{distance_to, find_char};
use std::cmp::Ordering;
use vstd::prelude::*;
use vstd::string::*;
use vstd::utf8::encode_utf8;

verus! {

/// The epoch of an entry: the number before its first `|`, or that the
/// whole entry writes where it holds no `|`; 0 where that is no number
/// below 2^64.
pub open spec fn entry_epoch(line: Seq<char>) -> u64 {
    match parsed_u64(line.take(distance_to(line, '|') as int)) {
        Some(epoch) => epoch,
        None => 0,
    }
}

/// The epoch of an entry.
pub fn epoch_of(line: &str) -> (r: u64)
    ensures
        r == entry_epoch(line@),
{
    let n = line.unicode_len();
    let k = find_char(line, 0, n, '|');
    proof {
        assert(line@.subrange(0, n as int) =~= line@);
        assert(line@.take(k as int) =~= line@.subrange(0, k as int));
    }
    match parse_u64(line, 0, k) {
        Some(epoch) => epoch,
        None => 0,
    }
}

/// Orders two entries by their epochs.
pub fn compare_error_log_line(a: &String, b: &String) -> (r: Ordering)
    ensures
        match r {
            Ordering::Less => entry_epoch(a@) < entry_epoch(b@),
            Ordering::Equal => entry_epoch(a@) == entry_epoch(b@),
            Ordering::Greater => entry_epoch(a@) > entry_epoch(b@),
        },
{
    let epoch_a = epoch_of(a.as_str());
    let epoch_b = epoch_of(b.as_str());
    if epoch_a < epoch_b {
        Ordering::Less
    } else if epoch_a == epoch_b {
        Ordering::Equal
    } else {
        Ordering::Greater
    }
}

/// Whether the epochs of `lines` never fall from one entry to the next.
pub open spec fn in_epoch_order(lines: Seq<Seq<char>>) -> bool {
    forall|i: int, j: int|
        0 <= i < j < lines.len() ==> entry_epoch(#[trigger] lines[i]) <= entry_epoch(
            #[trigger] lines[j],
        )
}

/// The entries of `lines` with the epoch `epoch`, in the order they have
/// there.
pub open spec fn entries_at(lines: Seq<Seq<char>>, epoch: u64) -> Seq<Seq<char>> {
    lines.filter(|line: Seq<char>| entry_epoch(line) == epoch)
}

/// Whether `sorted` holds the entries of `lines` in the order of their
/// epochs, entries of one epoch in the order they have in `lines`.
pub open spec fn is_sorted_copy(sorted: Seq<Seq<char>>, lines: Seq<Seq<char>>) -> bool {
    &&& sorted.len() == lines.len()
    &&& in_epoch_order(sorted)
    &&& forall|epoch: u64| #[trigger] entries_at(sorted, epoch) == entries_at(lines, epoch)
}

/// The entry for the moment `now`, in milliseconds, and the content
/// `content`.
pub open spec fn entry_text(now: nat, content: Seq<char>) -> Seq<char> {
    decimal_digits(now) + seq!['|'] + content
}

/// `lines` with a line feed between one and the next.
pub open spec fn joined_lines(lines: Seq<Seq<char>>) -> Seq<char>
    decreases lines.len(),
{
    if lines.len() == 0 {
        Seq::empty()
    } else if lines.len() == 1 {
        lines[0]
    } else {
        joined_lines(lines.drop_last()) + seq!['\n'] + lines.last()
    }
}

/// The line of the stream log for the bytes `delivery` that came at the
/// moment `now`.
pub open spec fn stream_record(now: nat, delivery: Seq<u8>) -> Seq<u8> {
    encode_utf8(decimal_digits(now) + seq!['|']) + delivery + seq![0x0au8]
}

/// Puts `line` into `sorted` behind every entry whose epoch is not later.
fn insert_in_order(sorted: &mut Vec<String>, line: String, Ghost(lines): Ghost<Seq<Seq<char>>>)
    requires
        is_sorted_copy(texts(old(sorted)@), lines),
    ensures
        is_sorted_copy(texts(final(sorted)@), lines.push(line@)),
{
    let epoch = epoch_of(line.as_str());
    let ghost before = texts(sorted@);
    let mut p: usize = sorted.len();
    while p > 0 && epoch_of(sorted[p - 1].as_str()) > epoch
        invariant
            p <= sorted.len(),
            before == texts(sorted@),
            forall|i: int| p <= i < before.len() ==> entry_epoch(#[trigger] before[i]) > epoch,
        decreases p,
    {
        p -= 1;
    }
    sorted.insert(p, line);
    proof {
        let after = texts(sorted@);
        let front = before.take(p as int);
        let back = before.skip(p as int);
        assert(after =~= before.insert(p as int, line@));
        assert(after =~= front + seq![line@] + back);
        assert(before =~= front + back);
        assert forall|i: int, j: int| 0 <= i < j < after.len() implies entry_epoch(
            #[trigger] after[i],
        ) <= entry_epoch(#[trigger] after[j]) by {
            if i < p && j > p {
                assert(after[i] == before[i]);
                assert(after[j] == before[j - 1]);
            } else if i < p && j == p {
                assert(after[i] == before[i]);
                assert(entry_epoch(before[p - 1]) <= epoch);
                if i < p - 1 {
                    assert(entry_epoch(before[i]) <= entry_epoch(before[p - 1]));
                }
            } else if i < p {
                assert(after[i] == before[i]);
                assert(after[j] == before[j]);
            } else if i == p {
                assert(after[j] == before[j - 1]);
            } else {
                assert(after[i] == before[i - 1]);
                assert(after[j] == before[j - 1]);
            }
        }
        assert forall|e: u64| #[trigger] entries_at(after, e) == entries_at(lines.push(line@), e) by {
            let pred = |l: Seq<char>| entry_epoch(l) == e;
            let one = seq![line@];
            Seq::filter_distributes_over_add(front + one, back, pred);
            Seq::filter_distributes_over_add(front, one, pred);
            Seq::filter_distributes_over_add(front, back, pred);
            Seq::filter_distributes_over_add(lines, one, pred);
            assert(lines.push(line@) =~= lines + one);
            assert(entries_at(before, e) == entries_at(lines, e));
            if e == epoch {
                assert forall|i: int| 0 <= i < back.len() implies !pred(#[trigger] back[i]) by {
                    assert(back[i] == before[p + i]);
                }
                back.lemma_all_neg_filter_empty(pred);
                assert(front.filter(pred) + one.filter(pred) + back.filter(pred) =~= front.filter(
                    pred,
                ) + back.filter(pred) + one.filter(pred));
            } else {
                assert forall|i: int| 0 <= i < one.len() implies !pred(#[trigger] one[i]) by {}
                one.lemma_all_neg_filter_empty(pred);
                assert(front.filter(pred) + one.filter(pred) + back.filter(pred) =~= front.filter(
                    pred,
                ) + back.filter(pred) + one.filter(pred));
            }
        }
    }
}

/// The error entries of one session.
#[derive(Debug, Clone)]
pub struct Logger {
    errors: Vec<String>,
}

impl View for Logger {
    type V = Seq<Seq<char>>;

    closed spec fn view(&self) -> Seq<Seq<char>> {
        texts(self.errors@)
    }
}

impl Logger {
    /// A logger without entries.
    pub fn new() -> (r: Self)
        ensures
            r@ == Seq::<Seq<char>>::empty(),
    {
        let r = Logger { errors: Vec::new() };
        assert(r@ =~= Seq::<Seq<char>>::empty());
        r
    }

    /// The line to append to the stream log for one raw delivery.
    pub fn write_stream_log(now: u128, bytes: &[u8]) -> (r: Vec<u8>)
        ensures
            r@ == stream_record(now as nat, bytes@),
    {
        let mut head = decimal_text(now);
        proof {
            reveal_strlit("|");
            assert("|"@ =~= seq!['|']);
        }
        head.append("|");
        let mut record = head.as_str().as_bytes_vec();
        let ghost start = record@;
        let mut i: usize = 0;
        while i < bytes.len()
            invariant
                i <= bytes.len(),
                record@ == start + bytes@.take(i as int),
            decreases bytes.len() - i,
        {
            record.push(bytes[i]);
            assert(start + bytes@.take(i + 1) =~= (start + bytes@.take(i as int)).push(
                bytes@[i as int],
            ));
            i += 1;
        }
        assert(bytes@.take(bytes@.len() as int) =~= bytes@);
        record.push(0x0a);
        record
    }

    /// The entries in the order of their epochs; entries of one epoch keep
    /// the order in which they were logged.
    pub fn get_sorted_errors(&self) -> (r: Vec<String>)
        ensures
            is_sorted_copy(texts(r@), self@),
    {
        let mut sorted: Vec<String> = Vec::new();
        let mut i: usize = 0;
        proof {
            assert(self@.take(0) =~= Seq::<Seq<char>>::empty());
            assert(texts(sorted@) =~= Seq::<Seq<char>>::empty());
        }
        while i < self.errors.len()
            invariant
                i <= self.errors.len(),
                is_sorted_copy(texts(sorted@), self@.take(i as int)),
            decreases self.errors.len() - i,
        {
            let line = self.errors[i].clone();
            insert_in_order(&mut sorted, line, Ghost(self@.take(i as int)));
            assert(self@.take(i + 1) =~= self@.take(i as int).push(self.errors@[i as int]@));
            i += 1;
        }
        assert(self@.take(self.errors.len() as int) =~= self@);
        sorted
    }

    /// Adds the entry for `error` at the moment `now`, and gives the text of
    /// the error log: all entries in the order of their epochs, one to a
    /// line.
    pub fn log_error(&mut self, now: u128, error: &str) -> (r: String)
        ensures
            final(self)@ == old(self)@.push(entry_text(now as nat, error@)),
            exists|sorted: Seq<Seq<char>>|
                is_sorted_copy(sorted, final(self)@) && r@ == joined_lines(sorted),
    {
        let mut entry = decimal_text(now);
        proof {
            reveal_strlit("|");
            assert("|"@ =~= seq!['|']);
        }
        entry.append("|");
        entry.append(error);
        let ghost before = self@;
        self.errors.push(entry);
        assert(self@ =~= before.push(entry_text(now as nat, error@)));
        let sorted = self.get_sorted_errors();
        join_lines(&sorted)
    }

    /// The entries in the order in which they were logged.
    pub fn get_errors(&self) -> (r: Vec<String>)
        ensures
            texts(r@) == self@,
    {
        let mut copy: Vec<String> = Vec::new();
        let mut i: usize = 0;
        while i < self.errors.len()
            invariant
                i <= self.errors.len(),
                texts(copy@) =~= self@.take(i as int),
            decreases self.errors.len() - i,
        {
            let ghost before = texts(copy@);
            let line = self.errors[i].clone();
            copy.push(line);
            proof {
                assert(texts(copy@) =~= before.push(line@));
                assert(self@.take(i + 1) =~= self@.take(i as int).push(self.errors@[i as int]@));
            }
            i += 1;
        }
        assert(self@.take(self.errors.len() as int) =~= self@);
        copy
    }

    /// Forgets all entries.
    pub fn clear_errors(&mut self)
        ensures
            final(self)@ == Seq::<Seq<char>>::empty(),
    {
        self.errors.clear();
        assert(self@ =~= Seq::<Seq<char>>::empty());
    }
}

/// The strings of `lines` with a line feed between one and the next.
pub fn join_lines(lines: &Vec<String>) -> (r: String)
    ensures
        r@ == joined_lines(texts(lines@)),
{
    let mut text = String::new();
    let mut i: usize = 0;
    let ghost all = texts(lines@);
    assert(all.take(0) =~= Seq::<Seq<char>>::empty());
    while i < lines.len()
        invariant
            i <= lines.len(),
            all == texts(lines@),
            text@ == joined_lines(all.take(i as int)),
        decreases lines.len() - i,
    {
        proof {
            let upto = all.take(i + 1);
            assert(upto.drop_last() =~= all.take(i as int));
            assert(upto.last() == lines@[i as int]@);
            reveal_strlit("\n");
            assert("\n"@ =~= seq!['\n']);
            if i == 0 {
                assert(upto[0] == lines@[0]@);
                assert(Seq::<char>::empty() + lines@[0]@ =~= lines@[0]@);
            }
        }
        if i > 0 {
            text.append("\n");
        }
        text.append(lines[i].as_str());
        i += 1;
    }
    assert(all.take(lines.len() as int) =~= all);
    text
}

} // verus!
